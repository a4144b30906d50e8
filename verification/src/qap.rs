//! Linear combinations and the quadratic arithmetic program built from them.

use vstd::prelude::*;
use vstd::arithmetic::div_mod::{
    lemma_add_mod_noop, lemma_add_mod_noop_right, lemma_mod_bound, lemma_mod_equivalence,
    lemma_mul_mod_noop_left, lemma_small_mod,
};
use vstd::arithmetic::mul::lemma_mul_is_distributive_add_other_way;
use vstd::set::fold::{lemma_fold_empty, lemma_fold_insert};
use vstd::std_specs::iter::IteratorSpec;
use std::collections::HashMap;
use num_bigint::BigInt;
use crate::error::Error;
use crate::field::{field_add, field_mul, field_sub, values_of, FieldElement, Modulus};
use crate::terms::{
    distinct_indices, index_sum, lemma_index_sum_distinct, lemma_index_sum_unmentioned, mentions,
    terms_eval, terms_sum,
};

verus! {

broadcast use vstd::std_specs::hash::group_hash_axioms;

/// The coefficient of `index` in `p`: zero where `p` has no entry.
pub open spec fn coeff_at(p: Map<usize, int>, index: usize) -> int {
    if p.contains_key(index) {
        p[index]
    } else {
        0
    }
}

/// `p` after `coefficient` has been accumulated at `index`.
pub open spec fn with_term(p: Map<usize, int>, index: usize, coefficient: int, m: int) -> Map<
    usize,
    int,
> {
    p.insert(index, field_add(coeff_at(p, index), coefficient, m))
}

/// Whether an assignment of `len` entries has one for every index of `p`.
pub open spec fn covers(p: Map<usize, int>, len: nat) -> bool {
    forall|k: usize| p.contains_key(k) ==> k < len
}

/// The step of the weighted sum: adds the term of index `k`.
pub open spec fn add_weighted(p: Map<usize, int>, a: Seq<int>) -> spec_fn(int, usize) -> int {
    |acc: int, k: usize| acc + p[k] * a[k as int]
}

/// The sum of `p[k] * a[k]` over the indices `k` of `p`, as an integer.
pub open spec fn weighted_sum(p: Map<usize, int>, a: Seq<int>) -> int {
    p.dom().fold(0int, add_weighted(p, a))
}

/// The value of the linear combination `p` at the assignment `a`, in the
/// field of modulus `m`.
pub open spec fn lc_eval(p: Map<usize, int>, a: Seq<int>, m: int) -> int {
    weighted_sum(p, a) % m
}

/// The index and the integer coefficient of each term of a list.
pub open spec fn term_values(terms: Seq<(usize, FieldElement)>) -> Seq<(usize, int)> {
    terms.map_values(|t: (usize, FieldElement)| (t.0, t.1@))
}

/// `p` after the terms of a list have been accumulated, first to last.
pub open spec fn accumulate(p: Map<usize, int>, terms: Seq<(usize, int)>, m: int) -> Map<
    usize,
    int,
>
    decreases terms.len(),
{
    if terms.len() == 0 {
        p
    } else {
        with_term(accumulate(p, terms.drop_last(), m), terms.last().0, terms.last().1, m)
    }
}

/// Whether every coefficient of `p` is a canonical representative for the
/// modulus `m`.
pub open spec fn is_reduced(p: Map<usize, int>, m: int) -> bool {
    forall|k: usize| p.contains_key(k) ==> 0 <= #[trigger] p[k] < m
}

/// Whether a list of terms lists `p`: every index of `p` once, with its
/// coefficient, and nothing else.
pub open spec fn is_listing(p: Map<usize, int>, terms: Seq<(usize, int)>) -> bool {
    &&& distinct_indices(terms)
    &&& forall|j: int|
        0 <= j < terms.len() ==> p.contains_key((#[trigger] terms[j]).0) && p[terms[j].0]
            == terms[j].1
    &&& forall|k: usize| p.contains_key(k) ==> mentions(terms, k)
}

/// The residual of the quadratic program at an assignment, from the values
/// of its three combinations: left times right minus output.
pub open spec fn qap_residual(left: int, right: int, output: int, m: int) -> int {
    field_sub(field_mul(left, right, m), output, m)
}

/// A variable by its position and its raw value.
pub struct Variable {
    pub index: usize,
    pub value: BigInt,
}

/// A linear combination: at most one coefficient for each variable index.
pub struct Polynomial {
    coefficients: HashMap<usize, FieldElement>,
}

impl View for Polynomial {
    type V = Map<usize, int>;

    closed spec fn view(&self) -> Map<usize, int> {
        self.coefficients@.map_values(|f: FieldElement| f@)
    }
}

impl Polynomial {
    /// The combination without terms.
    pub fn new() -> (p: Polynomial)
        ensures
            p@ == Map::<usize, int>::empty(),
    {
        let p = Polynomial { coefficients: HashMap::new() };
        assert(p@ =~= Map::<usize, int>::empty());
        p
    }

    /// The number of indices that have a coefficient.
    pub fn len(&self) -> (n: usize)
        ensures
            n == self@.dom().len(),
            self@.dom().finite(),
    {
        assert(self@.dom() =~= self.coefficients@.dom());
        self.coefficients.len()
    }

    /// The coefficient stored at `index`, if there is one.
    pub fn get(&self, index: usize) -> (r: Option<&FieldElement>)
        ensures
            match r {
                Some(c) => self@.contains_key(index) && c@ == self@[index],
                None => !self@.contains_key(index),
            },
    {
        self.coefficients.get(&index)
    }

    /// Accumulates `coefficient` at `index`: the entry starts from zero if
    /// there was none, and the sum is reduced by `modulus`.
    pub fn add_term(&mut self, index: usize, coefficient: FieldElement, modulus: &Modulus)
        ensures
            final(self)@ == with_term(old(self)@, index, coefficient@, modulus@),
    {
        let sum = match self.coefficients.get(&index) {
            Some(current) => current.add(&coefficient, modulus),
            None => FieldElement::zero().add(&coefficient, modulus),
        };
        self.coefficients.insert(index, sum);
        assert(self@ =~= with_term(old(self)@, index, coefficient@, modulus@));
    }

    /// Accumulates every term of a list, first to last.
    pub fn add_terms(&mut self, terms: &[(usize, FieldElement)], modulus: &Modulus)
        ensures
            final(self)@ == accumulate(old(self)@, term_values(terms@), modulus@),
    {
        let ghost all = term_values(terms@);
        let mut i: usize = 0;
        while i < terms.len()
            invariant
                i <= terms.len(),
                all == term_values(terms@),
                self@ == accumulate(old(self)@, all.take(i as int), modulus@),
            decreases terms.len() - i,
        {
            let coefficient = terms[i].1.clone();
            self.add_term(terms[i].0, coefficient, modulus);
            proof {
                let next = all.take(i + 1);
                assert(next.drop_last() =~= all.take(i as int));
                assert(next.last() == (terms@[i as int].0, terms@[i as int].1@));
            }
            i += 1;
        }
        assert(all.take(terms.len() as int) =~= all);
    }

    /// The terms of the combination, each index once, in no particular
    /// order.
    pub fn entries(&self) -> (v: Vec<(usize, FieldElement)>)
        ensures
            v@.len() == self@.dom().len(),
            is_listing(self@, term_values(v@)),
    {
        let ghost entries = self.coefficients.iter().remaining();
        let mut v: Vec<(usize, FieldElement)> = Vec::new();
        for entry in it: self.coefficients.iter()
            invariant
                it.seq() == entries,
                entries.no_duplicates(),
                v@.len() == it.index(),
                forall|j: int|
                    0 <= j < v@.len() ==> (#[trigger] v@[j]).0 == *entries[j].0 && v@[j].1@
                        == (*entries[j].1)@,
        {
            let (index, coefficient) = entry;
            assert(entry == entries[it.index()]);
            v.push((*index, coefficient.clone()));
        }
        proof {
            assert(self@.dom() =~= self.coefficients@.dom());
            let listed = term_values(v@);
            assert forall|i: int, j: int| 0 <= i < j < listed.len() implies listed[i].0
                != listed[j].0 by {
                if v@[i].0 == v@[j].0 {
                    assert(self.coefficients@[*entries[i].0] == *entries[i].1);
                    assert(self.coefficients@[*entries[j].0] == *entries[j].1);
                    assert(entries[i] == entries[j]);
                }
            }
            assert forall|j: int| 0 <= j < listed.len() implies self@.contains_key(
                (#[trigger] listed[j]).0,
            ) && self@[listed[j].0] == listed[j].1 by {
                assert(self.coefficients@.contains_key(*entries[j].0));
                assert(self.coefficients@[*entries[j].0] == *entries[j].1);
            }
            assert forall|k: usize| self@.contains_key(k) implies mentions(
                term_values(v@),
                k,
            ) by {
                assert(self.coefficients@.contains_key(k));
                assert(entries.contains((&k, &self.coefficients@[k])));
                let j = choose|j: int|
                    0 <= j < entries.len() && entries[j] == (&k, &self.coefficients@[k]);
                assert(term_values(v@)[j].0 == k);
            }
        }
        v
    }

    /// Evaluates the combination at `assignment`: the field sum of
    /// coefficient times assigned value over the indices present. An index
    /// without an entry in `assignment` is an error.
    pub fn evaluate(&self, assignment: &Vec<FieldElement>, modulus: &Modulus) -> (r: Result<
        FieldElement,
        Error,
    >)
        ensures
            match r {
                Ok(v) => covers(self@, assignment@.len()) && v@ == lc_eval(
                    self@,
                    values_of(assignment@),
                    modulus@,
                ) && v.is_canonical(modulus@),
                Err(e) => !covers(self@, assignment@.len()) && e == Error::InvalidIndex,
            },
    {
        proof {
            use_type_invariant(modulus);
        }
        let ghost p = self@;
        let ghost a = values_of(assignment@);
        let ghost m = modulus@;
        let ghost mut seen: Set<usize> = Set::empty();
        let ghost entries = self.coefficients.iter().remaining();
        let mut result = FieldElement::new(crate::bigint::big_zero(), modulus);
        proof {
            lemma_fold_empty(0int, add_weighted(p, a));
            lemma_small_mod(0, m as nat);
        }
        for entry in it: self.coefficients.iter()
            invariant
                m == modulus@,
                m > 0,
                p == self@,
                a == values_of(assignment@),
                it.seq() == entries,
                entries.no_duplicates(),
                seen.finite(),
                forall|k: usize| seen.contains(k) <==> exists|j: int|
                    0 <= j < it.index() && *(#[trigger] entries[j]).0 == k,
                forall|k: usize| seen.contains(k) ==> k < assignment@.len(),
                result@ == seen.fold(0int, add_weighted(p, a)) % m,
                result.is_canonical(m),
        {
            let (index, coefficient) = entry;
            let ghost k = *index;
            assert(entry == entries[it.index()]);
            assert(self.coefficients@.contains_key(k) && self.coefficients@[k] == *coefficient);
            assert(p.contains_key(k) && p[k] == coefficient@);
            if *index >= assignment.len() {
                return Err(Error::InvalidIndex);
            }
            let term = coefficient.mul(&assignment[*index], modulus);
            let next = result.add(&term, modulus);
            proof {
                assert(!seen.contains(k)) by {
                    if seen.contains(k) {
                        let j = choose|j: int|
                            0 <= j < it.index() && *(#[trigger] entries[j]).0 == k;
                        let e = entries[j];
                        assert(self.coefficients@[*e.0] == *e.1);
                        assert(e == entry);
                    }
                }
                lemma_fold_insert(seen, 0int, add_weighted(p, a), k);
                let s = seen.fold(0int, add_weighted(p, a));
                let t = p[k] * a[k as int];
                assert(a[k as int] == assignment@[k as int]@);
                assert(term@ == t % m);
                assert(next@ == (s % m + t % m) % m);
                lemma_add_mod_noop(s, t, m);
                assert(seen.insert(k).fold(0int, add_weighted(p, a)) == s + t);
                seen = seen.insert(k);
            }
            result = next;
        }
        proof {
            assert(seen =~= p.dom()) by {
                assert forall|k: usize| p.dom().contains(k) implies seen.contains(k) by {
                    assert(self.coefficients@.contains_key(k));
                    assert(entries.contains((&k, &self.coefficients@[k])));
                    let j = choose|j: int|
                        0 <= j < entries.len() && entries[j] == (&k, &self.coefficients@[k]);
                    assert(*(entries[j]).0 == k);
                }
            }
        }
        Ok(result)
    }
}

/// The quadratic arithmetic program of a constraint system: the left, right
/// and output combinations into which every constraint is accumulated.
pub struct QAP {
    pub left: Polynomial,
    pub right: Polynomial,
    pub output: Polynomial,
}

impl QAP {
    /// The program of a system without constraints.
    pub fn new() -> (q: QAP)
        ensures
            q.left@ == Map::<usize, int>::empty(),
            q.right@ == Map::<usize, int>::empty(),
            q.output@ == Map::<usize, int>::empty(),
    {
        QAP { left: Polynomial::new(), right: Polynomial::new(), output: Polynomial::new() }
    }

    /// Accumulates the three term lists of a constraint into the three
    /// combinations.
    pub fn add_constraint(
        &mut self,
        left_coeffs: &[(usize, FieldElement)],
        right_coeffs: &[(usize, FieldElement)],
        output_coeffs: &[(usize, FieldElement)],
        modulus: &Modulus,
    )
        ensures
            final(self).left@ == accumulate(old(self).left@, term_values(left_coeffs@), modulus@),
            final(self).right@ == accumulate(
                old(self).right@,
                term_values(right_coeffs@),
                modulus@,
            ),
            final(self).output@ == accumulate(
                old(self).output@,
                term_values(output_coeffs@),
                modulus@,
            ),
    {
        self.left.add_terms(left_coeffs, modulus);
        self.right.add_terms(right_coeffs, modulus);
        self.output.add_terms(output_coeffs, modulus);
    }

    /// Whether an assignment of `len` entries has one for every index of
    /// the three combinations.
    pub open spec fn covered_by(&self, len: nat) -> bool {
        covers(self.left@, len) && covers(self.right@, len) && covers(self.output@, len)
    }

    /// The residual of the program at the assignment `a`.
    pub open spec fn residual(&self, a: Seq<int>, m: int) -> int {
        qap_residual(lc_eval(self.left@, a, m), lc_eval(self.right@, a, m), lc_eval(
            self.output@,
            a,
            m,
        ), m)
    }

    /// Evaluates the program at `assignment`: left times right minus output
    /// in the field, which is zero exactly when the assignment meets the
    /// multiplicative constraint. An index without an entry in `assignment`
    /// is an error.
    pub fn evaluate(&self, assignment: &Vec<FieldElement>, modulus: &Modulus) -> (r: Result<
        FieldElement,
        Error,
    >)
        ensures
            match r {
                Ok(v) => self.covered_by(assignment@.len()) && v@ == self.residual(
                    values_of(assignment@),
                    modulus@,
                ) && v.is_canonical(modulus@),
                Err(e) => !self.covered_by(assignment@.len()) && e == Error::InvalidIndex,
            },
    {
        let left_eval = match self.left.evaluate(assignment, modulus) {
            Ok(v) => v,
            Err(e) => { return Err(e); },
        };
        let right_eval = match self.right.evaluate(assignment, modulus) {
            Ok(v) => v,
            Err(e) => { return Err(e); },
        };
        let output_eval = match self.output.evaluate(assignment, modulus) {
            Ok(v) => v,
            Err(e) => { return Err(e); },
        };
        Ok(left_eval.mul(&right_eval, modulus).sub(&output_eval, modulus))
    }
}

/// What accumulation leaves at an index. An index has a coefficient
/// afterwards exactly if it had one before or a term mentions it. If no term
/// mentions it, its coefficient is untouched; otherwise it is the old
/// coefficient, zero if there was none, plus the weights of all its terms,
/// reduced.
pub proof fn law_accumulated_coefficient(
    p: Map<usize, int>,
    terms: Seq<(usize, int)>,
    m: int,
    k: usize,
)
    requires
        m > 0,
    ensures
        accumulate(p, terms, m).contains_key(k) <==> p.contains_key(k) || mentions(terms, k),
        !mentions(terms, k) ==> coeff_at(accumulate(p, terms, m), k) == coeff_at(p, k),
        mentions(terms, k) ==> accumulate(p, terms, m)[k] == (coeff_at(p, k) + index_sum(
            terms,
            k,
        )) % m,
    decreases terms.len(),
{
    if terms.len() > 0 {
        let rest = terms.drop_last();
        let t = terms.last();
        let q = accumulate(p, rest, m);
        law_accumulated_coefficient(p, rest, m, k);
        if mentions(rest, k) {
            let j = choose|j: int| 0 <= j < rest.len() && (#[trigger] rest[j]).0 == k;
            assert(terms[j].0 == k);
        }
        if t.0 == k {
            assert(terms[terms.len() - 1].0 == k);
            if mentions(rest, k) {
                lemma_add_mod_noop_right(t.1, coeff_at(p, k) + index_sum(rest, k), m);
            } else {
                lemma_index_sum_unmentioned(rest, k);
            }
        } else {
            if mentions(terms, k) {
                let j = choose|j: int| 0 <= j < terms.len() && (#[trigger] terms[j]).0 == k;
                assert(rest[j].0 == k);
            }
        }
    }
}

/// The residual of the quadratic program is zero exactly when the product
/// of the left and right values is the output value in the field.
pub proof fn law_residual_zero_iff_product(left: int, right: int, output: int, m: int)
    requires
        m > 0,
    ensures
        qap_residual(left, right, output, m) == 0 <==> field_mul(left, right, m) == output % m,
{
    let product = field_mul(left, right, m);
    lemma_mod_equivalence(product, output, m);
    lemma_mod_bound(left * right, m);
    lemma_small_mod(product as nat, m as nat);
}

/// Accumulation leaves canonical representatives where it found them.
pub proof fn law_accumulate_is_reduced(p: Map<usize, int>, terms: Seq<(usize, int)>, m: int)
    requires
        m > 0,
        is_reduced(p, m),
    ensures
        is_reduced(accumulate(p, terms, m), m),
    decreases terms.len(),
{
    if terms.len() > 0 {
        let q = accumulate(p, terms.drop_last(), m);
        law_accumulate_is_reduced(p, terms.drop_last(), m);
        lemma_mod_bound(coeff_at(q, terms.last().0) + terms.last().1, m);
    }
}

/// A combination comes back from its listing: accumulating the terms that
/// list a combination of canonical coefficients into the empty combination
/// gives the combination again.
pub proof fn law_listing_restores(p: Map<usize, int>, terms: Seq<(usize, int)>, m: int)
    requires
        m > 0,
        is_listing(p, terms),
        is_reduced(p, m),
    ensures
        accumulate(Map::empty(), terms, m) == p,
{
    let restored = accumulate(Map::empty(), terms, m);
    assert forall|k: usize| restored.contains_key(k) == p.contains_key(k) by {
        law_accumulated_coefficient(Map::empty(), terms, m, k);
        if mentions(terms, k) {
            let j = choose|j: int| 0 <= j < terms.len() && (#[trigger] terms[j]).0 == k;
            assert(p.contains_key(terms[j].0));
        }
    }
    assert forall|k: usize| p.contains_key(k) implies restored[k] == p[k] by {
        law_accumulated_coefficient(Map::empty(), terms, m, k);
        let j = choose|j: int| 0 <= j < terms.len() && (#[trigger] terms[j]).0 == k;
        lemma_index_sum_distinct(terms, j);
        assert(p[terms[j].0] == terms[j].1);
        lemma_small_mod(p[k] as nat, m as nat);
    }
    assert(restored =~= p);
}

/// Two combinations that agree on a set of indices have the same weighted
/// sum over it.
proof fn lemma_weighted_sum_agrees(
    p: Map<usize, int>,
    q: Map<usize, int>,
    s: Set<usize>,
    a: Seq<int>,
)
    requires
        s.finite(),
        forall|k: usize| s.contains(k) ==> p[k] == q[k],
    ensures
        s.fold(0int, add_weighted(p, a)) == s.fold(0int, add_weighted(q, a)),
    decreases s.len(),
{
    if s.len() == 0 {
        assert(s =~= Set::empty());
        lemma_fold_empty(0int, add_weighted(p, a));
        lemma_fold_empty(0int, add_weighted(q, a));
    } else {
        let x = s.choose();
        let rest = s.remove(x);
        lemma_weighted_sum_agrees(p, q, rest, a);
        lemma_fold_insert(rest, 0int, add_weighted(p, a), x);
        lemma_fold_insert(rest, 0int, add_weighted(q, a), x);
        assert(rest.insert(x) =~= s);
    }
}

/// Accumulating one term moves the value of a combination by the value of
/// the term.
proof fn lemma_weighted_sum_with_term(q: Map<usize, int>, k: usize, c: int, a: Seq<int>, m: int)
    requires
        m > 0,
        q.dom().finite(),
    ensures
        with_term(q, k, c, m).dom().finite(),
        weighted_sum(with_term(q, k, c, m), a) % m == (weighted_sum(q, a) + c * a[k as int]) % m,
{
    let next = with_term(q, k, c, m);
    let others = q.dom().remove(k);
    let y = a[k as int];
    let x = coeff_at(q, k) + c;
    lemma_weighted_sum_agrees(next, q, others, a);
    lemma_fold_insert(others, 0int, add_weighted(next, a), k);
    assert(others.insert(k) =~= next.dom());
    let base = others.fold(0int, add_weighted(q, a));
    assert(weighted_sum(next, a) == base + (x % m) * y);
    if q.contains_key(k) {
        lemma_fold_insert(others, 0int, add_weighted(q, a), k);
        assert(others.insert(k) =~= q.dom());
    } else {
        assert(others =~= q.dom());
    }
    assert(weighted_sum(q, a) == base + coeff_at(q, k) * y);
    lemma_mul_is_distributive_add_other_way(y, coeff_at(q, k), c);
    assert(weighted_sum(q, a) + c * y == base + x * y);
    lemma_add_mod_noop_right(base, (x % m) * y, m);
    lemma_mul_mod_noop_left(x, y, m);
    lemma_add_mod_noop_right(base, x * y, m);
}

/// Accumulating a list of terms moves the value of a combination by the
/// value of the list: evaluating afterwards gives the field sum of what the
/// combination and the list come to at the assignment.
pub proof fn law_eval_after_accumulate(
    p: Map<usize, int>,
    terms: Seq<(usize, int)>,
    a: Seq<int>,
    m: int,
)
    requires
        m > 0,
        p.dom().finite(),
    ensures
        accumulate(p, terms, m).dom().finite(),
        lc_eval(accumulate(p, terms, m), a, m) == (weighted_sum(p, a) + terms_sum(terms, a)) % m,
    decreases terms.len(),
{
    if terms.len() > 0 {
        let rest = terms.drop_last();
        let t = terms.last();
        let q = accumulate(p, rest, m);
        law_eval_after_accumulate(p, rest, a, m);
        lemma_weighted_sum_with_term(q, t.0, t.1, a, m);
        let step = t.1 * a[t.0 as int];
        lemma_add_mod_noop(weighted_sum(q, a), step, m);
        lemma_add_mod_noop(weighted_sum(p, a) + terms_sum(rest, a), step, m);
    }
}

/// A combination built from nothing but a list of terms has the value of
/// the list.
pub proof fn law_eval_of_accumulated_terms(terms: Seq<(usize, int)>, a: Seq<int>, m: int)
    requires
        m > 0,
    ensures
        lc_eval(accumulate(Map::empty(), terms, m), a, m) == terms_eval(terms, a, m),
{
    law_eval_after_accumulate(Map::empty(), terms, a, m);
    lemma_fold_empty(0int, add_weighted(Map::<usize, int>::empty(), a));
    assert(Map::<usize, int>::empty().dom() =~= Set::<usize>::empty());
}

} // verus!
