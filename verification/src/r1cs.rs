//! The rank-1 constraint system: variables, constraint records, and the
//! quadratic arithmetic program that constraints are accumulated into.

use vstd::prelude::*;
use vstd::arithmetic::div_mod::{lemma_add_mod_noop, lemma_mod_equivalence, lemma_small_mod};
use vstd::arithmetic::mul::lemma_mul_is_commutative;
use num_bigint::BigInt;
use crate::bigint::{big_clone, big_value};
use crate::error::Error;
use crate::field::{values_of, FieldElement, Modulus};
use crate::artifact::Proof;
use crate::qap::{accumulate, term_values, QAP};
use crate::terms::{index_sum, lemma_terms_sum_update, terms_eval, terms_in_range, terms_sum};

verus! {

/// A wire of the system: its position and the value it carries. Positions
/// are given out in order of creation and never change.
pub struct Variable {
    pub index: usize,
    pub value: FieldElement,
}

impl Clone for Variable {
    fn clone(&self) -> (v: Self)
        ensures
            v.index == self.index,
            v.value@ == self.value@,
    {
        Variable { index: self.index, value: self.value.clone() }
    }
}

/// The operation that a constraint came from. It is kept for the record;
/// checking treats every constraint alike.
#[derive(Clone, Copy, Debug, PartialEq, Eq, Structural)]
pub enum Operation {
    Add,
    Mul,
    Hash,
}

/// One constraint: three weighted sums of variables.
pub struct Constraint {
    pub left: Vec<(Variable, BigInt)>,
    pub right: Vec<(Variable, BigInt)>,
    pub output: Vec<(Variable, BigInt)>,
    pub operation: Operation,
}

/// The variable index and the integer weight of each term of a side.
pub open spec fn side_terms(side: Seq<(Variable, BigInt)>) -> Seq<(usize, int)> {
    side.map_values(|t: (Variable, BigInt)| (t.0.index, big_value(t.1)))
}

impl Constraint {
    /// Whether a witness of `len` entries has one for every variable that
    /// the constraint refers to.
    pub open spec fn in_range(&self, len: nat) -> bool {
        &&& terms_in_range(side_terms(self.left@), len)
        &&& terms_in_range(side_terms(self.right@), len)
        &&& terms_in_range(side_terms(self.output@), len)
    }

    /// Whether the three sides have the same value at the witness `w`.
    pub open spec fn holds(&self, w: Seq<int>, m: int) -> bool {
        &&& terms_eval(side_terms(self.left@), w, m) == terms_eval(side_terms(self.right@), w, m)
        &&& terms_eval(side_terms(self.right@), w, m) == terms_eval(
            side_terms(self.output@),
            w,
            m,
        )
    }

    /// Whether the witness `w` can be checked against the constraint and
    /// satisfies it.
    pub open spec fn accepts(&self, w: Seq<int>, m: int) -> bool {
        self.in_range(w.len()) && self.holds(w, m)
    }
}

/// Whether every constraint accepts the witness `w`.
pub open spec fn all_accept(constraints: Seq<Constraint>, w: Seq<int>, m: int) -> bool {
    forall|i: int| 0 <= i < constraints.len() ==> (#[trigger] constraints[i]).accepts(w, m)
}

/// Whether the constraint at `k` is the first that does not accept `w`.
pub open spec fn first_rejecting(constraints: Seq<Constraint>, w: Seq<int>, m: int, k: int) -> bool {
    &&& 0 <= k < constraints.len()
    &&& !constraints[k].accepts(w, m)
    &&& forall|i: int| 0 <= i < k ==> (#[trigger] constraints[i]).accepts(w, m)
}

/// Whether `r` is what checking the witness `w` against the constraints, in
/// order, comes to: `Ok(true)` if every constraint accepts it; otherwise the
/// first that does not decides, with an error if the witness has no entry
/// for one of its variables and `Ok(false)` if its sides differ.
pub open spec fn is_verdict(
    constraints: Seq<Constraint>,
    w: Seq<int>,
    m: int,
    r: Result<bool, Error>,
) -> bool {
    match r {
        Ok(true) => all_accept(constraints, w, m),
        Ok(false) => exists|k: int|
            first_rejecting(constraints, w, m, k) && constraints[k].in_range(w.len()),
        Err(e) => e == Error::InvalidIndex && exists|k: int|
            first_rejecting(constraints, w, m, k) && !constraints[k].in_range(w.len()),
    }
}

/// Whether `side` is what looking up `terms` among `variables` gives: for
/// each term a copy of the variable at its position, with the weight.
pub open spec fn resolves(
    side: Seq<(Variable, BigInt)>,
    variables: Seq<Variable>,
    terms: Seq<(usize, BigInt)>,
) -> bool {
    &&& side.len() == terms.len()
    &&& forall|j: int|
        0 <= j < side.len() ==> {
            let variable = variables[terms[j].0 as int];
            &&& (#[trigger] side[j]).0.index == variable.index
            &&& side[j].0.value@ == variable.value@
            &&& big_value(side[j].1) == big_value(terms[j].1)
        }
}

/// The position and the integer weight of each term.
pub open spec fn position_terms(terms: Seq<(usize, BigInt)>) -> Seq<(usize, int)> {
    terms.map_values(|t: (usize, BigInt)| (t.0, big_value(t.1)))
}

/// Whether every term refers to a position among `len` variables.
pub open spec fn positions_in_range(terms: Seq<(usize, BigInt)>, len: nat) -> bool {
    forall|j: int| 0 <= j < terms.len() ==> (#[trigger] terms[j]).0 < len
}

/// The values that a list of variables carries, in order.
pub open spec fn variable_values(variables: Seq<Variable>) -> Seq<int> {
    variables.map_values(|v: Variable| v.value@)
}

/// Evaluates one side of a constraint at `witness`: the field sum of weight
/// times witness entry. A term whose variable has no entry is an error.
pub fn evaluate_terms(
    terms: &Vec<(Variable, BigInt)>,
    witness: &[FieldElement],
    modulus: &Modulus,
) -> (r: Result<FieldElement, Error>)
    ensures
        match r {
            Ok(v) => terms_in_range(side_terms(terms@), witness@.len()) && v@ == terms_eval(
                side_terms(terms@),
                values_of(witness@),
                modulus@,
            ) && v.is_canonical(modulus@),
            Err(e) => !terms_in_range(side_terms(terms@), witness@.len()) && e
                == Error::InvalidIndex,
        },
{
    let ghost all = side_terms(terms@);
    let ghost w = values_of(witness@);
    let ghost m = modulus@;
    let mut eval = FieldElement::new(crate::bigint::big_zero(), modulus);
    let mut i: usize = 0;
    while i < terms.len()
        invariant
            i <= terms.len(),
            all == side_terms(terms@),
            w == values_of(witness@),
            m == modulus@,
            terms_in_range(all.take(i as int), witness@.len()),
            eval@ == terms_eval(all.take(i as int), w, m),
            eval.is_canonical(m),
        decreases terms.len() - i,
    {
        let index = terms[i].0.index;
        if index >= witness.len() {
            assert(all[i as int].0 == index);
            return Err(Error::InvalidIndex);
        }
        let term = witness[index].scale(&terms[i].1, modulus);
        let next = eval.add(&term, modulus);
        proof {
            let before = all.take(i as int);
            let after = all.take(i + 1);
            assert(after.drop_last() =~= before);
            assert(after.last() == all[i as int]);
            let s = terms_sum(before, w);
            let t = all[i as int].1 * w[index as int];
            assert(w[index as int] == witness@[index as int]@);
            assert(term@ == (witness@[index as int]@ * all[i as int].1) % m);
            lemma_mul_is_commutative(witness@[index as int]@, all[i as int].1);
            assert(next@ == (s % m + t % m) % m);
            lemma_add_mod_noop(s, t, m);
            assert(terms_sum(after, w) == s + t);
        }
        eval = next;
        i += 1;
    }
    assert(all.take(terms.len() as int) =~= all);
    Ok(eval)
}

/// A rank-1 constraint system. It only grows: variables and constraints are
/// appended, never removed.
pub struct R1CS {
    pub variables: Vec<Variable>,
    pub constraints: Vec<Constraint>,
    pub qap: QAP,
}

impl R1CS {
    /// Whether every variable carries the index of its own position.
    pub open spec fn well_formed(&self) -> bool {
        forall|i: int|
            0 <= i < self.variables@.len() ==> (#[trigger] self.variables@[i]).index == i
    }

    /// The system without variables or constraints.
    pub fn new() -> (r: R1CS)
        ensures
            r.well_formed(),
            r.variables@.len() == 0,
            r.constraints@.len() == 0,
            r.qap.left@ == Map::<usize, int>::empty(),
            r.qap.right@ == Map::<usize, int>::empty(),
            r.qap.output@ == Map::<usize, int>::empty(),
    {
        R1CS { variables: Vec::new(), constraints: Vec::new(), qap: QAP::new() }
    }

    /// Accumulates the three term lists of a constraint into the quadratic
    /// arithmetic program. The indices are those of variables that the
    /// caller has added; no constraint record is appended.
    pub fn add_constraint(
        &mut self,
        left_coeffs: &[(usize, FieldElement)],
        right_coeffs: &[(usize, FieldElement)],
        output_coeffs: &[(usize, FieldElement)],
        modulus: &Modulus,
    )
        ensures
            final(self).variables == old(self).variables,
            final(self).constraints == old(self).constraints,
            old(self).well_formed() ==> final(self).well_formed(),
            final(self).qap.left@ == accumulate(
                old(self).qap.left@,
                term_values(left_coeffs@),
                modulus@,
            ),
            final(self).qap.right@ == accumulate(
                old(self).qap.right@,
                term_values(right_coeffs@),
                modulus@,
            ),
            final(self).qap.output@ == accumulate(
                old(self).qap.output@,
                term_values(output_coeffs@),
                modulus@,
            ),
    {
        self.qap.add_constraint(left_coeffs, right_coeffs, output_coeffs, modulus);
    }

    /// The witness of the system: the value of every variable, in index
    /// order. Nothing is solved for.
    pub fn generate_witness(&self) -> (w: Vec<FieldElement>)
        ensures
            w@.len() == self.variables@.len(),
            values_of(w@) == variable_values(self.variables@),
    {
        let mut w: Vec<FieldElement> = Vec::new();
        let mut i: usize = 0;
        while i < self.variables.len()
            invariant
                i <= self.variables.len(),
                w@.len() == i,
                forall|j: int| 0 <= j < i ==> (#[trigger] w@[j])@ == self.variables@[j].value@,
            decreases self.variables.len() - i,
        {
            w.push(self.variables[i].value.clone());
            i += 1;
        }
        assert(values_of(w@) =~= variable_values(self.variables@));
        w
    }

    /// The proof artifact for `witness`.
    pub fn generate_proof(&self, witness: &Vec<FieldElement>) -> (p: Proof)
        ensures
            p.values() == values_of(witness@),
    {
        Proof::generate_proof(self, witness)
    }

    /// The residual of the quadratic arithmetic program at the system's own
    /// witness: left times right minus output. A program that refers to an
    /// index without a variable is an error.
    pub fn evaluate_qap(&self, modulus: &Modulus) -> (r: Result<BigInt, Error>)
        ensures
            match r {
                Ok(v) => self.qap.covered_by(self.variables@.len()) && big_value(v)
                    == self.qap.residual(variable_values(self.variables@), modulus@),
                Err(e) => !self.qap.covered_by(self.variables@.len()) && e == Error::InvalidIndex,
            },
    {
        let witness = self.generate_witness();
        match self.qap.evaluate(&witness, modulus) {
            Ok(result) => Ok(result.get_value()),
            Err(e) => Err(e),
        }
    }

    /// Appends a variable that carries `value` and returns its index.
    pub fn add_variable(&mut self, value: FieldElement) -> (index: usize)
        ensures
            index == old(self).variables@.len(),
            final(self).variables@ == old(self).variables@.push(Variable { index, value }),
            final(self).constraints == old(self).constraints,
            final(self).qap == old(self).qap,
            old(self).well_formed() ==> final(self).well_formed(),
    {
        let index = self.variables.len();
        self.variables.push(Variable { index, value });
        index
    }

    /// Looks up the variable of every term of a side. A position without a
    /// variable is an error.
    pub fn resolve_terms(&self, terms: &[(usize, BigInt)]) -> (r: Result<
        Vec<(Variable, BigInt)>,
        Error,
    >)
        ensures
            match r {
                Ok(side) => positions_in_range(terms@, self.variables@.len()) && resolves(
                    side@,
                    self.variables@,
                    terms@,
                ),
                Err(e) => !positions_in_range(terms@, self.variables@.len()) && e
                    == Error::InvalidIndex,
            },
    {
        let mut side: Vec<(Variable, BigInt)> = Vec::new();
        let mut i: usize = 0;
        while i < terms.len()
            invariant
                i <= terms.len(),
                side@.len() == i,
                positions_in_range(terms@.take(i as int), self.variables@.len()),
                resolves(side@, self.variables@, terms@.take(i as int)),
            decreases terms.len() - i,
        {
            let position = terms[i].0;
            if position >= self.variables.len() {
                return Err(Error::InvalidIndex);
            }
            let ghost before = side@;
            side.push((self.variables[position].clone(), big_clone(&terms[i].1)));
            proof {
                let taken = terms@.take(i + 1);
                assert(taken[i as int] == terms@[i as int]);
                assert forall|j: int| 0 <= j < side@.len() implies {
                    let variable = self.variables@[taken[j].0 as int];
                    &&& (#[trigger] side@[j]).0.index == variable.index
                    &&& side@[j].0.value@ == variable.value@
                    &&& big_value(side@[j].1) == big_value(taken[j].1)
                } by {
                    if j < i {
                        assert(side@[j] == before[j]);
                        assert(taken[j] == terms@.take(i as int)[j]);
                    }
                }
            }
            i += 1;
        }
        assert(terms@.take(terms.len() as int) =~= terms@);
        Ok(side)
    }

    /// Appends the record of a constraint whose three sides refer to
    /// variables by position. Nothing is appended if a position has no
    /// variable; the quadratic arithmetic program is left as it is.
    pub fn record_constraint(
        &mut self,
        left: &[(usize, BigInt)],
        right: &[(usize, BigInt)],
        output: &[(usize, BigInt)],
        operation: Operation,
    ) -> (r: Result<(), Error>)
        ensures
            final(self).variables == old(self).variables,
            final(self).qap == old(self).qap,
            match r {
                Ok(_) => {
                    let n = old(self).variables@.len();
                    let record = final(self).constraints@.last();
                    &&& positions_in_range(left@, n)
                    &&& positions_in_range(right@, n)
                    &&& positions_in_range(output@, n)
                    &&& final(self).constraints@.len() == old(self).constraints@.len() + 1
                    &&& final(self).constraints@.drop_last() == old(self).constraints@
                    &&& resolves(record.left@, old(self).variables@, left@)
                    &&& resolves(record.right@, old(self).variables@, right@)
                    &&& resolves(record.output@, old(self).variables@, output@)
                    &&& record.operation == operation
                },
                Err(e) => {
                    let n = old(self).variables@.len();
                    &&& e == Error::InvalidIndex
                    &&& !(positions_in_range(left@, n) && positions_in_range(right@, n)
                        && positions_in_range(output@, n))
                    &&& final(self).constraints == old(self).constraints
                },
            },
    {
        let left_side = match self.resolve_terms(left) {
            Ok(side) => side,
            Err(e) => { return Err(e); },
        };
        let right_side = match self.resolve_terms(right) {
            Ok(side) => side,
            Err(e) => { return Err(e); },
        };
        let output_side = match self.resolve_terms(output) {
            Ok(side) => side,
            Err(e) => { return Err(e); },
        };
        self.constraints.push(
            Constraint { left: left_side, right: right_side, output: output_side, operation },
        );
        assert(self.constraints@.drop_last() =~= old(self).constraints@);
        Ok(())
    }

    /// Checks `witness` against the constraint records, in order. A
    /// constraint is satisfied when its three sides have the same value.
    /// The first constraint that is not satisfied makes the result
    /// `Ok(false)`; one that refers to a variable without a witness entry
    /// makes it an error; `Ok(true)` means that every constraint holds.
    pub fn verify_witness(&self, witness: &[FieldElement], modulus: &Modulus) -> (r: Result<
        bool,
        Error,
    >)
        ensures
            is_verdict(self.constraints@, values_of(witness@), modulus@, r),
    {
        proof {
            use_type_invariant(modulus);
        }
        let ghost w = values_of(witness@);
        let ghost m = modulus@;
        let mut i: usize = 0;
        while i < self.constraints.len()
            invariant
                i <= self.constraints.len(),
                w == values_of(witness@),
                m == modulus@,
                m > 0,
                forall|j: int| 0 <= j < i ==> (#[trigger] self.constraints@[j]).accepts(w, m),
            decreases self.constraints.len() - i,
        {
            let constraint = &self.constraints[i];
            let left_eval = match evaluate_terms(&constraint.left, witness, modulus) {
                Ok(v) => v,
                Err(e) => {
                    assert(first_rejecting(self.constraints@, w, m, i as int));
                    return Err(e);
                },
            };
            let right_eval = match evaluate_terms(&constraint.right, witness, modulus) {
                Ok(v) => v,
                Err(e) => {
                    assert(first_rejecting(self.constraints@, w, m, i as int));
                    return Err(e);
                },
            };
            let output_eval = match evaluate_terms(&constraint.output, witness, modulus) {
                Ok(v) => v,
                Err(e) => {
                    assert(first_rejecting(self.constraints@, w, m, i as int));
                    return Err(e);
                },
            };
            proof {
                lemma_small_mod(left_eval@ as nat, m as nat);
                lemma_small_mod(right_eval@ as nat, m as nat);
                lemma_small_mod(output_eval@ as nat, m as nat);
            }
            if !left_eval.equals(&right_eval, modulus) || !right_eval.equals(
                &output_eval,
                modulus,
            ) {
                assert(first_rejecting(self.constraints@, w, m, i as int));
                return Ok(false);
            }
            i += 1;
        }
        Ok(true)
    }
}

/// Whether changing witness entry `i` by `d` moves two sides of `c` apart:
/// the entry weighs differently on them, and the difference times `d` is
/// not a multiple of the modulus.
pub open spec fn shifts_apart(c: Constraint, i: usize, d: int, m: int) -> bool {
    let left = index_sum(side_terms(c.left@), i);
    let right = index_sum(side_terms(c.right@), i);
    let output = index_sum(side_terms(c.output@), i);
    ((left - right) * d) % m != 0 || ((right - output) * d) % m != 0
}

/// Two sums that agree modulo `m` still agree after they are moved by `x`
/// and `y` exactly when the difference of the moves is a multiple of `m`.
proof fn lemma_shifted_congruence(a: int, b: int, x: int, y: int, m: int)
    requires
        m > 0,
        a % m == b % m,
    ensures
        (a + x) % m == (b + y) % m <==> (x - y) % m == 0,
{
    lemma_mod_equivalence(a, b, m);
    lemma_mod_equivalence(a + x, b + y, m);
    lemma_add_mod_noop(a - b, x - y, m);
    lemma_mod_equivalence(x - y, 0, m);
    vstd::arithmetic::div_mod::lemma_mod_twice(x - y, m);
    lemma_small_mod(0, m as nat);
}

/// Tampering with a satisfied constraint. If the witness `w` satisfies `c`
/// and entry `i` is replaced by `v`, the constraint still holds exactly when
/// the change does not move two of its sides apart.
pub proof fn law_tampered_constraint(c: Constraint, w: Seq<int>, i: usize, v: int, m: int)
    requires
        m > 0,
        i < w.len(),
        c.accepts(w, m),
    ensures
        c.in_range(w.update(i as int, v).len()),
        c.holds(w.update(i as int, v), m) <==> !shifts_apart(c, i, v - w[i as int], m),
{
    let d = v - w[i as int];
    let left = side_terms(c.left@);
    let right = side_terms(c.right@);
    let output = side_terms(c.output@);
    lemma_terms_sum_update(left, w, i, v);
    lemma_terms_sum_update(right, w, i, v);
    lemma_terms_sum_update(output, w, i, v);
    let l = index_sum(left, i);
    let r = index_sum(right, i);
    let o = index_sum(output, i);
    lemma_shifted_congruence(terms_sum(left, w), terms_sum(right, w), l * d, r * d, m);
    lemma_shifted_congruence(terms_sum(right, w), terms_sum(output, w), r * d, o * d, m);
    assert(l * d - r * d == (l - r) * d) by (nonlinear_arith);
    assert(r * d - o * d == (r - o) * d) by (nonlinear_arith);
}

/// Before a constraint that does not accept a witness there is a first one.
pub proof fn lemma_first_rejecting(constraints: Seq<Constraint>, w: Seq<int>, m: int, k: int)
    requires
        0 <= k < constraints.len(),
        !constraints[k].accepts(w, m),
    ensures
        exists|j: int| 0 <= j <= k && first_rejecting(constraints, w, m, j),
    decreases k,
{
    if forall|i: int| 0 <= i < k ==> (#[trigger] constraints[i]).accepts(w, m) {
        assert(first_rejecting(constraints, w, m, k));
    } else {
        let i = choose|i: int| 0 <= i < k && !(#[trigger] constraints[i]).accepts(w, m);
        lemma_first_rejecting(constraints, w, m, i);
    }
}

/// Checking has exactly one outcome: two verdicts on the same constraints
/// and witness are the same.
pub proof fn law_verdict_is_unique(
    constraints: Seq<Constraint>,
    w: Seq<int>,
    m: int,
    r1: Result<bool, Error>,
    r2: Result<bool, Error>,
)
    requires
        is_verdict(constraints, w, m, r1),
        is_verdict(constraints, w, m, r2),
    ensures
        r1 == r2,
{
    if r1 != Ok::<bool, Error>(true) && r2 != Ok::<bool, Error>(true) {
        let k1 = choose|k: int| first_rejecting(constraints, w, m, k) && (r1 is Ok
            <==> constraints[k].in_range(w.len()));
        let k2 = choose|k: int| first_rejecting(constraints, w, m, k) && (r2 is Ok
            <==> constraints[k].in_range(w.len()));
        if k1 < k2 {
            assert(constraints[k1].accepts(w, m));
        }
        if k2 < k1 {
            assert(constraints[k2].accepts(w, m));
        }
    } else if r1 != r2 {
        let r = if r1 == Ok::<bool, Error>(true) { r2 } else { r1 };
        let k = choose|k: int| first_rejecting(constraints, w, m, k) && (r is Ok
            <==> constraints[k].in_range(w.len()));
        assert(constraints[k].accepts(w, m));
    }
}

/// A system without constraint records accepts every witness.
pub proof fn law_no_constraints_accept(w: Seq<int>, m: int)
    ensures
        is_verdict(Seq::<Constraint>::empty(), w, m, Ok(true)),
{
}

/// Tampering with a satisfying witness. If every constraint accepts `w`,
/// and replacing entry `i` by `v` moves two sides of some constraint apart,
/// then checking the changed witness comes to `Ok(false)`.
pub proof fn law_tampered_witness_is_rejected(
    constraints: Seq<Constraint>,
    w: Seq<int>,
    i: usize,
    v: int,
    m: int,
    k: int,
)
    requires
        m > 0,
        i < w.len(),
        all_accept(constraints, w, m),
        0 <= k < constraints.len(),
        shifts_apart(constraints[k], i, v - w[i as int], m),
    ensures
        is_verdict(constraints, w.update(i as int, v), m, Ok(false)),
{
    let changed = w.update(i as int, v);
    assert(constraints[k].accepts(w, m));
    law_tampered_constraint(constraints[k], w, i, v, m);
    lemma_first_rejecting(constraints, changed, m, k);
    let j = choose|j: int| 0 <= j <= k && first_rejecting(constraints, changed, m, j);
    assert(constraints[j].accepts(w, m));
}

/// In a system whose variables carry their own positions, a side that was
/// looked up from positions refers to exactly those positions, with the
/// weights given.
pub proof fn law_resolved_side_keeps_positions(
    r1cs: R1CS,
    side: Seq<(Variable, BigInt)>,
    terms: Seq<(usize, BigInt)>,
)
    requires
        r1cs.well_formed(),
        positions_in_range(terms, r1cs.variables@.len()),
        resolves(side, r1cs.variables@, terms),
    ensures
        side_terms(side) == position_terms(terms),
{
    assert forall|j: int| 0 <= j < side.len() implies side_terms(side)[j] == position_terms(
        terms,
    )[j] by {
        assert(r1cs.variables@[terms[j].0 as int].index == terms[j].0);
        assert(side[j].0.index == terms[j].0);
    }
    assert(side_terms(side) =~= position_terms(terms));
}

} // verus!
