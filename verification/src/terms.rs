//! Lists of weighted terms: each term names a variable by its index and
//! gives it an integer weight. An index may occur more than once.

use vstd::prelude::*;

verus! {

/// Whether an assignment of `len` entries has one for every term.
pub open spec fn terms_in_range(terms: Seq<(usize, int)>, len: nat) -> bool {
    forall|j: int| 0 <= j < terms.len() ==> (#[trigger] terms[j]).0 < len
}

/// The sum of weight times assigned value over the terms, as an integer.
pub open spec fn terms_sum(terms: Seq<(usize, int)>, w: Seq<int>) -> int
    decreases terms.len(),
{
    if terms.len() == 0 {
        0
    } else {
        terms_sum(terms.drop_last(), w) + terms.last().1 * w[terms.last().0 as int]
    }
}

/// The value of a list of terms at the assignment `w`, in the field of modulus `m`.
pub open spec fn terms_eval(terms: Seq<(usize, int)>, w: Seq<int>, m: int) -> int {
    terms_sum(terms, w) % m
}

/// The sum of the weights that a list of terms gives to `index`.
pub open spec fn index_sum(terms: Seq<(usize, int)>, index: usize) -> int
    decreases terms.len(),
{
    if terms.len() == 0 {
        0
    } else if terms.last().0 == index {
        index_sum(terms.drop_last(), index) + terms.last().1
    } else {
        index_sum(terms.drop_last(), index)
    }
}

/// Whether a list of terms has one for `index`.
pub open spec fn mentions(terms: Seq<(usize, int)>, index: usize) -> bool {
    exists|j: int| 0 <= j < terms.len() && (#[trigger] terms[j]).0 == index
}

/// A list of terms that does not mention an index gives it the sum zero.
pub proof fn lemma_index_sum_unmentioned(terms: Seq<(usize, int)>, k: usize)
    requires
        !mentions(terms, k),
    ensures
        index_sum(terms, k) == 0,
    decreases terms.len(),
{
    if terms.len() > 0 {
        let rest = terms.drop_last();
        assert(terms[terms.len() - 1].0 != k);
        assert(!mentions(rest, k)) by {
            if mentions(rest, k) {
                let j = choose|j: int| 0 <= j < rest.len() && (#[trigger] rest[j]).0 == k;
                assert(terms[j].0 == k);
            }
        }
        lemma_index_sum_unmentioned(rest, k);
    }
}

/// Changing one entry of the assignment moves the sum of a list by the weight
/// that the list gives to the entry, times the change.
pub proof fn lemma_terms_sum_update(terms: Seq<(usize, int)>, w: Seq<int>, i: usize, v: int)
    requires
        terms_in_range(terms, w.len()),
        i < w.len(),
    ensures
        terms_sum(terms, w.update(i as int, v)) == terms_sum(terms, w) + index_sum(terms, i) * (v
            - w[i as int]),
    decreases terms.len(),
{
    if terms.len() > 0 {
        let rest = terms.drop_last();
        let t = terms.last();
        assert(terms[terms.len() - 1].0 < w.len());
        assert(terms_in_range(rest, w.len())) by {
            assert forall|j: int| 0 <= j < rest.len() implies (#[trigger] rest[j]).0 < w.len() by {
                assert(terms[j].0 < w.len());
            }
        }
        lemma_terms_sum_update(rest, w, i, v);
        let d = v - w[i as int];
        let s = index_sum(rest, i);
        if t.0 == i {
            assert(t.1 * v == t.1 * w[i as int] + t.1 * d) by (nonlinear_arith)
                requires
                    d == v - w[i as int],
            ;
            assert((s + t.1) * d == s * d + t.1 * d) by (nonlinear_arith);
        }
    }
}

/// Whether no index occurs in two terms of a list.
pub open spec fn distinct_indices(terms: Seq<(usize, int)>) -> bool {
    forall|i: int, j: int| 0 <= i < j < terms.len() ==> terms[i].0 != terms[j].0
}

/// In a list without repeated indices, the sum of the weights of an index
/// is the weight of its one term.
pub proof fn lemma_index_sum_distinct(terms: Seq<(usize, int)>, j: int)
    requires
        distinct_indices(terms),
        0 <= j < terms.len(),
    ensures
        index_sum(terms, terms[j].0) == terms[j].1,
    decreases terms.len(),
{
    let rest = terms.drop_last();
    let k = terms[j].0;
    if j == terms.len() - 1 {
        assert(!mentions(rest, k)) by {
            if mentions(rest, k) {
                let i = choose|i: int| 0 <= i < rest.len() && (#[trigger] rest[i]).0 == k;
                assert(terms[i].0 == k);
            }
        }
        lemma_index_sum_unmentioned(rest, k);
    } else {
        assert(rest[j] == terms[j]);
        assert(distinct_indices(rest)) by {
            assert forall|a: int, b: int| 0 <= a < b < rest.len() implies rest[a].0
                != rest[b].0 by {
                assert(rest[a] == terms[a] && rest[b] == terms[b]);
            }
        }
        lemma_index_sum_distinct(rest, j);
    }
}

} // verus!
