//! The proof artifact: the witness of a constraint system, in the clear.

use vstd::prelude::*;
use num_bigint::BigInt;
use crate::bigint::{big_value, big_values};
use crate::field::{field_reduce, values_of, FieldElement, Modulus};
use crate::r1cs::R1CS;

verus! {

/// What a prover hands to a verifier: one integer for each variable of the
/// constraint system, in index order. Nothing is hidden or committed to.
pub struct Proof {
    pub witness: Vec<BigInt>,
}

impl Proof {
    /// The integers of the witness.
    pub open spec fn values(&self) -> Seq<int> {
        big_values(self.witness@)
    }

    /// Wraps `witness` as the proof of `r1cs`. The artifact is the witness
    /// itself; the system adds nothing to it.
    pub fn generate_proof(r1cs: &R1CS, witness: &Vec<FieldElement>) -> (p: Proof)
        ensures
            p.values() == values_of(witness@),
    {
        let mut values: Vec<BigInt> = Vec::new();
        let mut i: usize = 0;
        while i < witness.len()
            invariant
                i <= witness.len(),
                values@.len() == i,
                forall|j: int| 0 <= j < i ==> big_value(#[trigger] values@[j]) == witness@[j]@,
            decreases witness.len() - i,
        {
            values.push(witness[i].get_value());
            i += 1;
        }
        let p = Proof { witness: values };
        assert(p.values() =~= values_of(witness@));
        p
    }

    /// The witness as field elements of `modulus`: each integer reduced to
    /// its canonical representative.
    pub fn to_witness(&self, modulus: &Modulus) -> (w: Vec<FieldElement>)
        ensures
            w@.len() == self.witness@.len(),
            forall|j: int|
                0 <= j < w@.len() ==> (#[trigger] w@[j])@ == field_reduce(
                    self.values()[j],
                    modulus@,
                ) && w@[j].is_canonical(modulus@),
    {
        let mut w: Vec<FieldElement> = Vec::new();
        let mut i: usize = 0;
        while i < self.witness.len()
            invariant
                i <= self.witness.len(),
                w@.len() == i,
                forall|j: int|
                    0 <= j < i ==> (#[trigger] w@[j])@ == field_reduce(
                        self.values()[j],
                        modulus@,
                    ) && w@[j].is_canonical(modulus@),
            decreases self.witness.len() - i,
        {
            let raw = crate::bigint::big_clone(&self.witness[i]);
            w.push(FieldElement::new(raw, modulus));
            i += 1;
        }
        w
    }
}

} // verus!
