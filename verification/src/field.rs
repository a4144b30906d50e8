//! Arithmetic in the ring of integers modulo a positive modulus.
//!
//! No modulus is ambient: every operation names the modulus it reduces by,
//! and a [`Modulus`] can only be made from a positive integer.

use vstd::prelude::*;
use vstd::arithmetic::div_mod::{
    lemma_add_mod_noop, lemma_mod_bound, lemma_mul_mod_noop_general, lemma_small_mod,
    lemma_sub_mod_noop,
};
use vstd::arithmetic::mul::lemma_mul_is_associative;
use num_bigint::BigInt;
use crate::bigint::{
    big_add, big_clone, big_eq, big_from_u64, big_is_positive, big_mul, big_rem_euclid, big_sub,
    big_value, big_zero,
};
use crate::error::Error;

verus! {

/// The canonical representative of `x` modulo `m`: the one in `0 .. m`.
pub open spec fn field_reduce(x: int, m: int) -> int {
    x % m
}

/// The sum of `a` and `b` in the field of modulus `m`.
pub open spec fn field_add(a: int, b: int, m: int) -> int {
    (a + b) % m
}

/// The difference of `a` and `b` in the field of modulus `m`.
pub open spec fn field_sub(a: int, b: int, m: int) -> int {
    (a - b) % m
}

/// The product of `a` and `b` in the field of modulus `m`.
pub open spec fn field_mul(a: int, b: int, m: int) -> int {
    (a * b) % m
}

/// Whether `a` and `b` are the same element of the field of modulus `m`.
pub open spec fn field_eq(a: int, b: int, m: int) -> bool {
    a % m == b % m
}

/// The modulus that circuits use when none is given.
pub const DEFAULT_MODULUS: u64 = 1_000_000_007;

/// A modulus: an integer that is known to be positive.
pub struct Modulus {
    value: BigInt,
}

impl View for Modulus {
    type V = int;

    closed spec fn view(&self) -> int {
        big_value(self.value)
    }
}

impl Modulus {
    #[verifier::type_invariant]
    pub open spec fn is_positive(self) -> bool {
        self@ > 0
    }

    /// Accepts `value` as a modulus if it is positive.
    pub fn new(value: BigInt) -> (r: Result<Modulus, Error>)
        ensures
            match r {
                Ok(m) => big_value(value) > 0 && m@ == big_value(value),
                Err(e) => big_value(value) <= 0 && e == Error::MalformedModulus,
            },
    {
        if big_is_positive(&value) {
            Ok(Modulus { value })
        } else {
            Err(Error::MalformedModulus)
        }
    }

    /// The modulus [`DEFAULT_MODULUS`].
    pub fn default_modulus() -> (m: Modulus)
        ensures
            m@ == DEFAULT_MODULUS,
    {
        Modulus { value: big_from_u64(DEFAULT_MODULUS) }
    }

    /// The modulus as an integer; it is positive.
    pub fn get_value(&self) -> (r: BigInt)
        ensures
            big_value(r) == self@,
            self@ > 0,
    {
        proof {
            use_type_invariant(self);
        }
        big_clone(&self.value)
    }
}

impl Clone for Modulus {
    fn clone(&self) -> (m: Self)
        ensures
            m@ == self@,
    {
        proof {
            use_type_invariant(self);
        }
        Modulus { value: big_clone(&self.value) }
    }
}

/// An element of a field. It holds an integer; operations that produce one
/// leave the canonical representative for the modulus they were given.
pub struct FieldElement {
    value: BigInt,
}

impl View for FieldElement {
    type V = int;

    closed spec fn view(&self) -> int {
        big_value(self.value)
    }
}

impl FieldElement {
    /// Whether the element is the canonical representative for modulus `m`.
    pub open spec fn is_canonical(&self, m: int) -> bool {
        0 <= self@ < m
    }

    /// The element that `raw` stands for under `modulus`, reduced into
    /// `0 .. modulus`.
    pub fn new(raw: BigInt, modulus: &Modulus) -> (r: FieldElement)
        ensures
            r@ == field_reduce(big_value(raw), modulus@),
            r.is_canonical(modulus@),
    {
        proof {
            use_type_invariant(modulus);
            lemma_mod_bound(big_value(raw), modulus@);
        }
        FieldElement { value: big_rem_euclid(&raw, &modulus.value) }
    }

    /// The zero of every field.
    pub fn zero() -> (r: FieldElement)
        ensures
            r@ == 0,
    {
        FieldElement { value: big_zero() }
    }

    /// The canonical representative of one under `modulus`.
    pub fn one(modulus: &Modulus) -> (r: FieldElement)
        ensures
            r@ == field_reduce(1, modulus@),
            r.is_canonical(modulus@),
    {
        FieldElement::new(big_from_u64(1), modulus)
    }

    /// `self + other`, reduced by `modulus`.
    pub fn add(&self, other: &FieldElement, modulus: &Modulus) -> (r: FieldElement)
        ensures
            r@ == field_add(self@, other@, modulus@),
            r.is_canonical(modulus@),
    {
        FieldElement::new(big_add(&self.value, &other.value), modulus)
    }

    /// `self - other`, reduced by `modulus`.
    pub fn sub(&self, other: &FieldElement, modulus: &Modulus) -> (r: FieldElement)
        ensures
            r@ == field_sub(self@, other@, modulus@),
            r.is_canonical(modulus@),
    {
        FieldElement::new(big_sub(&self.value, &other.value), modulus)
    }

    /// `self * other`, reduced by `modulus`.
    pub fn mul(&self, other: &FieldElement, modulus: &Modulus) -> (r: FieldElement)
        ensures
            r@ == field_mul(self@, other@, modulus@),
            r.is_canonical(modulus@),
    {
        FieldElement::new(big_mul(&self.value, &other.value), modulus)
    }

    /// `self * factor` for a plain integer factor, reduced by `modulus`.
    pub fn scale(&self, factor: &BigInt, modulus: &Modulus) -> (r: FieldElement)
        ensures
            r@ == field_mul(self@, big_value(*factor), modulus@),
            r.is_canonical(modulus@),
    {
        FieldElement::new(big_mul(&self.value, factor), modulus)
    }

    /// Whether `self` and `other` are the same element of the field of
    /// `modulus`: their canonical representatives are compared.
    pub fn equals(&self, other: &FieldElement, modulus: &Modulus) -> (r: bool)
        ensures
            r == field_eq(self@, other@, modulus@),
    {
        proof {
            use_type_invariant(modulus);
        }
        let a = big_rem_euclid(&self.value, &modulus.value);
        let b = big_rem_euclid(&other.value, &modulus.value);
        big_eq(&a, &b)
    }

    /// The integer that the element holds.
    pub fn get_value(&self) -> (r: BigInt)
        ensures
            big_value(r) == self@,
    {
        big_clone(&self.value)
    }
}

/// The integers that a sequence of field elements holds.
pub open spec fn values_of(s: Seq<FieldElement>) -> Seq<int> {
    s.map_values(|f: FieldElement| f@)
}

impl Clone for FieldElement {
    fn clone(&self) -> (r: Self)
        ensures
            r@ == self@,
    {
        FieldElement { value: big_clone(&self.value) }
    }
}

/// Every field operation yields a canonical representative.
pub proof fn law_results_are_canonical(a: int, b: int, m: int)
    requires
        m > 0,
    ensures
        0 <= field_reduce(a, m) < m,
        0 <= field_add(a, b, m) < m,
        0 <= field_sub(a, b, m) < m,
        0 <= field_mul(a, b, m) < m,
{
    lemma_mod_bound(a, m);
    lemma_mod_bound(a + b, m);
    lemma_mod_bound(a - b, m);
    lemma_mod_bound(a * b, m);
}

/// Reducing a canonical representative changes nothing.
pub proof fn law_reduce_is_idempotent(a: int, m: int)
    requires
        m > 0,
    ensures
        field_reduce(field_reduce(a, m), m) == field_reduce(a, m),
{
    lemma_mod_bound(a, m);
    lemma_small_mod(field_reduce(a, m) as nat, m as nat);
}

/// Addition of two field values is the reduced sum of the integers they
/// stand for, whichever representatives are taken.
pub proof fn law_add_is_reduced_sum(a: int, b: int, m: int)
    requires
        m > 0,
    ensures
        field_add(field_reduce(a, m), field_reduce(b, m), m) == (a + b) % m,
{
    lemma_add_mod_noop(a, b, m);
}

/// Every element equals itself.
pub proof fn law_eq_is_reflexive(a: int, m: int)
    ensures
        field_eq(a, a, m),
{
}

/// Addition is commutative.
pub proof fn law_add_is_commutative(a: int, b: int, m: int)
    ensures
        field_add(a, b, m) == field_add(b, a, m),
{
}

/// Multiplication is associative.
pub proof fn law_mul_is_associative(a: int, b: int, c: int, m: int)
    requires
        m > 0,
    ensures
        field_mul(field_mul(a, b, m), c, m) == field_mul(a, field_mul(b, c, m), m),
{
    lemma_mul_mod_noop_general(a * b, c, m);
    lemma_mul_mod_noop_general(a, b * c, m);
    lemma_mul_is_associative(a, b, c);
}

/// Subtraction undoes addition.
pub proof fn law_sub_undoes_add(a: int, b: int, m: int)
    requires
        m > 0,
    ensures
        field_sub(field_add(a, b, m), b, m) == field_reduce(a, m),
{
    lemma_sub_mod_noop(a + b, b, m);
    lemma_mod_bound(b, m);
    lemma_mod_bound(a + b, m);
    lemma_sub_mod_noop((a + b) % m, b, m);
    lemma_small_mod(((a + b) % m) as nat, m as nat);
}

} // verus!
