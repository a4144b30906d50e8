//! A small constraint-system engine. Arithmetic circuits are lowered into a
//! rank-1 constraint system with its quadratic arithmetic program, a witness
//! is read off the variables, and a witness is checked against the
//! constraints on record.
//!
//! Every field operation takes its modulus explicitly. Arbitrary-precision
//! integers come from `num_bigint`; what is assumed of them is in
//! [`bigint`]. Nothing here touches files: what to persist is handed out as
//! values and taken back as values.

pub mod artifact;
pub mod bigint;
pub mod circuit;
pub mod error;
pub mod field;
pub mod merkle;
pub mod qap;
pub mod r1cs;
pub mod terms;
