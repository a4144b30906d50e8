use num_bigint::BigInt;
use r1cs_circuit::artifact::Proof;
use r1cs_circuit::circuit::{Circuit, Gate};
use r1cs_circuit::field::{FieldElement, Modulus};
use r1cs_circuit::qap::{Polynomial, QAP};
use r1cs_circuit::r1cs::{Constraint, Operation, Variable, R1CS};

// Plain shapes of the engine's data: what is written is the index and the
// integer of each variable, the three sides and the tag of each constraint,
// and the entries of the three combinations.
type StoredVariable = (usize, BigInt);
type StoredSide = Vec<(StoredVariable, BigInt)>;
type StoredConstraint = (StoredSide, StoredSide, StoredSide, u32);
type StoredPolynomial = Vec<(usize, BigInt)>;
type StoredSystem =
    (Vec<StoredVariable>, Vec<StoredConstraint>, (StoredPolynomial, StoredPolynomial, StoredPolynomial));

fn store_side(side: &[(Variable, BigInt)]) -> StoredSide {
    side.iter().map(|(v, w)| ((v.index, v.value.get_value()), w.clone())).collect()
}

fn store_polynomial(p: &Polynomial) -> StoredPolynomial {
    let mut entries: StoredPolynomial =
        p.entries().iter().map(|(i, c)| (*i, c.get_value())).collect();
    entries.sort();
    entries
}

fn tag(operation: Operation) -> u32 {
    match operation {
        Operation::Add => 0,
        Operation::Mul => 1,
        Operation::Hash => 2,
    }
}

fn operation(tag: u32) -> Operation {
    match tag {
        0 => Operation::Add,
        1 => Operation::Mul,
        _ => Operation::Hash,
    }
}

fn store(r1cs: &R1CS) -> StoredSystem {
    (
        r1cs.variables.iter().map(|v| (v.index, v.value.get_value())).collect(),
        r1cs.constraints
            .iter()
            .map(|c| {
                (store_side(&c.left), store_side(&c.right), store_side(&c.output), tag(c.operation))
            })
            .collect(),
        (
            store_polynomial(&r1cs.qap.left),
            store_polynomial(&r1cs.qap.right),
            store_polynomial(&r1cs.qap.output),
        ),
    )
}

fn restore_side(side: &StoredSide, m: &Modulus) -> Vec<(Variable, BigInt)> {
    side.iter()
        .map(|((index, value), w)| {
            (Variable { index: *index, value: FieldElement::new(value.clone(), m) }, w.clone())
        })
        .collect()
}

fn restore_polynomial(entries: &StoredPolynomial, m: &Modulus) -> Polynomial {
    let mut p = Polynomial::new();
    for (index, value) in entries {
        p.add_term(*index, FieldElement::new(value.clone(), m), m);
    }
    p
}

fn restore(stored: &StoredSystem, m: &Modulus) -> R1CS {
    let (variables, constraints, (left, right, output)) = stored;
    R1CS {
        variables: variables
            .iter()
            .map(|(index, value)| Variable {
                index: *index,
                value: FieldElement::new(value.clone(), m),
            })
            .collect(),
        constraints: constraints
            .iter()
            .map(|(l, r, o, t)| Constraint {
                left: restore_side(l, m),
                right: restore_side(r, m),
                output: restore_side(o, m),
                operation: operation(*t),
            })
            .collect(),
        qap: QAP {
            left: restore_polynomial(left, m),
            right: restore_polynomial(right, m),
            output: restore_polynomial(output, m),
        },
    }
}

fn sample_system() -> (Circuit, R1CS, Proof) {
    let mut circuit = Circuit::new();
    let element = |n: i64, c: &Circuit| FieldElement::new(BigInt::from(n), c.modulus());
    for v in [3, 4, 12, 7, 19] {
        circuit.add_input(element(v, &circuit));
    }
    circuit.add_gate(Gate::Mul(0, 1, 2));
    circuit.add_gate(Gate::Add(2, 3, 4));
    circuit.add_gate(Gate::Add(0, 3, 4));
    let (mut r1cs, proof) = circuit.generate_proof().unwrap();
    let one = || BigInt::from(1);
    r1cs.record_constraint(&[(2, one()), (3, one())], &[(4, one())], &[(4, one())], Operation::Add)
        .unwrap();
    r1cs.record_constraint(&[(0, BigInt::from(4))], &[(2, one())], &[(2, one())], Operation::Hash)
        .unwrap();
    (circuit, r1cs, proof)
}

#[test]
fn constraint_system_comes_back_from_its_bytes() {
    let (circuit, r1cs, _) = sample_system();
    let bytes = bincode::serialize(&store(&r1cs)).unwrap();
    let decoded: StoredSystem = bincode::deserialize(&bytes).unwrap();
    let loaded = restore(&decoded, circuit.modulus());

    assert_eq!(loaded.variables.len(), r1cs.variables.len());
    assert_eq!(loaded.constraints.len(), r1cs.constraints.len());
    assert_eq!(store(&loaded), store(&r1cs));
    for (after, before) in loaded.constraints.iter().zip(&r1cs.constraints) {
        assert_eq!(after.operation, before.operation);
    }
    assert_eq!(store_polynomial(&loaded.qap.left), vec![(0, BigInt::from(2)), (2, BigInt::from(1))]);
    assert_eq!(loaded.qap.right.len(), r1cs.qap.right.len());
    assert_eq!(loaded.qap.output.get(4).unwrap().get_value(), BigInt::from(2));
}

#[test]
fn loaded_system_and_proof_verify_like_the_live_ones() {
    let (circuit, r1cs, proof) = sample_system();
    let system_bytes = bincode::serialize(&store(&r1cs)).unwrap();
    let proof_bytes = bincode::serialize(&proof.witness).unwrap();

    let decoded: StoredSystem = bincode::deserialize(&system_bytes).unwrap();
    let loaded = restore(&decoded, circuit.modulus());
    let mut loaded_proof = Proof { witness: bincode::deserialize(&proof_bytes).unwrap() };
    assert_eq!(loaded_proof.witness, proof.witness);
    assert_eq!(circuit.verify_proof(&r1cs, &proof), Ok(true));
    assert_eq!(circuit.verify_proof(&loaded, &loaded_proof), Ok(true));

    loaded_proof.witness[4] = BigInt::from(20);
    assert_eq!(circuit.verify_proof(&loaded, &loaded_proof), Ok(false));
}

#[test]
fn truncated_bytes_do_not_decode_to_a_proof() {
    let (_, _, proof) = sample_system();
    let bytes = bincode::serialize(&proof.witness).unwrap();
    assert!(bincode::deserialize::<Vec<BigInt>>(&bytes[..bytes.len() - 1]).is_err());
    assert!(bincode::deserialize::<Vec<BigInt>>(&[]).is_err());
}
