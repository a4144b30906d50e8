use num_bigint::BigInt;
use r1cs_circuit::circuit::{Circuit, Gate};
use r1cs_circuit::error::Error;
use r1cs_circuit::field::{FieldElement, Modulus};
use r1cs_circuit::r1cs::{Constraint, Operation, Variable};

fn element(n: i64, circuit: &Circuit) -> FieldElement {
    FieldElement::new(BigInt::from(n), circuit.modulus())
}

fn addition_circuit() -> Circuit {
    let mut circuit = Circuit::new();
    let a = circuit.add_input(element(10, &circuit));
    let b = circuit.add_input(element(20, &circuit));
    let sum = circuit
        .get_input(a)
        .unwrap()
        .add(circuit.get_input(b).unwrap(), circuit.modulus());
    let out = circuit.add_input(sum.clone());
    circuit.add_gate(Gate::Add(a, b, out));
    circuit.set_output(sum);
    circuit
}

#[test]
fn new_circuit_uses_the_default_modulus() {
    let circuit = Circuit::new();
    assert_eq!(circuit.modulus().get_value(), BigInt::from(1_000_000_007u64));
    assert!(circuit.get_input(0).is_none());
}

#[test]
fn with_modulus_keeps_the_modulus() {
    let circuit = Circuit::with_modulus(Modulus::new(BigInt::from(13)).unwrap());
    assert_eq!(circuit.modulus().get_value(), BigInt::from(13));
    assert_eq!(element(14, &circuit).get_value(), BigInt::from(1));
}

#[test]
fn add_input_returns_positions_in_order() {
    let mut circuit = Circuit::new();
    assert_eq!(circuit.add_input(element(7, &circuit)), 0);
    assert_eq!(circuit.add_input(element(8, &circuit)), 1);
    assert_eq!(circuit.add_input(element(7, &circuit)), 2);
    assert_eq!(circuit.get_input(0).unwrap().get_value(), BigInt::from(7));
    assert_eq!(circuit.get_input(1).unwrap().get_value(), BigInt::from(8));
    assert_eq!(circuit.get_input(2).unwrap().get_value(), BigInt::from(7));
}

#[test]
fn get_input_of_an_absent_position_is_none() {
    let mut circuit = Circuit::new();
    circuit.add_input(element(7, &circuit));
    assert!(circuit.get_input(1).is_none());
    assert!(circuit.get_input(usize::MAX).is_none());
}

#[test]
fn gate_operands_are_left_right_output() {
    assert_eq!(Gate::Add(1, 2, 3).operands(), (1, 2, 3));
    assert_eq!(Gate::Mul(4, 5, 6).operands(), (4, 5, 6));
}

#[test]
fn generate_proof_needs_an_input() {
    let circuit = Circuit::new();
    assert!(matches!(circuit.generate_proof(), Err(Error::EmptyCircuit)));
    let mut gated = Circuit::new();
    gated.add_gate(Gate::Add(0, 1, 2));
    assert!(matches!(gated.generate_proof(), Err(Error::EmptyCircuit)));
}

#[test]
fn generate_proof_rejects_a_gate_out_of_range() {
    for gate in [Gate::Add(2, 0, 1), Gate::Add(0, 2, 1), Gate::Mul(0, 1, 2)] {
        let mut circuit = Circuit::new();
        circuit.add_input(element(1, &circuit));
        circuit.add_input(element(2, &circuit));
        circuit.add_gate(Gate::Add(0, 1, 1));
        circuit.add_gate(gate);
        assert!(matches!(circuit.generate_proof(), Err(Error::InvalidIndex)));
    }
}

#[test]
fn add_gate_does_not_look_at_positions() {
    let mut circuit = Circuit::new();
    circuit.add_gate(Gate::Mul(5, 6, 7));
    for v in 0..8 {
        circuit.add_input(element(v, &circuit));
    }
    assert!(circuit.generate_proof().is_ok());
}

#[test]
fn set_output_makes_no_constraint() {
    let mut circuit = Circuit::new();
    circuit.add_input(element(1, &circuit));
    circuit.set_output(element(99, &circuit));
    let (r1cs, proof) = circuit.generate_proof().unwrap();
    assert_eq!(r1cs.variables.len(), 1);
    assert!(r1cs.constraints.is_empty());
    assert_eq!(r1cs.qap.left.len(), 0);
    assert_eq!(r1cs.qap.right.len(), 0);
    assert_eq!(r1cs.qap.output.len(), 0);
    assert_eq!(proof.witness, vec![BigInt::from(1)]);
}

#[test]
fn generate_proof_makes_one_variable_for_each_input() {
    let circuit = addition_circuit();
    let (r1cs, proof) = circuit.generate_proof().unwrap();
    assert_eq!(r1cs.variables.len(), 3);
    for (position, variable) in r1cs.variables.iter().enumerate() {
        assert_eq!(variable.index, position);
        assert_eq!(variable.value.get_value(), circuit.get_input(position).unwrap().get_value());
    }
    assert_eq!(proof.witness, vec![BigInt::from(10), BigInt::from(20), BigInt::from(30)]);
}

#[test]
fn generate_proof_lowers_each_gate_with_weight_one() {
    let mut circuit = Circuit::new();
    for v in [3, 4, 12, 7] {
        circuit.add_input(element(v, &circuit));
    }
    circuit.add_gate(Gate::Mul(0, 1, 2));
    circuit.add_gate(Gate::Add(0, 3, 2));
    let (r1cs, _) = circuit.generate_proof().unwrap();
    let coefficient = |p: &r1cs_circuit::qap::Polynomial, i: usize| p.get(i).map(|c| c.get_value());
    assert_eq!(coefficient(&r1cs.qap.left, 0), Some(BigInt::from(2)));
    assert_eq!(r1cs.qap.left.len(), 1);
    assert_eq!(coefficient(&r1cs.qap.right, 1), Some(BigInt::from(1)));
    assert_eq!(coefficient(&r1cs.qap.right, 3), Some(BigInt::from(1)));
    assert_eq!(r1cs.qap.right.len(), 2);
    assert_eq!(coefficient(&r1cs.qap.output, 2), Some(BigInt::from(2)));
    assert_eq!(r1cs.qap.output.len(), 1);
    assert!(r1cs.constraints.is_empty());
}

#[test]
fn addition_proof_verifies() {
    let circuit = addition_circuit();
    let (r1cs, proof) = circuit.generate_proof().unwrap();
    assert_eq!(circuit.verify_proof(&r1cs, &proof), Ok(true));
}

#[test]
fn multiplication_proof_verifies() {
    let mut circuit = Circuit::new();
    let a = circuit.add_input(element(3, &circuit));
    let b = circuit.add_input(element(4, &circuit));
    let out = circuit.add_input(element(12, &circuit));
    circuit.add_gate(Gate::Mul(a, b, out));
    circuit.set_output(element(12, &circuit));
    let (r1cs, proof) = circuit.generate_proof().unwrap();
    assert_eq!(proof.witness, vec![BigInt::from(3), BigInt::from(4), BigInt::from(12)]);
    assert_eq!(circuit.verify_proof(&r1cs, &proof), Ok(true));
    assert_eq!(r1cs.evaluate_qap(circuit.modulus()).unwrap(), BigInt::from(0));
}

#[test]
fn generated_witness_verifies_for_chained_gates() {
    let mut circuit = Circuit::new();
    let mut current = circuit.add_input(element(50, &circuit));
    for sibling in [80, 30, 7] {
        let s = circuit.add_input(element(sibling, &circuit));
        let combined = circuit
            .get_input(current)
            .unwrap()
            .add(circuit.get_input(s).unwrap(), circuit.modulus());
        let next = circuit.add_input(combined);
        circuit.add_gate(Gate::Add(current, s, next));
        current = next;
    }
    let (r1cs, proof) = circuit.generate_proof().unwrap();
    assert_eq!(r1cs.verify_witness(&r1cs.generate_witness(), circuit.modulus()), Ok(true));
    assert_eq!(circuit.verify_proof(&r1cs, &proof), Ok(true));
    assert_eq!(proof.witness.last(), Some(&BigInt::from(167)));
}

#[test]
fn corrupted_sum_is_rejected_where_the_addition_is_on_record() {
    let circuit = addition_circuit();
    let (mut r1cs, mut proof) = circuit.generate_proof().unwrap();
    let one = || BigInt::from(1);
    r1cs.record_constraint(&[(0, one()), (1, one())], &[(2, one())], &[(2, one())], Operation::Add)
        .unwrap();
    assert_eq!(circuit.verify_proof(&r1cs, &proof), Ok(true));
    proof.witness[2] = BigInt::from(31);
    assert_eq!(circuit.verify_proof(&r1cs, &proof), Ok(false));
}

#[test]
fn lowering_leaves_no_record_to_hold_a_corrupted_sum_against() {
    let circuit = addition_circuit();
    let (r1cs, mut proof) = circuit.generate_proof().unwrap();
    proof.witness[2] = BigInt::from(31);
    assert!(r1cs.constraints.is_empty());
    assert_eq!(circuit.verify_proof(&r1cs, &proof), Ok(true));
    // The quadratic program does see the change: 10 * 20 - 31 instead of 10 * 20 - 30.
    let witness = proof.to_witness(circuit.modulus());
    assert_eq!(
        r1cs.qap.evaluate(&witness, circuit.modulus()).unwrap().get_value(),
        BigInt::from(169)
    );
}

#[test]
fn verify_proof_reduces_the_loaded_witness() {
    let circuit = Circuit::with_modulus(Modulus::new(BigInt::from(7)).unwrap());
    let mut r1cs = r1cs_circuit::r1cs::R1CS::new();
    let v = |i: usize| Variable { index: i, value: FieldElement::zero() };
    r1cs.constraints.push(Constraint {
        left: vec![(v(0), BigInt::from(1))],
        right: vec![(v(1), BigInt::from(1))],
        output: vec![(v(1), BigInt::from(1))],
        operation: Operation::Hash,
    });
    let proof = r1cs_circuit::artifact::Proof { witness: vec![BigInt::from(3), BigInt::from(10)] };
    assert_eq!(circuit.verify_proof(&r1cs, &proof), Ok(true));
    let short = r1cs_circuit::artifact::Proof { witness: vec![BigInt::from(3)] };
    assert_eq!(circuit.verify_proof(&r1cs, &short), Err(Error::InvalidIndex));
}
