//! Arithmetic circuits: input wires and gates over them, lowered into a
//! constraint system when a proof is generated.

use vstd::prelude::*;
use crate::artifact::Proof;
use crate::error::Error;
use crate::field::{field_reduce, values_of, FieldElement, Modulus};
use crate::qap::accumulate;
use crate::r1cs::{is_verdict, variable_values, R1CS};

verus! {

/// A gate over three wires, each given by its input position: the two
/// operands and the wire that carries the result.
#[derive(Clone, Copy, Debug, PartialEq, Eq)]
pub enum Gate {
    Add(usize, usize, usize),
    Mul(usize, usize, usize),
}

impl Gate {
    /// The position of the first operand.
    pub open spec fn left(self) -> usize {
        match self {
            Gate::Add(a, _, _) => a,
            Gate::Mul(a, _, _) => a,
        }
    }

    /// The position of the second operand.
    pub open spec fn right(self) -> usize {
        match self {
            Gate::Add(_, b, _) => b,
            Gate::Mul(_, b, _) => b,
        }
    }

    /// The position of the result.
    pub open spec fn output(self) -> usize {
        match self {
            Gate::Add(_, _, c) => c,
            Gate::Mul(_, _, c) => c,
        }
    }

    /// Whether the three positions exist among `len` inputs.
    pub open spec fn in_range(self, len: nat) -> bool {
        self.left() < len && self.right() < len && self.output() < len
    }

    /// The three positions: first operand, second operand, result.
    pub fn operands(&self) -> (r: (usize, usize, usize))
        ensures
            r == (self.left(), self.right(), self.output()),
    {
        match self {
            Gate::Add(a, b, c) => (*a, *b, *c),
            Gate::Mul(a, b, c) => (*a, *b, *c),
        }
    }
}

/// The terms that lowering gives to the left combination: for each gate
/// its first operand with weight one.
pub open spec fn left_terms(gates: Seq<Gate>, m: int) -> Seq<(usize, int)> {
    gates.map_values(|g: Gate| (g.left(), field_reduce(1, m)))
}

/// The terms that lowering gives to the right combination: for each gate
/// its second operand with weight one.
pub open spec fn right_terms(gates: Seq<Gate>, m: int) -> Seq<(usize, int)> {
    gates.map_values(|g: Gate| (g.right(), field_reduce(1, m)))
}

/// The terms that lowering gives to the output combination: for each gate
/// its result wire with weight one.
pub open spec fn output_terms(gates: Seq<Gate>, m: int) -> Seq<(usize, int)> {
    gates.map_values(|g: Gate| (g.output(), field_reduce(1, m)))
}

/// Whether every gate refers to positions that exist among `len` inputs.
pub open spec fn gates_in_range(gates: Seq<Gate>, len: nat) -> bool {
    forall|j: int| 0 <= j < gates.len() ==> (#[trigger] gates[j]).in_range(len)
}

/// The canonical representatives of a sequence of integers.
pub open spec fn reduced(values: Seq<int>, m: int) -> Seq<int> {
    values.map_values(|v: int| field_reduce(v, m))
}

/// What a circuit holds, as plain values.
pub struct CircuitView {
    pub inputs: Seq<int>,
    pub gates: Seq<Gate>,
    pub outputs: Seq<int>,
    pub modulus: int,
}

/// A circuit: input wires, gates over them, and the outputs noted for it.
pub struct Circuit {
    inputs: Vec<FieldElement>,
    gates: Vec<Gate>,
    outputs: Vec<FieldElement>,
    modulus: Modulus,
}

impl View for Circuit {
    type V = CircuitView;

    closed spec fn view(&self) -> CircuitView {
        CircuitView {
            inputs: values_of(self.inputs@),
            gates: self.gates@,
            outputs: values_of(self.outputs@),
            modulus: self.modulus@,
        }
    }
}

impl Circuit {
    /// The empty circuit over the default modulus.
    pub fn new() -> (c: Circuit)
        ensures
            c@.inputs.len() == 0,
            c@.gates.len() == 0,
            c@.outputs.len() == 0,
            c@.modulus == crate::field::DEFAULT_MODULUS,
    {
        Circuit::with_modulus(Modulus::default_modulus())
    }

    /// The empty circuit over `modulus`.
    pub fn with_modulus(modulus: Modulus) -> (c: Circuit)
        ensures
            c@.inputs.len() == 0,
            c@.gates.len() == 0,
            c@.outputs.len() == 0,
            c@.modulus == modulus@,
    {
        Circuit { inputs: Vec::new(), gates: Vec::new(), outputs: Vec::new(), modulus }
    }

    /// The modulus of the circuit's field.
    pub fn modulus(&self) -> (m: &Modulus)
        ensures
            m@ == self@.modulus,
    {
        &self.modulus
    }

    /// Appends an input wire that carries `value` and returns its position.
    pub fn add_input(&mut self, value: FieldElement) -> (index: usize)
        ensures
            index == old(self)@.inputs.len(),
            final(self)@ == (CircuitView { inputs: old(self)@.inputs.push(value@), ..old(self)@ }),
    {
        let index = self.inputs.len();
        self.inputs.push(value);
        assert(values_of(self.inputs@) =~= values_of(old(self).inputs@).push(value@));
        index
    }

    /// Appends a gate. Its positions are not looked at until the circuit
    /// is lowered.
    pub fn add_gate(&mut self, gate: Gate)
        ensures
            final(self)@ == (CircuitView { gates: old(self)@.gates.push(gate), ..old(self)@ }),
    {
        self.gates.push(gate);
    }

    /// Notes `value` as an output. Outputs are bookkeeping: no constraint
    /// is made from them.
    pub fn set_output(&mut self, value: FieldElement)
        ensures
            final(self)@ == (CircuitView {
                outputs: old(self)@.outputs.push(value@),
                ..old(self)@
            }),
    {
        self.outputs.push(value);
        assert(values_of(self.outputs@) =~= values_of(old(self).outputs@).push(value@));
    }

    /// The input at `index`, if there is one.
    pub fn get_input(&self, index: usize) -> (r: Option<&FieldElement>)
        ensures
            match r {
                Some(value) => index < self@.inputs.len() && value@ == self@.inputs[index as int],
                None => index >= self@.inputs.len(),
            },
    {
        if index < self.inputs.len() {
            Some(&self.inputs[index])
        } else {
            None
        }
    }

    /// Lowers the circuit and produces what a prover persists: the
    /// constraint system and the proof artifact.
    ///
    /// Every input becomes the variable of the same index. Every gate, of
    /// either kind, adds its first operand to the left combination, its
    /// second to the right and its result wire to the output combination,
    /// each with weight one. No constraint record is made, so the system
    /// accepts the witness that is read off its variables, and the proof is
    /// that witness. A circuit without inputs, or a gate that refers to a
    /// position without an input, is an error.
    pub fn generate_proof(&self) -> (r: Result<(R1CS, Proof), Error>)
        ensures
            match r {
                Ok((r1cs, proof)) => {
                    &&& self@.inputs.len() > 0
                    &&& gates_in_range(self@.gates, self@.inputs.len())
                    &&& r1cs.well_formed()
                    &&& variable_values(r1cs.variables@) == self@.inputs
                    &&& r1cs.constraints@.len() == 0
                    &&& r1cs.qap.left@ == accumulate(
                        Map::empty(),
                        left_terms(self@.gates, self@.modulus),
                        self@.modulus,
                    )
                    &&& r1cs.qap.right@ == accumulate(
                        Map::empty(),
                        right_terms(self@.gates, self@.modulus),
                        self@.modulus,
                    )
                    &&& r1cs.qap.output@ == accumulate(
                        Map::empty(),
                        output_terms(self@.gates, self@.modulus),
                        self@.modulus,
                    )
                    &&& proof.values() == self@.inputs
                    &&& is_verdict(
                        r1cs.constraints@,
                        variable_values(r1cs.variables@),
                        self@.modulus,
                        Ok(true),
                    )
                },
                Err(e) => if self@.inputs.len() == 0 {
                    e == Error::EmptyCircuit
                } else {
                    e == Error::InvalidIndex && !gates_in_range(self@.gates, self@.inputs.len())
                },
            },
    {
        if self.inputs.len() == 0 {
            return Err(Error::EmptyCircuit);
        }
        let ghost m = self.modulus@;
        let mut r1cs = R1CS::new();
        let mut i: usize = 0;
        while i < self.inputs.len()
            invariant
                i <= self.inputs.len(),
                r1cs.variables@.len() == i,
                forall|j: int|
                    0 <= j < i ==> (#[trigger] r1cs.variables@[j]).index == j
                        && r1cs.variables@[j].value@ == self.inputs@[j]@,
                r1cs.constraints@.len() == 0,
                r1cs.qap.left@ == Map::<usize, int>::empty(),
                r1cs.qap.right@ == Map::<usize, int>::empty(),
                r1cs.qap.output@ == Map::<usize, int>::empty(),
            decreases self.inputs.len() - i,
        {
            r1cs.add_variable(self.inputs[i].clone());
            i += 1;
        }
        let mut g: usize = 0;
        while g < self.gates.len()
            invariant
                g <= self.gates.len(),
                m == self.modulus@,
                self.inputs@.len() > 0,
                r1cs.variables@.len() == self.inputs@.len(),
                forall|j: int|
                    0 <= j < r1cs.variables@.len() ==> (#[trigger] r1cs.variables@[j]).index == j
                        && r1cs.variables@[j].value@ == self.inputs@[j]@,
                r1cs.constraints@.len() == 0,
                gates_in_range(self.gates@.take(g as int), self.inputs@.len() as nat),
                r1cs.qap.left@ == accumulate(
                    Map::empty(),
                    left_terms(self.gates@.take(g as int), m),
                    m,
                ),
                r1cs.qap.right@ == accumulate(
                    Map::empty(),
                    right_terms(self.gates@.take(g as int), m),
                    m,
                ),
                r1cs.qap.output@ == accumulate(
                    Map::empty(),
                    output_terms(self.gates@.take(g as int), m),
                    m,
                ),
            decreases self.gates.len() - g,
        {
            let (a, b, output) = self.gates[g].operands();
            let count = r1cs.variables.len();
            if a >= count || b >= count || output >= count {
                assert(!self@.gates[g as int].in_range(self@.inputs.len()));
                return Err(Error::InvalidIndex);
            }
            let left = [(r1cs.variables[a].index, FieldElement::one(&self.modulus))];
            let right = [(r1cs.variables[b].index, FieldElement::one(&self.modulus))];
            let out = [(r1cs.variables[output].index, FieldElement::one(&self.modulus))];
            r1cs.add_constraint(&left, &right, &out, &self.modulus);
            proof {
                let before = self.gates@.take(g as int);
                let after = self.gates@.take(g + 1);
                assert(after.drop_last() =~= before);
                assert(after.last() == self.gates@[g as int]);
                assert(left_terms(after, m).drop_last() =~= left_terms(before, m));
                assert(right_terms(after, m).drop_last() =~= right_terms(before, m));
                assert(output_terms(after, m).drop_last() =~= output_terms(before, m));
                reveal_with_fuel(accumulate, 2);
            }
            g += 1;
        }
        let witness = r1cs.generate_witness();
        let proof = r1cs.generate_proof(&witness);
        proof {
            assert(self.gates@.take(self.gates@.len() as int) =~= self.gates@);
            assert(proof.values() =~= self@.inputs);
            assert(variable_values(r1cs.variables@) =~= self@.inputs);
        }
        Ok((r1cs, proof))
    }

    /// Checks a proof against a constraint system, both as a verifier has
    /// loaded them: the witness is reduced into the circuit's field and
    /// verified by the system. An unsatisfied witness is `Ok(false)`, not
    /// an error.
    pub fn verify_proof(&self, r1cs: &R1CS, proof: &Proof) -> (r: Result<bool, Error>)
        ensures
            is_verdict(r1cs.constraints@, reduced(proof.values(), self@.modulus), self@.modulus, r),
    {
        let witness = proof.to_witness(&self.modulus);
        assert(values_of(witness@) =~= reduced(proof.values(), self.modulus@));
        r1cs.verify_witness(witness.as_slice(), &self.modulus)
    }
}

} // verus!
