use linear_gkr::circuit::Circuit;
use linear_gkr::field::FieldElement;
use linear_gkr::gate::{Gate, GateType};
use linear_gkr::prover::{Prover, StructuralError};

fn fe(x: u64) -> FieldElement {
    FieldElement::from_u64(x)
}

fn gate(ty: GateType, u: u64, v: u64) -> Gate {
    Gate { ty, u, v }
}

/// inputs [1, 0], then one layer applying `gates`
fn two_layer(gates: Vec<Gate>) -> Circuit {
    let mut c = Circuit::new();
    c.add_layer(vec![gate(GateType::Input, 1, 0), gate(GateType::Input, 0, 0)]);
    c.add_layer(gates);
    c
}

#[test]
fn evaluate_add_circuit() {
    // the reference two-layer circuit: inputs 5 and 7, one Add gate
    let mut c = Circuit::new();
    c.add_layer(vec![gate(GateType::Input, 5, 0), gate(GateType::Input, 7, 0)]);
    c.add_layer(vec![gate(GateType::Add, 0, 1)]);
    let p = Prover::evaluate(&c).unwrap();
    assert_eq!(p.values.len(), 2);
    assert_eq!(p.values[0], vec![fe(5), fe(7)]);
    // layer 1 is padded to its index space of size 2
    assert_eq!(p.values[1], vec![fe(12), fe(0)]);
    assert_eq!(p.outputs(), &vec![fe(12), fe(0)]);
}

#[test]
fn gate_formulas_on_boolean_inputs() {
    // inputs are [1, 0]
    let p = Prover::evaluate(&two_layer(vec![
        gate(GateType::Xor, 0, 1),   // 1 xor 0 = 1
        gate(GateType::Xor, 0, 0),   // 1 xor 1 = 0
        gate(GateType::Not, 1, 0),   // not 0 = 1
        gate(GateType::Naab, 0, 1),  // (not 1) and 0 = 0
        gate(GateType::Naab, 1, 0),  // (not 0) and 1 = 1
        gate(GateType::Relay, 0, 0), // 1
        gate(GateType::DirectRelay, 1, 0), // 0
        gate(GateType::Mul, 0, 1),   // 0
    ]))
    .unwrap();
    assert_eq!(
        p.values[1],
        vec![fe(1), fe(0), fe(1), fe(0), fe(1), fe(1), fe(0), fe(0)]
    );
}

#[test]
fn arithmetic_gate_values() {
    let mut c = Circuit::new();
    c.add_layer(vec![gate(GateType::Input, 3, 0), gate(GateType::Input, 5, 0)]);
    c.add_layer(vec![
        gate(GateType::Mul, 0, 1),   // 15
        gate(GateType::Minus, 1, 0), // 2
        gate(GateType::Sum, 0, 2),   // 3 + 5 = 8
        gate(GateType::Sum, 1, 1),   // empty range = 0
        gate(GateType::Input, 9, 0), // literal 9 above layer 0
        gate(GateType::Dummy, 0, 0), // 0
    ]);
    let p = Prover::evaluate(&c).unwrap();
    assert_eq!(p.values[1][0], fe(15));
    assert_eq!(p.values[1][1], fe(2));
    assert_eq!(p.values[1][2], fe(8));
    assert_eq!(p.values[1][3], fe(0));
    assert_eq!(p.values[1][4], fe(9));
    assert_eq!(p.values[1][5], fe(0));
}

#[test]
fn negative_values_wrap() {
    // Minus(3 - 5) is the field's -2; Not(3) is -2 as well
    let mut c = Circuit::new();
    c.add_layer(vec![gate(GateType::Input, 3, 0), gate(GateType::Input, 5, 0)]);
    c.add_layer(vec![gate(GateType::Minus, 0, 1), gate(GateType::Not, 0, 0)]);
    let p = Prover::evaluate(&c).unwrap();
    let minus_two = fe(0).sub(&fe(2));
    assert_eq!(p.values[1][0], minus_two);
    assert_eq!(p.values[1][1], minus_two);
}

#[test]
fn empty_circuit_is_an_error() {
    let c = Circuit::new();
    assert!(matches!(
        Prover::evaluate(&c),
        Err(StructuralError::EmptyCircuit)
    ));
}

#[test]
fn non_input_gate_at_layer_zero_is_an_error() {
    let mut c = Circuit::new();
    c.add_layer(vec![gate(GateType::Add, 0, 0)]);
    assert!(matches!(
        Prover::evaluate(&c),
        Err(StructuralError::InvalidGateForLayer)
    ));
}

#[test]
fn out_of_range_operand_is_an_error() {
    // previous layer's padded index space has size 2; u = 5 reads outside it
    let p = Prover::evaluate(&two_layer(vec![gate(GateType::Add, 5, 0)]));
    assert!(matches!(p, Err(StructuralError::IndexOutOfRange)));
    // a Sum gate whose upper bound exceeds the space is also rejected
    let q = Prover::evaluate(&two_layer(vec![gate(GateType::Sum, 0, 3)]));
    assert!(matches!(q, Err(StructuralError::IndexOutOfRange)));
}

#[test]
fn trace_vectors_are_padded_to_the_index_space() {
    // three gates pad to size 4
    let p = Prover::evaluate(&two_layer(vec![
        gate(GateType::Relay, 0, 0),
        gate(GateType::Relay, 1, 0),
        gate(GateType::Relay, 0, 0),
    ]))
    .unwrap();
    assert_eq!(p.values[1].len(), 4);
    assert_eq!(p.values[1][3], fe(0));
}
