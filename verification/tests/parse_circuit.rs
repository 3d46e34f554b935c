use linear_gkr::circuit::bit_len;
use linear_gkr::gate::GateType;
use linear_gkr::parse::{parse_circuit, parse_sha, Error};

#[test]
fn parse_two_layer_circuit() {
    // depth 2; layer 0: Input(5), Input(7); layer 1: Add(u=0, v=1)
    let toks: Vec<u64> = vec![2, 2, 3, 0, 5, 0, 3, 1, 7, 0, 1, 0, 0, 0, 1];
    let c = parse_circuit(&toks).unwrap();
    assert_eq!(c.layers.len(), 2);
    assert_eq!(c.layers[0].gates.len(), 2);
    assert_eq!(c.layers[0].bit_length, 1);
    assert_eq!(c.layers[0].gates[0].ty, GateType::Input);
    assert_eq!(c.layers[0].gates[0].u, 5);
    assert_eq!(c.layers[0].gates[1].u, 7);
    assert_eq!(c.layers[1].gates.len(), 1);
    assert_eq!(c.layers[1].bit_length, 1);
    assert_eq!(c.layers[1].gates[0].ty, GateType::Add);
    assert_eq!(c.layers[1].gates[0].u, 0);
    assert_eq!(c.layers[1].gates[0].v, 1);
}

#[test]
fn non_dense_ids_are_rejected() {
    // layer header n=2 followed by gate ids (0, 2): not dense
    let toks: Vec<u64> = vec![1, 2, 3, 0, 5, 0, 3, 2, 7, 0];
    assert!(matches!(parse_circuit(&toks), Err(Error::NonDenseIds)));
}

#[test]
fn unsorted_ids_are_rejected() {
    let toks: Vec<u64> = vec![1, 2, 3, 1, 5, 0, 3, 0, 7, 0];
    assert!(matches!(parse_circuit(&toks), Err(Error::NonDenseIds)));
}

#[test]
fn unknown_gate_code_is_rejected() {
    let toks: Vec<u64> = vec![1, 1, 11, 0, 5, 0];
    assert!(matches!(parse_circuit(&toks), Err(Error::UnknownGateType)));
    let toks2: Vec<u64> = vec![1, 1, 99, 0, 5, 0];
    assert!(matches!(parse_circuit(&toks2), Err(Error::UnknownGateType)));
}

#[test]
fn truncated_streams_are_rejected() {
    let empty: Vec<u64> = vec![];
    assert!(matches!(parse_circuit(&empty), Err(Error::MissingToken)));
    // depth announced, no layer
    assert!(matches!(parse_circuit(&vec![1]), Err(Error::MissingToken)));
    // layer announces two gates but holds tokens for one
    assert!(matches!(parse_circuit(&vec![1, 2, 3, 0, 5, 0]), Err(Error::MissingToken)));
    // second layer missing entirely
    assert!(matches!(parse_circuit(&vec![2, 1, 3, 0, 5, 0]), Err(Error::MissingToken)));
}

#[test]
fn bad_code_reported_before_later_bad_id() {
    // gate 0 has a bad type code and gate 1 a bad id: the code wins
    let toks: Vec<u64> = vec![1, 2, 11, 0, 5, 0, 3, 7, 7, 0];
    assert!(matches!(parse_circuit(&toks), Err(Error::UnknownGateType)));
}

#[test]
fn trailing_tokens_are_ignored() {
    let toks: Vec<u64> = vec![1, 1, 3, 0, 5, 0, 42, 42];
    let c = parse_circuit(&toks).unwrap();
    assert_eq!(c.layers.len(), 1);
    assert_eq!(c.layers[0].gates.len(), 1);
}

#[test]
fn zero_depth_parses_to_empty_circuit() {
    let toks: Vec<u64> = vec![0];
    let c = parse_circuit(&toks).unwrap();
    assert_eq!(c.layers.len(), 0);
}

#[test]
fn bit_length_is_the_smallest_covering_power() {
    assert_eq!(bit_len(0), 1);
    assert_eq!(bit_len(1), 1);
    assert_eq!(bit_len(2), 1);
    assert_eq!(bit_len(3), 2);
    assert_eq!(bit_len(4), 2);
    assert_eq!(bit_len(5), 3);
    assert_eq!(bit_len(8), 3);
    assert_eq!(bit_len(9), 4);
    assert_eq!(bit_len(1024), 10);
    assert_eq!(bit_len(1025), 11);
}

#[test]
fn parse_sha_yields_empty_circuit() {
    let c = parse_sha("any description");
    assert_eq!(c.layers.len(), 0);
}

#[test]
fn all_canonical_codes_parse() {
    // one single-gate layer per code 0..=10, each preceded by an input layer
    for code in 0u64..=10 {
        let toks: Vec<u64> = vec![2, 2, 3, 0, 1, 0, 3, 1, 1, 0, 1, code, 0, 0, 1];
        let c = parse_circuit(&toks).unwrap();
        assert_eq!(c.layers.len(), 2);
    }
}
