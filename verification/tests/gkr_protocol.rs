use linear_gkr::circuit::Circuit;
use linear_gkr::field::{rng_from_seed, FieldElement};
use linear_gkr::gate::{Gate, GateType};
use linear_gkr::gkr::{beta_build, dot, Betas, Verifier};
use linear_gkr::parse::parse_circuit;
use linear_gkr::prover::Prover;

fn fe(x: u64) -> FieldElement {
    FieldElement::from_u64(x)
}

fn gate(ty: GateType, u: u64, v: u64) -> Gate {
    Gate { ty, u, v }
}

fn sum_all(v: &Vec<FieldElement>) -> FieldElement {
    let mut acc = FieldElement::zero();
    for x in v {
        acc = acc.add(x);
    }
    acc
}

/// The reference two-layer circuit: inputs 5 and 7, one Add gate.
fn add_circuit() -> Circuit {
    let toks: Vec<u64> = vec![2, 2, 3, 0, 5, 0, 3, 1, 7, 0, 1, 0, 0, 0, 1];
    parse_circuit(&toks).unwrap()
}

#[test]
fn end_to_end_accepts_honest_trace() {
    let c = add_circuit();
    let p = Prover::evaluate(&c).unwrap();
    assert_eq!(p.values[0], vec![fe(5), fe(7)]);
    assert_eq!(p.values[1][0], fe(12));
    for seed in 0..20u64 {
        let mut rng = rng_from_seed(seed);
        assert!(Verifier::verify(&c, &p, &mut rng));
    }
}

#[test]
fn end_to_end_rejects_corrupted_output() {
    let c = add_circuit();
    let mut p = Prover::evaluate(&c).unwrap();
    p.values[1][0] = fe(13);
    let mut rng = rng_from_seed(1);
    assert!(!Verifier::verify(&c, &p, &mut rng));
}

#[test]
fn deeper_circuit_with_mul_gates_accepts() {
    // inputs [2, 3, 4, 5]; layer 1 = [2*3, 4+5, 2+2, Dummy];
    // layer 2 = [6*9, 4+0]
    let mut c = Circuit::new();
    c.add_layer(vec![
        gate(GateType::Input, 2, 0),
        gate(GateType::Input, 3, 0),
        gate(GateType::Input, 4, 0),
        gate(GateType::Input, 5, 0),
    ]);
    c.add_layer(vec![
        gate(GateType::Mul, 0, 1),
        gate(GateType::Add, 2, 3),
        gate(GateType::Add, 0, 0),
        gate(GateType::Dummy, 0, 0),
    ]);
    c.add_layer(vec![gate(GateType::Mul, 0, 1), gate(GateType::Add, 2, 3)]);
    let p = Prover::evaluate(&c).unwrap();
    assert_eq!(p.values[2][0], fe(54));
    assert_eq!(p.values[2][1], fe(4));
    for seed in 0..10u64 {
        let mut rng = rng_from_seed(seed);
        assert!(Verifier::verify(&c, &p, &mut rng));
    }
}

#[test]
fn perturbing_any_trace_value_rejects() {
    // soundness smoke test: each single perturbation flips the verdict
    let mut c = Circuit::new();
    c.add_layer(vec![
        gate(GateType::Input, 2, 0),
        gate(GateType::Input, 3, 0),
        gate(GateType::Input, 4, 0),
        gate(GateType::Input, 5, 0),
    ]);
    c.add_layer(vec![
        gate(GateType::Mul, 0, 1),
        gate(GateType::Add, 2, 3),
        gate(GateType::Add, 0, 0),
        gate(GateType::Dummy, 0, 0),
    ]);
    c.add_layer(vec![gate(GateType::Mul, 0, 1), gate(GateType::Add, 2, 3)]);
    let honest = Prover::evaluate(&c).unwrap();
    for layer in 0..honest.values.len() {
        for slot in 0..honest.values[layer].len() {
            let mut p = Prover { values: honest.values.clone() };
            p.values[layer][slot] = p.values[layer][slot].add(&fe(1));
            let mut rng = rng_from_seed(17);
            assert!(
                !Verifier::verify(&c, &p, &mut rng),
                "perturbation at layer {layer} slot {slot} was not caught"
            );
        }
    }
}

#[test]
fn mle_at_all_zero_challenge_is_first_entry() {
    let v = vec![fe(5), fe(7)];
    assert_eq!(Verifier::v_res(&vec![fe(0)], &v), fe(5));
    let w = vec![fe(9), fe(8), fe(7), fe(6)];
    assert_eq!(Verifier::v_res(&vec![fe(0), fe(0)], &w), fe(9));
}

#[test]
fn mle_at_all_one_challenge_is_last_entry() {
    let v = vec![fe(5), fe(7)];
    assert_eq!(Verifier::v_res(&vec![fe(1)], &v), fe(7));
    let w = vec![fe(9), fe(8), fe(7), fe(6)];
    assert_eq!(Verifier::v_res(&vec![fe(1), fe(1)], &w), fe(6));
}

#[test]
fn mle_interpolates_between_entries() {
    // MLE([r], [a, b]) = a(1-r) + b r; at r=3 over [5, 7]: 5(-2) + 21 = 11
    let v = vec![fe(5), fe(7)];
    assert_eq!(Verifier::v_res(&vec![fe(3)], &v), fe(11));
}

#[test]
fn beta_tensor_mass_is_the_weight() {
    let r = vec![fe(3), fe(7)];
    let t = beta_build(&r, &fe(5));
    assert_eq!(t.len(), 4);
    assert_eq!(sum_all(&t), fe(5));
    // weight one over a longer challenge vector
    let r2 = vec![fe(11), fe(13), fe(17)];
    let t2 = beta_build(&r2, &fe(1));
    assert_eq!(t2.len(), 8);
    assert_eq!(sum_all(&t2), fe(1));
}

#[test]
fn beta_tensor_entries_are_the_bit_products() {
    // r = [r0], weight w: tensor is [w(1-r0), w r0]
    let t = beta_build(&vec![fe(3)], &fe(2));
    assert_eq!(t[0], fe(0).sub(&fe(4))); // 2 * (1 - 3)
    assert_eq!(t[1], fe(6));
    // boolean challenges give indicator vectors
    let z = beta_build(&vec![fe(0)], &fe(1));
    assert_eq!(z, vec![fe(1), fe(0)]);
    let o = beta_build(&vec![fe(1)], &fe(1));
    assert_eq!(o, vec![fe(0), fe(1)]);
}

#[test]
fn dot_product_exact() {
    let a = vec![fe(1), fe(2)];
    let b = vec![fe(3), fe(4)];
    assert_eq!(dot(&a, &b), fe(11));
}

#[test]
fn betas_wiring_terms() {
    let c = add_circuit();
    let betas = Betas::new(
        &c.layers[1],
        &c.layers[0],
        &fe(1),
        &fe(0),
        &vec![fe(2)],
        &vec![fe(3)],
        &vec![fe(4)],
        &vec![fe(5)],
    );
    // g_r0 = [1-2, 2] = [-1, 2]; g_r1 = [0, 0]; u = [-3, 4]; v = [-4, 5]
    assert_eq!(betas.g_r0[1], fe(2));
    assert_eq!(betas.g_r1, vec![fe(0), fe(0)]);
    assert_eq!(betas.u[1], fe(4));
    // add_value(0, 0, 1) = (g_r0[0] + g_r1[0]) * u[0] * v[1]
    // = (-1) * (-3) * 5 = 15
    assert_eq!(betas.add_value(0, 0, 1), fe(15));
    assert_eq!(betas.mul_value(0, 0, 1), fe(15));
}
