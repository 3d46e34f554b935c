use linear_gkr::field::{from_decimal, rng_from_seed, FieldElement};

fn fe(x: u64) -> FieldElement {
    FieldElement::from_u64(x)
}

#[test]
fn add_small_values() {
    assert_eq!(fe(1).add(&fe(2)), fe(3));
    assert_eq!(fe(0).add(&fe(0)), fe(0));
    assert_eq!(fe(123456789).add(&fe(987654321)), fe(1111111110));
}

#[test]
fn mul_small_values() {
    assert_eq!(fe(2).mul(&fe(3)), fe(6));
    assert_eq!(fe(0).mul(&fe(77)), fe(0));
    assert_eq!(fe(1).mul(&fe(77)), fe(77));
    assert_eq!(fe(1000000).mul(&fe(1000000)), fe(1000000000000));
}

#[test]
fn sub_small_values() {
    assert_eq!(fe(5).sub(&fe(3)), fe(2));
    assert_eq!(fe(5).sub(&fe(5)), fe(0));
}

#[test]
fn sub_wraps_around_the_modulus() {
    // 0 - 1 is the largest canonical value; adding 1 returns to 0.
    let minus_one = fe(0).sub(&fe(1));
    assert_ne!(minus_one, fe(0));
    assert_eq!(minus_one.add(&fe(1)), fe(0));
    // and doubling it is -2
    assert_eq!(minus_one.add(&minus_one), fe(0).sub(&fe(2)));
}

#[test]
fn zero_and_one_are_identities() {
    let x = fe(42);
    assert_eq!(FieldElement::zero(), fe(0));
    assert_eq!(FieldElement::one(), fe(1));
    assert_eq!(x.add(&FieldElement::zero()), x);
    assert_eq!(x.mul(&FieldElement::one()), x);
    assert_eq!(x.mul(&FieldElement::zero()), FieldElement::zero());
}

#[test]
fn mul_distributes_over_add() {
    let a = fe(1234);
    let b = fe(5678);
    let c = fe(91011);
    assert_eq!(a.mul(&b.add(&c)), a.mul(&b).add(&a.mul(&c)));
}

#[test]
fn random_is_deterministic_per_seed() {
    let mut rng1 = rng_from_seed(7);
    let mut rng2 = rng_from_seed(7);
    let a = FieldElement::random(&mut rng1);
    let b = FieldElement::random(&mut rng2);
    assert_eq!(a, b);
    // and the stream moves on
    let c = FieldElement::random(&mut rng1);
    let d = FieldElement::random(&mut rng2);
    assert_eq!(c, d);
    assert_ne!(a, c);
}

#[test]
fn bits_of_small_values() {
    // 0b1011 = 11
    let x = fe(11);
    let bits = x.to_bits_le(8);
    assert_eq!(bits, vec![true, true, false, true, false, false, false, false]);
    // the free-standing form agrees
    assert_eq!(linear_gkr::field::bit_stream(&x, 8), bits);
    // asking for no bits yields none
    assert_eq!(x.to_bits_le(0).len(), 0);
}

#[test]
fn bits_cross_limb_boundaries() {
    // -1 has every low bit set up to the modulus's top; bit 0 of p-1 is 0
    let minus_one = fe(0).sub(&fe(1));
    let bits = minus_one.to_bits_le(256);
    assert_eq!(bits.len(), 256);
    assert!(!bits[0]); // p is odd, so p - 1 is even
    // a value with only bit 64 set: 2^32 squared
    let x = fe(1 << 32).mul(&fe(1 << 32));
    let bits64 = x.to_bits_le(66);
    assert!(bits64[64]);
    assert!(!bits64[63]);
    assert!(!bits64[65]);
}

#[test]
fn le_bytes_of_small_values() {
    let x = fe(0x0102030405060708);
    let bytes = x.to_le_bytes();
    assert_eq!(bytes.len(), 32);
    assert_eq!(bytes[0], 0x08);
    assert_eq!(bytes[1], 0x07);
    assert_eq!(bytes[7], 0x01);
    assert_eq!(bytes[8], 0x00);
    // byte 8 of 2^64 is 1
    let y = fe(1 << 32).mul(&fe(1 << 32));
    assert_eq!(y.to_le_bytes()[8], 1);
}

#[test]
fn decimal_literals_parse() {
    assert_eq!(from_decimal("123"), Some(fe(123)));
    assert_eq!(from_decimal("0"), Some(fe(0)));
    // the modulus itself reduces to zero
    let p10 = "21888242871839275222246405745257275088548364400416034343698204186575808495617";
    assert_eq!(from_decimal(p10), Some(fe(0)));
    // one below the modulus is -1
    let p10m1 = "21888242871839275222246405745257275088548364400416034343698204186575808495616";
    assert_eq!(from_decimal(p10m1), Some(fe(0).sub(&fe(1))));
    assert_eq!(from_decimal("not a number"), None);
    assert_eq!(from_decimal(""), None);
}
