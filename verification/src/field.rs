//! Field elements of the BN254 scalar field, held as canonical
//! little-endian base-2^64 limbs. The arithmetic itself is supplied by
//! ark-bn254; every operation's result is specified as the canonical
//! integer of `algebra`.

use vstd::prelude::*;
use vstd::arithmetic::div_mod::{
    lemma_div_denominator, lemma_fundamental_div_mod, lemma_fundamental_div_mod_converse_div,
    lemma_fundamental_div_mod_converse_mod, lemma_mod_division_less_than_divisor,
    lemma_mod_multiples_vanish,
};
use vstd::arithmetic::power2::{lemma2_to64, lemma2_to64_rest, lemma_pow2_adds, lemma_pow2_pos,
    pow2};
use vstd::bits::{lemma_u64_low_bits_mask_is_mod, lemma_u64_shr_is_div};
use crate::algebra::{fadd, fmul, fsub, in_field};
use ark_ff::BigInt;
use ark_ff::PrimeField;

verus! {

/// An element of the BN254 scalar field: the canonical value
/// `l0 + 2^64 l1 + 2^128 l2 + 2^192 l3`, which is below the modulus.
#[derive(Clone, Copy, Debug, PartialEq, Eq, Structural)]
pub struct FieldElement {
    pub l0: u64,
    pub l1: u64,
    pub l2: u64,
    pub l3: u64,
}

/// The rand generator threaded through every randomized protocol step.
#[verifier::external_type_specification]
#[verifier::external_body]
pub struct ExStdRng(rand::rngs::StdRng);

impl FieldElement {
    /// The canonical integer this element stands for.
    pub open spec fn as_nat(self) -> nat {
        self.l0 as nat + self.l1 as nat * 0x10000000000000000
            + self.l2 as nat * 0x100000000000000000000000000000000
            + self.l3 as nat * 0x1000000000000000000000000000000000000000000000000
    }

    /// The limbs are the canonical representation: the value is reduced.
    pub open spec fn valid(self) -> bool {
        in_field(self.as_nat())
    }

    pub fn zero() -> (r: FieldElement)
        ensures
            r.valid(),
            r.as_nat() == 0,
    {
        FieldElement { l0: 0, l1: 0, l2: 0, l3: 0 }
    }

    pub fn one() -> (r: FieldElement)
        ensures
            r.valid(),
            r.as_nat() == 1,
    {
        FieldElement { l0: 1, l1: 0, l2: 0, l3: 0 }
    }

    /// Embeds a machine integer; every `u64` is already below the modulus.
    pub fn from_u64(x: u64) -> (r: FieldElement)
        ensures
            r.valid(),
            r.as_nat() == x as nat,
    {
        FieldElement { l0: x, l1: 0, l2: 0, l3: 0 }
    }

    /// Relies on ark_bn254::Fr via ark_ff::PrimeField: `from_bigint` embeds a
    /// canonical integer below the modulus, `+` adds mod the modulus, and
    /// `into_bigint` returns the canonical little-endian limbs.
    #[verifier::external_body]
    pub fn add(&self, other: &FieldElement) -> (r: FieldElement)
        requires
            self.valid(),
            other.valid(),
        ensures
            r.valid(),
            r.as_nat() == fadd(self.as_nat(), other.as_nat()),
    {
        let a = ark_bn254::Fr::from_bigint(BigInt([self.l0, self.l1, self.l2, self.l3])).unwrap();
        let b = ark_bn254::Fr::from_bigint(BigInt([other.l0, other.l1, other.l2, other.l3])).unwrap();
        let s = (a + b).into_bigint().0;
        FieldElement { l0: s[0], l1: s[1], l2: s[2], l3: s[3] }
    }

    /// Relies on ark_bn254::Fr via ark_ff::PrimeField: `-` subtracts mod the
    /// modulus; conversions as in `add`.
    #[verifier::external_body]
    pub fn sub(&self, other: &FieldElement) -> (r: FieldElement)
        requires
            self.valid(),
            other.valid(),
        ensures
            r.valid(),
            r.as_nat() == fsub(self.as_nat(), other.as_nat()),
    {
        let a = ark_bn254::Fr::from_bigint(BigInt([self.l0, self.l1, self.l2, self.l3])).unwrap();
        let b = ark_bn254::Fr::from_bigint(BigInt([other.l0, other.l1, other.l2, other.l3])).unwrap();
        let s = (a - b).into_bigint().0;
        FieldElement { l0: s[0], l1: s[1], l2: s[2], l3: s[3] }
    }

    /// Relies on ark_bn254::Fr via ark_ff::PrimeField: `*` multiplies mod the
    /// modulus; conversions as in `add`.
    #[verifier::external_body]
    pub fn mul(&self, other: &FieldElement) -> (r: FieldElement)
        requires
            self.valid(),
            other.valid(),
        ensures
            r.valid(),
            r.as_nat() == fmul(self.as_nat(), other.as_nat()),
    {
        let a = ark_bn254::Fr::from_bigint(BigInt([self.l0, self.l1, self.l2, self.l3])).unwrap();
        let b = ark_bn254::Fr::from_bigint(BigInt([other.l0, other.l1, other.l2, other.l3])).unwrap();
        let s = (a * b).into_bigint().0;
        FieldElement { l0: s[0], l1: s[1], l2: s[2], l3: s[3] }
    }

    /// Relies on ark_ff's `UniformRand` for ark_bn254::Fr: `rand` draws a
    /// field element from the caller's generator; `into_bigint` makes the
    /// result canonical, whatever was drawn.
    #[verifier::external_body]
    pub fn random(rng: &mut rand::rngs::StdRng) -> (r: FieldElement)
        ensures
            r.valid(),
    {
        let x = <ark_bn254::Fr as ark_ff::UniformRand>::rand(rng);
        let s = x.into_bigint().0;
        FieldElement { l0: s[0], l1: s[1], l2: s[2], l3: s[3] }
    }
}

/// The value of a decimal digit string, highest digit first.
pub open spec fn dec_val(s: Seq<char>) -> nat
    decreases s.len(),
{
    if s.len() == 0 {
        0
    } else {
        dec_val(s.drop_last()) * 10 + (if '0' <= s.last() <= '9' {
            (s.last() as nat - 48) as nat
        } else {
            0
        })
    }
}

/// A canonical decimal literal: at least one digit, no leading zero
/// unless the literal is `0` itself.
pub open spec fn plain_decimal(s: Seq<char>) -> bool {
    s.len() >= 1 && (forall|i: int| 0 <= i < s.len() ==> '0' <= #[trigger] s[i] <= '9') && (s.len()
        >= 2 ==> s[0] != '0')
}

/// Relies on ark_bn254::Fr's `FromStr`: a decimal literal is read and
/// reduced mod the modulus; every canonical literal is accepted, and
/// `into_bigint` makes the result canonical whatever was read.
#[verifier::external_body]
pub fn from_decimal(s: &str) -> (r: Option<FieldElement>)
    ensures
        r is Some ==> r.unwrap().valid(),
        plain_decimal(s@) ==> r is Some && r.unwrap().as_nat() == dec_val(s@)
            % crate::algebra::p(),
{
    match <ark_bn254::Fr as core::str::FromStr>::from_str(s) {
        Ok(x) => {
            let l = x.into_bigint().0;
            Some(FieldElement { l0: l[0], l1: l[1], l2: l[2], l3: l[3] })
        },
        Err(_) => None,
    }
}

/// Relies on rand's `SeedableRng::seed_from_u64` for `StdRng`: builds a
/// deterministic generator from a seed.
#[verifier::external_body]
pub fn rng_from_seed(seed: u64) -> rand::rngs::StdRng {
    <rand::rngs::StdRng as rand::SeedableRng>::seed_from_u64(seed)
}

/// Canonical limbs are unique: equal values have equal limbs.
pub proof fn lemma_limbs_unique(a: FieldElement, b: FieldElement)
    requires
        a.as_nat() == b.as_nat(),
    ensures
        a == b,
{
    let base = 0x10000000000000000int;
    lemma_limb_split(a);
    lemma_limb_split(b);
    let ha = a.l1 as int + a.l2 as int * base + a.l3 as int * base * base;
    let hb = b.l1 as int + b.l2 as int * base + b.l3 as int * base * base;
    lemma_fundamental_div_mod_converse_mod(a.as_nat() as int, base, ha, a.l0 as int);
    lemma_fundamental_div_mod_converse_mod(b.as_nat() as int, base, hb, b.l0 as int);
    lemma_fundamental_div_mod_converse_div(a.as_nat() as int, base, ha, a.l0 as int);
    lemma_fundamental_div_mod_converse_div(b.as_nat() as int, base, hb, b.l0 as int);
    let ha2 = a.l2 as int + a.l3 as int * base;
    let hb2 = b.l2 as int + b.l3 as int * base;
    assert(ha == (a.l1 as int) + ha2 * base) by (nonlinear_arith)
        requires
            ha == a.l1 as int + a.l2 as int * base + a.l3 as int * base * base,
            ha2 == a.l2 as int + a.l3 as int * base;
    assert(hb == (b.l1 as int) + hb2 * base) by (nonlinear_arith)
        requires
            hb == b.l1 as int + b.l2 as int * base + b.l3 as int * base * base,
            hb2 == b.l2 as int + b.l3 as int * base;
    lemma_fundamental_div_mod_converse_mod(ha, base, ha2, a.l1 as int);
    lemma_fundamental_div_mod_converse_mod(hb, base, hb2, b.l1 as int);
    lemma_fundamental_div_mod_converse_div(ha, base, ha2, a.l1 as int);
    lemma_fundamental_div_mod_converse_div(hb, base, hb2, b.l1 as int);
    lemma_fundamental_div_mod_converse_mod(ha2, base, a.l3 as int, a.l2 as int);
    lemma_fundamental_div_mod_converse_mod(hb2, base, b.l3 as int, b.l2 as int);
    lemma_fundamental_div_mod_converse_div(ha2, base, a.l3 as int, a.l2 as int);
    lemma_fundamental_div_mod_converse_div(hb2, base, b.l3 as int, b.l2 as int);
}

/// Helper: the value splits as low limb plus `2^64` times the high part.
proof fn lemma_limb_split(a: FieldElement)
    ensures
        a.as_nat() as int == (a.l1 as int + a.l2 as int * 0x10000000000000000
            + a.l3 as int * 0x10000000000000000 * 0x10000000000000000) * 0x10000000000000000
            + a.l0 as int,
{
    assert(a.as_nat() as int == (a.l1 as int + a.l2 as int * 0x10000000000000000
        + a.l3 as int * 0x10000000000000000 * 0x10000000000000000) * 0x10000000000000000
        + a.l0 as int) by (nonlinear_arith)
        requires
            a.as_nat() == a.l0 as nat + a.l1 as nat * 0x10000000000000000
                + a.l2 as nat * 0x100000000000000000000000000000000
                + a.l3 as nat * 0x1000000000000000000000000000000000000000000000000;
}


/// The base-2^64 digit weight.
pub open spec fn limb_base() -> nat {
    0x10000000000000000
}

/// The chunk of `c` bits of `n` that starts at bit `i`.
pub open spec fn chunk_of(n: nat, i: nat, c: nat) -> nat {
    (n / pow2(i)) % pow2(c)
}

/// The bit of `n` at position `i`.
pub open spec fn nth_bit(n: nat, i: nat) -> bool {
    chunk_of(n, i, 1) == 1
}

/// The limb of a field element that holds bit `i`.
pub open spec fn limb_at(a: FieldElement, i: nat) -> u64 {
    if i < 64 {
        a.l0
    } else if i < 128 {
        a.l1
    } else if i < 192 {
        a.l2
    } else {
        a.l3
    }
}

/// Chunks that stay inside the low limb ignore the high part.
proof fn lemma_chunk_low(l: u64, h: nat, i: nat, c: nat)
    requires
        1 <= c,
        i + c <= 64,
    ensures
        chunk_of(l as nat + h * limb_base(), i, c) == chunk_of(l as nat, i, c),
{
    let b = limb_base();
    let x = l as nat + h * b;
    lemma_pow2_pos(i);
    lemma_pow2_pos(c);
    lemma_pow2_pos((64 - i) as nat);
    lemma_pow2_pos((64 - i - c) as nat);
    lemma2_to64_rest();
    lemma_pow2_adds((64 - i) as nat, i);
    lemma_pow2_adds(c, (64 - i - c) as nat);
    lemma_fundamental_div_mod(l as int, pow2(i) as int);
    let q = (l as nat) / pow2(i);
    let r = (l as nat) % pow2(i);
    assert(x as int == (q + pow2((64 - i) as nat) * h) * pow2(i) + r) by (nonlinear_arith)
        requires
            l as nat == pow2(i) * q + r,
            x == l as nat + h * b,
            pow2((64 - i) as nat) * pow2(i) == b;
    lemma_mod_division_less_than_divisor(l as int, pow2(i) as int);
    lemma_fundamental_div_mod_converse_div(
        x as int,
        pow2(i) as int,
        (q + pow2((64 - i) as nat) * h) as int,
        r as int,
    );
    assert((q + pow2((64 - i) as nat) * h) as int == pow2(c) * (pow2((64 - i - c) as nat) * h)
        + q) by (nonlinear_arith)
        requires
            pow2((64 - i) as nat) == pow2(c) * pow2((64 - i - c) as nat);
    lemma_mod_multiples_vanish((pow2((64 - i - c) as nat) * h) as int, q as int, pow2(c) as int);
}

/// Dividing by `2^i` with `i >= 64` first divides off the low limb.
proof fn lemma_limb_shift(l: u64, h: nat, i: nat)
    requires
        64 <= i,
    ensures
        (l as nat + h * limb_base()) / pow2(i) == h / pow2((i - 64) as nat),
{
    let b = limb_base();
    let x = l as nat + h * b;
    lemma2_to64_rest();
    lemma_pow2_pos((i - 64) as nat);
    assert(x as int == (h as int) * (b as int) + l) by (nonlinear_arith)
        requires
            x == l as nat + h * b;
    lemma_fundamental_div_mod_converse_div(x as int, b as int, h as int, l as int);
    lemma_pow2_adds(64, (i - 64) as nat);
    lemma_div_denominator(x as int, b as int, pow2((i - 64) as nat) as int);
}

/// A chunk of the canonical value that does not straddle a limb boundary
/// is the same chunk of the limb that holds it.
proof fn lemma_limb_chunk(a: FieldElement, i: nat, c: nat)
    requires
        1 <= c,
        i < 256,
        i % 64 + c <= 64,
    ensures
        chunk_of(a.as_nat(), i, c) == chunk_of(limb_at(a, i) as nat, i % 64, c),
{
    let b = limb_base();
    let h1 = a.l1 as nat + b * (a.l2 as nat + b * (a.l3 as nat));
    let h2 = a.l2 as nat + b * (a.l3 as nat);
    let h3 = a.l3 as nat;
    assert(a.as_nat() == a.l0 as nat + h1 * b) by (nonlinear_arith)
        requires
            h1 == a.l1 as nat + b * (a.l2 as nat + b * (a.l3 as nat)),
            b == limb_base(),
            a.as_nat() == a.l0 as nat + a.l1 as nat * 0x10000000000000000
                + a.l2 as nat * 0x100000000000000000000000000000000
                + a.l3 as nat * 0x1000000000000000000000000000000000000000000000000;
    assert(h1 == a.l1 as nat + h2 * b) by (nonlinear_arith)
        requires
            h1 == a.l1 as nat + b * (a.l2 as nat + b * (a.l3 as nat)),
            h2 == a.l2 as nat + b * (a.l3 as nat),
            b == limb_base();
    assert(h2 == a.l2 as nat + h3 * b);
    if i < 64 {
        lemma_chunk_low(a.l0, h1, i, c);
    } else if i < 128 {
        lemma_limb_shift(a.l0, h1, i);
        lemma_pow2_pos((i - 64) as nat);
        lemma_pow2_pos(c);
        lemma_chunk_low(a.l1, h2, (i - 64) as nat, c);
    } else if i < 192 {
        lemma_limb_shift(a.l0, h1, i);
        lemma_limb_shift(a.l1, h2, (i - 64) as nat);
        lemma_chunk_low(a.l2, h3, (i - 128) as nat, c);
    } else {
        lemma_limb_shift(a.l0, h1, i);
        lemma_limb_shift(a.l1, h2, (i - 64) as nat);
        lemma_limb_shift(a.l2, h3, (i - 128) as nat);
        lemma_chunk_low(a.l3, 0, (i - 192) as nat, c);
    }
}

/// The least-significant `bits` of the canonical value, as little-endian
/// booleans.
pub fn bit_stream(fe: &FieldElement, bits: usize) -> (r: Vec<bool>)
    requires
        bits <= 256,
    ensures
        r@.len() == bits,
        forall|i: int| 0 <= i < bits ==> r@[i] == nth_bit(fe.as_nat(), i as nat),
{
    let mut out: Vec<bool> = Vec::new();
    let mut i: usize = 0;
    while i < bits
        invariant
            i <= bits,
            bits <= 256,
            out@.len() == i,
            forall|k: int| 0 <= k < i ==> out@[k] == nth_bit(fe.as_nat(), k as nat),
        decreases bits - i,
    {
        let limb: u64 = if i < 64 {
            fe.l0
        } else if i < 128 {
            fe.l1
        } else if i < 192 {
            fe.l2
        } else {
            fe.l3
        };
        let sh: u64 = (i as u64) % 64;
        let b = ((limb >> sh) & 1) == 1;
        proof {
            lemma_u64_shr_is_div(limb, sh);
            lemma_u64_low_bits_mask_is_mod(limb >> sh, 1);
            vstd::bits::lemma_low_bits_mask_unfold(1);
            lemma2_to64();
            lemma_limb_chunk(*fe, i as nat, 1);
            assert(limb == limb_at(*fe, i as nat));
            assert(sh as nat == (i as nat) % 64);
            assert(((limb >> sh) & 1) as nat == chunk_of(limb as nat, sh as nat, 1));
        }
        out.push(b);
        i = i + 1;
    }
    out
}

impl FieldElement {
    /// The least-significant `bits` of the canonical value, as
    /// little-endian booleans.
    pub fn to_bits_le(&self, bits: usize) -> (r: Vec<bool>)
        requires
            bits <= 256,
        ensures
            r@.len() == bits,
            forall|i: int| 0 <= i < bits ==> r@[i] == nth_bit(self.as_nat(), i as nat),
    {
        bit_stream(self, bits)
    }

    /// The canonical value as 32 little-endian bytes.
    pub fn to_le_bytes(&self) -> (r: Vec<u8>)
        ensures
            r@.len() == 32,
            forall|k: int| 0 <= k < 32 ==> r@[k] as nat == chunk_of(self.as_nat(), 8 * k as nat, 8),
    {
        let mut out: Vec<u8> = Vec::new();
        let mut k: usize = 0;
        while k < 32
            invariant
                k <= 32,
                out@.len() == k,
                forall|k2: int|
                    0 <= k2 < k ==> out@[k2] as nat == chunk_of(self.as_nat(), 8 * k2 as nat, 8),
            decreases 32 - k,
        {
            let limb: u64 = if k < 8 {
                self.l0
            } else if k < 16 {
                self.l1
            } else if k < 24 {
                self.l2
            } else {
                self.l3
            };
            let sh: u64 = 8 * ((k as u64) % 8);
            let byte = ((limb >> sh) & 0xff) as u8;
            proof {
                lemma_u64_shr_is_div(limb, sh);
                lemma_u64_low_bits_mask_is_mod(limb >> sh, 8);
                vstd::bits::lemma_low_bits_mask_values();
                lemma2_to64();
                lemma_limb_chunk(*self, (8 * k) as nat, 8);
                assert(limb == limb_at(*self, (8 * k) as nat));
                assert(sh as nat == ((8 * k) as nat) % 64);
                assert(((limb >> sh) & 0xff) as nat == chunk_of(limb as nat, sh as nat, 8));
            }
            out.push(byte);
            k = k + 1;
        }
        out
    }
}

} // verus!
