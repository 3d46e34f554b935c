//! The mathematical model of the BN254 scalar field: canonical integers
//! below the modulus, with addition, subtraction and multiplication mod p,
//! and finite sums of sequences of such values.

use vstd::prelude::*;
use vstd::arithmetic::div_mod::{
    lemma_add_mod_noop, lemma_add_mod_noop_right, lemma_mod_division_less_than_divisor,
    lemma_mod_multiples_vanish, lemma_mul_mod_noop_general, lemma_mul_mod_noop_left,
    lemma_mul_mod_noop_right,
    lemma_small_mod,
};
use vstd::arithmetic::mul::{lemma_mul_is_associative, lemma_mul_is_commutative, lemma_mul_is_distributive_add};

verus! {

/// The BN254 scalar field modulus.
pub open spec fn p() -> nat {
    21888242871839275222246405745257275088548364400416034343698204186575808495617nat
}

/// `a` is a canonical field value.
pub open spec fn in_field(a: nat) -> bool {
    a < p()
}

/// Field addition: `(a + b) mod p`.
pub open spec fn fadd(a: nat, b: nat) -> nat {
    (a + b) % p()
}

/// Field subtraction: `(a - b) mod p`, for canonical `b`.
pub open spec fn fsub(a: nat, b: nat) -> nat
    recommends
        b < p(),
{
    (((a + p()) - b) % (p() as int)) as nat
}

/// Field multiplication: `(a * b) mod p`.
pub open spec fn fmul(a: nat, b: nat) -> nat {
    (a * b) % p()
}

pub proof fn lemma_fadd_range(a: nat, b: nat)
    ensures
        in_field(fadd(a, b)),
{
    lemma_mod_division_less_than_divisor((a + b) as int, p() as int);
}

pub proof fn lemma_fsub_range(a: nat, b: nat)
    ensures
        in_field(fsub(a, b)),
{
    lemma_mod_division_less_than_divisor((a + p()) - b, p() as int);
}

pub proof fn lemma_fmul_range(a: nat, b: nat)
    ensures
        in_field(fmul(a, b)),
{
    lemma_mod_division_less_than_divisor((a * b) as int, p() as int);
}

pub proof fn lemma_fadd_zero(a: nat)
    requires
        in_field(a),
    ensures
        fadd(a, 0) == a,
        fadd(0, a) == a,
{
    lemma_small_mod(a, p());
}

pub proof fn lemma_fmul_zero(a: nat)
    ensures
        fmul(a, 0) == 0,
        fmul(0, a) == 0,
{
    lemma_small_mod(0, p());
}

pub proof fn lemma_fmul_one(a: nat)
    requires
        in_field(a),
    ensures
        fmul(a, 1) == a,
        fmul(1, a) == a,
{
    lemma_small_mod(a, p());
}

pub proof fn lemma_fadd_assoc(a: nat, b: nat, c: nat)
    ensures
        fadd(fadd(a, b), c) == fadd(a, fadd(b, c)),
{
    lemma_add_mod_noop_right(c as int, (a + b) as int, p() as int);
    lemma_add_mod_noop_right(a as int, (b + c) as int, p() as int);
}

pub proof fn lemma_fmul_assoc(a: nat, b: nat, c: nat)
    ensures
        fmul(fmul(a, b), c) == fmul(a, fmul(b, c)),
{
    lemma_mul_mod_noop_left((a * b) as int, c as int, p() as int);
    lemma_mul_is_associative(a as int, b as int, c as int);
    lemma_mul_mod_noop_right(a as int, (b * c) as int, p() as int);
}

pub proof fn lemma_fmul_distrib(a: nat, b: nat, c: nat)
    ensures
        fmul(a, fadd(b, c)) == fadd(fmul(a, b), fmul(a, c)),
{
    lemma_mul_mod_noop_right(a as int, (b + c) as int, p() as int);
    lemma_mul_is_distributive_add(a as int, b as int, c as int);
    lemma_add_mod_noop((a * b) as int, (a * c) as int, p() as int);
}

pub proof fn lemma_fmul_comm(a: nat, b: nat)
    ensures
        fmul(a, b) == fmul(b, a),
{
    lemma_mul_is_commutative(a as int, b as int);
}

pub proof fn lemma_fmul_distrib_r(a: nat, b: nat, c: nat)
    ensures
        fmul(fadd(a, b), c) == fadd(fmul(a, c), fmul(b, c)),
{
    lemma_fmul_comm(fadd(a, b), c);
    lemma_fmul_distrib(c, a, b);
    lemma_fmul_comm(c, a);
    lemma_fmul_comm(c, b);
}

/// One Horner step respects coefficient-wise addition.
pub proof fn lemma_horner_step_add(s1: nat, s2: nat, k1: nat, k2: nat, x: nat)
    ensures
        fadd(fmul(fadd(s1, s2), x), fadd(k1, k2)) == fadd(
            fadd(fmul(s1, x), k1),
            fadd(fmul(s2, x), k2),
        ),
{
    lemma_fmul_distrib_r(s1, s2, x);
    lemma_fadd_exchange(fmul(s1, x), fmul(s2, x), k1, k2);
}

/// Splitting a value along one challenge bit conserves it:
/// `t * (1 - r) + t * r == t` in the field.
pub proof fn lemma_split_factor(t: nat, r: nat)
    requires
        in_field(t),
        in_field(r),
    ensures
        fadd(fmul(t, fsub(1, r)), fmul(t, r)) == t,
{
    let pi = p() as int;
    let s = (1 + pi) - r;
    lemma_mod_division_less_than_divisor(s, pi);
    lemma_mul_mod_noop_right(t as int, s, pi);
    lemma_add_mod_noop((t as int) * s, (t * r) as int, pi);
    assert((t as int) * ((1 + pi) - (r as int)) + (t as int) * (r as int) == t + (t as int) * pi)
        by (nonlinear_arith);
    lemma_mod_multiples_vanish(t as int, t as int, pi);
    lemma_small_mod(t, p());
}

/// Exchanging the grouping of four summands.
pub proof fn lemma_fadd_exchange(w: nat, x: nat, y: nat, z: nat)
    ensures
        fadd(fadd(w, x), fadd(y, z)) == fadd(fadd(w, y), fadd(x, z)),
{
    let pi = p() as int;
    lemma_add_mod_noop((w + x) as int, (y + z) as int, pi);
    lemma_add_mod_noop((w + y) as int, (x + z) as int, pi);
}

/// Every entry of `s` is a canonical field value.
pub open spec fn all_in_field(s: Seq<nat>) -> bool {
    forall|i: int| 0 <= i < s.len() ==> in_field(#[trigger] s[i])
}

/// Recombining one split pair under a common tensor weight:
/// `w s0 b x + w r0 b y == w b (x s0 + y r0)` in the field.
pub proof fn lemma_pair_combine(w: nat, b: nat, s0: nat, r0: nat, x: nat, y: nat)
    ensures
        fadd(fmul(fmul(fmul(w, s0), b), x), fmul(fmul(fmul(w, r0), b), y)) == fmul(
            fmul(w, b),
            fadd(fmul(x, s0), fmul(y, r0)),
        ),
{
    let pi = p() as int;
    lemma_mul_mod_noop_left((w * s0) as int, b as int, pi);
    lemma_mul_mod_noop_left((w * s0 * b) as int, x as int, pi);
    lemma_mul_mod_noop_left((w * r0) as int, b as int, pi);
    lemma_mul_mod_noop_left((w * r0 * b) as int, y as int, pi);
    lemma_add_mod_noop((w * s0 * b * x) as int, (w * r0 * b * y) as int, pi);
    lemma_add_mod_noop((x * s0) as int, (y * r0) as int, pi);
    lemma_mul_mod_noop_general((w * b) as int, (x * s0 + y * r0) as int, pi);
    assert((w * s0 * b * x) as int + (w * r0 * b * y) as int == (w * b) as int * ((x * s0 + y
        * r0) as int)) by (nonlinear_arith);
}

/// The sum of a sequence of field values, reduced mod p.
pub open spec fn fsum(s: Seq<nat>) -> nat
    decreases s.len(),
{
    if s.len() == 0 {
        0
    } else {
        fadd(fsum(s.drop_last()), s.last())
    }
}

pub proof fn lemma_fsum_range(s: Seq<nat>)
    ensures
        in_field(fsum(s)),
    decreases s.len(),
{
    if s.len() == 0 {
    } else {
        lemma_fadd_range(fsum(s.drop_last()), s.last());
    }
}

pub proof fn lemma_fsum_push(s: Seq<nat>, x: nat)
    ensures
        fsum(s.push(x)) == fadd(fsum(s), x),
{
    assert(s.push(x).drop_last() =~= s);
}

/// Summing a pointwise field sum of two sequences equals the field sum
/// of their individual sums.
pub proof fn lemma_fsum_pointwise_add(a: Seq<nat>, b: Seq<nat>, c: Seq<nat>)
    requires
        a.len() == b.len(),
        c.len() == a.len(),
        forall|i: int| 0 <= i < c.len() ==> c[i] == fadd(a[i], b[i]),
    ensures
        fsum(c) == fadd(fsum(a), fsum(b)),
    decreases c.len(),
{
    if c.len() == 0 {
        lemma_fadd_zero(0);
    } else {
        lemma_fsum_pointwise_add(a.drop_last(), b.drop_last(), c.drop_last());
        lemma_fadd_exchange(fsum(a.drop_last()), fsum(b.drop_last()), a.last(), b.last());
    }
}

/// A sum is unchanged by removing a suffix of zeros.
pub proof fn lemma_fsum_zero_suffix(s: Seq<nat>, k: nat)
    requires
        k <= s.len(),
        forall|i: int| k <= i < s.len() ==> s[i] == 0,
    ensures
        fsum(s) == fsum(s.take(k as int)),
    decreases s.len() - k,
{
    if s.len() == k {
        assert(s.take(k as int) =~= s);
    } else {
        lemma_fsum_range(s.drop_last());
        lemma_fadd_zero(fsum(s.drop_last()));
        lemma_fsum_zero_suffix(s.drop_last(), k);
        assert(s.drop_last().take(k as int) =~= s.take(k as int));
    }
}

/// Summing adjacent pairs first does not change a sum.
pub proof fn lemma_fsum_pairs(s: Seq<nat>, t: Seq<nat>)
    requires
        s.len() == 2 * t.len(),
        forall|j: int| 0 <= j < t.len() ==> t[j] == fadd(s[2 * j], s[2 * j + 1]),
    ensures
        fsum(s) == fsum(t),
    decreases t.len(),
{
    if t.len() == 0 {
    } else {
        let m = t.len() as int;
        let s2 = s.take(2 * m - 2);
        assert(s.drop_last().drop_last() =~= s2);
        assert(s.drop_last().last() == s[2 * m - 2]);
        assert(fsum(s.drop_last()) == fadd(fsum(s2), s[2 * m - 2]));
        assert(fsum(s) == fadd(fadd(fsum(s2), s[2 * m - 2]), s[2 * m - 1]));
        lemma_fadd_assoc(fsum(s2), s[2 * m - 2], s[2 * m - 1]);
        assert(t[m - 1] == fadd(s[2 * (m - 1)], s[2 * (m - 1) + 1]));
        assert(forall|j: int|
            0 <= j < m - 1 ==> t.drop_last()[j] == fadd(s2[2 * j], s2[2 * j + 1]));
        lemma_fsum_pairs(s2, t.drop_last());
        assert(fsum(t) == fadd(fsum(t.drop_last()), t[m - 1]));
    }
}

} // verus!
