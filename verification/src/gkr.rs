//! The verifier: reduces a claim about the output layer to a claim about
//! the input layer, one layer per round, through equality-weight tensors
//! and multilinear-extension evaluations of the prover's trace.

use vstd::prelude::*;
use vstd::arithmetic::power2::{lemma2_to64, lemma_pow2_pos, lemma_pow2_unfold, pow2};
use crate::algebra::{all_in_field, fadd, fmul, fsub, fsum, in_field, lemma_fadd_range,
    lemma_fadd_zero, lemma_fmul_assoc, lemma_fmul_distrib_r, lemma_fmul_one, lemma_fmul_range,
    lemma_fmul_zero, lemma_fsub_range, lemma_fsum_pairs, lemma_fsum_pointwise_add,
    lemma_fsum_push, lemma_fsum_range, lemma_fsum_zero_suffix, lemma_pair_combine,
    lemma_split_factor, p};
use crate::circuit::{lemma_blen_bounds, operands_ok, pow2_exec, Circuit, Layer};
use crate::field::{lemma_limbs_unique, FieldElement};
use crate::gate::{Gate, GateType};
use crate::prover::{all_valid, gate_val, layer0_vals, lemma_vals_props, trace_layer, vals,
    Prover};

verus! {

/// The equality weight of index `j` against challenge vector `r`, scaled
/// by `w`: `w * prod_i (r_i if bit i of j is 1 else 1 - r_i)`, reduced.
pub open spec fn beta_pt(r: Seq<nat>, w: nat, j: nat) -> nat
    decreases r.len(),
{
    if r.len() == 0 {
        w % p()
    } else if j % 2 == 1 {
        beta_pt(r.drop_first(), fmul(w, r[0]), j / 2)
    } else {
        beta_pt(r.drop_first(), fmul(w, fsub(1, r[0])), j / 2)
    }
}

/// The dense equality-weight tensor over the whole index space of `r`.
pub open spec fn beta_seq(r: Seq<nat>, w: nat) -> Seq<nat> {
    Seq::new(pow2(r.len()), |j: int| beta_pt(r, w, j as nat))
}

/// One halving step of the multilinear-extension evaluation.
pub open spec fn fold_step(r0: nat, v: Seq<nat>) -> Seq<nat> {
    Seq::new(
        v.len() / 2,
        |j: int| fadd(fmul(v[2 * j], fsub(1, r0)), fmul(v[2 * j + 1], r0)),
    )
}

/// The multilinear extension of vector `v` evaluated at challenge vector
/// `r`, by repeated halving.
pub open spec fn mle(r: Seq<nat>, v: Seq<nat>) -> nat
    decreases r.len(),
{
    if r.len() == 0 {
        if v.len() > 0 {
            v[0]
        } else {
            0
        }
    } else {
        mle(r.drop_first(), fold_step(r[0], v))
    }
}

/// The field dot product of two equally long vectors.
pub open spec fn fdot(a: Seq<nat>, b: Seq<nat>) -> nat
    recommends
        a.len() == b.len(),
{
    fsum(Seq::new(a.len(), |j: int| fmul(a[j], b[j])))
}

pub proof fn lemma_beta_pt_range(r: Seq<nat>, w: nat, j: nat)
    ensures
        in_field(beta_pt(r, w, j)),
    decreases r.len(),
{
    if r.len() == 0 {
        vstd::arithmetic::div_mod::lemma_mod_division_less_than_divisor(w as int, p() as int);
    } else if j % 2 == 1 {
        lemma_beta_pt_range(r.drop_first(), fmul(w, r[0]), j / 2);
    } else {
        lemma_beta_pt_range(r.drop_first(), fmul(w, fsub(1, r[0])), j / 2);
    }
}

/// The weight scales out of an equality-weight point.
pub proof fn lemma_beta_pt_factor(r: Seq<nat>, w: nat, j: nat)
    requires
        in_field(w),
        all_in_field(r),
    ensures
        beta_pt(r, w, j) == fmul(w, beta_pt(r, 1, j)),
    decreases r.len(),
{
    if r.len() == 0 {
        lemma_fmul_one(w);
        vstd::arithmetic::div_mod::lemma_small_mod(1, p());
        vstd::arithmetic::div_mod::lemma_small_mod(w, p());
    } else {
        let r2 = r.drop_first();
        assert(all_in_field(r2)) by {
            assert(forall|i: int| 0 <= i < r2.len() ==> r2[i] == r[i + 1]);
        }
        let f = if j % 2 == 1 {
            r[0]
        } else {
            fsub(1, r[0])
        };
        if j % 2 != 1 {
            lemma_fsub_range(1, r[0]);
        }
        lemma_fmul_range(w, f);
        lemma_beta_pt_factor(r2, fmul(w, f), j / 2);
        lemma_beta_pt_factor(r2, f, j / 2);
        lemma_fmul_one(f);
        lemma_fmul_assoc(w, f, beta_pt(r2, 1, j / 2));
    }
}

/// Unrolling an equality-weight point at its highest challenge bit.
pub proof fn lemma_beta_pt_snoc(r: Seq<nat>, x: nat, w: nat, j: nat)
    requires
        in_field(w),
        in_field(x),
        all_in_field(r),
        j < pow2(r.len() + 1),
    ensures
        j < pow2(r.len()) ==> beta_pt(r.push(x), w, j) == fmul(beta_pt(r, w, j), fsub(1, x)),
        j >= pow2(r.len()) ==> beta_pt(r.push(x), w, j) == fmul(
            beta_pt(r, w, (j - pow2(r.len())) as nat),
            x,
        ),
    decreases r.len(),
{
    lemma2_to64();
    reveal_with_fuel(beta_pt, 4);
    if r.len() == 0 {
        vstd::arithmetic::div_mod::lemma_small_mod(w, p());
        assert(r.push(x).drop_first() =~= r);
        if j == 0 {
            lemma_fsub_range(1, x);
            lemma_fmul_range(w, fsub(1, x));
            vstd::arithmetic::div_mod::lemma_small_mod(fmul(w, fsub(1, x)), p());
        } else {
            lemma_fmul_range(w, x);
            vstd::arithmetic::div_mod::lemma_small_mod(fmul(w, x), p());
        }
    } else {
        let r2 = r.drop_first();
        assert(all_in_field(r2)) by {
            assert(forall|i: int| 0 <= i < r2.len() ==> r2[i] == r[i + 1]);
        }
        assert(r.push(x).drop_first() =~= r2.push(x));
        assert(r.push(x)[0] == r[0]);
        let f = if j % 2 == 1 {
            r[0]
        } else {
            fsub(1, r[0])
        };
        if j % 2 != 1 {
            lemma_fsub_range(1, r[0]);
        }
        lemma_fmul_range(w, f);
        lemma_pow2_unfold(r.len() + 1);
        lemma_pow2_unfold(r.len());
        assert(beta_pt(r.push(x), w, j) == beta_pt(r2.push(x), fmul(w, f), j / 2));
        assert(beta_pt(r, w, j) == beta_pt(r2, fmul(w, f), j / 2));
        lemma_beta_pt_snoc(r2, x, fmul(w, f), j / 2);
        if j >= pow2(r.len()) {
            let j2 = (j - pow2(r.len())) as nat;
            assert(j2 / 2 == j / 2 - pow2(r2.len()));
            assert(j2 % 2 == j % 2);
            assert(beta_pt(r, w, j2) == beta_pt(r2, fmul(w, f), (j / 2 - pow2(r2.len())) as nat));
        } else {
            assert(j / 2 < pow2(r2.len()));
        }
    }
}

/// The dot product against an equality-weight tensor computes the scaled
/// multilinear extension.
pub proof fn lemma_fdot_beta(r: Seq<nat>, w: nat, v: Seq<nat>)
    requires
        in_field(w),
        all_in_field(r),
        all_in_field(v),
        v.len() == pow2(r.len()),
    ensures
        fdot(beta_seq(r, w), v) == fmul(w, mle(r, v)),
    decreases r.len(),
{
    lemma2_to64();
    lemma_pow2_pos(r.len());
    reveal_with_fuel(beta_pt, 3);
    reveal_with_fuel(fsum, 3);
    reveal_with_fuel(mle, 3);
    let terms = Seq::new(v.len(), |j: int| fmul(beta_seq(r, w)[j], v[j]));
    assert(terms =~= Seq::new(
        beta_seq(r, w).len(),
        |j: int| fmul(beta_seq(r, w)[j], v[j]),
    ));
    assert(fdot(beta_seq(r, w), v) == fsum(terms));
    if r.len() == 0 {
        assert(terms =~= seq![fmul(beta_pt(r, w, 0), v[0])]);
        assert(terms.drop_last() =~= Seq::<nat>::empty());
        vstd::arithmetic::div_mod::lemma_small_mod(w, p());
        lemma_fmul_range(w, v[0]);
        lemma_fadd_zero(fmul(w, v[0]));
    } else {
        let r2 = r.drop_first();
        assert(all_in_field(r2)) by {
            assert(forall|i: int| 0 <= i < r2.len() ==> r2[i] == r[i + 1]);
        }
        let r0 = r[0];
        let s0 = fsub(1, r0);
        lemma_fsub_range(1, r0);
        let w0 = fmul(w, s0);
        let w1 = fmul(w, r0);
        lemma_fmul_range(w, s0);
        lemma_fmul_range(w, r0);
        lemma_pow2_unfold(r.len());
        let m = pow2(r2.len());
        let fv = fold_step(r0, v);
        assert(fv.len() == m);
        assert(all_in_field(fv)) by {
            assert(forall|j: int|
                0 <= j < fv.len() ==> fv[j] == fadd(
                    fmul(v[2 * j], s0),
                    fmul(v[2 * j + 1], r0),
                ));
            assert forall|j: int| 0 <= j < fv.len() implies in_field(#[trigger] fv[j]) by {
                lemma_fadd_range(fmul(v[2 * j], s0), fmul(v[2 * j + 1], r0));
            }
        }
        let pairs = Seq::new(m, |j: int| fmul(beta_seq(r2, w)[j], fv[j]));
        assert forall|j: int| 0 <= j < m as int implies pairs[j] == fadd(
            terms[2 * j],
            terms[2 * j + 1],
        ) by {
            let jn = j as nat;
            let b = beta_pt(r2, 1, jn);
            assert(beta_pt(r, w, 2 * jn) == beta_pt(r2, w0, jn));
            assert(beta_pt(r, w, 2 * jn + 1) == beta_pt(r2, w1, jn)) by {
                assert((2 * jn + 1) % 2 == 1);
                assert((2 * jn + 1) / 2 == jn);
            }
            lemma_beta_pt_factor(r2, w0, jn);
            lemma_beta_pt_factor(r2, w1, jn);
            lemma_beta_pt_factor(r2, w, jn);
            lemma_pair_combine(w, b, s0, r0, v[2 * j], v[2 * j + 1]);
        }
        lemma_fsum_pairs(terms, pairs);
        assert(pairs =~= Seq::new(
            beta_seq(r2, w).len(),
            |j: int| fmul(beta_seq(r2, w)[j], fv[j]),
        ));
        assert(fdot(beta_seq(r2, w), fv) == fsum(pairs));
        lemma_fdot_beta(r2, w, fv);
        assert(mle(r, v) == mle(r2, fv));
    }
}

/// The multilinear extension of a vector of field values is a field value.
pub proof fn lemma_mle_range(r: Seq<nat>, v: Seq<nat>)
    requires
        all_in_field(v),
        v.len() == pow2(r.len()),
    ensures
        in_field(mle(r, v)),
    decreases r.len(),
{
    lemma2_to64();
    lemma_pow2_pos(r.len());
    if r.len() == 0 {
    } else {
        let r2 = r.drop_first();
        let r0 = r[0];
        let fv = fold_step(r0, v);
        lemma_pow2_unfold(r.len());
        lemma_pow2_pos(r2.len());
        assert(all_in_field(fv)) by {
            assert forall|j: int| 0 <= j < fv.len() implies in_field(#[trigger] fv[j]) by {
                lemma_fadd_range(fmul(v[2 * j], fsub(1, r0)), fmul(v[2 * j + 1], r0));
            }
        }
        lemma_mle_range(r2, fv);
    }
}

/// Law: the multilinear extension at the all-zero challenge vector is the
/// vector's first entry.
pub proof fn lemma_mle_all_zero(r: Seq<nat>, v: Seq<nat>)
    requires
        all_in_field(v),
        v.len() == pow2(r.len()),
        forall|i: int| 0 <= i < r.len() ==> r[i] == 0,
    ensures
        mle(r, v) == v[0],
    decreases r.len(),
{
    lemma2_to64();
    lemma_pow2_pos(r.len());
    if r.len() == 0 {
    } else {
        let r2 = r.drop_first();
        let fv = fold_step(r[0], v);
        lemma_pow2_unfold(r.len());
        lemma_pow2_pos(r2.len());
        vstd::arithmetic::div_mod::lemma_mod_add_multiples_vanish(1, p() as int);
        vstd::arithmetic::div_mod::lemma_small_mod(1, p());
        assert(fsub(1, 0) == 1);
        assert(all_in_field(fv) && forall|j: int| 0 <= j < fv.len() ==> fv[j] == v[2 * j]) by {
            assert forall|j: int| 0 <= j < fv.len() implies in_field(#[trigger] fv[j]) && fv[j]
                == v[2 * j] by {
                lemma_fmul_one(v[2 * j]);
                lemma_fmul_zero(v[2 * j + 1]);
                lemma_fadd_zero(v[2 * j]);
            }
        }
        lemma_mle_all_zero(r2, fv);
    }
}

/// Law: the multilinear extension at the all-one challenge vector is the
/// vector's last entry.
pub proof fn lemma_mle_all_one(r: Seq<nat>, v: Seq<nat>)
    requires
        all_in_field(v),
        v.len() == pow2(r.len()),
        forall|i: int| 0 <= i < r.len() ==> r[i] == 1,
    ensures
        mle(r, v) == v[v.len() - 1],
    decreases r.len(),
{
    lemma2_to64();
    lemma_pow2_pos(r.len());
    if r.len() == 0 {
    } else {
        let r2 = r.drop_first();
        let fv = fold_step(r[0], v);
        lemma_pow2_unfold(r.len());
        lemma_pow2_pos(r2.len());
        vstd::arithmetic::div_mod::lemma_mod_add_multiples_vanish(0, p() as int);
        vstd::arithmetic::div_mod::lemma_small_mod(0, p());
        assert(fsub(1, 1) == 0);
        assert(all_in_field(fv) && forall|j: int| 0 <= j < fv.len() ==> fv[j] == v[2 * j + 1])
            by {
            assert forall|j: int| 0 <= j < fv.len() implies in_field(#[trigger] fv[j]) && fv[j]
                == v[2 * j + 1] by {
                lemma_fmul_one(v[2 * j + 1]);
                lemma_fmul_zero(v[2 * j]);
                lemma_fadd_zero(v[2 * j + 1]);
            }
        }
        lemma_mle_all_one(r2, fv);
    }
}

/// Law: β-tensor mass conservation. The tensor built from challenge
/// vector `r` and weight `w` sums to exactly `w`: the equality polynomial
/// sums to one over the boolean cube.
pub proof fn lemma_beta_mass(r: Seq<nat>, w: nat)
    requires
        in_field(w),
        all_in_field(r),
    ensures
        fsum(beta_seq(r, w)) == w,
    decreases r.len(),
{
    lemma2_to64();
    lemma_pow2_pos(r.len());
    reveal_with_fuel(beta_pt, 3);
    reveal_with_fuel(fsum, 3);
    if r.len() == 0 {
        vstd::arithmetic::div_mod::lemma_small_mod(w, p());
        assert(beta_seq(r, w) =~= seq![w % p()]);
        assert(beta_seq(r, w).drop_last() =~= Seq::<nat>::empty());
        lemma_fadd_zero(w);
    } else {
        let r2 = r.drop_first();
        assert(all_in_field(r2)) by {
            assert(forall|i: int| 0 <= i < r2.len() ==> r2[i] == r[i + 1]);
        }
        let r0 = r[0];
        let s0 = fsub(1, r0);
        lemma_fsub_range(1, r0);
        let w0 = fmul(w, s0);
        let w1 = fmul(w, r0);
        lemma_pow2_unfold(r.len());
        let m = pow2(r2.len());
        assert forall|j: int| 0 <= j < m as int implies beta_seq(r2, w)[j] == fadd(
            beta_seq(r, w)[2 * j],
            beta_seq(r, w)[2 * j + 1],
        ) by {
            let jn = j as nat;
            let b = beta_pt(r2, 1, jn);
            assert(beta_pt(r, w, 2 * jn) == beta_pt(r2, w0, jn));
            assert(beta_pt(r, w, 2 * jn + 1) == beta_pt(r2, w1, jn)) by {
                assert((2 * jn + 1) % 2 == 1);
                assert((2 * jn + 1) / 2 == jn);
            }
            lemma_fmul_range(w, s0);
            lemma_fmul_range(w, r0);
            lemma_beta_pt_factor(r2, w0, jn);
            lemma_beta_pt_factor(r2, w1, jn);
            lemma_beta_pt_factor(r2, w, jn);
            lemma_fmul_distrib_r(w0, w1, b);
            lemma_split_factor(w, r0);
        }
        lemma_fsum_pairs(beta_seq(r, w), beta_seq(r2, w));
        lemma_beta_mass(r2, w);
    }
}


/// The tensor-weighted contribution of each `Add` gate: for gate `k` with
/// operands `(u, v)`, `(g0[k] + g1[k]) * (tprev[u] + tprev[v])`; zero for
/// every other gate kind.
pub open spec fn add_terms(gates: Seq<Gate>, g0: Seq<nat>, g1: Seq<nat>, tprev: Seq<nat>) -> Seq<
    nat,
> {
    Seq::new(
        gates.len(),
        |k: int|
            if gates[k].ty == GateType::Add {
                fmul(
                    fadd(g0[k], g1[k]),
                    fadd(tprev[gates[k].u as int], tprev[gates[k].v as int]),
                )
            } else {
                0
            },
    )
}

/// The tensor-weighted contribution of each `Mul` gate: for gate `k` with
/// operands `(u, v)`, `(g0[k] + g1[k]) * (tprev[u] * tprev[v])`; zero for
/// every other gate kind.
pub open spec fn mul_terms(gates: Seq<Gate>, g0: Seq<nat>, g1: Seq<nat>, tprev: Seq<nat>) -> Seq<
    nat,
> {
    Seq::new(
        gates.len(),
        |k: int|
            if gates[k].ty == GateType::Mul {
                fmul(
                    fadd(g0[k], g1[k]),
                    fmul(tprev[gates[k].u as int], tprev[gates[k].v as int]),
                )
            } else {
                0
            },
    )
}

/// Above layer 0 the circuit holds only `Add`, `Mul` and `Dummy` gates:
/// the fragment on which the layer-reduction identity is complete.
pub open spec fn addmul_only(c: Circuit) -> bool {
    forall|i: int, k: int|
        1 <= i < c.layers@.len() && 0 <= k < c.layers@[i].gates@.len() ==> ((
        #[trigger] c.layers@[i].gates@[k]).ty == GateType::Add || c.layers@[i].gates@[k].ty
            == GateType::Mul || c.layers@[i].gates@[k].ty == GateType::Dummy)
}

/// The layer-reduction identity: on a layer of `Add`/`Mul`/`Dummy` gates,
/// the combined claim about the layer's values equals the tensor-weighted
/// gate sums over the previous layer's values.
pub proof fn lemma_round_identity(
    gates: Seq<Gate>,
    bits: nat,
    r0: Seq<nat>,
    r1: Seq<nat>,
    alpha: nat,
    beta: nat,
    tprev: Seq<nat>,
    tcur: Seq<nat>,
)
    requires
        r0.len() == bits,
        r1.len() == bits,
        all_in_field(r0),
        all_in_field(r1),
        in_field(alpha),
        in_field(beta),
        all_in_field(tprev),
        gates.len() <= pow2(bits),
        tcur.len() == pow2(bits),
        forall|j: int|
            0 <= j < tcur.len() ==> tcur[j] == (if j < gates.len() {
                gate_val(gates[j], tprev)
            } else {
                0
            }),
        forall|k: int|
            0 <= k < gates.len() ==> ((#[trigger] gates[k]).ty == GateType::Add || gates[k].ty
                == GateType::Mul || gates[k].ty == GateType::Dummy),
        forall|k: int| 0 <= k < gates.len() ==> operands_ok(#[trigger] gates[k], tprev.len()),
    ensures
        fadd(fmul(alpha, mle(r0, tcur)), fmul(beta, mle(r1, tcur))) == fadd(
            fsum(add_terms(gates, beta_seq(r0, alpha), beta_seq(r1, beta), tprev)),
            fsum(mul_terms(gates, beta_seq(r0, alpha), beta_seq(r1, beta), tprev)),
        ),
{
    let n = gates.len() as int;
    let nn = pow2(bits);
    let b0 = beta_seq(r0, alpha);
    let b1 = beta_seq(r1, beta);
    assert(all_in_field(tcur)) by {
        assert forall|j: int| 0 <= j < tcur.len() implies in_field(#[trigger] tcur[j]) by {
            if j < n {
                let g = gates[j];
                if g.ty == GateType::Add {
                    lemma_fadd_range(tprev[g.u as int], tprev[g.v as int]);
                } else if g.ty == GateType::Mul {
                    lemma_fmul_range(tprev[g.u as int], tprev[g.v as int]);
                }
            }
        }
    }
    lemma_fdot_beta(r0, alpha, tcur);
    lemma_fdot_beta(r1, beta, tcur);
    let t0 = Seq::new(nn, |j: int| fmul(b0[j], tcur[j]));
    let t1 = Seq::new(nn, |j: int| fmul(b1[j], tcur[j]));
    assert(t0 =~= Seq::new(b0.len(), |j: int| fmul(b0[j], tcur[j])));
    assert(t1 =~= Seq::new(b1.len(), |j: int| fmul(b1[j], tcur[j])));
    assert(fdot(b0, tcur) == fsum(t0));
    assert(fdot(b1, tcur) == fsum(t1));
    let comb = Seq::new(nn, |j: int| fmul(fadd(b0[j], b1[j]), tcur[j]));
    assert forall|j: int| 0 <= j < comb.len() implies comb[j] == fadd(t0[j], t1[j]) by {
        lemma_fmul_distrib_r(b0[j], b1[j], tcur[j]);
    }
    lemma_fsum_pointwise_add(t0, t1, comb);
    assert(forall|j: int| n <= j < comb.len() ==> #[trigger] comb[j] == fmul(
        fadd(b0[j], b1[j]),
        0,
    ));
    assert forall|j: int| n <= j < comb.len() implies #[trigger] comb[j] == 0 by {
        lemma_fmul_zero(fadd(b0[j], b1[j]));
    }
    lemma_fsum_zero_suffix(comb, gates.len());
    let combn = comb.take(n);
    let at = add_terms(gates, b0, b1, tprev);
    let mt = mul_terms(gates, b0, b1, tprev);
    assert forall|k: int| 0 <= k < n implies combn[k] == fadd(at[k], mt[k]) by {
        let g = gates[k];
        let bh = fadd(b0[k], b1[k]);
        if g.ty == GateType::Add {
            assert(mt[k] == 0);
            lemma_fmul_range(bh, fadd(tprev[g.u as int], tprev[g.v as int]));
            lemma_fadd_zero(at[k]);
        } else if g.ty == GateType::Mul {
            assert(at[k] == 0);
            lemma_fmul_range(bh, fmul(tprev[g.u as int], tprev[g.v as int]));
            lemma_fadd_zero(mt[k]);
        } else {
            assert(g.ty == GateType::Dummy);
            lemma_fmul_zero(bh);
            lemma_fadd_zero(0);
        }
    }
    lemma_fsum_pointwise_add(at, mt, combn);
}

/// The four equality-weight tensors of one reduction round: two over the
/// current layer's index space (weighted by the claim scalars) and two
/// over the previous layer's.
pub struct Betas {
    pub g_r0: Vec<FieldElement>,
    pub g_r1: Vec<FieldElement>,
    pub u: Vec<FieldElement>,
    pub v: Vec<FieldElement>,
}

/// Builds the dense equality-weight tensor for challenge vector `r` and
/// weight `w`, bit by bit, splitting each populated slot into its
/// unset-bit and set-bit branches in descending index order.
#[verifier::rlimit(100)]
pub fn beta_build(r: &Vec<FieldElement>, w: &FieldElement) -> (t: Vec<FieldElement>)
    requires
        all_valid(r@),
        w.valid(),
        pow2(r@.len()) <= usize::MAX,
    ensures
        t@.len() == pow2(r@.len()),
        all_valid(t@),
        vals(t@) == beta_seq(vals(r@), w.as_nat()),
{
    let ghost rv = vals(r@);
    let ghost wn = w.as_nat();
    proof {
        lemma_vals_props(r@);
        lemma_pow2_pos(r@.len());
        lemma2_to64();
    }
    let size = pow2_exec(r.len());
    let mut t: Vec<FieldElement> = Vec::new();
    let zero = FieldElement::zero();
    let mut j0: usize = 0;
    while j0 < size
        invariant
            j0 <= size,
            t@.len() == j0,
            zero.valid(),
            zero.as_nat() == 0,
            all_valid(t@),
            forall|k: int| 0 <= k < j0 ==> (#[trigger] t@[k]).as_nat() == 0,
        decreases size - j0,
    {
        t.push(zero);
        j0 = j0 + 1;
    }
    proof {
        assert(rv.take(0) =~= Seq::<nat>::empty());
        vstd::arithmetic::div_mod::lemma_small_mod(wn, p());
    }
    t.set(0, *w);
    let mut i: usize = 0;
    while i < r.len()
        invariant
            i <= r@.len(),
            rv == vals(r@),
            wn == w.as_nat(),
            in_field(wn),
            rv.len() == r@.len(),
            all_in_field(rv),
            forall|k: int| 0 <= k < r@.len() ==> rv[k] == (#[trigger] r@[k]).as_nat(),
            all_valid(r@),
            w.valid(),
            all_valid(t@),
            t@.len() == pow2(r@.len()),
            t@.len() <= usize::MAX,
            pow2(i as nat) <= pow2(r@.len()),
            forall|k: int|
                0 <= k < pow2(i as nat) ==> (#[trigger] t@[k]).as_nat() == beta_pt(
                    rv.take(i as int),
                    wn,
                    k as nat,
                ),
            forall|k: int| pow2(i as nat) <= k < t@.len() ==> (#[trigger] t@[k]).as_nat() == 0,
        decreases r@.len() - i,
    {
        proof {
            vstd::arithmetic::power2::lemma_pow2_strictly_increases(i as nat, r@.len());
            lemma_pow2_unfold((i + 1) as nat);
            if ((i + 1) as nat) < r@.len() {
                vstd::arithmetic::power2::lemma_pow2_strictly_increases((i + 1) as nat, r@.len());
            }
        }
        let ri = r[i];
        let one = FieldElement::one();
        let s = one.sub(&ri);
        let half = pow2_exec(i);
        let ghost tpre = rv.take(i as int);
        let ghost tpost = rv.take(i as int + 1);
        proof {
            assert(tpost =~= tpre.push(rv[i as int]));
            assert(all_in_field(tpre)) by {
                assert(forall|k: int| 0 <= k < tpre.len() ==> tpre[k] == rv[k]);
            }
        }
        let mut j = half;
        while j > 0
            invariant
                j <= half,
                i < r@.len(),
                half as nat == pow2(i as nat),
                2 * half <= t@.len(),
                t@.len() == pow2(r@.len()),
                t@.len() <= usize::MAX,
                in_field(wn),
                s.valid(),
                ri.valid(),
                ri.as_nat() == rv[i as int],
                s.as_nat() == fsub(1, rv[i as int]),
                tpre == rv.take(i as int),
                tpre.len() == i,
                tpost == tpre.push(rv[i as int]),
                all_in_field(tpre),
                in_field(rv[i as int]),
                all_valid(t@),
                forall|k: int|
                    0 <= k < j ==> (#[trigger] t@[k]).as_nat() == beta_pt(tpre, wn, k as nat),
                forall|k: int|
                    j <= k < half ==> (#[trigger] t@[k]).as_nat() == beta_pt(tpost, wn, k as nat),
                forall|k: int|
                    half <= k < half + j ==> (#[trigger] t@[k]).as_nat() == 0,
                forall|k: int|
                    half + j <= k < 2 * half ==> (#[trigger] t@[k]).as_nat() == beta_pt(
                        tpost,
                        wn,
                        k as nat,
                    ),
                forall|k: int| 2 * half <= k < t@.len() ==> (#[trigger] t@[k]).as_nat() == 0,
            decreases j,
        {
            j = j - 1;
            let base = t[j];
            proof {
                lemma_pow2_unfold((i + 1) as nat);
                lemma_beta_pt_snoc(tpre, rv[i as int], wn, j as nat);
                lemma_beta_pt_snoc(tpre, rv[i as int], wn, (half + j) as nat);
            }
            let low = base.mul(&s);
            let high = base.mul(&ri);
            t.set(j, low);
            t.set(half + j, high);
            proof {
                assert(low.as_nat() == beta_pt(tpost, wn, j as nat));
                assert(high.as_nat() == beta_pt(tpost, wn, (half + j) as nat));
            }
        }
        i = i + 1;
    }
    proof {
        assert(rv.take(rv.len() as int) =~= rv);
        lemma_vals_props(t@);
        assert(vals(t@) =~= beta_seq(rv, wn));
    }
    t
}


impl Betas {
    /// Builds the round's four tensors: `g_r0`/`g_r1` over the current
    /// layer's index space weighted by the claim scalars, and `u`/`v`
    /// over the previous layer's index space with weight one.
    pub fn new(
        layer: &Layer,
        prev: &Layer,
        alpha: &FieldElement,
        beta: &FieldElement,
        r0: &Vec<FieldElement>,
        r1: &Vec<FieldElement>,
        ru: &Vec<FieldElement>,
        rv: &Vec<FieldElement>,
    ) -> (b: Betas)
        requires
            r0@.len() == layer.bit_length,
            r1@.len() == layer.bit_length,
            ru@.len() == prev.bit_length,
            rv@.len() == prev.bit_length,
            all_valid(r0@),
            all_valid(r1@),
            all_valid(ru@),
            all_valid(rv@),
            alpha.valid(),
            beta.valid(),
            pow2(layer.bit_length as nat) <= usize::MAX,
            pow2(prev.bit_length as nat) <= usize::MAX,
        ensures
            b.g_r0@.len() == pow2(layer.bit_length as nat),
            b.g_r1@.len() == pow2(layer.bit_length as nat),
            b.u@.len() == pow2(prev.bit_length as nat),
            b.v@.len() == pow2(prev.bit_length as nat),
            all_valid(b.g_r0@),
            all_valid(b.g_r1@),
            all_valid(b.u@),
            all_valid(b.v@),
            vals(b.g_r0@) == beta_seq(vals(r0@), alpha.as_nat()),
            vals(b.g_r1@) == beta_seq(vals(r1@), beta.as_nat()),
            vals(b.u@) == beta_seq(vals(ru@), 1),
            vals(b.v@) == beta_seq(vals(rv@), 1),
    {
        let one = FieldElement::one();
        Betas {
            g_r0: beta_build(r0, alpha),
            g_r1: beta_build(r1, beta),
            u: beta_build(ru, &one),
            v: beta_build(rv, &one),
        }
    }

    /// The weighted wiring term of one `Add` gate at tensor indices
    /// `(g, u, v)`.
    pub fn add_value(&self, g: usize, u: usize, v: usize) -> (r: FieldElement)
        requires
            g < self.g_r0@.len(),
            self.g_r0@.len() == self.g_r1@.len(),
            u < self.u@.len(),
            v < self.v@.len(),
            all_valid(self.g_r0@),
            all_valid(self.g_r1@),
            all_valid(self.u@),
            all_valid(self.v@),
        ensures
            r.valid(),
            r.as_nat() == fmul(
                fmul(
                    fadd(self.g_r0@[g as int].as_nat(), self.g_r1@[g as int].as_nat()),
                    self.u@[u as int].as_nat(),
                ),
                self.v@[v as int].as_nat(),
            ),
    {
        self.g_r0[g].add(&self.g_r1[g]).mul(&self.u[u]).mul(&self.v[v])
    }

    /// The weighted wiring term of one `Mul` gate at tensor indices
    /// `(g, u, v)`.
    pub fn mul_value(&self, g: usize, u: usize, v: usize) -> (r: FieldElement)
        requires
            g < self.g_r0@.len(),
            self.g_r0@.len() == self.g_r1@.len(),
            u < self.u@.len(),
            v < self.v@.len(),
            all_valid(self.g_r0@),
            all_valid(self.g_r1@),
            all_valid(self.u@),
            all_valid(self.v@),
        ensures
            r.valid(),
            r.as_nat() == fmul(
                fmul(
                    fadd(self.g_r0@[g as int].as_nat(), self.g_r1@[g as int].as_nat()),
                    self.u@[u as int].as_nat(),
                ),
                self.v@[v as int].as_nat(),
            ),
    {
        self.g_r0[g].add(&self.g_r1[g]).mul(&self.u[u]).mul(&self.v[v])
    }
}

/// `n` fresh uniformly drawn challenges from the caller's generator.
fn rand_vec(n: usize, rng: &mut rand::rngs::StdRng) -> (r: Vec<FieldElement>)
    ensures
        r@.len() == n,
        all_valid(r@),
{
    let mut r: Vec<FieldElement> = Vec::new();
    let mut i: usize = 0;
    while i < n
        invariant
            i <= n,
            r@.len() == i,
            all_valid(r@),
        decreases n - i,
    {
        let x = FieldElement::random(rng);
        r.push(x);
        i = i + 1;
    }
    r
}

/// The padded input vector that layer 0's gates describe.
pub fn input_vector(l: &Layer) -> (r: Vec<FieldElement>)
    requires
        pow2(l.bit_length as nat) <= usize::MAX,
        l.gates@.len() <= pow2(l.bit_length as nat),
        forall|k: int|
            0 <= k < l.gates@.len() ==> ((#[trigger] l.gates@[k]).ty == GateType::Input
                || l.gates@[k].ty == GateType::Dummy),
    ensures
        r@.len() == pow2(l.bit_length as nat),
        all_valid(r@),
        vals(r@) == layer0_vals(*l),
{
    let size = pow2_exec(l.bit_length);
    let mut r: Vec<FieldElement> = Vec::new();
    let mut j: usize = 0;
    while j < size
        invariant
            j <= size,
            size as nat == pow2(l.bit_length as nat),
            l.gates@.len() <= size,
            r@.len() == j,
            all_valid(r@),
            forall|k: int|
                0 <= k < l.gates@.len() ==> ((#[trigger] l.gates@[k]).ty == GateType::Input
                    || l.gates@[k].ty == GateType::Dummy),
            forall|k: int| 0 <= k < j ==> (#[trigger] r@[k]).as_nat() == layer0_vals(*l)[k],
        decreases size - j,
    {
        if j < l.gates.len() {
            let g = l.gates[j];
            match g.ty {
                GateType::Input => r.push(FieldElement::from_u64(g.u)),
                _ => r.push(FieldElement::zero()),
            }
        } else {
            r.push(FieldElement::zero());
        }
        j = j + 1;
    }
    proof {
        lemma_vals_props(r@);
        assert(vals(r@) =~= layer0_vals(*l));
    }
    r
}

/// The field dot product of two equally long vectors.
pub fn dot(a: &Vec<FieldElement>, b: &Vec<FieldElement>) -> (res: FieldElement)
    requires
        a@.len() == b@.len(),
        all_valid(a@),
        all_valid(b@),
    ensures
        res.valid(),
        res.as_nat() == fdot(vals(a@), vals(b@)),
{
    let ghost terms = Seq::new(a@.len(), |k: int| fmul(vals(a@)[k], vals(b@)[k]));
    proof {
        lemma_vals_props(a@);
        lemma_vals_props(b@);
        assert(terms.take(0) =~= Seq::<nat>::empty());
    }
    let n = a.len();
    let mut acc = FieldElement::zero();
    let mut k: usize = 0;
    while k < n
        invariant
            k <= n,
            n == a@.len(),
            a@.len() == b@.len(),
            all_valid(a@),
            all_valid(b@),
            terms == Seq::new(a@.len(), |k2: int| fmul(vals(a@)[k2], vals(b@)[k2])),
            acc.valid(),
            acc.as_nat() == fsum(terms.take(k as int)),
        decreases n - k,
    {
        proof {
            lemma_vals_props(a@);
            lemma_vals_props(b@);
            lemma_fsum_push(terms.take(k as int), terms[k as int]);
            assert(terms.take(k as int).push(terms[k as int]) =~= terms.take(k as int + 1));
        }
        acc = acc.add(&a[k].mul(&b[k]));
        k = k + 1;
    }
    proof {
        assert(terms.take(n as int) =~= terms);
        assert(terms =~= Seq::new(vals(a@).len(), |k2: int| fmul(vals(a@)[k2], vals(b@)[k2])));
    }
    acc
}

/// The layer-reduction verifier.
pub struct Verifier;

impl Verifier {
    /// Evaluates the multilinear extension of `vector` at challenge
    /// vector `r` by repeated halving.
    #[verifier::rlimit(100)]
    pub fn v_res(r: &Vec<FieldElement>, vector: &Vec<FieldElement>) -> (res: FieldElement)
        requires
            all_valid(r@),
            all_valid(vector@),
            vector@.len() == pow2(r@.len()),
        ensures
            res.valid(),
            res.as_nat() == mle(vals(r@), vals(vector@)),
    {
        proof {
            lemma_pow2_pos(r@.len());
            lemma_vals_props(r@);
            lemma_vals_props(vector@);
        }
        let mut cur: Vec<FieldElement> = Vec::new();
        let mut k0: usize = 0;
        while k0 < vector.len()
            invariant
                k0 <= vector@.len(),
                cur@ == vector@.take(k0 as int),
            decreases vector@.len() - k0,
        {
            cur.push(vector[k0]);
            proof {
                assert(vector@.take(k0 as int).push(vector@[k0 as int]) =~= vector@.take(
                    k0 as int + 1,
                ));
            }
            k0 = k0 + 1;
        }
        proof {
            assert(vector@.take(vector@.len() as int) =~= vector@);
            assert(vals(r@).skip(0) =~= vals(r@));
            assert(vals(cur@).take(cur@.len() as int) =~= vals(cur@));
        }
        let rlen = r.len();
        let mut len = cur.len();
        let mut step: usize = 0;
        while len > 1
            invariant
                step <= r@.len(),
                r@.len() == rlen,
                len >= 1,
                len as nat == pow2((r@.len() - step) as nat),
                len <= cur@.len(),
                cur@.len() == vector@.len(),
                all_valid(r@),
                all_valid(cur@),
                all_valid(vector@),
                mle(vals(r@), vals(vector@)) == mle(
                    vals(r@).skip(step as int),
                    vals(cur@).take(len as int),
                ),
            decreases len,
        {
            proof {
                if r@.len() == step {
                    assert(pow2(0) == 1) by {
                        lemma2_to64();
                    }
                    assert(false);
                }
                lemma_pow2_unfold((r@.len() - step) as nat);
                lemma_vals_props(r@);
            }
            let rs = r[step];
            let one = FieldElement::one();
            let sm = one.sub(&rs);
            let half = len / 2;
            let ghost prefix = vals(cur@).take(len as int);
            let ghost oldc = cur@;
            let mut jj: usize = 0;
            while jj < half
                invariant
                    jj <= half,
                    half == len / 2,
                    len == 2 * half,
                    len <= cur@.len(),
                    cur@.len() == oldc.len(),
                    all_valid(cur@),
                    all_valid(oldc),
                    rs.valid(),
                    sm.valid(),
                    sm.as_nat() == fsub(1, rs.as_nat()),
                    prefix == vals(oldc).take(len as int),
                    forall|k2: int| jj <= k2 < cur@.len() ==> cur@[k2] == oldc[k2],
                    forall|k2: int|
                        0 <= k2 < jj ==> (#[trigger] cur@[k2]).as_nat() == fold_step(
                            rs.as_nat(),
                            prefix,
                        )[k2],
                decreases half - jj,
            {
                let a = cur[2 * jj];
                let b = cur[2 * jj + 1];
                let wv = a.mul(&sm).add(&b.mul(&rs));
                proof {
                    lemma_vals_props(oldc);
                    assert(prefix[2 * jj] == oldc[2 * jj].as_nat());
                    assert(prefix[2 * jj + 1] == oldc[2 * jj + 1].as_nat());
                }
                cur.set(jj, wv);
                jj = jj + 1;
            }
            proof {
                lemma_vals_props(cur@);
                assert(vals(cur@).take(half as int) =~= fold_step(rs.as_nat(), prefix));
                assert(vals(r@).skip(step as int).drop_first() =~= vals(r@).skip(step as int + 1));
                assert(vals(r@).skip(step as int)[0] == rs.as_nat());
                assert(mle(vals(r@).skip(step as int), prefix) == mle(
                    vals(r@).skip(step as int + 1),
                    fold_step(rs.as_nat(), prefix),
                ));
            }
            len = half;
            step = step + 1;
        }
        proof {
            if (r@.len() - step) as nat > 0 {
                lemma_pow2_unfold((r@.len() - step) as nat);
                lemma_pow2_pos((r@.len() - step - 1) as nat);
                assert(false);
            }
            assert(vals(r@).skip(step as int) =~= Seq::<nat>::empty());
            lemma_vals_props(cur@);
            assert(vals(cur@).take(1)[0] == cur@[0].as_nat());
        }
        cur[0]
    }

    /// The tensor-weighted sum over the layer's `Add` gates of the
    /// previous layer's operand sums.
    pub fn add_sum(layer: &Layer, betas: &Betas, prev_vals: &Vec<FieldElement>) -> (acc:
        FieldElement)
        requires
            layer.gates@.len() <= betas.g_r0@.len(),
            betas.g_r0@.len() == betas.g_r1@.len(),
            all_valid(betas.g_r0@),
            all_valid(betas.g_r1@),
            all_valid(prev_vals@),
            forall|k: int|
                0 <= k < layer.gates@.len() ==> operands_ok(
                    #[trigger] layer.gates@[k],
                    prev_vals@.len(),
                ),
        ensures
            acc.valid(),
            acc.as_nat() == fsum(
                add_terms(layer.gates@, vals(betas.g_r0@), vals(betas.g_r1@), vals(prev_vals@)),
            ),
    {
        let ghost terms = add_terms(
            layer.gates@,
            vals(betas.g_r0@),
            vals(betas.g_r1@),
            vals(prev_vals@),
        );
        proof {
            assert(terms.take(0) =~= Seq::<nat>::empty());
        }
        let n = layer.gates.len();
        let plen = prev_vals.len();
        let mut acc = FieldElement::zero();
        let mut k: usize = 0;
        while k < n
            invariant
                k <= n,
                n == layer.gates@.len(),
                plen == prev_vals@.len(),
                layer.gates@.len() <= betas.g_r0@.len(),
                betas.g_r0@.len() == betas.g_r1@.len(),
                all_valid(betas.g_r0@),
                all_valid(betas.g_r1@),
                all_valid(prev_vals@),
                forall|k2: int|
                    0 <= k2 < layer.gates@.len() ==> operands_ok(
                        #[trigger] layer.gates@[k2],
                        prev_vals@.len(),
                    ),
                terms == add_terms(
                    layer.gates@,
                    vals(betas.g_r0@),
                    vals(betas.g_r1@),
                    vals(prev_vals@),
                ),
                acc.valid(),
                acc.as_nat() == fsum(terms.take(k as int)),
            decreases n - k,
        {
            proof {
                lemma_vals_props(betas.g_r0@);
                lemma_vals_props(betas.g_r1@);
                lemma_vals_props(prev_vals@);
                lemma_fsum_push(terms.take(k as int), terms[k as int]);
                assert(terms.take(k as int).push(terms[k as int]) =~= terms.take(k as int + 1));
                lemma_fsum_range(terms.take(k as int));
            }
            let g = layer.gates[k];
            if g.ty == GateType::Add {
                let suv = prev_vals[g.u as usize].add(&prev_vals[g.v as usize]);
                let term = betas.g_r0[k].add(&betas.g_r1[k]).mul(&suv);
                acc = acc.add(&term);
            } else {
                proof {
                    lemma_fadd_zero(acc.as_nat());
                }
            }
            k = k + 1;
        }
        proof {
            assert(terms.take(n as int) =~= terms);
        }
        acc
    }

    /// The tensor-weighted sum over the layer's `Mul` gates of the
    /// previous layer's operand products.
    pub fn mul_sum(layer: &Layer, betas: &Betas, prev_vals: &Vec<FieldElement>) -> (acc:
        FieldElement)
        requires
            layer.gates@.len() <= betas.g_r0@.len(),
            betas.g_r0@.len() == betas.g_r1@.len(),
            all_valid(betas.g_r0@),
            all_valid(betas.g_r1@),
            all_valid(prev_vals@),
            forall|k: int|
                0 <= k < layer.gates@.len() ==> operands_ok(
                    #[trigger] layer.gates@[k],
                    prev_vals@.len(),
                ),
        ensures
            acc.valid(),
            acc.as_nat() == fsum(
                mul_terms(layer.gates@, vals(betas.g_r0@), vals(betas.g_r1@), vals(prev_vals@)),
            ),
    {
        let ghost terms = mul_terms(
            layer.gates@,
            vals(betas.g_r0@),
            vals(betas.g_r1@),
            vals(prev_vals@),
        );
        proof {
            assert(terms.take(0) =~= Seq::<nat>::empty());
        }
        let n = layer.gates.len();
        let plen = prev_vals.len();
        let mut acc = FieldElement::zero();
        let mut k: usize = 0;
        while k < n
            invariant
                k <= n,
                n == layer.gates@.len(),
                plen == prev_vals@.len(),
                layer.gates@.len() <= betas.g_r0@.len(),
                betas.g_r0@.len() == betas.g_r1@.len(),
                all_valid(betas.g_r0@),
                all_valid(betas.g_r1@),
                all_valid(prev_vals@),
                forall|k2: int|
                    0 <= k2 < layer.gates@.len() ==> operands_ok(
                        #[trigger] layer.gates@[k2],
                        prev_vals@.len(),
                    ),
                terms == mul_terms(
                    layer.gates@,
                    vals(betas.g_r0@),
                    vals(betas.g_r1@),
                    vals(prev_vals@),
                ),
                acc.valid(),
                acc.as_nat() == fsum(terms.take(k as int)),
            decreases n - k,
        {
            proof {
                lemma_vals_props(betas.g_r0@);
                lemma_vals_props(betas.g_r1@);
                lemma_vals_props(prev_vals@);
                lemma_fsum_push(terms.take(k as int), terms[k as int]);
                assert(terms.take(k as int).push(terms[k as int]) =~= terms.take(k as int + 1));
                lemma_fsum_range(terms.take(k as int));
            }
            let g = layer.gates[k];
            if g.ty == GateType::Mul {
                let puv = prev_vals[g.u as usize].mul(&prev_vals[g.v as usize]);
                let term = betas.g_r0[k].add(&betas.g_r1[k]).mul(&puv);
                acc = acc.add(&term);
            } else {
                proof {
                    lemma_fadd_zero(acc.as_nat());
                }
            }
            k = k + 1;
        }
        proof {
            assert(terms.take(n as int) =~= terms);
        }
        acc
    }

    /// Runs the layer reduction: reduces a random claim about the output
    /// layer, layer by layer, to a claim about the circuit's own inputs,
    /// reading the prover's trace as an untrusted oracle. Rejection is a
    /// first-class `false`, not an error.
    ///
    /// Completeness law: on a well-formed circuit whose layers above the
    /// inputs hold only `Add`, `Mul` and `Dummy` gates, the honest trace
    /// is accepted, whatever challenges the generator yields.
    #[verifier::rlimit(100)]
    pub fn verify(c: &Circuit, prover: &Prover, rng: &mut rand::rngs::StdRng) -> (res: bool)
        requires
            c.wf(),
            c.layers@.len() >= 1,
            prover.matches_shape(*c),
        ensures
            prover.is_honest(*c) && addmul_only(*c) ==> res,
    {
        let depth = c.layers.len();
        let mut alpha = FieldElement::one();
        let mut beta = FieldElement::zero();
        let out_bits = c.layers[depth - 1].bit_length;
        let mut r0 = rand_vec(out_bits, rng);
        let mut r1 = rand_vec(out_bits, rng);
        let outputs = prover.outputs();
        let vr0 = Self::v_res(&r0, outputs);
        let vr1 = Self::v_res(&r1, outputs);
        let mut claim = alpha.mul(&vr0).add(&beta.mul(&vr1));
        let mut d = depth - 1;
        while d > 0
            invariant
                c.wf(),
                c.layers@.len() >= 1,
                prover.matches_shape(*c),
                d < c.layers@.len(),
                r0@.len() == c.layers@[d as int].bit_length,
                r1@.len() == c.layers@[d as int].bit_length,
                all_valid(r0@),
                all_valid(r1@),
                alpha.valid(),
                beta.valid(),
                claim.valid(),
                claim.as_nat() == fadd(
                    fmul(
                        alpha.as_nat(),
                        mle(vals(r0@), vals(prover.values@[d as int]@)),
                    ),
                    fmul(
                        beta.as_nat(),
                        mle(vals(r1@), vals(prover.values@[d as int]@)),
                    ),
                ),
            decreases d,
        {
            let layer = &c.layers[d];
            let prevl = &c.layers[d - 1];
            proof {
                lemma_blen_bounds(layer.gates@.len());
            }
            let ru = rand_vec(prevl.bit_length, rng);
            let rv = rand_vec(prevl.bit_length, rng);
            let betas = Betas::new(layer, prevl, &alpha, &beta, &r0, &r1, &ru, &rv);
            let prev_vals = &prover.values[d - 1];
            let add_v = Self::add_sum(layer, &betas, prev_vals);
            let mul_v = Self::mul_sum(layer, &betas, prev_vals);
            let expected = add_v.add(&mul_v);
            proof {
                lemma_vals_props(r0@);
                lemma_vals_props(r1@);
                lemma_vals_props(prev_vals@);
                lemma_vals_props(prover.values@[d as int]@);
                if prover.is_honest(*c) && addmul_only(*c) {
                    let tprev = vals(prev_vals@);
                    let tcur = vals(prover.values@[d as int]@);
                    assert(tprev == trace_layer(*c, d as int - 1));
                    assert(tcur == trace_layer(*c, d as int));
                    assert(tcur == crate::prover::layer_vals(
                        c.layers@[d as int],
                        trace_layer(*c, d as int - 1),
                    ));
                    lemma_round_identity(
                        layer.gates@,
                        layer.bit_length as nat,
                        vals(r0@),
                        vals(r1@),
                        alpha.as_nat(),
                        beta.as_nat(),
                        tprev,
                        tcur,
                    );
                    assert(claim.as_nat() == expected.as_nat());
                    lemma_limbs_unique(claim, expected);
                }
            }
            if !(claim == expected) {
                return false;
            }
            let v_u = dot(&betas.u, prev_vals);
            let v_v = dot(&betas.v, prev_vals);
            proof {
                lemma_vals_props(ru@);
                lemma_vals_props(rv@);
                lemma_vals_props(prev_vals@);
                lemma_fdot_beta(vals(ru@), 1, vals(prev_vals@));
                lemma_fdot_beta(vals(rv@), 1, vals(prev_vals@));
                lemma_mle_range(vals(ru@), vals(prev_vals@));
                lemma_mle_range(vals(rv@), vals(prev_vals@));
                lemma_fmul_one(mle(vals(ru@), vals(prev_vals@)));
                lemma_fmul_one(mle(vals(rv@), vals(prev_vals@)));
            }
            alpha = FieldElement::random(rng);
            beta = FieldElement::random(rng);
            claim = alpha.mul(&v_u).add(&beta.mul(&v_v));
            r0 = ru;
            r1 = rv;
            d = d - 1;
        }
        let l0 = &c.layers[0];
        proof {
            lemma_blen_bounds(l0.gates@.len());
        }
        let input_vals = input_vector(l0);
        let res0 = Self::v_res(&r0, &input_vals);
        let res1 = Self::v_res(&r1, &input_vals);
        let fin = alpha.mul(&res0).add(&beta.mul(&res1));
        proof {
            if prover.is_honest(*c) && addmul_only(*c) {
                assert(vals(prover.values@[0]@) == trace_layer(*c, 0));
                assert(vals(input_vals@) == crate::prover::layer0_vals(c.layers@[0]));
                assert(claim.as_nat() == fin.as_nat());
                lemma_limbs_unique(claim, fin);
            }
        }
        claim == fin
    }
}

} // verus!
