//! The prover: evaluates every gate of a circuit, bottom-up, into one
//! dense, padded value vector per layer.

use vstd::prelude::*;
use vstd::arithmetic::power2::pow2;
use crate::algebra::{fadd, fmul, fsub};
use crate::circuit::{lemma_blen_bounds, operands_ok, pow2_exec, Circuit, Layer};
use crate::field::FieldElement;
use crate::gate::{Gate, GateType};

verus! {

/// A structural defect of a circuit, found while evaluating it; a
/// recoverable, typed failure, never a crash.
#[derive(Clone, Copy, Debug, PartialEq, Eq, Structural)]
pub enum StructuralError {
    /// The circuit has no layers at all.
    EmptyCircuit,
    /// Layer 0 held a gate that is neither `Input` nor `Dummy`.
    InvalidGateForLayer,
    /// A gate read outside the previous layer's padded index space.
    IndexOutOfRange,
}

/// The canonical values of a vector of field elements.
pub open spec fn vals(s: Seq<FieldElement>) -> Seq<nat> {
    s.map_values(|f: FieldElement| f.as_nat())
}

pub open spec fn all_valid(s: Seq<FieldElement>) -> bool {
    forall|i: int| 0 <= i < s.len() ==> (#[trigger] s[i]).valid()
}

pub proof fn lemma_vals_props(s: Seq<FieldElement>)
    ensures
        vals(s).len() == s.len(),
        forall|k: int| 0 <= k < s.len() ==> #[trigger] vals(s)[k] == s[k].as_nat(),
{
}

pub proof fn lemma_vals_push(s: Seq<FieldElement>, x: FieldElement)
    ensures
        vals(s.push(x)) == vals(s).push(x.as_nat()),
{
    assert(vals(s.push(x)) =~= vals(s).push(x.as_nat()));
}

pub proof fn lemma_vals_update(s: Seq<FieldElement>, k: int, x: FieldElement)
    requires
        0 <= k < s.len(),
    ensures
        vals(s.update(k, x)) == vals(s).update(k, x.as_nat()),
{
    assert(vals(s.update(k, x)) =~= vals(s).update(k, x.as_nat()));
}

/// The value a layer-0 gate contributes: its literal for `Input`, zero
/// for `Dummy`.
pub open spec fn input_val(g: Gate) -> nat {
    if g.ty == GateType::Input {
        g.u as nat
    } else {
        0
    }
}

/// Layer 0's padded value vector.
pub open spec fn layer0_vals(l: Layer) -> Seq<nat> {
    Seq::new(
        pow2(l.bit_length as nat),
        |j: int|
            if j < l.gates@.len() {
                input_val(l.gates@[j])
            } else {
                0
            },
    )
}

/// The field sum of `prev[u..v]`; empty when `u >= v`.
pub open spec fn range_fsum(prev: Seq<nat>, u: int, v: int) -> nat
    decreases v - u,
{
    if u >= v {
        0
    } else {
        fadd(range_fsum(prev, u, v - 1), prev[v - 1])
    }
}

/// The value of one gate above layer 0, per its kind's formula, reading
/// the previous layer's padded values.
pub open spec fn gate_val(g: Gate, prev: Seq<nat>) -> nat {
    match g.ty {
        GateType::Add => fadd(prev[g.u as int], prev[g.v as int]),
        GateType::Mul => fmul(prev[g.u as int], prev[g.v as int]),
        GateType::Dummy => 0,
        GateType::Input => g.u as nat,
        GateType::DirectRelay => prev[g.u as int],
        GateType::Relay => prev[g.u as int],
        GateType::Sum => range_fsum(prev, g.u as int, g.v as int),
        GateType::Not => fsub(1, prev[g.u as int]),
        GateType::Minus => fsub(prev[g.u as int], prev[g.v as int]),
        GateType::Xor => fsub(
            fadd(prev[g.u as int], prev[g.v as int]),
            fmul(fmul(2, prev[g.u as int]), prev[g.v as int]),
        ),
        GateType::Naab => fsub(prev[g.v as int], fmul(prev[g.u as int], prev[g.v as int])),
    }
}

/// A padded layer's value vector, from the previous layer's.
pub open spec fn layer_vals(l: Layer, prev: Seq<nat>) -> Seq<nat> {
    Seq::new(
        pow2(l.bit_length as nat),
        |j: int|
            if j < l.gates@.len() {
                gate_val(l.gates@[j], prev)
            } else {
                0
            },
    )
}

/// The honest trace of layer `i`: layer 0 from the inputs, each later
/// layer from the one below it.
pub open spec fn trace_layer(c: Circuit, i: int) -> Seq<nat>
    decreases i,
{
    if i <= 0 {
        layer0_vals(c.layers@[0])
    } else {
        layer_vals(c.layers@[i], trace_layer(c, i - 1))
    }
}

/// The prover's output: one dense value vector per layer.
pub struct Prover {
    pub values: Vec<Vec<FieldElement>>,
}

impl Prover {
    /// One padded vector of canonical field values per layer.
    pub open spec fn matches_shape(self, c: Circuit) -> bool {
        self.values@.len() == c.layers@.len() && forall|i: int|
            0 <= i < self.values@.len() ==> (#[trigger] self.values@[i])@.len() == pow2(
                c.layers@[i].bit_length as nat,
            ) && all_valid(self.values@[i]@)
    }

    /// The trace holds exactly the circuit's honest evaluation.
    pub open spec fn is_honest(self, c: Circuit) -> bool {
        self.matches_shape(c) && forall|i: int|
            0 <= i < self.values@.len() ==> vals((#[trigger] self.values@[i])@) == trace_layer(
                c,
                i,
            )
    }

    /// Evaluates every gate of `c` and stores all intermediate values.
    /// Succeeds exactly on structurally sound circuits, and then returns
    /// the honest trace.
    pub fn evaluate(c: &Circuit) -> (r: Result<Prover, StructuralError>)
        requires
            c.bits_ok(),
            c.sizes_fit(),
        ensures
            c.layers@.len() == 0 <==> r == Err::<Prover, StructuralError>(
                StructuralError::EmptyCircuit,
            ),
            c.layers@.len() > 0 ==> ((r matches Err(e) && e == StructuralError::InvalidGateForLayer)
                <==> !c.layer0_ok()),
            c.layers@.len() > 0 && c.layer0_ok() ==> ((r matches Err(e) && e
                == StructuralError::IndexOutOfRange) <==> !c.wires_ok()),
            r matches Ok(pr) ==> pr.is_honest(*c) && c.wf(),
    {
        if c.layers.len() == 0 {
            return Err(StructuralError::EmptyCircuit);
        }
        let mut values: Vec<Vec<FieldElement>> = Vec::new();
        let l0 = &c.layers[0];
        let size0 = pow2_exec(l0.bit_length);
        proof {
            lemma_blen_bounds(l0.gates@.len());
        }
        let mut cur: Vec<FieldElement> = Vec::new();
        let mut j: usize = 0;
        while j < size0
            invariant
                c.layers@.len() > 0,
                l0 == c.layers@[0],
                size0 as nat == pow2(l0.bit_length as nat),
                l0.gates@.len() <= size0,
                j <= size0,
                cur@.len() == j,
                all_valid(cur@),
                forall|k: int| 0 <= k < j ==> vals(cur@)[k] == layer0_vals(*l0)[k],
                forall|k: int|
                    0 <= k < j && k < l0.gates@.len() ==> ((#[trigger] l0.gates@[k]).ty
                        == GateType::Input || l0.gates@[k].ty == GateType::Dummy),
            decreases size0 - j,
        {
            if j < l0.gates.len() {
                let g = l0.gates[j];
                let x = match g.ty {
                    GateType::Input => FieldElement::from_u64(g.u),
                    GateType::Dummy => FieldElement::zero(),
                    _ => {
                        proof {
                            assert(!c.layer0_ok());
                        }
                        return Err(StructuralError::InvalidGateForLayer);
                    },
                };
                proof {
                    lemma_vals_push(cur@, x);
                }
                cur.push(x);
            } else {
                let x = FieldElement::zero();
                proof {
                    lemma_vals_push(cur@, x);
                }
                cur.push(x);
            }
            j = j + 1;
        }
        proof {
            assert(c.layer0_ok());
            assert(vals(cur@) =~= layer0_vals(c.layers@[0]));
        }
        values.push(cur);
        let mut i: usize = 1;
        while i < c.layers.len()
            invariant
                c.bits_ok(),
                c.sizes_fit(),
                c.layer0_ok(),
                1 <= i <= c.layers@.len(),
                values@.len() == i,
                forall|ii: int|
                    0 <= ii < i ==> (#[trigger] values@[ii])@.len() == pow2(
                        c.layers@[ii].bit_length as nat,
                    ) && all_valid(values@[ii]@),
                forall|ii: int| 0 <= ii < i ==> vals((#[trigger] values@[ii])@) == trace_layer(*c, ii),
                forall|ii: int, k: int|
                    1 <= ii < i && 0 <= k < c.layers@[ii].gates@.len() ==> operands_ok(
                        #[trigger] c.layers@[ii].gates@[k],
                        pow2(c.layers@[ii - 1].bit_length as nat),
                    ),
            decreases c.layers@.len() - i,
        {
            let li = &c.layers[i];
            let size = pow2_exec(li.bit_length);
            proof {
                lemma_blen_bounds(li.gates@.len());
            }
            let prev = &values[i - 1];
            let mut cur: Vec<FieldElement> = Vec::new();
            let mut j: usize = 0;
            while j < size
                invariant
                    c.layers@.len() > 0,
                    c.layer0_ok(),
                    1 <= i < c.layers@.len(),
                    li == c.layers@[i as int],
                    size as nat == pow2(li.bit_length as nat),
                    li.gates@.len() <= size,
                    prev@.len() == pow2(c.layers@[i as int - 1].bit_length as nat),
                    all_valid(prev@),
                    vals(prev@) == trace_layer(*c, i as int - 1),
                    j <= size,
                    cur@.len() == j,
                    all_valid(cur@),
                    forall|k: int|
                        0 <= k < j ==> vals(cur@)[k] == layer_vals(*li, vals(prev@))[k],
                    forall|k: int|
                        0 <= k < j && k < li.gates@.len() ==> operands_ok(
                            #[trigger] li.gates@[k],
                            prev@.len(),
                        ),
                decreases size - j,
            {
                if j < li.gates.len() {
                    let g = li.gates[j];
                    if !gate_in_range(&g, prev.len()) {
                        proof {
                            assert(!c.wires_ok());
                        }
                        return Err(StructuralError::IndexOutOfRange);
                    }
                    let x = eval_gate(&g, prev);
                    proof {
                        lemma_vals_push(cur@, x);
                    }
                    cur.push(x);
                } else {
                    let x = FieldElement::zero();
                    proof {
                        lemma_vals_push(cur@, x);
                    }
                    cur.push(x);
                }
                j = j + 1;
            }
            proof {
                assert(vals(cur@) =~= layer_vals(c.layers@[i as int], trace_layer(*c, i as int - 1)));
                assert(vals(cur@) == trace_layer(*c, i as int));
            }
            values.push(cur);
            i = i + 1;
        }
        Ok(Prover { values })
    }

    /// The final layer's values.
    pub fn outputs(&self) -> (r: &Vec<FieldElement>)
        requires
            self.values@.len() > 0,
        ensures
            r == self.values@.last(),
    {
        &self.values[self.values.len() - 1]
    }
}

/// Whether a gate reads only inside the previous layer's vector.
fn gate_in_range(g: &Gate, bound: usize) -> (ok: bool)
    ensures
        ok == operands_ok(*g, bound as nat),
{
    match g.ty {
        GateType::Add => g.u < bound as u64 && g.v < bound as u64,
        GateType::Mul => g.u < bound as u64 && g.v < bound as u64,
        GateType::Minus => g.u < bound as u64 && g.v < bound as u64,
        GateType::Xor => g.u < bound as u64 && g.v < bound as u64,
        GateType::Naab => g.u < bound as u64 && g.v < bound as u64,
        GateType::DirectRelay => g.u < bound as u64,
        GateType::Relay => g.u < bound as u64,
        GateType::Not => g.u < bound as u64,
        GateType::Sum => g.v <= bound as u64,
        GateType::Input => true,
        GateType::Dummy => true,
    }
}

/// Computes one gate's value from the previous layer's values.
#[verifier::rlimit(50)]
fn eval_gate(g: &Gate, prev: &Vec<FieldElement>) -> (r: FieldElement)
    requires
        all_valid(prev@),
        operands_ok(*g, prev@.len()),
    ensures
        r.valid(),
        r.as_nat() == gate_val(*g, vals(prev@)),
{
    let plen = prev.len();
    proof {
        lemma_vals_props(prev@);
        assert(prev@.len() == plen as nat);
    }
    match g.ty {
        GateType::Add => prev[g.u as usize].add(&prev[g.v as usize]),
        GateType::Mul => prev[g.u as usize].mul(&prev[g.v as usize]),
        GateType::Dummy => FieldElement::zero(),
        GateType::Input => FieldElement::from_u64(g.u),
        GateType::DirectRelay => prev[g.u as usize],
        GateType::Relay => prev[g.u as usize],
        GateType::Not => FieldElement::one().sub(&prev[g.u as usize]),
        GateType::Minus => prev[g.u as usize].sub(&prev[g.v as usize]),
        GateType::Xor => {
            let x = prev[g.u as usize];
            let y = prev[g.v as usize];
            x.add(&y).sub(&FieldElement::from_u64(2).mul(&x).mul(&y))
        },
        GateType::Naab => {
            let x = prev[g.u as usize];
            let y = prev[g.v as usize];
            y.sub(&x.mul(&y))
        },
        GateType::Sum => sum_range(prev, g.u, g.v),
    }
}

/// The field sum of `prev[u..v]`, empty when `u >= v`.
fn sum_range(prev: &Vec<FieldElement>, u: u64, v: u64) -> (r: FieldElement)
    requires
        all_valid(prev@),
        v <= prev@.len(),
    ensures
        r.valid(),
        r.as_nat() == range_fsum(vals(prev@), u as int, v as int),
{
    let ghost pv = vals(prev@);
    let plen = prev.len();
    proof {
        lemma_vals_props(prev@);
        assert(prev@.len() == plen as nat);
    }
    let mut acc = FieldElement::zero();
    if u < v {
        let mut idx: u64 = u;
        while idx < v
            invariant
                all_valid(prev@),
                u <= idx <= v,
                v <= prev@.len(),
                pv == vals(prev@),
                pv.len() == prev@.len(),
                prev@.len() <= usize::MAX,
                forall|k: int| 0 <= k < prev@.len() ==> #[trigger] pv[k] == prev@[k].as_nat(),
                acc.valid(),
                acc.as_nat() == range_fsum(pv, u as int, idx as int),
            decreases v - idx,
        {
            acc = acc.add(&prev[idx as usize]);
            idx = idx + 1;
        }
    }
    acc
}

} // verus!
