//! The layered circuit model: dense layers of gates, each layer padded to a
//! power-of-two index space.

use vstd::prelude::*;
use vstd::arithmetic::power2::{lemma2_to64, lemma2_to64_rest, lemma_pow2_strictly_increases, lemma_pow2_unfold, pow2};
use crate::gate::{Gate, GateType};

verus! {

/// The challenge-bit count of a layer of `n` gates: the smallest `k` with
/// `2^k >= n`, except that a trivial layer (`n <= 1`) still reserves one bit.
pub open spec fn blen(n: nat) -> nat
    decreases n,
{
    if n <= 2 {
        1
    } else {
        1 + blen((n + 1) / 2)
    }
}

pub proof fn lemma_blen_bounds(n: nat)
    ensures
        1 <= blen(n),
        n <= pow2(blen(n)),
        2 <= n ==> pow2(blen(n)) <= 2 * n - 2,
    decreases n,
{
    if n <= 2 {
        lemma2_to64();
    } else {
        let m = (n + 1) / 2;
        lemma_blen_bounds(m);
        lemma_pow2_unfold(blen(n));
    }
}

/// `blen(n)` is the unique `k >= 1` with `2^k >= n` that is either 1 or has
/// `2^(k-1) < n`.
pub proof fn lemma_blen_unique(n: nat, k: nat)
    requires
        1 <= k,
        n <= pow2(k),
        k == 1 || pow2((k - 1) as nat) < n,
    ensures
        k == blen(n),
{
    lemma_blen_bounds(n);
    let b = blen(n);
    if k < b {
        assert(2 <= n) by {
            if n <= 2 {
                assert(b == 1);
            }
        }
        lemma_pow2_unfold(b);
        assert(pow2((b - 1) as nat) < n);
        if k < b - 1 {
            lemma_pow2_strictly_increases(k, (b - 1) as nat);
        }
        assert(pow2(k) <= pow2((b - 1) as nat));
        assert(false);
    } else if k > b {
        assert(k >= 2);
        if b < k - 1 {
            lemma_pow2_strictly_increases(b, (k - 1) as nat);
        }
        assert(pow2((k - 1) as nat) >= pow2(b));
        assert(false);
    }
}

/// Computes `blen` of a gate count.
pub fn bit_len(n: usize) -> (k: usize)
    ensures
        k as nat == blen(n as nat),
        1 <= k <= 64,
{
    let mut k: usize = 1;
    let mut cap: u128 = 2;
    proof {
        lemma2_to64();
    }
    while cap < n as u128
        invariant
            1 <= k <= 64,
            cap == pow2(k as nat),
            2 <= cap,
            k == 1 || pow2((k - 1) as nat) < n as nat,
        decreases 64 - k,
    {
        proof {
            lemma2_to64_rest();
            if k as nat >= 64 {
                if k as nat > 64 {
                    lemma_pow2_strictly_increases(64, k as nat);
                }
                assert(cap >= 0x10000000000000000);
                assert(false);
            }
            lemma_pow2_unfold((k + 1) as nat);
        }
        k = k + 1;
        cap = cap * 2;
    }
    proof {
        lemma_blen_unique(n as nat, k as nat);
    }
    k
}

/// Computes `2^k` exactly, for exponents whose power fits the platform.
pub fn pow2_exec(k: usize) -> (r: usize)
    requires
        pow2(k as nat) <= usize::MAX,
    ensures
        r as nat == pow2(k as nat),
{
    let mut i: usize = 0;
    let mut r: usize = 1;
    proof {
        lemma2_to64();
    }
    while i < k
        invariant
            i <= k,
            r as nat == pow2(i as nat),
            pow2(k as nat) <= usize::MAX,
        decreases k - i,
    {
        proof {
            if ((i + 1) as nat) < (k as nat) {
                lemma_pow2_strictly_increases((i + 1) as nat, k as nat);
            }
            lemma_pow2_unfold((i + 1) as nat);
        }
        r = r * 2;
        i = i + 1;
    }
    r
}

/// One layer: a dense, ordered list of gates whose positional index is the
/// gate id, and the challenge-bit count of its padded index space.
pub struct Layer {
    pub gates: Vec<Gate>,
    pub bit_length: usize,
}

/// A layered circuit; layer 0 holds the inputs.
pub struct Circuit {
    pub layers: Vec<Layer>,
}

/// Whether a gate's operands stay inside the previous layer's padded index
/// space of size `bound`; exactly the positions the evaluator reads.
pub open spec fn operands_ok(g: Gate, bound: nat) -> bool {
    match g.ty {
        GateType::Add => g.u < bound && g.v < bound,
        GateType::Mul => g.u < bound && g.v < bound,
        GateType::Minus => g.u < bound && g.v < bound,
        GateType::Xor => g.u < bound && g.v < bound,
        GateType::Naab => g.u < bound && g.v < bound,
        GateType::DirectRelay => g.u < bound,
        GateType::Relay => g.u < bound,
        GateType::Not => g.u < bound,
        GateType::Sum => g.v <= bound,
        GateType::Input => true,
        GateType::Dummy => true,
    }
}

impl Layer {
    /// The layer's padded index space size.
    pub open spec fn size(self) -> nat {
        pow2(self.bit_length as nat)
    }
}

impl Circuit {
    /// Every layer's bit count is the canonical one for its gate count.
    pub open spec fn bits_ok(self) -> bool {
        forall|i: int|
            0 <= i < self.layers@.len() ==> (#[trigger] self.layers@[i]).bit_length as nat
                == blen(self.layers@[i].gates@.len())
    }

    /// Every layer's padded size fits the platform's address space.
    pub open spec fn sizes_fit(self) -> bool {
        forall|i: int|
            0 <= i < self.layers@.len() ==> (#[trigger] self.layers@[i]).size() <= usize::MAX
    }

    /// Layer 0 holds only `Input` and `Dummy` gates.
    pub open spec fn layer0_ok(self) -> bool {
        self.layers@.len() > 0 ==> forall|k: int|
            0 <= k < self.layers@[0].gates@.len() ==> ((#[trigger] self.layers@[0].gates@[k]).ty
                == GateType::Input || self.layers@[0].gates@[k].ty == GateType::Dummy)
    }

    /// Every gate above layer 0 reads only inside the previous layer's
    /// padded index space.
    pub open spec fn wires_ok(self) -> bool {
        forall|i: int, k: int|
            1 <= i < self.layers@.len() && 0 <= k < self.layers@[i].gates@.len()
                ==> operands_ok(
                #[trigger] self.layers@[i].gates@[k],
                pow2(self.layers@[i - 1].bit_length as nat),
            )
    }

    /// The circuit invariant that the evaluator establishes and the
    /// verifier relies on.
    pub open spec fn wf(self) -> bool {
        self.bits_ok() && self.sizes_fit() && self.layer0_ok() && self.wires_ok()
    }

    pub fn new() -> (r: Circuit)
        ensures
            r.layers@.len() == 0,
    {
        Circuit { layers: Vec::new() }
    }

    /// Appends a layer, computing its challenge-bit count from how many
    /// gates it holds, a number bounded so the padded size fits the
    /// platform.
    pub fn add_layer(&mut self, gates: Vec<Gate>)
        requires
            gates@.len() <= usize::MAX / 4,
        ensures
            final(self).layers@.len() == old(self).layers@.len() + 1,
            final(self).layers@.last().gates@ == gates@,
            final(self).layers@.last().bit_length as nat == blen(gates@.len()),
            final(self).layers@.last().size() <= usize::MAX,
            forall|i: int|
                0 <= i < old(self).layers@.len() ==> final(self).layers@[i] == old(
                    self,
                ).layers@[i],
    {
        let bit_length = bit_len(gates.len());
        proof {
            lemma_blen_bounds(gates@.len());
            lemma2_to64();
        }
        self.layers.push(Layer { gates, bit_length });
    }
}

} // verus!
