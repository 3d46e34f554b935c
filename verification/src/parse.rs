//! Parsing a circuit from its integer token stream: a depth, then per
//! layer a gate count followed by (type, id, u, v) quadruples with dense,
//! sorted ids.

use vstd::prelude::*;
use vstd::arithmetic::power2::{lemma2_to64, pow2};
use crate::circuit::{bit_len, blen, lemma_blen_bounds, Circuit, Layer};
use crate::gate::{type_of_code, Gate, GateType};

verus! {

/// A malformed circuit description, detected before any evaluation.
#[derive(Clone, Copy, Debug, PartialEq, Eq, Structural)]
pub enum Error {
    /// The stream ended before all announced tokens arrived.
    MissingToken,
    /// A gate carried a type code outside the canonical encoding.
    UnknownGateType,
    /// A gate id did not equal its index in its layer.
    NonDenseIds,
}

/// Decodes the quadruple at offset `off + 4k`, once its type code is
/// known to be canonical.
pub open spec fn gate_at(toks: Seq<u64>, off: int, k: int) -> Gate {
    let t = match type_of_code(toks[off + 4 * k]) {
        Some(t) => t,
        None => GateType::Dummy,
    };
    Gate { ty: t, u: toks[off + 4 * k + 2], v: toks[off + 4 * k + 3] }
}

/// Parses gates `idx..n` of a layer whose quadruples start at `off`:
/// the first gate with a non-canonical type code or an id out of order
/// decides the error.
pub open spec fn parse_gates(toks: Seq<u64>, off: int, idx: int, n: int) -> Result<
    Seq<Gate>,
    Error,
>
    recommends
        0 <= off,
        0 <= idx <= n,
        off + 4 * n <= toks.len(),
    decreases n - idx,
{
    if idx >= n {
        Ok(Seq::empty())
    } else if type_of_code(toks[off + 4 * idx]) is None {
        Err(Error::UnknownGateType)
    } else if toks[off + 4 * idx + 1] != idx {
        Err(Error::NonDenseIds)
    } else {
        match parse_gates(toks, off, idx + 1, n) {
            Ok(rest) => Ok(seq![gate_at(toks, off, idx)] + rest),
            Err(e) => Err(e),
        }
    }
}

/// Parses `d` layer blocks starting at `off`: each is a gate count `n`
/// followed by `4n` gate tokens, and yields its gate list and its
/// challenge-bit count.
pub open spec fn parse_layers(toks: Seq<u64>, off: int, d: int) -> Result<
    Seq<(Seq<Gate>, nat)>,
    Error,
>
    recommends
        0 <= off,
    decreases d,
{
    if d <= 0 {
        Ok(Seq::empty())
    } else if off >= toks.len() {
        Err(Error::MissingToken)
    } else {
        let n = toks[off] as int;
        if toks.len() - off - 1 < 4 * n {
            Err(Error::MissingToken)
        } else {
            match parse_gates(toks, off + 1, 0, n) {
                Err(e) => Err(e),
                Ok(gs) => match parse_layers(toks, off + 1 + 4 * n, d - 1) {
                    Err(e) => Err(e),
                    Ok(rest) => Ok(seq![(gs, blen(n as nat))] + rest),
                },
            }
        }
    }
}

/// What a token stream describes: its first token is the depth, followed
/// by that many layer blocks; trailing tokens are ignored.
pub open spec fn parse_spec(toks: Seq<u64>) -> Result<Seq<(Seq<Gate>, nat)>, Error> {
    if toks.len() == 0 {
        Err(Error::MissingToken)
    } else {
        parse_layers(toks, 1, toks[0] as int)
    }
}

/// The per-layer view a parsed circuit presents: gate list and bit count.
pub open spec fn layers_view(c: Circuit) -> Seq<(Seq<Gate>, nat)> {
    c.layers@.map_values(|l: Layer| (l.gates@, l.bit_length as nat))
}

/// Reads the `n` gate quadruples starting at `off`.
fn read_gates(toks: &Vec<u64>, off: usize, n: usize) -> (r: Result<Vec<Gate>, Error>)
    requires
        off + 4 * (n as int) <= toks@.len(),
    ensures
        match r {
            Ok(gs) => parse_gates(toks@, off as int, 0, n as int) == Ok::<Seq<Gate>, Error>(gs@)
                && gs@.len() == n,
            Err(e) => parse_gates(toks@, off as int, 0, n as int) == Err::<Seq<Gate>, Error>(e),
        },
{
    let total = toks.len();
    let mut gs: Vec<Gate> = Vec::new();
    let mut idx: usize = 0;
    while idx < n
        invariant
            off + 4 * (n as int) <= toks@.len(),
            toks@.len() == total,
            idx <= n,
            gs@.len() == idx,
            parse_gates(toks@, off as int, 0, n as int) == (match parse_gates(
                toks@,
                off as int,
                idx as int,
                n as int,
            ) {
                Ok(r2) => Ok::<Seq<Gate>, Error>(gs@ + r2),
                Err(e) => Err::<Seq<Gate>, Error>(e),
            }),
        decreases n - idx,
    {
        let c = toks[off + 4 * idx];
        let id = toks[off + 4 * idx + 1];
        let u = toks[off + 4 * idx + 2];
        let v = toks[off + 4 * idx + 3];
        let ty = match GateType::from_code(c) {
            Some(t) => t,
            None => {
                return Err(Error::UnknownGateType);
            },
        };
        if id != idx as u64 {
            return Err(Error::NonDenseIds);
        }
        let g = Gate { ty, u, v };
        proof {
            assert(g == gate_at(toks@, off as int, idx as int));
            match parse_gates(toks@, off as int, idx as int + 1, n as int) {
                Ok(r2) => {
                    assert(gs@ + (seq![g] + r2) =~= gs@.push(g) + r2);
                },
                Err(_) => {},
            }
        }
        gs.push(g);
        idx = idx + 1;
    }
    Ok(gs)
}

/// Parses a circuit description given as its whitespace-separated integer
/// tokens. Returns exactly what `parse_spec` says of the stream; a
/// returned circuit additionally carries canonical, addressable layer
/// sizes.
pub fn parse_circuit(toks: &Vec<u64>) -> (r: Result<Circuit, Error>)
    ensures
        match r {
            Ok(c) => parse_spec(toks@) == Ok::<Seq<(Seq<Gate>, nat)>, Error>(layers_view(c))
                && c.bits_ok() && c.sizes_fit(),
            Err(e) => parse_spec(toks@) == Err::<Seq<(Seq<Gate>, nat)>, Error>(e),
        },
{
    if toks.len() == 0 {
        return Err(Error::MissingToken);
    }
    let d = toks[0];
    let total = toks.len();
    let mut layers: Vec<Layer> = Vec::new();
    let mut li: u64 = 0;
    let mut pos: usize = 1;
    while li < d
        invariant
            li <= d,
            1 <= pos <= toks@.len(),
            toks@.len() == total,
            d == toks@[0],
            layers@.len() == li,
            forall|i: int|
                0 <= i < layers@.len() ==> (#[trigger] layers@[i]).bit_length as nat == blen(
                    layers@[i].gates@.len(),
                ) && pow2(layers@[i].bit_length as nat) <= usize::MAX,
            parse_layers(toks@, 1, d as int) == (match parse_layers(
                toks@,
                pos as int,
                d - li,
            ) {
                Ok(r2) => Ok::<Seq<(Seq<Gate>, nat)>, Error>(
                    layers@.map_values(|l: Layer| (l.gates@, l.bit_length as nat)) + r2,
                ),
                Err(e) => Err::<Seq<(Seq<Gate>, nat)>, Error>(e),
            }),
        decreases d - li,
    {
        if pos >= toks.len() {
            proof {
                assert(parse_layers(toks@, pos as int, d - li) == Err::<
                    Seq<(Seq<Gate>, nat)>,
                    Error,
                >(Error::MissingToken));
            }
            return Err(Error::MissingToken);
        }
        let n_tok = toks[pos];
        let remaining = (toks.len() - pos - 1) as u64;
        if n_tok > remaining / 4 {
            proof {
                assert(toks@.len() - pos - 1 < 4 * (n_tok as int));
                assert(parse_layers(toks@, pos as int, d - li) == Err::<
                    Seq<(Seq<Gate>, nat)>,
                    Error,
                >(Error::MissingToken));
            }
            return Err(Error::MissingToken);
        }
        let n = n_tok as usize;
        proof {
            assert(4 * (n_tok as int) <= remaining as int);
        }
        let gs = match read_gates(toks, pos + 1, n) {
            Ok(gs) => gs,
            Err(e) => {
                proof {
                    assert(parse_layers(toks@, pos as int, d - li) == Err::<
                        Seq<(Seq<Gate>, nat)>,
                        Error,
                    >(e));
                }
                return Err(e);
            },
        };
        let bit_length = bit_len(n);
        proof {
            lemma_blen_bounds(n as nat);
            lemma2_to64();
            assert(parse_layers(toks@, pos as int, d - li) == (match parse_layers(
                toks@,
                pos as int + 1 + 4 * (n as int),
                d - li - 1,
            ) {
                Ok(rest) => Ok::<Seq<(Seq<Gate>, nat)>, Error>(
                    seq![(gs@, blen(n as nat))] + rest,
                ),
                Err(e) => Err::<Seq<(Seq<Gate>, nat)>, Error>(e),
            }));
            let ghost old_layers = layers@;
            let ghost newl = Layer { gates: gs, bit_length };
            match parse_layers(toks@, pos as int + 1 + 4 * (n as int), d - li - 1) {
                Ok(r2) => {
                    assert(old_layers.map_values(|l: Layer| (l.gates@, l.bit_length as nat))
                        + (seq![(gs@, blen(n as nat))] + r2) =~~= old_layers.push(newl).map_values(
                        |l: Layer| (l.gates@, l.bit_length as nat),
                    ) + r2);
                },
                Err(_) => {},
            }
        }
        layers.push(Layer { gates: gs, bit_length });
        pos = pos + 1 + 4 * n;
        li = li + 1;
    }
    let c = Circuit { layers };
    proof {
        assert(parse_layers(toks@, pos as int, 0) == Ok::<Seq<(Seq<Gate>, nat)>, Error>(
            Seq::empty(),
        ));
        assert(layers_view(c) + Seq::<(Seq<Gate>, nat)>::empty() =~~= layers_view(c));
    }
    Ok(c)
}

/// Builder for compiling a hash function's circuit description into gates;
/// this crate keeps its interface and yields an empty circuit for every
/// description.
pub fn parse_sha(file: &str) -> (r: Circuit)
    ensures
        r.layers@.len() == 0,
{
    let _unused = file;
    Circuit::new()
}

} // verus!
