//! Gates of a layered arithmetic circuit.

use vstd::prelude::*;

verus! {

/// The closed set of gate kinds. Operands `u`, `v` of a gate index the
/// previous layer, or encode a literal for `Input`.
#[derive(Clone, Copy, Debug, PartialEq, Eq, Structural)]
pub enum GateType {
    Add,
    Mul,
    Dummy,
    Input,
    DirectRelay,
    Sum,
    Not,
    Minus,
    Xor,
    Naab,
    Relay,
}

/// The canonical numeric encoding of a gate kind in circuit descriptions:
/// 0=Add, 1=Mul, 2=Dummy, 3=Input, 4=DirectRelay, 5=Sum, 6=Not, 7=Minus,
/// 8=Xor, 9=Naab, 10=Relay. Any other code is rejected.
pub open spec fn type_of_code(c: u64) -> Option<GateType> {
    if c == 0 {
        Some(GateType::Add)
    } else if c == 1 {
        Some(GateType::Mul)
    } else if c == 2 {
        Some(GateType::Dummy)
    } else if c == 3 {
        Some(GateType::Input)
    } else if c == 4 {
        Some(GateType::DirectRelay)
    } else if c == 5 {
        Some(GateType::Sum)
    } else if c == 6 {
        Some(GateType::Not)
    } else if c == 7 {
        Some(GateType::Minus)
    } else if c == 8 {
        Some(GateType::Xor)
    } else if c == 9 {
        Some(GateType::Naab)
    } else if c == 10 {
        Some(GateType::Relay)
    } else {
        None
    }
}

impl GateType {
    /// Decodes the canonical numeric encoding.
    pub fn from_code(c: u64) -> (r: Option<GateType>)
        ensures
            r == type_of_code(c),
    {
        match c {
            0 => Some(GateType::Add),
            1 => Some(GateType::Mul),
            2 => Some(GateType::Dummy),
            3 => Some(GateType::Input),
            4 => Some(GateType::DirectRelay),
            5 => Some(GateType::Sum),
            6 => Some(GateType::Not),
            7 => Some(GateType::Minus),
            8 => Some(GateType::Xor),
            9 => Some(GateType::Naab),
            10 => Some(GateType::Relay),
            _ => None,
        }
    }
}

/// One gate: its kind and its two operands.
#[derive(Clone, Copy, Debug, PartialEq, Eq, Structural)]
pub struct Gate {
    pub ty: GateType,
    /// first input wire index, or the literal of an `Input` gate
    pub u: u64,
    /// second input wire index
    pub v: u64,
}

} // verus!
