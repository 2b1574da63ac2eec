//! Instruction kinds and decoded instructions of the command buffer.

use vstd::prelude::*;

verus! {

/// The kind of one instruction.
///
/// Each kind has a fixed numeric code on the wire. Codes are grouped by
/// range: primitives start at 0, binary operators at 100. The evaluator on
/// the device side hard-codes them, so they never change.
#[derive(Debug, Clone, Copy, PartialEq, Eq, Structural)]
pub enum CSGCommandType {
    Sphere,
    Box,
    Union,
    Subtraction,
}

/// First code of the range that holds the binary operators.
pub const BINARY_OPERATOR_BASE: u32 = 100;

impl CSGCommandType {
    /// The code that stands for this kind in the instruction stream.
    pub open spec fn spec_code(self) -> u32 {
        match self {
            CSGCommandType::Sphere => 0,
            CSGCommandType::Box => 1,
            CSGCommandType::Union => 100,
            CSGCommandType::Subtraction => 101,
        }
    }

    /// The kind that a code stands for, if any.
    pub open spec fn spec_from_code(code: u32) -> Option<CSGCommandType> {
        if code == 0 {
            Some(CSGCommandType::Sphere)
        } else if code == 1 {
            Some(CSGCommandType::Box)
        } else if code == 100 {
            Some(CSGCommandType::Union)
        } else if code == 101 {
            Some(CSGCommandType::Subtraction)
        } else {
            None
        }
    }

    /// Number of parameter words that follow an instruction of this kind:
    /// a sphere has a center and a radius, a box a center and three
    /// half-extents, an operator nothing.
    pub open spec fn spec_param_words(self) -> nat {
        match self {
            CSGCommandType::Sphere => 4,
            CSGCommandType::Box => 6,
            CSGCommandType::Union => 0,
            CSGCommandType::Subtraction => 0,
        }
    }

    /// Whether this kind pushes a value without popping any.
    pub open spec fn spec_is_primitive(self) -> bool {
        self is Sphere || self is Box
    }

    /// Whether this kind pops two values and pushes one.
    pub open spec fn spec_is_binary_operator(self) -> bool {
        self is Union || self is Subtraction
    }

    pub fn code(self) -> (code: u32)
        ensures
            code == self.spec_code(),
    {
        match self {
            CSGCommandType::Sphere => 0,
            CSGCommandType::Box => 1,
            CSGCommandType::Union => 100,
            CSGCommandType::Subtraction => 101,
        }
    }

    pub fn from_code(code: u32) -> (kind: Option<CSGCommandType>)
        ensures
            kind == Self::spec_from_code(code),
    {
        if code == 0 {
            Some(CSGCommandType::Sphere)
        } else if code == 1 {
            Some(CSGCommandType::Box)
        } else if code == 100 {
            Some(CSGCommandType::Union)
        } else if code == 101 {
            Some(CSGCommandType::Subtraction)
        } else {
            None
        }
    }

    pub fn param_words(self) -> (words: usize)
        ensures
            words == self.spec_param_words(),
    {
        match self {
            CSGCommandType::Sphere => 4,
            CSGCommandType::Box => 6,
            CSGCommandType::Union => 0,
            CSGCommandType::Subtraction => 0,
        }
    }

    pub fn is_primitive(self) -> (b: bool)
        ensures
            b == self.spec_is_primitive(),
    {
        match self {
            CSGCommandType::Sphere => true,
            CSGCommandType::Box => true,
            _ => false,
        }
    }

    pub fn is_binary_operator(self) -> (b: bool)
        ensures
            b == self.spec_is_binary_operator(),
    {
        match self {
            CSGCommandType::Union => true,
            CSGCommandType::Subtraction => true,
            _ => false,
        }
    }

    /// Decoding a code gives back the kind it was made from, and only the
    /// codes of the four kinds decode: no two kinds share a code.
    pub proof fn lemma_code_round_trip(kind: CSGCommandType, code: u32)
        ensures
            Self::spec_from_code(kind.spec_code()) == Some(kind),
            Self::spec_from_code(code) == Some(kind) <==> code == kind.spec_code(),
            kind.spec_is_primitive() <==> kind.spec_code() < BINARY_OPERATOR_BASE,
            kind.spec_is_primitive() != kind.spec_is_binary_operator(),
    {
    }
}

/// One decoded instruction: its kind, and the index in the parameter array
/// at which its operands begin.
#[derive(Debug, Clone, Copy, PartialEq, Eq, Structural)]
pub struct Command {
    pub opcode: CSGCommandType,
    pub parameter_offset: u32,
}

} // verus!
