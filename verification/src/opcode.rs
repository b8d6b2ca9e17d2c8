use vstd::prelude::*;

verus! {

/// The closed instruction set of the bytecode.
///
/// Each opcode has a fixed byte encoding, given by `to_byte`; `try_from`
/// is the total decoder, rejecting every byte that encodes no opcode.
#[derive(Clone, Copy, PartialEq, Eq, Structural, Debug)]
pub enum OpCode {
    Constant,
    Add,
    Subtract,
    Multiply,
    Divide,
    Negate,
    Return,
}

/// The byte encoding of each opcode, as a spec-level function.
pub open spec fn spec_opcode_byte(op: OpCode) -> u8 {
    match op {
        OpCode::Constant => 0,
        OpCode::Add => 1,
        OpCode::Subtract => 2,
        OpCode::Multiply => 3,
        OpCode::Divide => 4,
        OpCode::Negate => 5,
        OpCode::Return => 6,
    }
}

/// The total decode function: `Some(op)` exactly when `b` encodes `op`.
pub open spec fn spec_opcode_of_byte(b: u8) -> Option<OpCode> {
    if b == 0 {
        Some(OpCode::Constant)
    } else if b == 1 {
        Some(OpCode::Add)
    } else if b == 2 {
        Some(OpCode::Subtract)
    } else if b == 3 {
        Some(OpCode::Multiply)
    } else if b == 4 {
        Some(OpCode::Divide)
    } else if b == 5 {
        Some(OpCode::Negate)
    } else if b == 6 {
        Some(OpCode::Return)
    } else {
        None
    }
}

impl OpCode {
    /// Encode the opcode as its instruction byte.
    pub fn to_byte(self) -> (r: u8)
        ensures
            r == spec_opcode_byte(self),
    {
        match self {
            OpCode::Constant => 0,
            OpCode::Add => 1,
            OpCode::Subtract => 2,
            OpCode::Multiply => 3,
            OpCode::Divide => 4,
            OpCode::Negate => 5,
            OpCode::Return => 6,
        }
    }

    /// Decode one byte; every byte outside the instruction set is rejected.
    pub fn try_from(value: u8) -> (r: Result<OpCode, ()>)
        ensures
            r is Ok <==> spec_opcode_of_byte(value) is Some,
            r matches Ok(op) ==> spec_opcode_of_byte(value) == Some(op),
    {
        if value == 0 {
            Ok(OpCode::Constant)
        } else if value == 1 {
            Ok(OpCode::Add)
        } else if value == 2 {
            Ok(OpCode::Subtract)
        } else if value == 3 {
            Ok(OpCode::Multiply)
        } else if value == 4 {
            Ok(OpCode::Divide)
        } else if value == 5 {
            Ok(OpCode::Negate)
        } else if value == 6 {
            Ok(OpCode::Return)
        } else {
            Err(())
        }
    }
}

/// Encoding and decoding are mutually inverse: every opcode's byte decodes
/// back to that opcode, and every byte that decodes at all re-encodes to
/// the same byte.
pub proof fn lemma_opcode_byte_roundtrip(op: OpCode, b: u8)
    ensures
        spec_opcode_of_byte(spec_opcode_byte(op)) == Some(op),
        spec_opcode_of_byte(b) matches Some(o) ==> spec_opcode_byte(o) == b,
{
}

} // verus!
