//! The instruction set: a closed set of operations, each with a fixed byte
//! code, a declared operand width and a declared stack effect.

use vstd::prelude::*;

verus! {

/// One operation of the machine.
#[derive(Clone, Copy, Debug, PartialEq, Eq, Structural)]
pub enum OpCode {
    /// Push the pool entry named by a one-byte index.
    OpConstant,
    /// Push the pool entry named by a three-byte, big-endian index.
    OpConstantLong,
    /// Pop the right operand, pop the left one, push their sum.
    OpAdd,
    /// Pop the right operand, pop the left one, push their difference.
    OpSubtract,
    /// Pop the right operand, pop the left one, push their product.
    OpMultiply,
    /// Pop the right operand, pop the left one, push their quotient.
    OpDivide,
    /// Pop one value, push its negation.
    OpNegate,
    /// Pop one value, hand it out and halt.
    OpReturn,
}

/// The member of the instruction set that a byte stands for, if any. The
/// codes are sparse: the bytes between 6 and 99, and those above 99, stand
/// for nothing.
pub open spec fn decode(byte: u8) -> Option<OpCode> {
    if byte == 0 {
        Some(OpCode::OpConstant)
    } else if byte == 1 {
        Some(OpCode::OpConstantLong)
    } else if byte == 2 {
        Some(OpCode::OpAdd)
    } else if byte == 3 {
        Some(OpCode::OpSubtract)
    } else if byte == 4 {
        Some(OpCode::OpMultiply)
    } else if byte == 5 {
        Some(OpCode::OpDivide)
    } else if byte == 6 {
        Some(OpCode::OpNegate)
    } else if byte == 99 {
        Some(OpCode::OpReturn)
    } else {
        None
    }
}

/// `num_traits::ToPrimitive::to_u8` on a `u64`: the same number as a byte
/// when it is at most 255, and nothing otherwise.
#[verifier::external_body]
fn narrow_to_byte(number: u64) -> (byte: Option<u8>)
    ensures
        number <= 255 ==> byte == Some(number as u8),
        number > 255 ==> byte.is_none(),
{
    num_traits::ToPrimitive::to_u8(&number)
}

impl OpCode {
    /// The byte that stands for this operation in code.
    pub open spec fn code(self) -> u8 {
        match self {
            OpCode::OpConstant => 0,
            OpCode::OpConstantLong => 1,
            OpCode::OpAdd => 2,
            OpCode::OpSubtract => 3,
            OpCode::OpMultiply => 4,
            OpCode::OpDivide => 5,
            OpCode::OpNegate => 6,
            OpCode::OpReturn => 99,
        }
    }

    /// How many operand bytes follow the code byte.
    pub open spec fn operand_bytes(self) -> nat {
        match self {
            OpCode::OpConstant => 1,
            OpCode::OpConstantLong => 3,
            _ => 0,
        }
    }

    /// How many values the operation takes off the stack.
    pub open spec fn pops(self) -> nat {
        match self {
            OpCode::OpConstant | OpCode::OpConstantLong => 0,
            OpCode::OpNegate | OpCode::OpReturn => 1,
            _ => 2,
        }
    }

    /// How many values the operation puts on the stack.
    pub open spec fn pushes(self) -> nat {
        match self {
            OpCode::OpReturn => 0,
            _ => 1,
        }
    }

    /// The name under which the operation is listed.
    pub open spec fn mnemonic_text(self) -> Seq<char> {
        match self {
            OpCode::OpConstant => "LOAD_CONST"@,
            OpCode::OpConstantLong => "LOAD_CONST_LONG"@,
            OpCode::OpAdd => "ADD"@,
            OpCode::OpSubtract => "SUBTRACT"@,
            OpCode::OpMultiply => "MULTIPLY"@,
            OpCode::OpDivide => "DIVIDE"@,
            OpCode::OpNegate => "NEGATE"@,
            OpCode::OpReturn => "RETURN"@,
        }
    }

    /// The name under which the operation is listed.
    pub fn mnemonic(&self) -> (name: &'static str)
        ensures
            name@ == self.mnemonic_text(),
    {
        match self {
            OpCode::OpConstant => "LOAD_CONST",
            OpCode::OpConstantLong => "LOAD_CONST_LONG",
            OpCode::OpAdd => "ADD",
            OpCode::OpSubtract => "SUBTRACT",
            OpCode::OpMultiply => "MULTIPLY",
            OpCode::OpDivide => "DIVIDE",
            OpCode::OpNegate => "NEGATE",
            OpCode::OpReturn => "RETURN",
        }
    }

    /// The operation's number, as wide as the number of any enumeration may be.
    fn number(&self) -> (number: u64)
        ensures
            number == self.code(),
    {
        match self {
            OpCode::OpConstant => 0,
            OpCode::OpConstantLong => 1,
            OpCode::OpAdd => 2,
            OpCode::OpSubtract => 3,
            OpCode::OpMultiply => 4,
            OpCode::OpDivide => 5,
            OpCode::OpNegate => 6,
            OpCode::OpReturn => 99,
        }
    }

    /// The byte that stands for this operation. Every operation has one.
    pub fn to_u8(&self) -> (byte: Option<u8>)
        ensures
            byte == Some(self.code()),
    {
        narrow_to_byte(self.number())
    }

    /// The operation that a byte stands for, or nothing where the byte is
    /// outside the instruction set.
    pub fn from_u8(byte: u8) -> (opcode: Option<OpCode>)
        ensures
            opcode == decode(byte),
    {
        match byte {
            0 => Some(OpCode::OpConstant),
            1 => Some(OpCode::OpConstantLong),
            2 => Some(OpCode::OpAdd),
            3 => Some(OpCode::OpSubtract),
            4 => Some(OpCode::OpMultiply),
            5 => Some(OpCode::OpDivide),
            6 => Some(OpCode::OpNegate),
            99 => Some(OpCode::OpReturn),
            _ => None,
        }
    }

    /// The number of values that the operation takes off the stack.
    pub fn arity(&self) -> (count: usize)
        ensures
            count == self.pops(),
    {
        match self {
            OpCode::OpConstant | OpCode::OpConstantLong => 0,
            OpCode::OpNegate | OpCode::OpReturn => 1,
            _ => 2,
        }
    }

    /// The number of operand bytes that follow the code byte.
    pub fn operand_width(&self) -> (width: usize)
        ensures
            width == self.operand_bytes(),
    {
        match self {
            OpCode::OpConstant => 1,
            OpCode::OpConstantLong => 3,
            _ => 0,
        }
    }
}

/// Encoding an operation and decoding the byte gives the operation back.
pub proof fn lemma_decode_code(opcode: OpCode)
    ensures
        decode(opcode.code()) == Some(opcode),
{
}

/// A byte that decodes to an operation is that operation's code, so no two
/// operations share a code and no byte stands for two operations.
pub proof fn lemma_code_decode(byte: u8)
    ensures
        decode(byte).is_some() ==> decode(byte).unwrap().code() == byte,
{
}

} // verus!
