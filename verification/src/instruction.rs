//! The instruction set and its one-byte encoding.

use vstd::prelude::*;

verus! {

/// The operations of the machine. An instruction is one opcode byte,
/// followed for some opcodes by an operand of eight bytes.
#[derive(Clone, Copy, Debug, PartialEq, Eq, Structural)]
pub enum Instruction {
    /// Push the signed operand.
    PushInt,
    /// Reserved for floats; no machine executes it.
    PushFloat,
    /// Allocate a copy of the heap constant the operand numbers and push its
    /// handle.
    HeapConst,
    /// Discard the top value.
    Pop,
    /// Discard the handle on top and release it.
    PopHeapPtr,
    /// Continue at the byte offset given by the operand.
    Jump,
    /// Pop a boolean and jump if it is true.
    JumpEq,
    /// Pop a boolean and jump if it is false.
    JumpNeq,
    /// Replace the two integers on top by their sum.
    Add,
    /// Push a copy of the top value.
    Dup,
    /// Replace the two integers on top by the boolean "lower <= upper".
    LEQ,
    /// Add one to the integer on top.
    Incr,
}

impl Instruction {
    /// The byte that encodes an instruction.
    pub open spec fn opcode(self) -> u8 {
        match self {
            Instruction::PushInt => 0,
            Instruction::PushFloat => 1,
            Instruction::HeapConst => 2,
            Instruction::Pop => 3,
            Instruction::PopHeapPtr => 4,
            Instruction::Jump => 5,
            Instruction::JumpEq => 6,
            Instruction::JumpNeq => 7,
            Instruction::Add => 8,
            Instruction::Dup => 9,
            Instruction::LEQ => 10,
            Instruction::Incr => 11,
        }
    }

    /// The instruction a byte encodes, if any.
    pub open spec fn decode(byte: u8) -> Option<Instruction> {
        if byte == 0 {
            Some(Instruction::PushInt)
        } else if byte == 1 {
            Some(Instruction::PushFloat)
        } else if byte == 2 {
            Some(Instruction::HeapConst)
        } else if byte == 3 {
            Some(Instruction::Pop)
        } else if byte == 4 {
            Some(Instruction::PopHeapPtr)
        } else if byte == 5 {
            Some(Instruction::Jump)
        } else if byte == 6 {
            Some(Instruction::JumpEq)
        } else if byte == 7 {
            Some(Instruction::JumpNeq)
        } else if byte == 8 {
            Some(Instruction::Add)
        } else if byte == 9 {
            Some(Instruction::Dup)
        } else if byte == 10 {
            Some(Instruction::LEQ)
        } else if byte == 11 {
            Some(Instruction::Incr)
        } else {
            None
        }
    }

    /// Whether an operand of eight bytes follows the opcode.
    pub open spec fn has_operand(self) -> bool {
        match self {
            Instruction::PushInt
            | Instruction::HeapConst
            | Instruction::Jump
            | Instruction::JumpEq
            | Instruction::JumpNeq => true,
            _ => false,
        }
    }

    /// How many values the instruction takes off the stack.
    pub open spec fn pops(self) -> nat {
        match self {
            Instruction::Pop | Instruction::PopHeapPtr | Instruction::JumpEq | Instruction::JumpNeq => 1,
            Instruction::Add | Instruction::LEQ => 2,
            _ => 0,
        }
    }

    /// How many values the instruction puts on the stack.
    pub open spec fn pushes(self) -> nat {
        match self {
            Instruction::PushInt
            | Instruction::HeapConst
            | Instruction::Add
            | Instruction::LEQ
            | Instruction::Dup => 1,
            _ => 0,
        }
    }

    /// Decodes an opcode byte; a byte that encodes no instruction gives
    /// `None`.
    pub fn from_byte(byte: u8) -> (instruction: Option<Instruction>)
        ensures
            instruction == Instruction::decode(byte),
    {
        match byte {
            0 => Some(Instruction::PushInt),
            1 => Some(Instruction::PushFloat),
            2 => Some(Instruction::HeapConst),
            3 => Some(Instruction::Pop),
            4 => Some(Instruction::PopHeapPtr),
            5 => Some(Instruction::Jump),
            6 => Some(Instruction::JumpEq),
            7 => Some(Instruction::JumpNeq),
            8 => Some(Instruction::Add),
            9 => Some(Instruction::Dup),
            10 => Some(Instruction::LEQ),
            11 => Some(Instruction::Incr),
            _ => None,
        }
    }

    /// The byte that encodes the instruction.
    pub fn to_byte(self) -> (byte: u8)
        ensures
            byte == self.opcode(),
    {
        match self {
            Instruction::PushInt => 0,
            Instruction::PushFloat => 1,
            Instruction::HeapConst => 2,
            Instruction::Pop => 3,
            Instruction::PopHeapPtr => 4,
            Instruction::Jump => 5,
            Instruction::JumpEq => 6,
            Instruction::JumpNeq => 7,
            Instruction::Add => 8,
            Instruction::Dup => 9,
            Instruction::LEQ => 10,
            Instruction::Incr => 11,
        }
    }

    /// Decoding undoes encoding.
    pub proof fn lemma_decode_opcode(self)
        ensures
            Instruction::decode(self.opcode()) == Some(self),
    {
    }

    /// Exactly the bytes below twelve encode an instruction, each the one
    /// that encodes back to it.
    pub proof fn lemma_opcode_decode(byte: u8)
        ensures
            Instruction::decode(byte) is Some <==> byte < 12,
            Instruction::decode(byte) matches Some(instruction) ==> instruction.opcode() == byte,
    {
    }
}

} // verus!
