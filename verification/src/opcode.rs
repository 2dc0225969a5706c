//! Instruction opcodes and their one-byte encoding.
use vstd::prelude::*;

verus! {

/// One instruction of the virtual machine. Each opcode is encoded as a single
/// byte, numbered in declaration order starting at zero.
#[derive(Debug, Clone, Copy, PartialEq, Eq, Structural)]
pub enum Opcode {
    Return,
    Constant,
    ConstantLong,
    Negate,
    Add,
    Subtract,
    Divide,
    Multiply,
    Nil,
    True,
    False,
    Not,
    Equal,
    Greater,
    Less,
}

impl Opcode {
    /// The byte that encodes this opcode.
    pub open spec fn byte(self) -> u8 {
        match self {
            Opcode::Return => 0,
            Opcode::Constant => 1,
            Opcode::ConstantLong => 2,
            Opcode::Negate => 3,
            Opcode::Add => 4,
            Opcode::Subtract => 5,
            Opcode::Divide => 6,
            Opcode::Multiply => 7,
            Opcode::Nil => 8,
            Opcode::True => 9,
            Opcode::False => 10,
            Opcode::Not => 11,
            Opcode::Equal => 12,
            Opcode::Greater => 13,
            Opcode::Less => 14,
        }
    }

    /// The opcode a byte stands for, if any: the inverse of [`Opcode::byte`].
    pub open spec fn of_byte(byte: u8) -> Option<Opcode> {
        if byte == 0 {
            Some(Opcode::Return)
        } else if byte == 1 {
            Some(Opcode::Constant)
        } else if byte == 2 {
            Some(Opcode::ConstantLong)
        } else if byte == 3 {
            Some(Opcode::Negate)
        } else if byte == 4 {
            Some(Opcode::Add)
        } else if byte == 5 {
            Some(Opcode::Subtract)
        } else if byte == 6 {
            Some(Opcode::Divide)
        } else if byte == 7 {
            Some(Opcode::Multiply)
        } else if byte == 8 {
            Some(Opcode::Nil)
        } else if byte == 9 {
            Some(Opcode::True)
        } else if byte == 10 {
            Some(Opcode::False)
        } else if byte == 11 {
            Some(Opcode::Not)
        } else if byte == 12 {
            Some(Opcode::Equal)
        } else if byte == 13 {
            Some(Opcode::Greater)
        } else if byte == 14 {
            Some(Opcode::Less)
        } else {
            None
        }
    }

    /// Encodes the opcode as its byte.
    pub fn to_byte(self) -> (byte: u8)
        ensures
            byte == self.byte(),
            Opcode::of_byte(byte) == Some(self),
    {
        match self {
            Opcode::Return => 0,
            Opcode::Constant => 1,
            Opcode::ConstantLong => 2,
            Opcode::Negate => 3,
            Opcode::Add => 4,
            Opcode::Subtract => 5,
            Opcode::Divide => 6,
            Opcode::Multiply => 7,
            Opcode::Nil => 8,
            Opcode::True => 9,
            Opcode::False => 10,
            Opcode::Not => 11,
            Opcode::Equal => 12,
            Opcode::Greater => 13,
            Opcode::Less => 14,
        }
    }

    /// The encoding as an owned byte string of length one, ready to be
    /// appended to an instruction stream.
    pub fn to_bytes(self) -> (bytes: Vec<u8>)
        ensures
            bytes@ == seq![self.byte()],
    {
        let mut bytes: Vec<u8> = Vec::new();
        bytes.push(self.to_byte());
        bytes
    }

    /// Decodes a byte. Bytes above the last opcode decode to `None`.
    pub fn from_byte(byte: u8) -> (opcode: Option<Opcode>)
        ensures
            opcode == Opcode::of_byte(byte),
            opcode is Some <==> byte <= 14,
            opcode is Some ==> opcode->0.byte() == byte,
    {
        match byte {
            0 => Some(Opcode::Return),
            1 => Some(Opcode::Constant),
            2 => Some(Opcode::ConstantLong),
            3 => Some(Opcode::Negate),
            4 => Some(Opcode::Add),
            5 => Some(Opcode::Subtract),
            6 => Some(Opcode::Divide),
            7 => Some(Opcode::Multiply),
            8 => Some(Opcode::Nil),
            9 => Some(Opcode::True),
            10 => Some(Opcode::False),
            11 => Some(Opcode::Not),
            12 => Some(Opcode::Equal),
            13 => Some(Opcode::Greater),
            14 => Some(Opcode::Less),
            _ => None,
        }
    }
}

/// Decoding an encoded opcode gives the opcode back, and every byte that
/// decodes is the encoding of what it decodes to.
pub proof fn lemma_opcode_byte_roundtrip(opcode: Opcode, byte: u8)
    ensures
        Opcode::of_byte(opcode.byte()) == Some(opcode),
        Opcode::of_byte(byte) is Some ==> Opcode::of_byte(byte)->0.byte() == byte,
        Opcode::of_byte(byte) is Some <==> byte <= 14,
{
}

} // verus!
