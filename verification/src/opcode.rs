//! The closed set of operation codes and their one-byte encoding.

use vstd::prelude::*;

verus! {

/// One instruction selector.  Each variant has a fixed operand layout and a
/// stable one-byte encoding; `UKWN` is the reserved sentinel that every byte
/// outside the defined set decodes to, so that decoding is total.
#[allow(non_camel_case_types)]
#[derive(Copy, Clone, Debug, PartialEq, Eq, Structural)]
pub enum OpCode {
    STOP,
    LOAD,
    ADD,
    SUB,
    MUL,
    DIV,
    JMP,
    JFW,
    JBK,
    EQ,
    NEQ,
    GT,
    LT,
    GTE,
    LTE,
    JEQ,
    JNE,
    SYS,
    UKWN,
}

/// The byte an opcode is encoded as.  The sentinel `UKWN` is given the first
/// byte outside the defined set.
pub open spec fn opcode_byte(op: OpCode) -> u8 {
    match op {
        OpCode::STOP => 0,
        OpCode::LOAD => 1,
        OpCode::ADD => 2,
        OpCode::SUB => 3,
        OpCode::MUL => 4,
        OpCode::DIV => 5,
        OpCode::JMP => 6,
        OpCode::JFW => 7,
        OpCode::JBK => 8,
        OpCode::EQ => 9,
        OpCode::NEQ => 10,
        OpCode::GT => 11,
        OpCode::LT => 12,
        OpCode::GTE => 13,
        OpCode::LTE => 14,
        OpCode::JEQ => 15,
        OpCode::JNE => 16,
        OpCode::SYS => 17,
        OpCode::UKWN => 18,
    }
}

/// The opcode a byte decodes to; bytes outside the defined set decode to the
/// `UKWN` sentinel.
pub open spec fn opcode_of_byte(b: u8) -> OpCode {
    if b == 0 {
        OpCode::STOP
    } else if b == 1 {
        OpCode::LOAD
    } else if b == 2 {
        OpCode::ADD
    } else if b == 3 {
        OpCode::SUB
    } else if b == 4 {
        OpCode::MUL
    } else if b == 5 {
        OpCode::DIV
    } else if b == 6 {
        OpCode::JMP
    } else if b == 7 {
        OpCode::JFW
    } else if b == 8 {
        OpCode::JBK
    } else if b == 9 {
        OpCode::EQ
    } else if b == 10 {
        OpCode::NEQ
    } else if b == 11 {
        OpCode::GT
    } else if b == 12 {
        OpCode::LT
    } else if b == 13 {
        OpCode::GTE
    } else if b == 14 {
        OpCode::LTE
    } else if b == 15 {
        OpCode::JEQ
    } else if b == 16 {
        OpCode::JNE
    } else if b == 17 {
        OpCode::SYS
    } else {
        OpCode::UKWN
    }
}

impl OpCode {
    /// Decodes one byte to its opcode.
    pub fn from_byte(b: u8) -> (op: OpCode)
        ensures
            op == opcode_of_byte(b),
    {
        match b {
            0 => OpCode::STOP,
            1 => OpCode::LOAD,
            2 => OpCode::ADD,
            3 => OpCode::SUB,
            4 => OpCode::MUL,
            5 => OpCode::DIV,
            6 => OpCode::JMP,
            7 => OpCode::JFW,
            8 => OpCode::JBK,
            9 => OpCode::EQ,
            10 => OpCode::NEQ,
            11 => OpCode::GT,
            12 => OpCode::LT,
            13 => OpCode::GTE,
            14 => OpCode::LTE,
            15 => OpCode::JEQ,
            16 => OpCode::JNE,
            17 => OpCode::SYS,
            _ => OpCode::UKWN,
        }
    }

    /// Encodes this opcode as its byte.
    pub fn to_byte(self) -> (b: u8)
        ensures
            b == opcode_byte(self),
    {
        match self {
            OpCode::STOP => 0,
            OpCode::LOAD => 1,
            OpCode::ADD => 2,
            OpCode::SUB => 3,
            OpCode::MUL => 4,
            OpCode::DIV => 5,
            OpCode::JMP => 6,
            OpCode::JFW => 7,
            OpCode::JBK => 8,
            OpCode::EQ => 9,
            OpCode::NEQ => 10,
            OpCode::GT => 11,
            OpCode::LT => 12,
            OpCode::GTE => 13,
            OpCode::LTE => 14,
            OpCode::JEQ => 15,
            OpCode::JNE => 16,
            OpCode::SYS => 17,
            OpCode::UKWN => 18,
        }
    }
}

/// The opcode-to-byte and byte-to-opcode mappings are inverse bijections over
/// the defined set, and every byte outside it decodes to the sentinel: no
/// byte value decodes to undefined behaviour.
pub proof fn lemma_opcode_encoding_bijective()
    ensures
        forall|op: OpCode| op != OpCode::UKWN ==> #[trigger] opcode_of_byte(opcode_byte(op)) == op,
        forall|b: u8| b < 18 ==> #[trigger] opcode_byte(opcode_of_byte(b)) == b,
        forall|b: u8| b >= 18 ==> #[trigger] opcode_of_byte(b) == OpCode::UKWN,
{
}

} // verus!
