//! The instruction set: ten opcodes and their one-byte tags.

use crate::error::VmError;
use vstd::prelude::*;
use vstd::std_specs::convert::{FromSpecImpl, TryFromSpecImpl};

verus! {

/// An operation kind of the machine.
#[derive(Clone, Copy, Debug, PartialEq, Eq, Structural)]
pub enum Opcode {
    PUSH,
    POP,
    STORE,
    LOAD,
    ADD,
    SUB,
    MUL,
    DIV,
    MOD,
    RET,
}

/// Number of defined opcodes; the valid tags are `0..OPCODE_COUNT`.
pub const OPCODE_COUNT: u8 = 10;

impl Opcode {
    /// The byte that stands for this opcode in bytecode.
    pub open spec fn tag(self) -> u8 {
        match self {
            Opcode::PUSH => 0,
            Opcode::POP => 1,
            Opcode::STORE => 2,
            Opcode::LOAD => 3,
            Opcode::ADD => 4,
            Opcode::SUB => 5,
            Opcode::MUL => 6,
            Opcode::DIV => 7,
            Opcode::MOD => 8,
            Opcode::RET => 9,
        }
    }

    /// The opcode a byte stands for, if any.
    pub open spec fn from_tag(tag: u8) -> Option<Opcode> {
        if tag == 0 {
            Some(Opcode::PUSH)
        } else if tag == 1 {
            Some(Opcode::POP)
        } else if tag == 2 {
            Some(Opcode::STORE)
        } else if tag == 3 {
            Some(Opcode::LOAD)
        } else if tag == 4 {
            Some(Opcode::ADD)
        } else if tag == 5 {
            Some(Opcode::SUB)
        } else if tag == 6 {
            Some(Opcode::MUL)
        } else if tag == 7 {
            Some(Opcode::DIV)
        } else if tag == 8 {
            Some(Opcode::MOD)
        } else if tag == 9 {
            Some(Opcode::RET)
        } else {
            None
        }
    }

    /// Number of operand bytes that follow the tag in bytecode.
    pub open spec fn operand_width(self) -> nat {
        match self {
            Opcode::PUSH => 8,
            Opcode::STORE | Opcode::LOAD => 1,
            _ => 0,
        }
    }

    /// Number of values the instruction pops from the operand stack.
    pub open spec fn operands_popped(self) -> nat {
        match self {
            Opcode::POP | Opcode::STORE => 1,
            Opcode::ADD | Opcode::SUB | Opcode::MUL | Opcode::DIV | Opcode::MOD => 2,
            _ => 0,
        }
    }
}

/// The tag assignment is a bijection between the opcodes and the bytes
/// `0..OPCODE_COUNT`; every other byte stands for no opcode.
pub proof fn lemma_tag_bijection(opcode: Opcode, tag: u8)
    ensures
        opcode.tag() < OPCODE_COUNT,
        Opcode::from_tag(opcode.tag()) == Some(opcode),
        Opcode::from_tag(tag) is Some <==> tag < OPCODE_COUNT,
        Opcode::from_tag(tag) == Some(opcode) <==> opcode.tag() == tag,
{
}

impl From<Opcode> for u8 {
    /// The tag of an opcode.
    fn from(value: Opcode) -> (tag: u8) {
        match value {
            Opcode::PUSH => 0,
            Opcode::POP => 1,
            Opcode::STORE => 2,
            Opcode::LOAD => 3,
            Opcode::ADD => 4,
            Opcode::SUB => 5,
            Opcode::MUL => 6,
            Opcode::DIV => 7,
            Opcode::MOD => 8,
            Opcode::RET => 9,
        }
    }
}

impl FromSpecImpl<Opcode> for u8 {
    open spec fn obeys_from_spec() -> bool {
        true
    }

    open spec fn from_spec(value: Opcode) -> u8 {
        value.tag()
    }
}

impl TryFrom<u8> for Opcode {
    type Error = VmError;

    /// The opcode with the given tag; `InvalidOpcode` for a byte that is no
    /// tag.
    fn try_from(value: u8) -> (result: Result<Self, Self::Error>) {
        match value {
            0 => Ok(Self::PUSH),
            1 => Ok(Self::POP),
            2 => Ok(Self::STORE),
            3 => Ok(Self::LOAD),
            4 => Ok(Self::ADD),
            5 => Ok(Self::SUB),
            6 => Ok(Self::MUL),
            7 => Ok(Self::DIV),
            8 => Ok(Self::MOD),
            9 => Ok(Self::RET),
            _ => Err(VmError::InvalidOpcode),
        }
    }
}

impl TryFromSpecImpl<u8> for Opcode {
    open spec fn obeys_try_from_spec() -> bool {
        true
    }

    open spec fn try_from_spec(value: u8) -> Result<Self, Self::Error> {
        match Opcode::from_tag(value) {
            Some(opcode) => Ok(opcode),
            None => Err(VmError::InvalidOpcode),
        }
    }
}

} // verus!
