//! The types of object that the runtime knows.

use vstd::prelude::*;
use crate::allocation::AllocTypeId;

verus! {

/// One identifier for each type of object that can live in the heap.
#[derive(Copy, Clone, Debug, PartialEq, Eq, Structural)]
pub enum TypeList {
    ArrayBackingBytes,
    ArrayOpcode,
    ArrayU8,
    ArrayU16,
    ArrayU32,
    ByteCode,
    CallFrameList,
    Dict,
    Function,
    InstructionStream,
    List,
    NumberObject,
    Pair,
    Partial,
    Symbol,
    Text,
    Thread,
    Upvalue,
}

impl AllocTypeId for TypeList {

}

impl TypeList {
    /// The number that stands for the identifier in a header: its place
    /// in the list of identifiers, counted from zero.
    pub open spec fn code(self) -> u16 {
        match self {
            TypeList::ArrayBackingBytes => 0,
            TypeList::ArrayOpcode => 1,
            TypeList::ArrayU8 => 2,
            TypeList::ArrayU16 => 3,
            TypeList::ArrayU32 => 4,
            TypeList::ByteCode => 5,
            TypeList::CallFrameList => 6,
            TypeList::Dict => 7,
            TypeList::Function => 8,
            TypeList::InstructionStream => 9,
            TypeList::List => 10,
            TypeList::NumberObject => 11,
            TypeList::Pair => 12,
            TypeList::Partial => 13,
            TypeList::Symbol => 14,
            TypeList::Text => 15,
            TypeList::Thread => 16,
            TypeList::Upvalue => 17,
        }
    }

    /// The identifier that `code` stands for, if it stands for one.
    pub open spec fn of_code(code: u16) -> Option<TypeList> {
        if code == 0 {
            Some(TypeList::ArrayBackingBytes)
        } else if code == 1 {
            Some(TypeList::ArrayOpcode)
        } else if code == 2 {
            Some(TypeList::ArrayU8)
        } else if code == 3 {
            Some(TypeList::ArrayU16)
        } else if code == 4 {
            Some(TypeList::ArrayU32)
        } else if code == 5 {
            Some(TypeList::ByteCode)
        } else if code == 6 {
            Some(TypeList::CallFrameList)
        } else if code == 7 {
            Some(TypeList::Dict)
        } else if code == 8 {
            Some(TypeList::Function)
        } else if code == 9 {
            Some(TypeList::InstructionStream)
        } else if code == 10 {
            Some(TypeList::List)
        } else if code == 11 {
            Some(TypeList::NumberObject)
        } else if code == 12 {
            Some(TypeList::Pair)
        } else if code == 13 {
            Some(TypeList::Partial)
        } else if code == 14 {
            Some(TypeList::Symbol)
        } else if code == 15 {
            Some(TypeList::Text)
        } else if code == 16 {
            Some(TypeList::Thread)
        } else if code == 17 {
            Some(TypeList::Upvalue)
        } else {
            None
        }
    }

    /// An identifier is found again from its code, and from no other.
    pub proof fn lemma_code_round_trip(self)
        ensures
            Self::of_code(self.code()) == Some(self),
    {
    }

    /// The number that stands for the identifier in a header.
    pub fn to_code(self) -> (code: u16)
        ensures
            code == self.code(),
    {
        match self {
            TypeList::ArrayBackingBytes => 0,
            TypeList::ArrayOpcode => 1,
            TypeList::ArrayU8 => 2,
            TypeList::ArrayU16 => 3,
            TypeList::ArrayU32 => 4,
            TypeList::ByteCode => 5,
            TypeList::CallFrameList => 6,
            TypeList::Dict => 7,
            TypeList::Function => 8,
            TypeList::InstructionStream => 9,
            TypeList::List => 10,
            TypeList::NumberObject => 11,
            TypeList::Pair => 12,
            TypeList::Partial => 13,
            TypeList::Symbol => 14,
            TypeList::Text => 15,
            TypeList::Thread => 16,
            TypeList::Upvalue => 17,
        }
    }

    /// The identifier that `code` stands for, or `None` if it stands for none.
    pub fn from_code(code: u16) -> (id: Option<TypeList>)
        ensures
            id == Self::of_code(code),
    {
        match code {
            0 => Some(TypeList::ArrayBackingBytes),
            1 => Some(TypeList::ArrayOpcode),
            2 => Some(TypeList::ArrayU8),
            3 => Some(TypeList::ArrayU16),
            4 => Some(TypeList::ArrayU32),
            5 => Some(TypeList::ByteCode),
            6 => Some(TypeList::CallFrameList),
            7 => Some(TypeList::Dict),
            8 => Some(TypeList::Function),
            9 => Some(TypeList::InstructionStream),
            10 => Some(TypeList::List),
            11 => Some(TypeList::NumberObject),
            12 => Some(TypeList::Pair),
            13 => Some(TypeList::Partial),
            14 => Some(TypeList::Symbol),
            15 => Some(TypeList::Text),
            16 => Some(TypeList::Thread),
            17 => Some(TypeList::Upvalue),
            _ => None,
        }
    }
}

} // verus!
