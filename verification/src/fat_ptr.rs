//! The decoded form of a tagged pointer.

use vstd::prelude::*;
use crate::allocation::RawPtr;
use crate::type_list::TypeList;

verus! {

/// A pointer together with the type of what it points to, an integer, or
/// nil: what a tagged pointer stands for, with nothing lost.
#[derive(Copy, Clone, Debug, PartialEq, Eq, Structural)]
pub enum FatPtr {
    ArrayU8(RawPtr),
    ArrayU16(RawPtr),
    ArrayU32(RawPtr),
    Dict(RawPtr),
    Function(RawPtr),
    List(RawPtr),
    Nil,
    Number(isize),
    NumberObject(RawPtr),
    Pair(RawPtr),
    Partial(RawPtr),
    Symbol(RawPtr),
    Text(RawPtr),
    Upvalue(RawPtr),
}

impl FatPtr {
    /// The pointer to an object of the type `type_id` at `ptr`, if
    /// objects of that type are pointed to by a `FatPtr`.
    pub open spec fn for_type(type_id: TypeList, ptr: RawPtr) -> Option<FatPtr> {
        match type_id {
            TypeList::ArrayU8 => Some(FatPtr::ArrayU8(ptr)),
            TypeList::ArrayU16 => Some(FatPtr::ArrayU16(ptr)),
            TypeList::ArrayU32 => Some(FatPtr::ArrayU32(ptr)),
            TypeList::Dict => Some(FatPtr::Dict(ptr)),
            TypeList::Function => Some(FatPtr::Function(ptr)),
            TypeList::List => Some(FatPtr::List(ptr)),
            TypeList::NumberObject => Some(FatPtr::NumberObject(ptr)),
            TypeList::Pair => Some(FatPtr::Pair(ptr)),
            TypeList::Partial => Some(FatPtr::Partial(ptr)),
            TypeList::Symbol => Some(FatPtr::Symbol(ptr)),
            TypeList::Text => Some(FatPtr::Text(ptr)),
            TypeList::Upvalue => Some(FatPtr::Upvalue(ptr)),
            _ => None,
        }
    }

    /// The pointer in it, if it holds one.
    pub open spec fn raw(self) -> Option<RawPtr> {
        match self {
            FatPtr::ArrayU8(ptr) => Some(ptr),
            FatPtr::ArrayU16(ptr) => Some(ptr),
            FatPtr::ArrayU32(ptr) => Some(ptr),
            FatPtr::Dict(ptr) => Some(ptr),
            FatPtr::Function(ptr) => Some(ptr),
            FatPtr::List(ptr) => Some(ptr),
            FatPtr::Nil => None,
            FatPtr::Number(_) => None,
            FatPtr::NumberObject(ptr) => Some(ptr),
            FatPtr::Pair(ptr) => Some(ptr),
            FatPtr::Partial(ptr) => Some(ptr),
            FatPtr::Symbol(ptr) => Some(ptr),
            FatPtr::Text(ptr) => Some(ptr),
            FatPtr::Upvalue(ptr) => Some(ptr),
        }
    }

    /// The type of the object that it points to, if it points to one.
    pub open spec fn type_id(self) -> Option<TypeList> {
        match self {
            FatPtr::ArrayU8(_) => Some(TypeList::ArrayU8),
            FatPtr::ArrayU16(_) => Some(TypeList::ArrayU16),
            FatPtr::ArrayU32(_) => Some(TypeList::ArrayU32),
            FatPtr::Dict(_) => Some(TypeList::Dict),
            FatPtr::Function(_) => Some(TypeList::Function),
            FatPtr::List(_) => Some(TypeList::List),
            FatPtr::Nil => None,
            FatPtr::Number(_) => None,
            FatPtr::NumberObject(_) => Some(TypeList::NumberObject),
            FatPtr::Pair(_) => Some(TypeList::Pair),
            FatPtr::Partial(_) => Some(TypeList::Partial),
            FatPtr::Symbol(_) => Some(TypeList::Symbol),
            FatPtr::Text(_) => Some(TypeList::Text),
            FatPtr::Upvalue(_) => Some(TypeList::Upvalue),
        }
    }

    /// The pointer to an object of the type `type_id` at `ptr`, or `None`
    /// if objects of that type are not pointed to by a `FatPtr`.
    pub fn from_raw(type_id: TypeList, ptr: RawPtr) -> (fat: Option<FatPtr>)
        ensures
            fat == Self::for_type(type_id, ptr),
    {
        match type_id {
            TypeList::ArrayU8 => Some(FatPtr::ArrayU8(ptr)),
            TypeList::ArrayU16 => Some(FatPtr::ArrayU16(ptr)),
            TypeList::ArrayU32 => Some(FatPtr::ArrayU32(ptr)),
            TypeList::Dict => Some(FatPtr::Dict(ptr)),
            TypeList::Function => Some(FatPtr::Function(ptr)),
            TypeList::List => Some(FatPtr::List(ptr)),
            TypeList::NumberObject => Some(FatPtr::NumberObject(ptr)),
            TypeList::Pair => Some(FatPtr::Pair(ptr)),
            TypeList::Partial => Some(FatPtr::Partial(ptr)),
            TypeList::Symbol => Some(FatPtr::Symbol(ptr)),
            TypeList::Text => Some(FatPtr::Text(ptr)),
            TypeList::Upvalue => Some(FatPtr::Upvalue(ptr)),
            _ => None,
        }
    }
}

} // verus!
