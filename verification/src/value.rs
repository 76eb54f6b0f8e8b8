//! What a tagged pointer stands for, within the scope of a mutator.

use vstd::prelude::*;
use crate::fat_ptr::FatPtr;
use crate::mutator_view::MutatorView;
use crate::ptrs::ScopedPtr;

verus! {

/// What a `FatPtr` stands for, with every pointer bound to the scope
/// of the mutator that reads it.
#[derive(Copy, Clone)]
pub enum Value<'guard> {
    ArrayU8(ScopedPtr<'guard>),
    ArrayU16(ScopedPtr<'guard>),
    ArrayU32(ScopedPtr<'guard>),
    Dict(ScopedPtr<'guard>),
    Function(ScopedPtr<'guard>),
    List(ScopedPtr<'guard>),
    Nil,
    Number(isize),
    NumberObject(ScopedPtr<'guard>),
    Pair(ScopedPtr<'guard>),
    Partial(ScopedPtr<'guard>),
    Symbol(ScopedPtr<'guard>),
    Text(ScopedPtr<'guard>),
    Upvalue(ScopedPtr<'guard>),
}

impl<'guard> Value<'guard> {
    /// The pointer that the value is the scoped form of.
    pub open spec fn fat(self) -> FatPtr {
        match self {
            Value::ArrayU8(ptr) => FatPtr::ArrayU8(ptr.raw()),
            Value::ArrayU16(ptr) => FatPtr::ArrayU16(ptr.raw()),
            Value::ArrayU32(ptr) => FatPtr::ArrayU32(ptr.raw()),
            Value::Dict(ptr) => FatPtr::Dict(ptr.raw()),
            Value::Function(ptr) => FatPtr::Function(ptr.raw()),
            Value::List(ptr) => FatPtr::List(ptr.raw()),
            Value::Nil => FatPtr::Nil,
            Value::Number(num) => FatPtr::Number(num),
            Value::NumberObject(ptr) => FatPtr::NumberObject(ptr.raw()),
            Value::Pair(ptr) => FatPtr::Pair(ptr.raw()),
            Value::Partial(ptr) => FatPtr::Partial(ptr.raw()),
            Value::Symbol(ptr) => FatPtr::Symbol(ptr.raw()),
            Value::Text(ptr) => FatPtr::Text(ptr.raw()),
            Value::Upvalue(ptr) => FatPtr::Upvalue(ptr.raw()),
        }
    }

    /// The pointer that the value is the scoped form of.
    pub fn as_fat_ptr(&self) -> (fat: FatPtr)
        ensures
            fat == self.fat(),
    {
        match self {
            Value::ArrayU8(ptr) => FatPtr::ArrayU8(ptr.as_raw()),
            Value::ArrayU16(ptr) => FatPtr::ArrayU16(ptr.as_raw()),
            Value::ArrayU32(ptr) => FatPtr::ArrayU32(ptr.as_raw()),
            Value::Dict(ptr) => FatPtr::Dict(ptr.as_raw()),
            Value::Function(ptr) => FatPtr::Function(ptr.as_raw()),
            Value::List(ptr) => FatPtr::List(ptr.as_raw()),
            Value::Nil => FatPtr::Nil,
            Value::Number(num) => FatPtr::Number(*num),
            Value::NumberObject(ptr) => FatPtr::NumberObject(ptr.as_raw()),
            Value::Pair(ptr) => FatPtr::Pair(ptr.as_raw()),
            Value::Partial(ptr) => FatPtr::Partial(ptr.as_raw()),
            Value::Symbol(ptr) => FatPtr::Symbol(ptr.as_raw()),
            Value::Text(ptr) => FatPtr::Text(ptr.as_raw()),
            Value::Upvalue(ptr) => FatPtr::Upvalue(ptr.as_raw()),
        }
    }
}

impl FatPtr {
    /// The value that the pointer stands for within the scope of `guard`:
    /// the same variant, with its pointer bound to the scope.
    pub fn as_value<'guard>(&self, guard: &MutatorView<'guard>) -> (value: Value<'guard>)
        ensures
            value.fat() == *self,
    {
        match self {
            FatPtr::ArrayU8(raw) => Value::ArrayU8(ScopedPtr::new(guard, *raw)),
            FatPtr::ArrayU16(raw) => Value::ArrayU16(ScopedPtr::new(guard, *raw)),
            FatPtr::ArrayU32(raw) => Value::ArrayU32(ScopedPtr::new(guard, *raw)),
            FatPtr::Dict(raw) => Value::Dict(ScopedPtr::new(guard, *raw)),
            FatPtr::Function(raw) => Value::Function(ScopedPtr::new(guard, *raw)),
            FatPtr::List(raw) => Value::List(ScopedPtr::new(guard, *raw)),
            FatPtr::Nil => Value::Nil,
            FatPtr::Number(num) => Value::Number(*num),
            FatPtr::NumberObject(raw) => Value::NumberObject(ScopedPtr::new(guard, *raw)),
            FatPtr::Pair(raw) => Value::Pair(ScopedPtr::new(guard, *raw)),
            FatPtr::Partial(raw) => Value::Partial(ScopedPtr::new(guard, *raw)),
            FatPtr::Symbol(raw) => Value::Symbol(ScopedPtr::new(guard, *raw)),
            FatPtr::Text(raw) => Value::Text(ScopedPtr::new(guard, *raw)),
            FatPtr::Upvalue(raw) => Value::Upvalue(ScopedPtr::new(guard, *raw)),
        }
    }
}

} // verus!
