//! The items that arrays are made of, and their bytes.

use vstd::prelude::*;
use crate::allocation::{ArraySize, HeapData};
use crate::codec::{
    get_u16, get_u32, get_u64, lemma_u16_round_trip, lemma_u32_round_trip, lemma_u64_round_trip,
    put_u16, put_u32, put_u64, u16_at, u16_le, u32_at, u32_le, u64_at, u64_le,
};
use crate::ptrs::TaggedCellPtr;
use crate::tagged_ptr::TaggedPtr;
use crate::type_list::TypeList;

verus! {

impl HeapData for u8 {
    open spec fn spec_size() -> ArraySize {
        1
    }

    open spec fn spec_bytes(&self) -> Seq<u8> {
        seq![*self]
    }

    open spec fn spec_from_bytes(bytes: Seq<u8>) -> Option<u8> {
        if bytes.len() == 1 {
            Some(bytes[0])
        } else {
            None
        }
    }

    fn object_size() -> (size: ArraySize) {
        1
    }

    fn to_bytes(&self) -> (bytes: Vec<u8>) {
        let mut bytes: Vec<u8> = Vec::new();
        bytes.push(*self);
        bytes
    }

    fn from_bytes(bytes: &Vec<u8>) -> (object: Option<u8>) {
        if bytes.len() == 1 {
            Some(bytes[0])
        } else {
            None
        }
    }

    proof fn lemma_size() {
    }

    proof fn lemma_round_trip(&self) {
    }
}

impl HeapData for u16 {
    open spec fn spec_size() -> ArraySize {
        2
    }

    open spec fn spec_bytes(&self) -> Seq<u8> {
        u16_le(*self)
    }

    open spec fn spec_from_bytes(bytes: Seq<u8>) -> Option<u16> {
        if bytes.len() == 2 {
            Some(u16_at(bytes, 0))
        } else {
            None
        }
    }

    fn object_size() -> (size: ArraySize) {
        2
    }

    fn to_bytes(&self) -> (bytes: Vec<u8>) {
        let mut bytes: Vec<u8> = Vec::new();
        put_u16(&mut bytes, *self);
        bytes
    }

    fn from_bytes(bytes: &Vec<u8>) -> (object: Option<u16>) {
        if bytes.len() == 2 {
            Some(get_u16(bytes, 0))
        } else {
            None
        }
    }

    proof fn lemma_size() {
    }

    proof fn lemma_round_trip(&self) {
        assert(self.spec_bytes().subrange(0, 2) =~= u16_le(*self));
        lemma_u16_round_trip(*self, self.spec_bytes(), 0);
    }
}

impl HeapData for u32 {
    open spec fn spec_size() -> ArraySize {
        4
    }

    open spec fn spec_bytes(&self) -> Seq<u8> {
        u32_le(*self)
    }

    open spec fn spec_from_bytes(bytes: Seq<u8>) -> Option<u32> {
        if bytes.len() == 4 {
            Some(u32_at(bytes, 0))
        } else {
            None
        }
    }

    fn object_size() -> (size: ArraySize) {
        4
    }

    fn to_bytes(&self) -> (bytes: Vec<u8>) {
        let mut bytes: Vec<u8> = Vec::new();
        put_u32(&mut bytes, *self);
        bytes
    }

    fn from_bytes(bytes: &Vec<u8>) -> (object: Option<u32>) {
        if bytes.len() == 4 {
            Some(get_u32(bytes, 0))
        } else {
            None
        }
    }

    proof fn lemma_size() {
    }

    proof fn lemma_round_trip(&self) {
        assert(self.spec_bytes().subrange(0, 4) =~= u32_le(*self));
        lemma_u32_round_trip(*self, self.spec_bytes(), 0);
    }
}

impl HeapData for TaggedCellPtr {
    open spec fn spec_size() -> ArraySize {
        8
    }

    open spec fn spec_bytes(&self) -> Seq<u8> {
        u64_le(self.tagged().word() as u64)
    }

    open spec fn spec_from_bytes(bytes: Seq<u8>) -> Option<TaggedCellPtr> {
        if bytes.len() == 8 && u64_at(bytes, 0) <= usize::MAX {
            Some(TaggedCellPtr::of(TaggedPtr::of_word(u64_at(bytes, 0) as usize)))
        } else {
            None
        }
    }

    fn object_size() -> (size: ArraySize) {
        8
    }

    fn to_bytes(&self) -> (bytes: Vec<u8>) {
        let mut bytes: Vec<u8> = Vec::new();
        put_u64(&mut bytes, self.get_ptr().as_word() as u64);
        bytes
    }

    fn from_bytes(bytes: &Vec<u8>) -> (object: Option<TaggedCellPtr>) {
        if bytes.len() != 8 {
            return None;
        }
        let word: u64 = get_u64(bytes, 0);
        if word > usize::MAX as u64 {
            return None;
        }
        Some(TaggedCellPtr::new_ptr(TaggedPtr::from_word(word as usize)))
    }

    proof fn lemma_size() {
    }

    proof fn lemma_round_trip(&self) {
        assert(self.spec_bytes().subrange(0, 8) =~= u64_le(self.tagged().word() as u64));
        lemma_u64_round_trip(self.tagged().word() as u64, self.spec_bytes(), 0);
        TaggedPtr::lemma_of_word(self.tagged());
        TaggedCellPtr::lemma_tagged(*self);
    }
}

/// A type of item that arrays of their own type are made of.
pub trait ArrayItem: HeapData + Copy {
    /// The identifier of the type of an array of such items.
    spec fn spec_array_type() -> TypeList;

    /// The identifier of the type of an array of such items.
    fn array_type() -> (id: TypeList)
        ensures
            id == Self::spec_array_type(),
    ;
}

impl ArrayItem for u8 {
    open spec fn spec_array_type() -> TypeList {
        TypeList::ArrayU8
    }

    fn array_type() -> (id: TypeList) {
        TypeList::ArrayU8
    }
}

impl ArrayItem for u16 {
    open spec fn spec_array_type() -> TypeList {
        TypeList::ArrayU16
    }

    fn array_type() -> (id: TypeList) {
        TypeList::ArrayU16
    }
}

impl ArrayItem for u32 {
    open spec fn spec_array_type() -> TypeList {
        TypeList::ArrayU32
    }

    fn array_type() -> (id: TypeList) {
        TypeList::ArrayU32
    }
}

impl ArrayItem for TaggedCellPtr {
    open spec fn spec_array_type() -> TypeList {
        TypeList::List
    }

    fn array_type() -> (id: TypeList) {
        TypeList::List
    }
}

} // verus!
