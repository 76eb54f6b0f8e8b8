//! The header of an object in the heap of the runtime.

use vstd::prelude::*;
use vstd::pervasive::unreached;
use crate::allocation::{AllocHeader, AllocObject, ArraySize, Mark, RawPtr, SizeClass, Tagged};
use crate::fat_ptr::FatPtr;
use crate::sticky_immix_heap::StickyImmixHeap;
use crate::codec::{get_u16, get_u32, put_u16, put_u32, u16_at, u16_le, u32_at, u32_le, lemma_u16_round_trip, lemma_u32_round_trip};
use crate::type_list::TypeList;

verus! {

/// What is known of an object: its mark, its size class, its type and its
/// size in bytes. The header takes up the eight bytes right before its
/// object: one for the mark, one for the size class, two for the type and
/// four for the size.
#[derive(Copy, Clone, Debug, PartialEq, Eq, Structural)]
pub struct ObjectHeader {
    mark: Mark,
    size_class: SizeClass,
    type_id: TypeList,
    size_bytes: u32,
}

/// The number of bytes that an `ObjectHeader` takes up.
pub const OBJECT_HEADER_SIZE: usize = 8;

/// The byte that stands for a mark.
pub open spec fn mark_code(mark: Mark) -> u8 {
    match mark {
        Mark::Allocated => 0,
        Mark::Unmarked => 1,
        Mark::Marked => 2,
    }
}

/// The mark that a byte stands for, if it stands for one.
pub open spec fn mark_of_code(code: u8) -> Option<Mark> {
    if code == 0 {
        Some(Mark::Allocated)
    } else if code == 1 {
        Some(Mark::Unmarked)
    } else if code == 2 {
        Some(Mark::Marked)
    } else {
        None
    }
}

/// The byte that stands for a size class.
pub open spec fn size_class_code(size_class: SizeClass) -> u8 {
    match size_class {
        SizeClass::Small => 0,
        SizeClass::Medium => 1,
        SizeClass::Large => 2,
    }
}

/// The size class that a byte stands for, if it stands for one.
pub open spec fn size_class_of_code(code: u8) -> Option<SizeClass> {
    if code == 0 {
        Some(SizeClass::Small)
    } else if code == 1 {
        Some(SizeClass::Medium)
    } else if code == 2 {
        Some(SizeClass::Large)
    } else {
        None
    }
}

impl ObjectHeader {
    /// The mark of the object.
    pub closed spec fn mark_of(self) -> Mark {
        self.mark
    }

    /// The header with these four fields.
    pub closed spec fn with(
        mark: Mark,
        size_class: SizeClass,
        type_id: TypeList,
        size_bytes: u32,
    ) -> ObjectHeader {
        ObjectHeader { mark, size_class, type_id, size_bytes }
    }

    /// A header is made of its four fields.
    pub broadcast proof fn lemma_with(self)
        ensures
            #[trigger] Self::with(
                self.mark_of(),
                self.spec_size_class(),
                self.spec_type_id(),
                self.spec_size(),
            ) == self,
    {
    }

    /// The four fields of a header are those it was made with.
    pub broadcast proof fn lemma_fields(
        mark: Mark,
        size_class: SizeClass,
        type_id: TypeList,
        size_bytes: u32,
    )
        ensures
            (#[trigger] Self::with(mark, size_class, type_id, size_bytes)).mark_of() == mark,
            Self::with(mark, size_class, type_id, size_bytes).spec_size_class() == size_class,
            Self::with(mark, size_class, type_id, size_bytes).spec_type_id() == type_id,
            Self::with(mark, size_class, type_id, size_bytes).spec_size() == size_bytes,
    {
    }

    /// The mark of the object.
    pub fn mark_value(&self) -> (mark: Mark)
        ensures
            mark == self.mark_of(),
    {
        self.mark
    }

    /// The pointer to the object of the header that stands at `ptr_to_self`,
    /// with the type that the header names.
    pub fn get_object_fatptr(&self, ptr_to_self: RawPtr) -> (fat: FatPtr)
        requires
            ptr_to_self.addr() + OBJECT_HEADER_SIZE <= usize::MAX,
            FatPtr::for_type(self.spec_type_id(), ptr_to_self) is Some,
        ensures
            Some(fat) == FatPtr::for_type(
                self.spec_type_id(),
                RawPtr::spec_untag(
                    StickyImmixHeap::<ObjectHeader>::spec_get_object(ptr_to_self).addr() as usize,
                ),
            ),
    {
        let object_addr: RawPtr = StickyImmixHeap::<ObjectHeader>::get_object(ptr_to_self);
        match FatPtr::from_raw(self.type_id, RawPtr::untag(object_addr.as_word())) {
            Some(fat) => fat,
            None => unreached(),
        }
    }
}

impl AllocHeader for ObjectHeader {
    type TypeId = TypeList;

    open spec fn spec_header_size() -> nat {
        OBJECT_HEADER_SIZE as nat
    }

    open spec fn spec_new(type_id: TypeList, size: ArraySize, size_class: SizeClass, mark: Mark) -> ObjectHeader {
        ObjectHeader::with(mark, size_class, type_id, size)
    }

    open spec fn spec_new_array(size: ArraySize, size_class: SizeClass, mark: Mark) -> ObjectHeader {
        ObjectHeader::with(mark, size_class, TypeList::ArrayBackingBytes, size)
    }

    open spec fn spec_mark(self) -> ObjectHeader {
        ObjectHeader::with(
            Mark::Marked,
            self.spec_size_class(),
            self.spec_type_id(),
            self.spec_size(),
        )
    }

    open spec fn spec_is_marked(&self) -> bool {
        self.mark_of() == Mark::Marked
    }

    closed spec fn spec_size_class(&self) -> SizeClass {
        self.size_class
    }

    closed spec fn spec_size(&self) -> ArraySize {
        self.size_bytes
    }

    closed spec fn spec_type_id(&self) -> TypeList {
        self.type_id
    }

    open spec fn spec_bytes(&self) -> Seq<u8> {
        seq![mark_code(self.mark_of()), size_class_code(self.spec_size_class())] + u16_le(
            self.spec_type_id().code(),
        ) + u32_le(self.spec_size())
    }

    open spec fn spec_from_bytes(bytes: Seq<u8>) -> Option<ObjectHeader> {
        if bytes.len() != OBJECT_HEADER_SIZE {
            None
        } else {
            match (
                mark_of_code(bytes[0]),
                size_class_of_code(bytes[1]),
                TypeList::of_code(u16_at(bytes, 2)),
            ) {
                (Some(mark), Some(size_class), Some(type_id)) => Some(
                    ObjectHeader::with(mark, size_class, type_id, u32_at(bytes, 4)),
                ),
                _ => None,
            }
        }
    }

    fn header_size() -> (size: usize) {
        OBJECT_HEADER_SIZE
    }

    fn new<O: AllocObject<TypeList>>(size: ArraySize, size_class: SizeClass, mark: Mark) -> (header: ObjectHeader) {
        ObjectHeader { mark, size_class, type_id: O::type_id(), size_bytes: size }
    }

    fn new_array(size: ArraySize, size_class: SizeClass, mark: Mark) -> (header: ObjectHeader) {
        ObjectHeader { mark, size_class, type_id: TypeList::ArrayBackingBytes, size_bytes: size }
    }

    fn mark(&mut self) {
        self.mark = Mark::Marked;
    }

    fn is_marked(&self) -> (marked: bool) {
        self.mark == Mark::Marked
    }

    fn size_class(&self) -> (size_class: SizeClass) {
        self.size_class
    }

    fn size(&self) -> (size: ArraySize) {
        self.size_bytes
    }

    fn type_id(&self) -> (id: TypeList) {
        self.type_id
    }

    fn to_bytes(&self) -> (bytes: Vec<u8>) {
        let mut bytes: Vec<u8> = Vec::new();
        bytes.push(
            match self.mark {
                Mark::Allocated => 0,
                Mark::Unmarked => 1,
                Mark::Marked => 2,
            },
        );
        bytes.push(
            match self.size_class {
                SizeClass::Small => 0,
                SizeClass::Medium => 1,
                SizeClass::Large => 2,
            },
        );
        put_u16(&mut bytes, self.type_id.to_code());
        put_u32(&mut bytes, self.size_bytes);
        assert(bytes@ =~= self.spec_bytes());
        bytes
    }

    fn from_bytes(bytes: &Vec<u8>) -> (header: Option<ObjectHeader>) {
        if bytes.len() != OBJECT_HEADER_SIZE {
            return None;
        }
        let mark: Mark = match bytes[0] {
            0 => Mark::Allocated,
            1 => Mark::Unmarked,
            2 => Mark::Marked,
            _ => { return None; },
        };
        let size_class: SizeClass = match bytes[1] {
            0 => SizeClass::Small,
            1 => SizeClass::Medium,
            2 => SizeClass::Large,
            _ => { return None; },
        };
        let type_id: TypeList = match TypeList::from_code(get_u16(bytes, 2)) {
            Some(type_id) => type_id,
            None => { return None; },
        };
        Some(ObjectHeader { mark, size_class, type_id, size_bytes: get_u32(bytes, 4) })
    }

    proof fn lemma_header_size() {
    }

    proof fn lemma_round_trip(&self) {
        let bytes = self.spec_bytes();
        assert(bytes.subrange(2, 4) =~= u16_le(self.spec_type_id().code()));
        assert(bytes.subrange(4, 8) =~= u32_le(self.spec_size()));
        lemma_u16_round_trip(self.spec_type_id().code(), bytes, 2);
        lemma_u32_round_trip(self.spec_size(), bytes, 4);
        self.spec_type_id().lemma_code_round_trip();
    }
}

} // verus!
