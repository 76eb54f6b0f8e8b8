//! The arena: a heap for objects that are never collected.

use vstd::prelude::*;
use crate::address_space::AddressSpace;
use crate::allocation::{AllocError, AllocHeader, AllocObject, ArraySize, Mark, RawPtr, SizeClass};
use crate::block_list::BlockList;
use crate::sticky_immix_heap::{alloc_spec, AllocRaw, StickyImmixHeap};
use crate::type_list::TypeList;

verus! {

/// The lowest address of the range that an arena takes its blocks from.
pub const ARENA_START: usize = 0x8000;

/// The address at which that range ends.
pub const ARENA_END: usize = 0x4000_0000;

/// The header of an object in an arena. It takes up no space and records
/// nothing: every object counts as a marked small symbol.
#[derive(Copy, Clone, Debug, PartialEq, Eq, Structural)]
pub struct ArenaHeader {}

impl AllocHeader for ArenaHeader {
    type TypeId = TypeList;

    open spec fn spec_header_size() -> nat {
        0
    }

    open spec fn spec_new(type_id: TypeList, size: ArraySize, size_class: SizeClass, mark: Mark) -> ArenaHeader {
        ArenaHeader {  }
    }

    open spec fn spec_new_array(size: ArraySize, size_class: SizeClass, mark: Mark) -> ArenaHeader {
        ArenaHeader {  }
    }

    open spec fn spec_mark(self) -> ArenaHeader {
        self
    }

    open spec fn spec_is_marked(&self) -> bool {
        true
    }

    open spec fn spec_size_class(&self) -> SizeClass {
        SizeClass::Small
    }

    open spec fn spec_size(&self) -> ArraySize {
        1
    }

    open spec fn spec_type_id(&self) -> TypeList {
        TypeList::Symbol
    }

    open spec fn spec_bytes(&self) -> Seq<u8> {
        Seq::empty()
    }

    open spec fn spec_from_bytes(bytes: Seq<u8>) -> Option<ArenaHeader> {
        if bytes.len() == 0 {
            Some(ArenaHeader {  })
        } else {
            None
        }
    }

    fn header_size() -> (size: usize) {
        0
    }

    fn new<O: AllocObject<TypeList>>(_size: ArraySize, _size_class: SizeClass, _mark: Mark) -> (header: ArenaHeader) {
        ArenaHeader {  }
    }

    fn new_array(_size: ArraySize, _size_class: SizeClass, _mark: Mark) -> (header: ArenaHeader) {
        ArenaHeader {  }
    }

    fn mark(&mut self) {
    }

    fn is_marked(&self) -> (marked: bool) {
        true
    }

    fn size_class(&self) -> (size_class: SizeClass) {
        SizeClass::Small
    }

    fn size(&self) -> (size: ArraySize) {
        1
    }

    fn type_id(&self) -> (id: TypeList) {
        TypeList::Symbol
    }

    fn to_bytes(&self) -> (bytes: Vec<u8>) {
        Vec::new()
    }

    fn from_bytes(bytes: &Vec<u8>) -> (header: Option<ArenaHeader>) {
        if bytes.len() == 0 {
            Some(ArenaHeader {  })
        } else {
            None
        }
    }

    proof fn lemma_header_size() {
    }

    proof fn lemma_round_trip(&self) {
    }
}

/// A heap whose objects live as long as the arena does.
pub struct Arena {
    heap: StickyImmixHeap<ArenaHeader>,
}

impl Arena {
    /// The heap that holds the objects.
    pub closed spec fn heap(self) -> StickyImmixHeap<ArenaHeader> {
        self.heap
    }

    /// The heap is well-formed.
    pub open spec fn wf(self) -> bool {
        self.heap().wf()
    }

    /// An arena with no block yet, that takes its blocks from the range
    /// of addresses from `ARENA_START` to `ARENA_END`.
    pub fn new() -> (arena: Arena)
        ensures
            arena.wf(),
            arena.heap().blocks().blocks().len() == 0,
            arena.heap().blocks().head() is None,
            arena.heap().blocks().space().start() == ARENA_START,
            arena.heap().blocks().space().next() == ARENA_START,
            arena.heap().blocks().space().end() == ARENA_END,
    {
        Arena { heap: StickyImmixHeap::with_space(AddressSpace::new(ARENA_START, ARENA_END)) }
    }

    /// Allocates space for `object`, writes the object into it, and
    /// returns a pointer to the object.
    pub fn allocate<T: AllocObject<TypeList>>(&mut self, object: T) -> (r: Result<RawPtr, AllocError>)
        requires
            old(self).wf(),
        ensures
            final(self).wf(),
            alloc_spec(
                old(self).heap().blocks(),
                final(self).heap().blocks(),
                Seq::empty(),
                object.spec_bytes(),
                r,
            ),
    {
        self.heap.allocate(object)
    }

    /// The heap that holds the objects.
    pub fn storage(&self) -> (heap: &StickyImmixHeap<ArenaHeader>)
        ensures
            *heap == self.heap(),
    {
        &self.heap
    }
}

impl AllocRaw for Arena {
    type Header = ArenaHeader;

    open spec fn spec_wf(&self) -> bool {
        self.wf()
    }

    open spec fn spec_blocks(&self) -> BlockList {
        self.heap().blocks()
    }

    fn allocate<T: AllocObject<TypeList>>(&mut self, object: T) -> (r: Result<RawPtr, AllocError>) {
        self.heap.allocate(object)
    }

    fn alloc_array(&mut self, size_bytes: ArraySize) -> (r: Result<RawPtr, AllocError>) {
        self.heap.alloc_array(size_bytes)
    }

    fn get_header(object: RawPtr) -> (header: RawPtr) {
        StickyImmixHeap::<ArenaHeader>::get_header(object)
    }

    fn get_object(header: RawPtr) -> (object: RawPtr) {
        StickyImmixHeap::<ArenaHeader>::get_object(header)
    }
}

} // verus!
