//! The view of the memory that a running mutator has.

use vstd::prelude::*;
use crate::allocation::{AllocHeader, AllocObject, HeapData, ArraySize, RawPtr, Tagged};
use crate::block_list::BlockList;
use crate::errors::RuntimeError;
use crate::fat_ptr::FatPtr;
use crate::heap::{array_header_for, as_alloc_result, header_for, is_alloc_error, Heap};
use crate::ptrs::{ScopedPtr, TaggedScopedPtr};
use crate::sticky_immix_heap::alloc_spec;
use crate::tagged_ptr::TaggedPtr;
use crate::traits::MutatorScope;
use crate::type_list::TypeList;

verus! {

/// The memory, as a mutator sees it while it runs. Every read and every
/// write of the memory goes through a view, and a view exists only
/// while a mutator runs.
pub struct MutatorView<'memory> {
    pub heap: &'memory mut Heap,
}

impl<'memory> MutatorScope for MutatorView<'memory> {

}

impl<'memory> MutatorView<'memory> {
    /// The heap that is seen.
    pub open spec fn mem(self) -> Heap {
        *self.heap
    }

    /// The heap is well-formed.
    pub open spec fn wf(self) -> bool {
        self.mem().wf()
    }

    /// The view of `heap`.
    pub fn new(heap: &'memory mut Heap) -> (view: MutatorView<'memory>)
        ensures
            *view.heap == *old(heap),
            *final(view.heap) == *final(heap),
    {
        MutatorView { heap }
    }

    /// Allocates `object` and returns a pointer to it that is bound to the scope.
    pub fn allocate<T: AllocObject<TypeList>>(&mut self, object: T) -> (r: Result<
        ScopedPtr<'memory>,
        RuntimeError,
    >)
        requires
            old(self).wf(),
        ensures
            final(self).wf(),
            *final(final(self).heap) == *final(old(self).heap),
            final(self).mem().symbols() == old(self).mem().symbols(),
            r matches Err(e) ==> is_alloc_error(e),
            alloc_spec(
                old(self).mem().storage().blocks(),
                final(self).mem().storage().blocks(),
                header_for::<T>().spec_bytes(),
                object.spec_bytes(),
                match r {
                    Ok(scoped) => Ok(scoped.raw()),
                    Err(e) => as_alloc_result::<RawPtr>(Err(e)),
                },
            ),
    {
        match self.heap.allocate(object) {
            Ok(ptr) => Ok(ScopedPtr::new(self, ptr)),
            Err(e) => Err(e),
        }
    }

    /// Allocates `object` and returns a tagged pointer to it that is
    /// bound to the scope.
    pub fn alloc_tagged<T: AllocObject<TypeList>>(&mut self, object: T) -> (r: Result<
        TaggedScopedPtr<'memory>,
        RuntimeError,
    >)
        requires
            old(self).wf(),
            FatPtr::for_type(T::spec_type_id(), RawPtr::at(0)) is Some,
        ensures
            final(self).wf(),
            *final(final(self).heap) == *final(old(self).heap),
            final(self).mem().symbols() == old(self).mem().symbols(),
            match r {
                Ok(scoped) => {
                    let ptr = RawPtr::spec_untag(scoped.tagged().word());
                    &&& alloc_spec(
                        old(self).mem().storage().blocks(),
                        final(self).mem().storage().blocks(),
                        header_for::<T>().spec_bytes(),
                        object.spec_bytes(),
                        Ok(ptr),
                    )
                    &&& FatPtr::for_type(T::spec_type_id(), ptr) == Some(scoped.fat())
                    &&& scoped.tagged() == TaggedPtr::of_fat(scoped.fat())
                    &&& scoped.tagged().decode(final(self).mem().storage()) == Some(scoped.fat())
                },
                Err(e) => {
                    &&& is_alloc_error(e)
                    &&& alloc_spec(
                        old(self).mem().storage().blocks(),
                        final(self).mem().storage().blocks(),
                        header_for::<T>().spec_bytes(),
                        object.spec_bytes(),
                        as_alloc_result::<RawPtr>(Err(e)),
                    )
                },
            },
    {
        match self.heap.alloc_tagged(object) {
            Ok(tagged) => Ok(TaggedScopedPtr::new(self, tagged)),
            Err(e) => Err(e),
        }
    }

    /// The tagged pointer to the symbol of `name`, bound to the scope.
    /// The name is interned first if it has not been.
    pub fn lookup_sym(&mut self, name: &str) -> (scoped: TaggedScopedPtr<'memory>)
        requires
            old(self).wf(),
            old(self).mem().symbols().can_intern(name@),
        ensures
            final(self).wf(),
            *final(final(self).heap) == *final(old(self).heap),
            final(self).mem().storage() == old(self).mem().storage(),
            scoped.fat() == FatPtr::Symbol(RawPtr::spec_untag(scoped.tagged().word())),
            scoped.tagged() == TaggedPtr::of_fat(scoped.fat()),
            final(self).mem().symbols().interned(
                name@,
                RawPtr::spec_untag(scoped.tagged().word()),
            ),
            forall|other: Seq<char>, p: RawPtr| #[trigger]
                old(self).mem().symbols().interned(other, p) ==> final(self).mem().symbols().interned(
                    other,
                    p,
                ),
            old(self).mem().symbols().knows(name@) ==> {
                &&& final(self).mem().symbols().names() == old(self).mem().symbols().names()
                &&& final(self).mem().symbols().ptrs() == old(self).mem().symbols().ptrs()
            },
            !old(self).mem().symbols().knows(name@) ==> final(self).mem().symbols().names()
                == old(self).mem().symbols().names().push(name@),
    {
        let tagged: TaggedPtr = self.heap.lookup_sym(name);
        TaggedScopedPtr::new(self, tagged)
    }

    /// Allocates an array of `capacity` zero bytes and returns a pointer to it.
    pub fn alloc_array(&mut self, capacity: ArraySize) -> (r: Result<RawPtr, RuntimeError>)
        requires
            old(self).wf(),
        ensures
            final(self).wf(),
            *final(final(self).heap) == *final(old(self).heap),
            final(self).mem().symbols() == old(self).mem().symbols(),
            r matches Err(e) ==> is_alloc_error(e),
            alloc_spec(
                old(self).mem().storage().blocks(),
                final(self).mem().storage().blocks(),
                array_header_for(capacity).spec_bytes(),
                Seq::new(capacity as nat, |i: int| 0u8),
                as_alloc_result(r),
            ),
    {
        self.heap.alloc_array(capacity)
    }

    /// The object of type `T` at `ptr`, or `None` if the bytes there
    /// are not mapped or stand for no such object.
    pub fn load<T: HeapData>(&self, ptr: RawPtr) -> (object: Option<T>)
        requires
            self.wf(),
        ensures
            object == self.mem().object_at::<T>(ptr),
    {
        self.heap.load::<T>(ptr)
    }

    /// Stores `object` at `ptr` and returns `true`, or returns `false`
    /// and changes nothing if the bytes to store to are not all mapped
    /// in one block of the storage.
    pub fn store<T: HeapData>(&mut self, ptr: RawPtr, object: &T) -> (stored: bool)
        requires
            old(self).wf(),
        ensures
            final(self).wf(),
            *final(final(self).heap) == *final(old(self).heap),
            final(self).mem().symbols() == old(self).mem().symbols(),
            stored == old(self).mem().storage().blocks().mapped_range(
                ptr.addr(),
                T::spec_size() as int,
            ),
            BlockList::wrote(
                old(self).mem().storage().blocks(),
                final(self).mem().storage().blocks(),
                ptr.addr(),
                if stored {
                    object.spec_bytes()
                } else {
                    Seq::empty()
                },
            ),
            stored ==> final(self).mem().object_at::<T>(ptr) == Some(*object),
    {
        self.heap.store(ptr, object)
    }

    /// The `len` bytes from the address `ptr` on, or `None` if they are
    /// not all mapped in one block.
    pub fn read_bytes(&self, ptr: RawPtr, len: usize) -> (r: Option<Vec<u8>>)
        requires
            self.wf(),
        ensures
            match r {
                Some(data) => self.mem().bytes_at(ptr, len as int) == Some(data@),
                None => self.mem().bytes_at(ptr, len as int) is None,
            },
    {
        self.heap.read_bytes(ptr, len)
    }

    /// Stores `data` from the address `ptr` on and returns `true`, or
    /// returns `false` and changes nothing if the bytes to store to are
    /// not all mapped in one block of the storage.
    pub fn write_bytes(&mut self, ptr: RawPtr, data: &Vec<u8>) -> (stored: bool)
        requires
            old(self).wf(),
        ensures
            final(self).wf(),
            *final(final(self).heap) == *final(old(self).heap),
            final(self).mem().symbols() == old(self).mem().symbols(),
            stored == old(self).mem().storage().blocks().mapped_range(
                ptr.addr(),
                data@.len() as int,
            ),
            BlockList::wrote(
                old(self).mem().storage().blocks(),
                final(self).mem().storage().blocks(),
                ptr.addr(),
                if stored {
                    data@
                } else {
                    Seq::empty()
                },
            ),
    {
        self.heap.write_bytes(ptr, data)
    }
}

} // verus!
