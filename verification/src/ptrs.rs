//! Pointers that are bound to the scope of a mutator, and the cells
//! of objects that hold pointers.

use vstd::prelude::*;
use core::marker::PhantomData;
use crate::allocation::{HeapData, RawPtr};
use crate::fat_ptr::FatPtr;
use crate::mutator_view::MutatorView;
use crate::tagged_ptr::TaggedPtr;
use crate::value::Value;

verus! {

/// A pointer to an object that can be used while the mutator of the
/// scope `'guard` runs, and no longer.
#[derive(Copy, Clone)]
pub struct ScopedPtr<'guard> {
    ptr: RawPtr,
    scope: PhantomData<&'guard ()>,
}

impl<'guard> ScopedPtr<'guard> {
    /// The pointer.
    pub closed spec fn raw(self) -> RawPtr {
        self.ptr
    }

    /// Binds `ptr` to the scope of `guard`.
    pub fn new(guard: &MutatorView<'guard>, ptr: RawPtr) -> (scoped: ScopedPtr<'guard>)
        ensures
            scoped.raw() == ptr,
    {
        ScopedPtr { ptr, scope: PhantomData }
    }

    /// The pointer, without its scope.
    pub fn as_raw(&self) -> (ptr: RawPtr)
        ensures
            ptr == self.raw(),
    {
        self.ptr
    }

    /// The object of type `T` that is pointed to, or `None` if no such
    /// object is found there.
    pub fn get<T: HeapData>(&self, guard: &MutatorView<'guard>) -> (object: Option<T>)
        requires
            guard.wf(),
        ensures
            object == guard.mem().object_at::<T>(self.raw()),
    {
        guard.heap.load::<T>(self.ptr)
    }
}

/// Pointers through which an object is read within the scope of a mutator.
pub trait ScopedRef {
    /// The pointer.
    spec fn spec_raw(&self) -> RawPtr;

    /// The object of type `T` that is pointed to, or `None` if no such
    /// object is found there.
    fn scoped_ref<'scope, T: HeapData>(&self, guard: &MutatorView<'scope>) -> (object:
        Option<T>)
        requires
            guard.wf(),
        ensures
            object == guard.mem().object_at::<T>(self.spec_raw()),
    ;
}

impl ScopedRef for RawPtr {
    open spec fn spec_raw(&self) -> RawPtr {
        *self
    }

    fn scoped_ref<'scope, T: HeapData>(&self, guard: &MutatorView<'scope>) -> (object:
        Option<T>) {
        guard.heap.load::<T>(*self)
    }
}

/// A cell of an object that holds a pointer to another object.
#[derive(Copy, Clone, Debug, PartialEq, Eq, Structural)]
pub struct CellPtr {
    inner: RawPtr,
}

impl CellPtr {
    /// The pointer in the cell.
    pub closed spec fn raw(self) -> RawPtr {
        self.inner
    }

    /// The cell that holds `raw`.
    pub closed spec fn of(raw: RawPtr) -> CellPtr {
        CellPtr { inner: raw }
    }

    /// A cell is the pointer in it, and nothing else.
    pub broadcast proof fn lemma_of(raw: RawPtr)
        ensures
            (#[trigger] Self::of(raw)).raw() == raw,
    {
    }

    /// A cell is the pointer in it, and nothing else.
    pub broadcast proof fn lemma_raw(self)
        ensures
            #[trigger] Self::of(self.raw()) == self,
    {
    }

    /// A cell that holds `source`.
    pub fn new_with(source: ScopedPtr<'_>) -> (cell: CellPtr)
        ensures
            cell.raw() == source.raw(),
            cell == Self::of(source.raw()),
    {
        CellPtr { inner: source.as_raw() }
    }

    /// A cell that holds `ptr`.
    pub fn new_raw(ptr: RawPtr) -> (cell: CellPtr)
        ensures
            cell.raw() == ptr,
            cell == Self::of(ptr),
    {
        CellPtr { inner: ptr }
    }

    /// The pointer in the cell.
    pub fn as_raw(&self) -> (ptr: RawPtr)
        ensures
            ptr == self.raw(),
    {
        self.inner
    }

    /// The pointer in the cell, bound to the scope of `guard`.
    pub fn get<'guard>(&self, guard: &MutatorView<'guard>) -> (scoped: ScopedPtr<'guard>)
        ensures
            scoped.raw() == self.raw(),
    {
        ScopedPtr::new(guard, self.inner)
    }

    /// Puts `source` into the cell.
    pub fn set(&mut self, source: ScopedPtr<'_>)
        ensures
            final(self).raw() == source.raw(),
    {
        self.inner = source.as_raw();
    }
}

/// A tagged pointer together with the value that it stands for within
/// the scope `'guard`.
#[derive(Copy, Clone)]
pub struct TaggedScopedPtr<'guard> {
    ptr: TaggedPtr,
    value: Value<'guard>,
}

impl<'guard> TaggedScopedPtr<'guard> {
    /// The tagged pointer.
    pub closed spec fn tagged(self) -> TaggedPtr {
        self.ptr
    }

    /// The pointer that the tagged pointer stands for.
    pub closed spec fn fat(self) -> FatPtr {
        self.value.fat()
    }

    /// Decodes `ptr` and binds what it stands for to the scope of `guard`.
    pub fn new(guard: &MutatorView<'guard>, ptr: TaggedPtr) -> (scoped: TaggedScopedPtr<'guard>)
        requires
            guard.wf(),
            ptr.decode(guard.mem().storage()) is Some,
        ensures
            scoped.tagged() == ptr,
            Some(scoped.fat()) == ptr.decode(guard.mem().storage()),
    {
        TaggedScopedPtr { ptr, value: ptr.into_fat_ptr(guard.heap.objects()).as_value(guard) }
    }

    /// The tagged pointer.
    pub fn get_ptr(&self) -> (ptr: TaggedPtr)
        ensures
            ptr == self.tagged(),
    {
        self.ptr
    }

    /// The value that the tagged pointer stands for.
    pub fn value(&self) -> (value: Value<'guard>)
        ensures
            value.fat() == self.fat(),
    {
        self.value
    }

    /// Whether the pointer is nil.
    pub fn is_nil(&self) -> (nil: bool)
        ensures
            nil == (self.tagged().word() == 0),
    {
        self.ptr.is_nil()
    }
}

/// A cell of an object that holds a tagged pointer.
#[derive(Copy, Clone, Debug, PartialEq, Eq, Structural)]
pub struct TaggedCellPtr {
    inner: TaggedPtr,
}

impl TaggedCellPtr {
    /// The tagged pointer in the cell.
    pub closed spec fn tagged(self) -> TaggedPtr {
        self.inner
    }

    /// The cell that holds `tagged`.
    pub closed spec fn of(tagged: TaggedPtr) -> TaggedCellPtr {
        TaggedCellPtr { inner: tagged }
    }

    /// A cell is the tagged pointer in it, and nothing else.
    pub broadcast proof fn lemma_of(tagged: TaggedPtr)
        ensures
            (#[trigger] Self::of(tagged)).tagged() == tagged,
    {
    }

    /// A cell is the tagged pointer in it, and nothing else.
    pub broadcast proof fn lemma_tagged(self)
        ensures
            #[trigger] Self::of(self.tagged()) == self,
    {
    }

    /// A cell that holds nil.
    pub fn new_nil() -> (cell: TaggedCellPtr)
        ensures
            cell.tagged().word() == 0,
            cell == Self::of(TaggedPtr::of_word(0)),
    {
        proof {
            TaggedPtr::lemma_of_word(TaggedPtr::of_word(0));
            TaggedPtr::lemma_word(0);
        }
        let nil = TaggedPtr::nil();
        proof {
            TaggedPtr::lemma_of_word(nil);
        }
        TaggedCellPtr { inner: nil }
    }

    /// A cell that holds `source`.
    pub fn new_with(source: TaggedScopedPtr<'_>) -> (cell: TaggedCellPtr)
        ensures
            cell.tagged() == source.tagged(),
    {
        TaggedCellPtr { inner: source.get_ptr() }
    }

    /// A cell that holds `ptr`.
    pub fn new_ptr(ptr: TaggedPtr) -> (cell: TaggedCellPtr)
        ensures
            cell.tagged() == ptr,
            cell == Self::of(ptr),
    {
        TaggedCellPtr { inner: ptr }
    }

    /// The tagged pointer in the cell, decoded and bound to the scope of `guard`.
    pub fn get<'guard>(&self, guard: &MutatorView<'guard>) -> (scoped: TaggedScopedPtr<'guard>)
        requires
            guard.wf(),
            self.tagged().decode(guard.mem().storage()) is Some,
        ensures
            scoped.tagged() == self.tagged(),
            Some(scoped.fat()) == self.tagged().decode(guard.mem().storage()),
    {
        TaggedScopedPtr::new(guard, self.inner)
    }

    /// Puts `source` into the cell.
    pub fn set(&mut self, source: TaggedScopedPtr<'_>)
        ensures
            final(self).tagged() == source.tagged(),
    {
        self.inner = source.get_ptr();
    }

    /// Puts nil into the cell.
    pub fn set_to_nil(&mut self)
        ensures
            final(self).tagged().word() == 0,
    {
        self.inner = TaggedPtr::nil();
    }

    /// Whether the cell holds nil.
    pub fn is_nil(&self) -> (nil: bool)
        ensures
            nil == (self.tagged().word() == 0),
    {
        self.inner.is_nil()
    }

    /// The tagged pointer in the cell.
    pub fn get_ptr(&self) -> (ptr: TaggedPtr)
        ensures
            ptr == self.tagged(),
    {
        self.inner
    }
}

} // verus!
