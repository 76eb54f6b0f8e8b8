//! What the containers of the runtime have in common.

use vstd::prelude::*;
use crate::allocation::{AllocHeader, ArraySize, HeapData, RawPtr};
use crate::array::{grown_capacity, Array, INTERIOR_ONLY};
use crate::block_list::BlockList;
use crate::errors::{ErrorKind, RuntimeError};
use crate::heap::{
    array_header_for, as_alloc_result, header_for, is_alloc_error, kept_outside, lemma_alloc_kept,
    lemma_kept_fresh, lemma_kept_twice, lemma_kept_wider, Heap,
};
use crate::sticky_immix_heap::alloc_spec;
use crate::items::ArrayItem;
use crate::mutator_view::MutatorView;
use crate::ptrs::{ScopedPtr, TaggedCellPtr, TaggedScopedPtr};
use crate::raw_array::RawArray;

verus! {

/// A container of items of type `T` whose items live in the heap.
pub trait Container<T: HeapData + Copy>: Sized {
    /// Whether the container is well-formed in `heap`.
    spec fn spec_wf(&self, heap: Heap) -> bool;

    /// The number of items.
    spec fn spec_len(&self) -> ArraySize;

    /// The number of items that there is room for.
    spec fn spec_capacity(&self) -> ArraySize;

    /// The error with which the container refuses to be cleared as it
    /// is now, if it refuses.
    spec fn spec_clear_refused(&self) -> Option<ErrorKind>;

    /// What making a container with room for `capacity` items does to
    /// the heap and returns: each kind of container says which
    /// allocation it makes, and so when it fails.
    spec fn spec_with_capacity(
        old: Heap,
        new: Heap,
        capacity: ArraySize,
        r: Result<Self, RuntimeError>,
    ) -> bool;

    /// A container with no items and no room for any.
    fn new() -> (container: Self)
        ensures
            container.spec_len() == 0,
            container.spec_capacity() == 0,
            forall|heap: Heap| heap.wf() ==> #[trigger] container.spec_wf(heap),
    ;

    /// A container with no items and room for `capacity` items. Fails as
    /// `spec_with_capacity` says, and then changes nothing.
    fn with_capacity(mem: &mut MutatorView, capacity: ArraySize) -> (r: Result<Self, RuntimeError>)
        requires
            old(mem).wf(),
        ensures
            final(mem).wf(),
            *final(final(mem).heap) == *final(old(mem).heap),
            final(mem).mem().symbols() == old(mem).mem().symbols(),
            kept_outside(old(mem).mem(), final(mem).mem(), 0, 0),
            match r {
                Ok(container) => {
                    &&& container.spec_len() == 0
                    &&& container.spec_capacity() == capacity
                    &&& container.spec_wf(final(mem).mem())
                },
                Err(e) => {
                    &&& is_alloc_error(e)
                    &&& BlockList::same(
                        old(mem).mem().storage().blocks(),
                        final(mem).mem().storage().blocks(),
                    )
                },
            },
            Self::spec_with_capacity(old(mem).mem(), final(mem).mem(), capacity, r),
    ;

    /// Forgets every item; the room for items stays, and nothing is
    /// allocated. Fails exactly if the container refuses to be cleared,
    /// with the error that `spec_clear_refused` names, and then changes
    /// neither the container nor the heap.
    fn clear(&mut self, mem: &mut MutatorView) -> (r: Result<(), RuntimeError>)
        requires
            old(mem).wf(),
            old(self).spec_wf(old(mem).mem()),
        ensures
            final(mem).wf(),
            *final(final(mem).heap) == *final(old(mem).heap),
            final(mem).mem().symbols() == old(mem).mem().symbols(),
            final(self).spec_wf(final(mem).mem()),
            final(self).spec_capacity() == old(self).spec_capacity(),
            BlockList::same_shape(
                old(mem).mem().storage().blocks(),
                final(mem).mem().storage().blocks(),
            ),
            match r {
                Ok(()) => {
                    &&& old(self).spec_clear_refused() is None
                    &&& final(self).spec_len() == 0
                },
                Err(e) => {
                    &&& old(self).spec_clear_refused() == Some(e.kind())
                    &&& e.pos() is None
                    &&& *final(self) == *old(self)
                    &&& BlockList::same(
                        old(mem).mem().storage().blocks(),
                        final(mem).mem().storage().blocks(),
                    )
                },
            },
    ;

    /// The number of items.
    fn length(&self) -> (length: ArraySize)
        ensures
            length == self.spec_len(),
    ;
}

/// A container whose items are kept in order.
pub trait Sequence<T: HeapData + Copy>: Container<T> {
    /// The items, in order.
    spec fn spec_items(&self, heap: Heap) -> Seq<T>;

    /// Whether the container refuses changes now.
    spec fn spec_locked(&self) -> bool;

    /// There are as many items as the length says.
    proof fn lemma_items_len(&self, heap: Heap)
        requires
            self.spec_wf(heap),
        ensures
            self.spec_items(heap).len() == self.spec_len(),
            self.spec_len() <= self.spec_capacity(),
    ;
}

/// A container that can be filled up with copies of an item.
pub trait FillContainer<T: HeapData + Copy>: Sequence<T> {
    /// Makes the container `size` items long by putting copies of
    /// `item` behind the last item; a longer container is left as it is.
    /// A failure changes nothing.
    fn fill(&mut self, mem: &mut MutatorView, size: ArraySize, item: T) -> (r: Result<
        (),
        RuntimeError,
    >)
        requires
            old(mem).wf(),
            old(self).spec_wf(old(mem).mem()),
            size <= old(self).spec_capacity() || size <= grown_capacity(old(self).spec_capacity()),
        ensures
            final(mem).wf(),
            *final(final(mem).heap) == *final(old(mem).heap),
            final(mem).mem().symbols() == old(mem).mem().symbols(),
            final(self).spec_wf(final(mem).mem()),
            match r {
                Ok(()) => final(self).spec_items(final(mem).mem()) == if old(self).spec_len()
                    > size {
                    old(self).spec_items(old(mem).mem())
                } else {
                    old(self).spec_items(old(mem).mem()) + Seq::new(
                        (size - old(self).spec_len()) as nat,
                        |i: int| item,
                    )
                },
                Err(e) => {
                    &&& is_alloc_error(e)
                    &&& old(self).spec_len() <= size
                    &&& size > old(self).spec_capacity()
                    &&& final(self).spec_items(final(mem).mem()) == old(self).spec_items(
                        old(mem).mem(),
                    )
                    &&& BlockList::same(
                        old(mem).mem().storage().blocks(),
                        final(mem).mem().storage().blocks(),
                    )
                },
            },
    ;
}

/// A container that is used as a stack.
pub trait StackContainer<T: HeapData + Copy>: Sequence<T> {
    /// Puts `item` behind the last item, after making room for it if
    /// there is none. A failure changes nothing.
    fn push(&mut self, mem: &mut MutatorView, item: T) -> (r: Result<(), RuntimeError>)
        requires
            old(mem).wf(),
            old(self).spec_wf(old(mem).mem()),
            old(self).spec_len() < old(self).spec_capacity() || old(self).spec_capacity() != 1,
        ensures
            final(mem).wf(),
            *final(final(mem).heap) == *final(old(mem).heap),
            final(mem).mem().symbols() == old(mem).mem().symbols(),
            final(self).spec_wf(final(mem).mem()),
            match r {
                Ok(()) => {
                    &&& !old(self).spec_locked()
                    &&& final(self).spec_items(final(mem).mem()) == old(self).spec_items(
                        old(mem).mem(),
                    ).push(item)
                },
                Err(e) => {
                    &&& final(self).spec_items(final(mem).mem()) == old(self).spec_items(
                        old(mem).mem(),
                    )
                    &&& BlockList::same(
                        old(mem).mem().storage().blocks(),
                        final(mem).mem().storage().blocks(),
                    )
                    &&& if old(self).spec_locked() {
                        e.kind() == ErrorKind::MutableBorrowError
                    } else {
                        old(self).spec_len() == old(self).spec_capacity() && is_alloc_error(e)
                    }
                },
            },
    ;

    /// The last item, which is taken off the container. Fails with a
    /// mutable borrow error if the container refuses changes, and with a
    /// bounds error if there is no item; a failure takes nothing off.
    fn pop(&mut self, guard: &MutatorView) -> (r: Result<T, RuntimeError>)
        requires
            guard.wf(),
            old(self).spec_wf(guard.mem()),
        ensures
            final(self).spec_wf(guard.mem()),
            match r {
                Ok(item) => {
                    &&& !old(self).spec_locked()
                    &&& old(self).spec_len() > 0
                    &&& item == old(self).spec_items(guard.mem()).last()
                    &&& final(self).spec_items(guard.mem()) == old(self).spec_items(
                        guard.mem(),
                    ).drop_last()
                },
                Err(e) => {
                    &&& final(self).spec_items(guard.mem()) == old(self).spec_items(guard.mem())
                    &&& e.pos() is None
                    &&& if old(self).spec_locked() {
                        e.kind() == ErrorKind::MutableBorrowError
                    } else {
                        old(self).spec_len() == 0 && e.kind() == ErrorKind::BoundsError
                    }
                },
            },
    ;

    /// The last item, which stays on the container. Fails with a
    /// bounds error if there is no item.
    fn top(&self, guard: &MutatorView) -> (r: Result<T, RuntimeError>)
        requires
            guard.wf(),
            self.spec_wf(guard.mem()),
        ensures
            match r {
                Ok(item) => self.spec_len() > 0 && item == self.spec_items(guard.mem()).last(),
                Err(e) => {
                    &&& self.spec_len() == 0
                    &&& e.kind() == ErrorKind::BoundsError
                    &&& e.pos() is None
                },
            },
    ;
}

/// A container whose items are read and written by their place.
pub trait IndexedContainer<T: HeapData + Copy>: Sequence<T> {
    /// The item `index`. Fails with a bounds error if there is no such item.
    fn get(&self, guard: &MutatorView, index: ArraySize) -> (r: Result<T, RuntimeError>)
        requires
            guard.wf(),
            self.spec_wf(guard.mem()),
        ensures
            match r {
                Ok(item) => index < self.spec_len() && item == self.spec_items(
                    guard.mem(),
                )[index as int],
                Err(e) => {
                    &&& index >= self.spec_len()
                    &&& e.kind() == ErrorKind::BoundsError
                    &&& e.pos() is None
                },
            },
    ;

    /// Stores `item` as the item `index`. Fails with a bounds error, and
    /// stores nothing, if there is no such item.
    fn set(&self, mem: &mut MutatorView, index: ArraySize, item: T) -> (r: Result<
        (),
        RuntimeError,
    >)
        requires
            old(mem).wf(),
            self.spec_wf(old(mem).mem()),
        ensures
            final(mem).wf(),
            *final(final(mem).heap) == *final(old(mem).heap),
            final(mem).mem().symbols() == old(mem).mem().symbols(),
            self.spec_wf(final(mem).mem()),
            match r {
                Ok(()) => {
                    &&& index < self.spec_len()
                    &&& self.spec_items(final(mem).mem()) == self.spec_items(
                        old(mem).mem(),
                    ).update(index as int, item)
                },
                Err(e) => {
                    &&& index >= self.spec_len()
                    &&& e.kind() == ErrorKind::BoundsError
                    &&& e.pos() is None
                    &&& self.spec_items(final(mem).mem()) == self.spec_items(old(mem).mem())
                    &&& BlockList::same(
                        old(mem).mem().storage().blocks(),
                        final(mem).mem().storage().blocks(),
                    )
                },
            },
    ;
}

/// A stack of tagged pointers, which are handed over and back with
/// the values that they stand for.
pub trait StackAnyContainer: Sequence<TaggedCellPtr> {
    /// Puts `item` behind the last item, after making room for it if
    /// there is none. A failure changes nothing.
    fn push(&mut self, mem: &mut MutatorView, item: TaggedScopedPtr) -> (r: Result<
        (),
        RuntimeError,
    >)
        requires
            old(mem).wf(),
            old(self).spec_wf(old(mem).mem()),
            old(self).spec_len() < old(self).spec_capacity() || old(self).spec_capacity() != 1,
        ensures
            final(mem).wf(),
            *final(final(mem).heap) == *final(old(mem).heap),
            final(mem).mem().symbols() == old(mem).mem().symbols(),
            final(self).spec_wf(final(mem).mem()),
            match r {
                Ok(()) => {
                    &&& !old(self).spec_locked()
                    &&& final(self).spec_items(final(mem).mem()) == old(self).spec_items(
                        old(mem).mem(),
                    ).push(TaggedCellPtr::of(item.tagged()))
                },
                Err(e) => {
                    &&& final(self).spec_items(final(mem).mem()) == old(self).spec_items(
                        old(mem).mem(),
                    )
                    &&& BlockList::same(
                        old(mem).mem().storage().blocks(),
                        final(mem).mem().storage().blocks(),
                    )
                    &&& if old(self).spec_locked() {
                        e.kind() == ErrorKind::MutableBorrowError
                    } else {
                        old(self).spec_len() == old(self).spec_capacity() && is_alloc_error(e)
                    }
                },
            },
    ;

    /// The last item, which is taken off the container, with the
    /// value that it stands for. Fails with a mutable borrow error if
    /// the container refuses changes, and with a bounds error if
    /// there is no item; a failure takes nothing off.
    fn pop<'guard>(&mut self, guard: &MutatorView<'guard>) -> (r: Result<
        TaggedScopedPtr<'guard>,
        RuntimeError,
    >)
        requires
            guard.wf(),
            old(self).spec_wf(guard.mem()),
            old(self).spec_len() > 0 ==> old(self).spec_items(guard.mem()).last().tagged().decode(
                guard.mem().storage(),
            ) is Some,
        ensures
            final(self).spec_wf(guard.mem()),
            match r {
                Ok(item) => {
                    &&& !old(self).spec_locked()
                    &&& old(self).spec_len() > 0
                    &&& item.tagged() == old(self).spec_items(guard.mem()).last().tagged()
                    &&& Some(item.fat()) == item.tagged().decode(guard.mem().storage())
                    &&& final(self).spec_items(guard.mem()) == old(self).spec_items(
                        guard.mem(),
                    ).drop_last()
                },
                Err(e) => {
                    &&& final(self).spec_items(guard.mem()) == old(self).spec_items(guard.mem())
                    &&& e.pos() is None
                    &&& if old(self).spec_locked() {
                        e.kind() == ErrorKind::MutableBorrowError
                    } else {
                        old(self).spec_len() == 0 && e.kind() == ErrorKind::BoundsError
                    }
                },
            },
    ;

    /// The last item, which stays on the container, with the value that
    /// it stands for. Fails with a bounds error if there is no item.
    fn top<'guard>(&self, guard: &MutatorView<'guard>) -> (r: Result<
        TaggedScopedPtr<'guard>,
        RuntimeError,
    >)
        requires
            guard.wf(),
            self.spec_wf(guard.mem()),
            self.spec_len() > 0 ==> self.spec_items(guard.mem()).last().tagged().decode(
                guard.mem().storage(),
            ) is Some,
        ensures
            match r {
                Ok(item) => {
                    &&& self.spec_len() > 0
                    &&& item.tagged() == self.spec_items(guard.mem()).last().tagged()
                    &&& Some(item.fat()) == item.tagged().decode(guard.mem().storage())
                },
                Err(e) => {
                    &&& self.spec_len() == 0
                    &&& e.kind() == ErrorKind::BoundsError
                    &&& e.pos() is None
                },
            },
    ;
}

impl StackAnyContainer for Array<TaggedCellPtr> {
    fn push(&mut self, mem: &mut MutatorView, item: TaggedScopedPtr) -> (r: Result<
        (),
        RuntimeError,
    >) {
        let cell: TaggedCellPtr = TaggedCellPtr::new_with(item);
        proof {
            TaggedCellPtr::lemma_tagged(cell);
        }
        StackContainer::push(self, mem, cell)
    }

    fn pop<'guard>(&mut self, guard: &MutatorView<'guard>) -> (r: Result<
        TaggedScopedPtr<'guard>,
        RuntimeError,
    >) {
        match StackContainer::pop(self, guard) {
            Ok(cell) => Ok(cell.get(guard)),
            Err(e) => Err(e),
        }
    }

    fn top<'guard>(&self, guard: &MutatorView<'guard>) -> (r: Result<
        TaggedScopedPtr<'guard>,
        RuntimeError,
    >) {
        match StackContainer::top(self, guard) {
            Ok(cell) => Ok(cell.get(guard)),
            Err(e) => Err(e),
        }
    }
}

impl<T: HeapData + Copy> Container<T> for Array<T> {
    open spec fn spec_wf(&self, heap: Heap) -> bool {
        self.wf(heap)
    }

    open spec fn spec_len(&self) -> ArraySize {
        self.len()
    }

    open spec fn spec_capacity(&self) -> ArraySize {
        self.data().cap()
    }

    open spec fn spec_with_capacity(
        old: Heap,
        new: Heap,
        capacity: ArraySize,
        r: Result<Array<T>, RuntimeError>,
    ) -> bool {
        Array::<T>::with_capacity_spec(old, new, capacity, r)
    }

    /// An array whose items are exposed to mutation is not cleared.
    open spec fn spec_clear_refused(&self) -> Option<ErrorKind> {
        if self.borrow_flag() != INTERIOR_ONLY {
            Some(ErrorKind::MutableBorrowError)
        } else {
            None
        }
    }

    fn new() -> (container: Array<T>) {
        Array::new()
    }

    fn with_capacity(mem: &mut MutatorView, capacity: ArraySize) -> (r: Result<
        Array<T>,
        RuntimeError,
    >) {
        Array::with_capacity(mem, capacity)
    }

    fn clear(&mut self, mem: &mut MutatorView) -> (r: Result<(), RuntimeError>) {
        proof {
            Array::lemma_parts(*self);
        }
        let r = Array::clear(self, mem);
        proof {
            Array::lemma_parts(*self);
        }
        r
    }

    fn length(&self) -> (length: ArraySize) {
        Array::length(self)
    }
}

impl<T: HeapData + Copy> Sequence<T> for Array<T> {
    open spec fn spec_items(&self, heap: Heap) -> Seq<T> {
        self.items(heap)
    }

    open spec fn spec_locked(&self) -> bool {
        self.borrow_flag() != INTERIOR_ONLY
    }

    proof fn lemma_items_len(&self, heap: Heap) {
    }
}

impl<T: HeapData + Copy> FillContainer<T> for Array<T> {
    fn fill(&mut self, mem: &mut MutatorView, size: ArraySize, item: T) -> (r: Result<
        (),
        RuntimeError,
    >) {
        Array::fill(self, mem, size, item)
    }
}

impl<T: HeapData + Copy> StackContainer<T> for Array<T> {
    fn push(&mut self, mem: &mut MutatorView, item: T) -> (r: Result<(), RuntimeError>) {
        Array::push(self, mem, item)
    }

    fn pop(&mut self, guard: &MutatorView) -> (r: Result<T, RuntimeError>) {
        Array::pop(self, guard)
    }

    fn top(&self, guard: &MutatorView) -> (r: Result<T, RuntimeError>) {
        Array::top(self, guard)
    }
}

impl<T: HeapData + Copy> IndexedContainer<T> for Array<T> {
    fn get(&self, guard: &MutatorView, index: ArraySize) -> (r: Result<T, RuntimeError>) {
        Array::get(self, guard, index)
    }

    fn set(&self, mem: &mut MutatorView, index: ArraySize, item: T) -> (r: Result<
        (),
        RuntimeError,
    >) {
        Array::set(self, mem, index, item)
    }
}

/// What making an array with room for just `items`, and storing them in
/// it, does to the heap and returns. The room is allocated as an array
/// of bytes is. On failure nothing has changed; the failure is a bad
/// allocation request if the items or their bytes cannot be counted in
/// an `ArraySize`.
pub open spec fn array_filled<T: HeapData + Copy>(
    old: Heap,
    new: Heap,
    items: Seq<T>,
    made: Result<Array<T>, RuntimeError>,
) -> bool {
    let len = RawArray::<T>::byte_len(items.len() as int);
    match made {
        Ok(array) => {
            &&& items.len() <= u32::MAX
            &&& len <= u32::MAX
            &&& array.len() == items.len()
            &&& array.borrow_flag() == INTERIOR_ONLY
            &&& array.data().cap() == items.len()
            &&& array.data().base() is Some
            &&& array.wf(new)
            &&& array.items(new) == items
            &&& alloc_spec(
                old.storage().blocks(),
                new.storage().blocks(),
                array_header_for(len as u32).spec_bytes(),
                new.storage().blocks().bytes(array.data().base()->0.addr(), len),
                Ok(array.data().base()->0),
            )
        },
        Err(e) => {
            &&& is_alloc_error(e)
            &&& BlockList::same(old.storage().blocks(), new.storage().blocks())
            &&& if items.len() > u32::MAX || len > u32::MAX {
                e.kind() == ErrorKind::BadAllocationRequest
            } else {
                alloc_spec(
                    old.storage().blocks(),
                    new.storage().blocks(),
                    array_header_for(len as u32).spec_bytes(),
                    Seq::new(len as nat, |i: int| 0u8),
                    as_alloc_result::<RawPtr>(Err(e)),
                )
            }
        },
    }
}

/// A container that can be made of the items of a slice.
pub trait ContainerFromSlice<T: HeapData + Copy>: Sequence<T> + HeapData {
    /// What making a container of `items` does to the heap and returns:
    /// each kind of container says which allocations it makes, and so
    /// when it fails.
    spec fn spec_from_slice(
        old: Heap,
        new: Heap,
        items: Seq<T>,
        r: Result<RawPtr, RuntimeError>,
    ) -> bool;

    /// Allocates a container that holds the items of `data`, in their
    /// order, and returns a pointer to it. Fails with a bad allocation
    /// request if the items cannot be counted in an `ArraySize`, else as
    /// the allocations do. Whatever happens, everything that had been
    /// handed out before is kept.
    fn from_slice<'guard>(mem: &mut MutatorView<'guard>, data: &[T]) -> (r: Result<
        ScopedPtr<'guard>,
        RuntimeError,
    >)
        requires
            old(mem).wf(),
        ensures
            final(mem).wf(),
            *final(final(mem).heap) == *final(old(mem).heap),
            final(mem).mem().symbols() == old(mem).mem().symbols(),
            kept_outside(old(mem).mem(), final(mem).mem(), 0, 0),
            match r {
                Ok(ptr) => {
                    &&& final(mem).mem().object_at::<Self>(ptr.raw()) matches Some(container)
                    &&& container.spec_wf(final(mem).mem())
                    &&& container.spec_items(final(mem).mem()) == data@
                },
                Err(e) => is_alloc_error(e),
            },
            Self::spec_from_slice(
                old(mem).mem(),
                final(mem).mem(),
                data@,
                match r {
                    Ok(ptr) => Ok(ptr.raw()),
                    Err(e) => Err(e),
                },
            ),
    ;
}

impl<T: ArrayItem> ContainerFromSlice<T> for Array<T> {
    /// The array is made and filled, which leads from `old` to a heap
    /// in between, and is allocated from there. If it cannot be made,
    /// nothing has changed. If it cannot be allocated, its items stay.
    open spec fn spec_from_slice(
        old: Heap,
        new: Heap,
        items: Seq<T>,
        r: Result<RawPtr, RuntimeError>,
    ) -> bool {
        exists|between: Heap, made: Result<Array<T>, RuntimeError>|
            {
                &&& #[trigger] array_filled(old, between, items, made)
                &&& between.wf()
                &&& match made {
                    Ok(array) => alloc_spec(
                        between.storage().blocks(),
                        new.storage().blocks(),
                        header_for::<Array<T>>().spec_bytes(),
                        array.spec_bytes(),
                        as_alloc_result::<RawPtr>(r),
                    ),
                    Err(e) => {
                        &&& r == Err::<RawPtr, RuntimeError>(e)
                        &&& BlockList::same(between.storage().blocks(), new.storage().blocks())
                    },
                }
            }
    }

    fn from_slice<'guard>(mem: &mut MutatorView<'guard>, data: &[T]) -> (r: Result<
        ScopedPtr<'guard>,
        RuntimeError,
    >) {
        let ghost old_heap = mem.mem();
        proof {
            BlockList::lemma_same_bytes(old_heap.storage().blocks(), old_heap.storage().blocks());
        }
        if data.len() > u32::MAX as usize {
            let e = RuntimeError::new(ErrorKind::BadAllocationRequest);
            proof {
                assert(array_filled(old_heap, old_heap, data@, Err::<Array<T>, RuntimeError>(e)));
            }
            return Err(e);
        }
        let count: ArraySize = data.len() as ArraySize;
        let mut array: Array<T> = match Array::with_capacity(mem, count) {
            Ok(array) => array,
            Err(e) => {
                proof {
                    assert(array_filled(old_heap, mem.mem(), data@, Err::<Array<T>, RuntimeError>(e)));
                }
                return Err(e);
            },
        };
        let ghost mid_heap = mem.mem();
        let ghost range = array.data().byte_range();
        let ghost table = array.data();
        proof {
            BlockList::lemma_same_bytes(mid_heap.storage().blocks(), mid_heap.storage().blocks());
            BlockList::lemma_same_changed(
                mid_heap.storage().blocks(),
                mid_heap.storage().blocks(),
                range.0,
                range.1,
            );
            assert(array.items(mid_heap) =~= data@.subrange(0, 0));
        }
        let mut index: ArraySize = 0;
        while index < count
            invariant
                mem.wf(),
                mid_heap.wf(),
                *final(mem.heap) == *final(old(mem).heap),
                mem.mem().symbols() == old(mem).mem().symbols(),
                count == data@.len(),
                index <= count,
                array.wf(mem.mem()),
                array.len() == index,
                array.data() == table,
                table.cap() == count,
                array.borrow_flag() == INTERIOR_ONLY,
                range == table.byte_range(),
                array.items(mem.mem()) == data@.subrange(0, index as int),
                kept_outside(mid_heap, mem.mem(), range.0, range.1),
                BlockList::changed_within(
                    mid_heap.storage().blocks(),
                    mem.mem().storage().blocks(),
                    range.0,
                    range.1,
                ),
            decreases count - index,
        {
            let ghost before = mem.mem();
            match array.push(mem, data[index as usize]) {
                Ok(()) => {},
                Err(e) => vstd::pervasive::unreached(),
            }
            proof {
                lemma_kept_twice(mid_heap, before, mem.mem(), range.0, range.1);
                table.lemma_item_range(before, index as int);
                data@[index as int].lemma_round_trip();
                BlockList::lemma_wrote_changed(
                    before.storage().blocks(),
                    mem.mem().storage().blocks(),
                    table.item_addr(index as int),
                    data@[index as int].spec_bytes(),
                    range.0,
                    range.1,
                );
                BlockList::lemma_changed_twice(
                    mid_heap.storage().blocks(),
                    before.storage().blocks(),
                    mem.mem().storage().blocks(),
                    range.0,
                    range.1,
                );
                assert(data@.subrange(0, index as int).push(data@[index as int]) =~= data@.subrange(
                    0,
                    index as int + 1,
                ));
            }
            index = index + 1;
        }
        let ghost full_heap = mem.mem();
        proof {
            let len = RawArray::<T>::byte_len(count as int);
            lemma_kept_fresh(
                old_heap,
                mid_heap,
                full_heap,
                array_header_for(len as u32).spec_bytes(),
                Seq::new(len as nat, |i: int| 0u8),
                table.base()->0,
                range.0,
                range.1,
            );
            assert(data@.subrange(0, count as int) =~= data@);
            crate::sticky_immix_heap::lemma_alloc_then_change(
                old_heap.storage().blocks(),
                mid_heap.storage().blocks(),
                full_heap.storage().blocks(),
                array_header_for(len as u32).spec_bytes(),
                Seq::new(len as nat, |i: int| 0u8),
                table.base()->0,
            );
            assert(array_filled(old_heap, full_heap, data@, Ok::<Array<T>, RuntimeError>(array)));
        }
        match mem.allocate(array) {
            Ok(ptr) => {
                proof {
                    let new_heap = mem.mem();
                    lemma_alloc_kept(
                        full_heap,
                        new_heap,
                        header_for::<Array<T>>().spec_bytes(),
                        array.spec_bytes(),
                        Ok(ptr.raw()),
                    );
                    lemma_kept_twice(old_heap, full_heap, new_heap, 0, 0);
                    array.lemma_kept(full_heap, new_heap, 0, 0);
                    array.lemma_round_trip();
                    new_heap.storage().lemma_allocated(
                        full_heap.storage().blocks(),
                        header_for::<Array<T>>(),
                        array.spec_bytes(),
                        ptr.raw(),
                    );
                    new_heap.storage().blocks().lemma_range(ptr.raw().addr(), 32, 0);
                }
                Ok(ptr)
            },
            Err(e) => {
                proof {
                    lemma_alloc_kept(
                        full_heap,
                        mem.mem(),
                        header_for::<Array<T>>().spec_bytes(),
                        array.spec_bytes(),
                        crate::heap::as_alloc_result::<RawPtr>(Err(e)),
                    );
                    lemma_kept_twice(old_heap, full_heap, mem.mem(), 0, 0);
                }
                Err(e)
            },
        }
    }
}

} // verus!
