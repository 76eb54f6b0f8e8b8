//! Arrays that grow: the lists, the byte arrays and the code of the runtime.

use vstd::prelude::*;
use vstd::pervasive::unreached;
use crate::allocation::{AllocHeader, AllocObject, ArraySize, HeapData, RawPtr};
use crate::block_list::BlockList;
use crate::codec::{
    get_i64, get_ptr, get_u32, i64_at, i64_le, lemma_i64_round_trip, lemma_ptr_round_trip,
    lemma_u32_round_trip, ptr_at, ptr_bytes, put_i64, put_ptr, put_u32, u32_at, u32_le,
};
use crate::items::ArrayItem;
use crate::errors::{ErrorKind, RuntimeError};
use crate::heap::{
    as_alloc_result, header_for, is_alloc_error, kept_outside, lemma_kept_fresh,
    lemma_kept_range, lemma_kept_twice, lemma_kept_wider, Heap,
};
use crate::mutator_view::MutatorView;
use crate::ptrs::{ScopedPtr, TaggedCellPtr};
use crate::raw_array::{apart, RawArray};
use crate::sticky_immix_heap::alloc_spec;
use crate::type_list::TypeList;

verus! {
/// Whether the items of an array are exposed to mutation from outside.
pub type BorrowFlag = isize;

/// The flag of an array whose items are changed only through the array.
pub const INTERIOR_ONLY: isize = 0;

/// The flag of an array whose items are exposed to mutation from outside.
pub const EXPOSED_MUTABLY: isize = 1;

/// The capacity of an array that grows from nothing.
pub const DEFAULT_ARRAY_SIZE: ArraySize = 8;

/// The capacity to which an array of `capacity` items grows: the default
/// from nothing, else half as much again. A capacity of one does not grow.
pub open spec fn grown_capacity(capacity: ArraySize) -> int {
    if capacity == 0 {
        DEFAULT_ARRAY_SIZE as int
    } else {
        capacity + capacity / 2
    }
}

/// The capacity to which an array of `capacity` items grows. Fails
/// with a bad allocation request if that cannot be counted in an `ArraySize`.
pub fn default_array_growth(capacity: ArraySize) -> (r: Result<ArraySize, RuntimeError>)
    ensures
        match r {
            Ok(grown) => grown == grown_capacity(capacity),
            Err(e) => {
                &&& grown_capacity(capacity) > u32::MAX
                &&& e.kind() == ErrorKind::BadAllocationRequest
                &&& e.pos() is None
            },
        },
{
    if capacity == 0 {
        Ok(DEFAULT_ARRAY_SIZE)
    } else {
        match capacity.checked_add(capacity / 2) {
            Some(grown) => Ok(grown),
            None => Err(RuntimeError::new(ErrorKind::BadAllocationRequest)),
        }
    }
}

/// An array of tagged pointers.
pub type List = Array<TaggedCellPtr>;

/// An array of bytes.
pub type ArrayU8 = Array<u8>;

/// An array of numbers of sixteen bits.
pub type ArrayU16 = Array<u16>;

/// An array of numbers of thirty-two bits.
pub type ArrayU32 = Array<u32>;

/// An array of items of type `T` that grows as items are pushed: a
/// length, and a run of items in the heap of which the first `length` count.
pub struct Array<T: HeapData + Copy> {
    length: ArraySize,
    data: RawArray<T>,
    borrow: BorrowFlag,
}

impl<T: HeapData + Copy> Clone for Array<T> {
    fn clone(&self) -> (copy: Self)
        ensures
            copy == *self,
    {
        Array { length: self.length, data: self.data, borrow: self.borrow }
    }
}

impl<T: HeapData + Copy> Copy for Array<T> {

}

impl<T: HeapData + Copy> Array<T> {
    /// The number of items.
    pub closed spec fn len(self) -> ArraySize {
        self.length
    }

    /// The run of items in the heap.
    pub closed spec fn data(self) -> RawArray<T> {
        self.data
    }

    /// Whether the items are exposed to mutation from outside.
    pub closed spec fn borrow_flag(self) -> BorrowFlag {
        self.borrow
    }

    /// The array with these three parts.
    pub closed spec fn with(length: ArraySize, data: RawArray<T>, borrow: BorrowFlag) -> Array<T> {
        Array { length, data, borrow }
    }

    /// An array is its three parts, and nothing else.
    pub broadcast proof fn lemma_with(length: ArraySize, data: RawArray<T>, borrow: BorrowFlag)
        ensures
            (#[trigger] Self::with(length, data, borrow)).len() == length,
            Self::with(length, data, borrow).data() == data,
            Self::with(length, data, borrow).borrow_flag() == borrow,
    {
    }

    /// An array is its three parts, and nothing else.
    pub broadcast proof fn lemma_parts(self)
        ensures
            #[trigger] Self::with(self.len(), self.data(), self.borrow_flag()) == self,
    {
    }

    /// The run of items is well-formed in `heap`, and the length is within
    /// its capacity.
    pub open spec fn bounded(self, heap: Heap) -> bool {
        &&& self.data().wf(heap)
        &&& self.len() <= self.data().cap()
    }

    /// The array is bounded, and the bytes of each item that counts
    /// stand for an item.
    pub open spec fn wf(self, heap: Heap) -> bool {
        &&& self.bounded(heap)
        &&& forall|i: int|
            0 <= i < self.len() ==> (#[trigger] self.data().item_at(heap, i)) is Some
    }

    /// The items, in order.
    pub open spec fn items(self, heap: Heap) -> Seq<T> {
        Seq::new(self.len() as nat, |i: int| self.data().item_at(heap, i)->0)
    }

    /// An array that keeps its parts is still well-formed, with the same
    /// items, after a change of the heap that keeps what had been
    /// handed out outside of bytes that are not bytes of its items.
    pub proof fn lemma_kept(self, old: Heap, new: Heap, from: int, to: int)
        requires
            old.wf(),
            new.wf(),
            self.wf(old),
            kept_outside(old, new, from, to),
            apart((from, to), self.data().byte_range()),
        ensures
            self.wf(new),
            self.items(new) == self.items(old),
    {
        T::lemma_size();
        let data = self.data();
        if data.cap() > 0 {
            assert(data.byte_range().0 < data.byte_range().1) by (nonlinear_arith)
                requires
                    data.cap() > 0,
                    T::spec_size() > 0,
                    data.byte_range().1 == data.byte_range().0 + data.cap() * T::spec_size(),
            ;
            let size = T::spec_size() as int;
            let cap = data.cap() as int;
            assert(cap * size > 0) by (nonlinear_arith)
                requires
                    cap > 0,
                    size > 0,
            ;
            lemma_kept_range(
                old,
                new,
                from,
                to,
                data.base()->0.addr(),
                RawArray::<T>::byte_len(cap),
            );
        }
        assert forall|i: int| 0 <= i < self.len() implies #[trigger] data.item_at(new, i)
            == data.item_at(old, i) by {
            data.lemma_item_range(old, i);
            lemma_kept_range(old, new, from, to, data.item_addr(i), T::spec_size() as int);
        }
        assert(self.items(new) =~= self.items(old));
    }

    /// An array with no items and no capacity.
    pub fn new() -> (array: Array<T>)
        ensures
            array.len() == 0,
            array.data().cap() == 0,
            array.data().base() is None,
            array.borrow_flag() == INTERIOR_ONLY,
    {
        Array { length: 0, data: RawArray::new(), borrow: INTERIOR_ONLY }
    }

    /// What making an array with room for `capacity` items does to the
    /// heap and returns. The room is allocated as an array of bytes is,
    /// all zeros. On failure nothing has changed; the failure is a bad
    /// allocation request if the bytes of the room cannot be counted in
    /// an `ArraySize`.
    pub open spec fn with_capacity_spec(
        old: Heap,
        new: Heap,
        capacity: ArraySize,
        r: Result<Array<T>, RuntimeError>,
    ) -> bool {
        let len = RawArray::<T>::byte_len(capacity as int);
        match r {
            Ok(array) => {
                &&& array.len() == 0
                &&& array.borrow_flag() == INTERIOR_ONLY
                &&& array.data().cap() == capacity
                &&& array.data().base() is Some
                &&& array.wf(new)
                &&& len <= u32::MAX
                &&& alloc_spec(
                    old.storage().blocks(),
                    new.storage().blocks(),
                    crate::heap::array_header_for(len as u32).spec_bytes(),
                    Seq::new(len as nat, |i: int| 0u8),
                    Ok(array.data().base()->0),
                )
            },
            Err(e) => {
                &&& is_alloc_error(e)
                &&& BlockList::same(old.storage().blocks(), new.storage().blocks())
                &&& if len > u32::MAX {
                    e.kind() == ErrorKind::BadAllocationRequest
                } else {
                    alloc_spec(
                        old.storage().blocks(),
                        new.storage().blocks(),
                        crate::heap::array_header_for(len as u32).spec_bytes(),
                        Seq::new(len as nat, |i: int| 0u8),
                        as_alloc_result::<RawPtr>(Err(e)),
                    )
                }
            },
        }
    }

    /// An array with no items and room for `capacity` items.
    /// Fails as the allocation of the room does, and then changes nothing.
    pub fn with_capacity(mem: &mut MutatorView, capacity: ArraySize) -> (r: Result<
        Array<T>,
        RuntimeError,
    >)
        requires
            old(mem).wf(),
        ensures
            final(mem).wf(),
            *final(final(mem).heap) == *final(old(mem).heap),
            final(mem).mem().symbols() == old(mem).mem().symbols(),
            kept_outside(old(mem).mem(), final(mem).mem(), 0, 0),
            Self::with_capacity_spec(old(mem).mem(), final(mem).mem(), capacity, r),
    {
        match RawArray::with_capacity(mem, capacity) {
            Ok(data) => Ok(Array { length: 0, data, borrow: INTERIOR_ONLY }),
            Err(e) => Err(e),
        }
    }

    /// The number of items.
    pub fn length(&self) -> (length: ArraySize)
        ensures
            length == self.len(),
    {
        self.length
    }

    /// The number of items that the array has room for.
    pub fn capacity(&self) -> (capacity: ArraySize)
        ensures
            capacity == self.data().cap(),
    {
        self.data.capacity()
    }

    /// Forgets every item. Fails with a mutable borrow error, and
    /// forgets nothing, if the items are exposed to mutation.
    pub fn clear(&mut self, _guard: &MutatorView) -> (r: Result<(), RuntimeError>)
        ensures
            final(self).data() == old(self).data(),
            final(self).borrow_flag() == old(self).borrow_flag(),
            match r {
                Ok(()) => old(self).borrow_flag() == INTERIOR_ONLY && final(self).len() == 0,
                Err(e) => {
                    &&& old(self).borrow_flag() != INTERIOR_ONLY
                    &&& e.kind() == ErrorKind::MutableBorrowError
                    &&& e.pos() is None
                    &&& final(self).len() == old(self).len()
                },
            },
    {
        if self.borrow != INTERIOR_ONLY {
            Err(RuntimeError::new(ErrorKind::MutableBorrowError))
        } else {
            self.length = 0;
            Ok(())
        }
    }

    /// The address of the item `index`. Fails with a bounds error if
    /// the array has no such item.
    fn get_offset(&self, index: ArraySize) -> (r: Result<RawPtr, RuntimeError>)
        requires
            index < self.len() && self.data().base() is Some ==> self.data().item_addr(
                index as int,
            ) <= usize::MAX,
        ensures
            match r {
                Ok(ptr) => {
                    &&& index < self.len()
                    &&& self.data().base() is Some
                    &&& ptr.addr() == self.data().item_addr(index as int)
                },
                Err(e) => {
                    &&& index >= self.len() || self.data().base() is None
                    &&& e.kind() == ErrorKind::BoundsError
                    &&& e.pos() is None
                },
            },
    {
        if index >= self.length {
            Err(RuntimeError::new(ErrorKind::BoundsError))
        } else {
            match self.data.as_ptr() {
                Some(ptr) => {
                    proof {
                        ptr.lemma_addr_bounds();
                        assert(0 <= index * T::spec_size()) by (nonlinear_arith);
                    }
                    let offset: usize = (index as usize) * (T::object_size() as usize);
                    Ok(RawPtr::new(ptr.as_word() + offset))
                },
                None => Err(RuntimeError::new(ErrorKind::BoundsError)),
            }
        }
    }

    /// The item `index`. Fails with a bounds error if the array has no
    /// such item.
    fn read(&self, guard: &MutatorView, index: ArraySize) -> (r: Result<T, RuntimeError>)
        requires
            guard.wf(),
            self.wf(guard.mem()),
        ensures
            match r {
                Ok(item) => index < self.len() && item == self.items(guard.mem())[index as int],
                Err(e) => {
                    &&& index >= self.len()
                    &&& e.kind() == ErrorKind::BoundsError
                    &&& e.pos() is None
                },
            },
    {
        proof {
            if index < self.len() {
                self.data().lemma_item_range(guard.mem(), index as int);
                assert(self.data().item_at(guard.mem(), index as int) is Some);
            }
        }
        let dest: RawPtr = match self.get_offset(index) {
            Ok(dest) => dest,
            Err(e) => { return Err(e); },
        };
        match guard.load::<T>(dest) {
            Some(item) => Ok(item),
            None => unreached(),
        }
    }

    /// The item `index`, read out of the heap. Fails with a bounds
    /// error if the array has no such item.
    pub fn read_ref(&self, guard: &MutatorView, index: ArraySize) -> (r: Result<T, RuntimeError>)
        requires
            guard.wf(),
            self.wf(guard.mem()),
        ensures
            match r {
                Ok(item) => index < self.len() && item == self.items(guard.mem())[index as int],
                Err(e) => {
                    &&& index >= self.len()
                    &&& e.kind() == ErrorKind::BoundsError
                    &&& e.pos() is None
                },
            },
    {
        self.read(guard, index)
    }

    /// Stores `item` as the item `index`. Fails with a bounds error, and
    /// stores nothing, if the array has no such item.
    fn write(&self, mem: &mut MutatorView, index: ArraySize, item: T) -> (r: Result<
        (),
        RuntimeError,
    >)
        requires
            old(mem).wf(),
            self.bounded(old(mem).mem()),
        ensures
            final(mem).wf(),
            *final(final(mem).heap) == *final(old(mem).heap),
            final(mem).mem().symbols() == old(mem).mem().symbols(),
            self.bounded(final(mem).mem()),
            BlockList::same_shape(
                old(mem).mem().storage().blocks(),
                final(mem).mem().storage().blocks(),
            ),
            match r {
                Ok(()) => {
                    &&& index < self.len()
                    &&& self.data().item_at(final(mem).mem(), index as int) == Some(item)
                    &&& forall|other: int|
                        0 <= other < self.data().cap() && other != index ==> #[trigger] self.data().item_at(
                            final(mem).mem(),
                            other,
                        ) == self.data().item_at(old(mem).mem(), other)
                    &&& kept_outside(
                        old(mem).mem(),
                        final(mem).mem(),
                        self.data().item_addr(index as int),
                        self.data().item_addr(index as int) + T::spec_size(),
                    )
                    &&& BlockList::wrote(
                        old(mem).mem().storage().blocks(),
                        final(mem).mem().storage().blocks(),
                        self.data().item_addr(index as int),
                        item.spec_bytes(),
                    )
                    &&& self.wf(old(mem).mem()) ==> self.wf(final(mem).mem()) && self.items(
                        final(mem).mem(),
                    ) == self.items(old(mem).mem()).update(index as int, item)
                },
                Err(e) => {
                    &&& index >= self.len()
                    &&& e.kind() == ErrorKind::BoundsError
                    &&& e.pos() is None
                    &&& BlockList::same(
                        old(mem).mem().storage().blocks(),
                        final(mem).mem().storage().blocks(),
                    )
                    &&& self.wf(old(mem).mem()) ==> self.wf(final(mem).mem()) && self.items(
                        final(mem).mem(),
                    ) == self.items(old(mem).mem())
                },
            },
    {
        proof {
            BlockList::lemma_same_shape(
                mem.mem().storage().blocks(),
                mem.mem().storage().blocks(),
            );
            if index < self.len() {
                self.data().lemma_item_range(mem.mem(), index as int);
            }
        }
        match self.get_offset(index) {
            Ok(_) => {},
            Err(e) => {
                proof {
                    assert(self.items(mem.mem()) =~= self.items(old(mem).mem()));
                }
                return Err(e);
            },
        }
        let stored: bool = self.data.set(mem, index, &item);
        proof {
            if self.wf(old(mem).mem()) {
                assert forall|i: int| 0 <= i < self.len() implies (
                #[trigger] self.data().item_at(mem.mem(), i)) is Some by {
                    if i != index {
                        assert(self.data().item_at(old(mem).mem(), i) is Some);
                    }
                }
                assert(self.items(mem.mem()) =~= self.items(old(mem).mem()).update(
                    index as int,
                    item,
                ));
            }
        }
        Ok(())
    }

    /// The item `index`. Fails with a bounds error if the array has no
    /// such item.
    pub fn get(&self, guard: &MutatorView, index: ArraySize) -> (r: Result<T, RuntimeError>)
        requires
            guard.wf(),
            self.wf(guard.mem()),
        ensures
            match r {
                Ok(item) => index < self.len() && item == self.items(guard.mem())[index as int],
                Err(e) => {
                    &&& index >= self.len()
                    &&& e.kind() == ErrorKind::BoundsError
                    &&& e.pos() is None
                },
            },
    {
        self.read(guard, index)
    }

    /// Stores `item` as the item `index`. Fails with a bounds error, and
    /// stores nothing, if the array has no such item.
    pub fn set(&self, mem: &mut MutatorView, index: ArraySize, item: T) -> (r: Result<
        (),
        RuntimeError,
    >)
        requires
            old(mem).wf(),
            self.bounded(old(mem).mem()),
        ensures
            final(mem).wf(),
            *final(final(mem).heap) == *final(old(mem).heap),
            final(mem).mem().symbols() == old(mem).mem().symbols(),
            self.bounded(final(mem).mem()),
            BlockList::same_shape(
                old(mem).mem().storage().blocks(),
                final(mem).mem().storage().blocks(),
            ),
            match r {
                Ok(()) => {
                    &&& index < self.len()
                    &&& self.data().item_at(final(mem).mem(), index as int) == Some(item)
                    &&& forall|other: int|
                        0 <= other < self.data().cap() && other != index ==> #[trigger] self.data().item_at(
                            final(mem).mem(),
                            other,
                        ) == self.data().item_at(old(mem).mem(), other)
                    &&& kept_outside(
                        old(mem).mem(),
                        final(mem).mem(),
                        self.data().item_addr(index as int),
                        self.data().item_addr(index as int) + T::spec_size(),
                    )
                    &&& BlockList::wrote(
                        old(mem).mem().storage().blocks(),
                        final(mem).mem().storage().blocks(),
                        self.data().item_addr(index as int),
                        item.spec_bytes(),
                    )
                    &&& self.wf(old(mem).mem()) ==> self.wf(final(mem).mem()) && self.items(
                        final(mem).mem(),
                    ) == self.items(old(mem).mem()).update(index as int, item)
                },
                Err(e) => {
                    &&& index >= self.len()
                    &&& e.kind() == ErrorKind::BoundsError
                    &&& e.pos() is None
                    &&& BlockList::same(
                        old(mem).mem().storage().blocks(),
                        final(mem).mem().storage().blocks(),
                    )
                    &&& self.wf(old(mem).mem()) ==> self.wf(final(mem).mem()) && self.items(
                        final(mem).mem(),
                    ) == self.items(old(mem).mem())
                },
            },
    {
        self.write(mem, index, item)
    }

    /// The last item, which is taken off the array. Fails with a
    /// mutable borrow error if the items are exposed to mutation, and with a
    /// bounds error if there is no item; a failure takes nothing off.
    pub fn pop(&mut self, guard: &MutatorView) -> (r: Result<T, RuntimeError>)
        requires
            guard.wf(),
            old(self).wf(guard.mem()),
        ensures
            final(self).wf(guard.mem()),
            final(self).data() == old(self).data(),
            final(self).borrow_flag() == old(self).borrow_flag(),
            match r {
                Ok(item) => {
                    &&& old(self).borrow_flag() == INTERIOR_ONLY
                    &&& old(self).len() > 0
                    &&& item == old(self).items(guard.mem()).last()
                    &&& final(self).items(guard.mem()) == old(self).items(guard.mem()).drop_last()
                },
                Err(e) => {
                    &&& final(self).len() == old(self).len()
                    &&& e.pos() is None
                    &&& if old(self).borrow_flag() != INTERIOR_ONLY {
                        e.kind() == ErrorKind::MutableBorrowError
                    } else {
                        old(self).len() == 0 && e.kind() == ErrorKind::BoundsError
                    }
                },
            },
    {
        if self.borrow != INTERIOR_ONLY {
            return Err(RuntimeError::new(ErrorKind::MutableBorrowError));
        }
        let length: ArraySize = self.length;
        if length == 0 {
            Err(RuntimeError::new(ErrorKind::BoundsError))
        } else {
            let last: ArraySize = length - 1;
            let item: T = match self.read(guard, last) {
                Ok(item) => item,
                Err(e) => { return Err(e); },
            };
            self.length = last;
            proof {
                assert(self.items(guard.mem()) =~= old(self).items(guard.mem()).drop_last());
            }
            Ok(item)
        }
    }

    /// The last item, which stays on the array. Fails with a bounds
    /// error if there is no item.
    pub fn top(&self, guard: &MutatorView) -> (r: Result<T, RuntimeError>)
        requires
            guard.wf(),
            self.wf(guard.mem()),
        ensures
            match r {
                Ok(item) => self.len() > 0 && item == self.items(guard.mem()).last(),
                Err(e) => {
                    &&& self.len() == 0
                    &&& e.kind() == ErrorKind::BoundsError
                    &&& e.pos() is None
                },
            },
    {
        let length: ArraySize = self.length;
        if length == 0 {
            Err(RuntimeError::new(ErrorKind::BoundsError))
        } else {
            let last: ArraySize = length - 1;
            let item: T = match self.read(guard, last) {
                Ok(item) => item,
                Err(e) => { return Err(e); },
            };
            Ok(item)
        }
    }

    /// What a push of `item` does to an array and to the heap, and returns.
    ///
    /// An array whose items are exposed to mutation is not pushed to. An
    /// array with room left takes the item where it is. A full array
    /// grows first: a run of items of the grown capacity is allocated,
    /// with the items of the old run and the new item in it and zeros
    /// behind them; the push fails if the grown capacity or its bytes
    /// cannot be counted in an `ArraySize`, or if the allocation fails.
    pub open spec fn push_spec(
        self,
        old_heap: Heap,
        after: Array<T>,
        new_heap: Heap,
        item: T,
        r: Result<(), RuntimeError>,
    ) -> bool {
        let old_blocks = old_heap.storage().blocks();
        let new_blocks = new_heap.storage().blocks();
        let cap = self.data().cap();
        let grown = grown_capacity(cap);
        let grown_len = RawArray::<T>::byte_len(grown);
        if self.borrow_flag() != INTERIOR_ONLY {
            r matches Err(e) && e.kind() == ErrorKind::MutableBorrowError && e.pos() is None
        } else if self.len() < cap {
            &&& r is Ok
            &&& after.data() == self.data()
            &&& BlockList::wrote(
                old_blocks,
                new_blocks,
                self.data().item_addr(self.len() as int),
                item.spec_bytes(),
            )
        } else if grown > u32::MAX || grown_len > u32::MAX {
            r matches Err(e) && e.kind() == ErrorKind::BadAllocationRequest && e.pos() is None
        } else {
            match r {
                Ok(()) => {
                    &&& after.data().cap() == grown
                    &&& after.data().base() is Some
                    &&& alloc_spec(
                        old_blocks,
                        new_blocks,
                        crate::heap::array_header_for(grown_len as u32).spec_bytes(),
                        crate::sticky_immix_heap::spliced(
                            self.data().resized_bytes(old_heap, grown as u32),
                            RawArray::<T>::byte_len(self.len() as int),
                            item.spec_bytes(),
                        ),
                        Ok(after.data().base()->0),
                    )
                },
                Err(e) => {
                    &&& is_alloc_error(e)
                    &&& alloc_spec(
                        old_blocks,
                        new_blocks,
                        crate::heap::array_header_for(grown_len as u32).spec_bytes(),
                        Seq::new(grown_len as nat, |i: int| 0u8),
                        as_alloc_result::<RawPtr>(Err(e)),
                    )
                },
            }
        }
    }

    /// Makes room for more items if the array has room for fewer than
    /// `wanted`: the capacity grows once, by the rule of `grown_capacity`.
    fn grow_for(&mut self, mem: &mut MutatorView, wanted: ArraySize) -> (r: Result<
        (),
        RuntimeError,
    >)
        requires
            old(mem).wf(),
            old(self).wf(old(mem).mem()),
        ensures
            final(mem).wf(),
            *final(final(mem).heap) == *final(old(mem).heap),
            final(mem).mem().symbols() == old(mem).mem().symbols(),
            final(self).wf(final(mem).mem()),
            final(self).len() == old(self).len(),
            final(self).borrow_flag() == old(self).borrow_flag(),
            final(self).items(final(mem).mem()) == old(self).items(old(mem).mem()),
            kept_outside(old(mem).mem(), final(mem).mem(), 0, 0),
            ({
                let old_blocks = old(mem).mem().storage().blocks();
                let new_blocks = final(mem).mem().storage().blocks();
                let cap = old(self).data().cap();
                let grown = grown_capacity(cap);
                let grown_len = RawArray::<T>::byte_len(grown);
                if wanted <= cap {
                    &&& r is Ok
                    &&& final(self).data() == old(self).data()
                    &&& BlockList::same(old_blocks, new_blocks)
                } else if grown > u32::MAX || grown_len > u32::MAX {
                    &&& r matches Err(e) && e.kind() == ErrorKind::BadAllocationRequest && e.pos() is None
                    &&& final(self).data() == old(self).data()
                    &&& BlockList::same(old_blocks, new_blocks)
                } else {
                    match r {
                        Ok(()) => {
                            &&& final(self).data().cap() == grown
                            &&& final(self).data().base() is Some
                            &&& alloc_spec(
                                old_blocks,
                                new_blocks,
                                crate::heap::array_header_for(grown_len as u32).spec_bytes(),
                                old(self).data().resized_bytes(old(mem).mem(), grown as u32),
                                Ok(final(self).data().base()->0),
                            )
                        },
                        Err(e) => {
                            &&& is_alloc_error(e)
                            &&& final(self).data() == old(self).data()
                            &&& BlockList::same(old_blocks, new_blocks)
                            &&& alloc_spec(
                                old_blocks,
                                new_blocks,
                                crate::heap::array_header_for(grown_len as u32).spec_bytes(),
                                Seq::new(grown_len as nat, |i: int| 0u8),
                                as_alloc_result::<RawPtr>(Err(e)),
                            )
                        },
                    }
                }
            }),
    {
        let ghost old_heap = mem.mem();
        let mut array: RawArray<T> = self.data;  // takes a copy
        let capacity: ArraySize = array.capacity();
        proof {
            BlockList::lemma_same_shape(old_heap.storage().blocks(), old_heap.storage().blocks());
            BlockList::lemma_same_bytes(old_heap.storage().blocks(), old_heap.storage().blocks());
            RawArray::<T>::lemma_parts(self.data());
        }
        if wanted > capacity {
            let grown: ArraySize = if capacity == 0 {
                DEFAULT_ARRAY_SIZE
            } else {
                match default_array_growth(capacity) {
                    Ok(grown) => grown,
                    Err(e) => {
                        proof {
                            assert(self.items(mem.mem()) =~= old(self).items(old_heap));
                        }
                        return Err(e);
                    },
                }
            };
            match array.resize(mem, grown) {
                Ok(()) => {},
                Err(e) => {
                    proof {
                        self.lemma_kept(old_heap, mem.mem(), 0, 0);
                    }
                    return Err(e);
                },
            }
            // put the resized run in place of the old one
            self.data = array;
            proof {
                let new_heap = mem.mem();
                assert forall|i: int| 0 <= i < self.len() implies #[trigger] self.data().item_at(
                    new_heap,
                    i,
                ) == old(self).data().item_at(old_heap, i) by {
                    old(self).data().lemma_resized_items(old_heap, self.data(), new_heap, i);
                }
                assert(self.items(new_heap) =~= old(self).items(old_heap));
            }
        } else {
            proof {
                assert(self.items(mem.mem()) =~= old(self).items(old_heap));
            }
        }
        Ok(())
    }

    /// Puts `item` behind the last item, after growing the array if it
    /// is full. A failure changes nothing.
    pub fn push(&mut self, mem: &mut MutatorView, item: T) -> (r: Result<(), RuntimeError>)
        requires
            old(mem).wf(),
            old(self).wf(old(mem).mem()),
            old(self).len() < old(self).data().cap() || old(self).data().cap() != 1,
        ensures
            final(mem).wf(),
            *final(final(mem).heap) == *final(old(mem).heap),
            final(mem).mem().symbols() == old(mem).mem().symbols(),
            final(self).wf(final(mem).mem()),
            final(self).borrow_flag() == old(self).borrow_flag(),
            kept_outside(
                old(mem).mem(),
                final(mem).mem(),
                old(self).data().byte_range().0,
                old(self).data().byte_range().1,
            ),
            match r {
                Ok(()) => final(self).items(final(mem).mem()) == old(self).items(
                    old(mem).mem(),
                ).push(item),
                Err(_) => {
                    &&& final(self).len() == old(self).len()
                    &&& final(self).data() == old(self).data()
                    &&& final(self).items(final(mem).mem()) == old(self).items(old(mem).mem())
                    &&& BlockList::same(
                        old(mem).mem().storage().blocks(),
                        final(mem).mem().storage().blocks(),
                    )
                },
            },
            old(self).push_spec(old(mem).mem(), *final(self), final(mem).mem(), item, r),
    {
        let ghost old_heap = mem.mem();
        proof {
            BlockList::lemma_same_shape(old_heap.storage().blocks(), old_heap.storage().blocks());
            BlockList::lemma_same_bytes(old_heap.storage().blocks(), old_heap.storage().blocks());
        }
        if self.borrow != INTERIOR_ONLY {
            proof {
                assert(self.items(mem.mem()) =~= old(self).items(old_heap));
            }
            return Err(RuntimeError::new(ErrorKind::MutableBorrowError));
        }
        let length: ArraySize = self.length;
        let wanted: ArraySize = match length.checked_add(1) {
            Some(wanted) => wanted,
            None => {
                proof {
                    assert(self.items(mem.mem()) =~= old(self).items(old_heap));
                }
                return Err(RuntimeError::new(ErrorKind::BadAllocationRequest));
            },
        };
        match self.grow_for(mem, wanted) {
            Ok(()) => {},
            Err(e) => { return Err(e); },
        }
        let ghost mid_heap = mem.mem();
        let ghost mid_self = *self;
        self.length = length + 1;
        match self.write(mem, length, item) {
            Ok(()) => {},
            Err(e) => {
                return Err(e);
            },
        }
        proof {
            let new_heap = mem.mem();
            item.lemma_round_trip();
            assert forall|i: int| 0 <= i < self.len() implies (#[trigger] self.data().item_at(
                new_heap,
                i,
            )) is Some by {
                if i < length {
                    assert(mid_self.data().item_at(mid_heap, i) is Some);
                }
            }
            assert(self.items(new_heap) =~= old(self).items(old_heap).push(item)) by {
                assert forall|i: int| 0 <= i < length implies self.items(new_heap)[i] == old(self).items(old_heap)[i] by {
                    assert(self.data().item_at(new_heap, i) == mid_self.data().item_at(mid_heap, i));
                    assert(mid_self.items(mid_heap)[i] == old(self).items(old_heap)[i]);
                }
            }
            self.data().lemma_item_range(mid_heap, length as int);
            let slot = self.data().item_addr(length as int);
            if old(self).len() < old(self).data().cap() {
                BlockList::lemma_same_then_wrote(
                    old_heap.storage().blocks(),
                    mid_heap.storage().blocks(),
                    new_heap.storage().blocks(),
                    slot,
                    item.spec_bytes(),
                );
                lemma_kept_wider(
                    old_heap,
                    new_heap,
                    slot,
                    slot + T::spec_size(),
                    old(self).data().byte_range().0,
                    old(self).data().byte_range().1,
                );
            } else {
                let grown = grown_capacity(old(self).data().cap());
                let grown_len = RawArray::<T>::byte_len(grown);
                let header = crate::heap::array_header_for(grown_len as u32).spec_bytes();
                let payload = old(self).data().resized_bytes(old_heap, grown as u32);
                lemma_kept_fresh(
                    old_heap,
                    mid_heap,
                    new_heap,
                    header,
                    payload,
                    self.data().base()->0,
                    slot,
                    slot + T::spec_size(),
                );
                lemma_kept_wider(
                    old_heap,
                    new_heap,
                    0,
                    0,
                    old(self).data().byte_range().0,
                    old(self).data().byte_range().1,
                );
                crate::sticky_immix_heap::lemma_alloc_then_store_at(
                    old_heap.storage().blocks(),
                    mid_heap.storage().blocks(),
                    new_heap.storage().blocks(),
                    header,
                    payload,
                    self.data().base()->0,
                    RawArray::<T>::byte_len(length as int),
                    item.spec_bytes(),
                );
            }
        }
        Ok(())
    }

    /// Makes the array `size` items long by putting copies of `item`
    /// behind the last item; an array that is longer than `size` is left
    /// as it is. For want of room the array grows first, once. A failure
    /// changes nothing.
    pub fn fill(&mut self, mem: &mut MutatorView, size: ArraySize, item: T) -> (r: Result<
        (),
        RuntimeError,
    >)
        requires
            old(mem).wf(),
            old(self).wf(old(mem).mem()),
            size <= old(self).data().cap() || size <= grown_capacity(old(self).data().cap()),
        ensures
            final(mem).wf(),
            *final(final(mem).heap) == *final(old(mem).heap),
            final(mem).mem().symbols() == old(mem).mem().symbols(),
            final(self).wf(final(mem).mem()),
            final(self).borrow_flag() == old(self).borrow_flag(),
            kept_outside(
                old(mem).mem(),
                final(mem).mem(),
                old(self).data().byte_range().0,
                old(self).data().byte_range().1,
            ),
            match r {
                Ok(()) => final(self).items(final(mem).mem()) == if old(self).len() > size {
                    old(self).items(old(mem).mem())
                } else {
                    old(self).items(old(mem).mem()) + Seq::new(
                        (size - old(self).len()) as nat,
                        |i: int| item,
                    )
                },
                Err(_) => {
                    &&& final(self).len() == old(self).len()
                    &&& final(self).data() == old(self).data()
                    &&& final(self).items(final(mem).mem()) == old(self).items(old(mem).mem())
                    &&& BlockList::same(
                        old(mem).mem().storage().blocks(),
                        final(mem).mem().storage().blocks(),
                    )
                },
            },
            old(self).fill_spec(old(mem).mem(), *final(self), final(mem).mem(), size, r),
    {
        let ghost old_heap = mem.mem();
        proof {
            BlockList::lemma_same_shape(old_heap.storage().blocks(), old_heap.storage().blocks());
            BlockList::lemma_same_bytes(old_heap.storage().blocks(), old_heap.storage().blocks());
        }
        let length: ArraySize = self.length();
        if length > size {
            proof {
                RawArray::<T>::lemma_parts(self.data());
            }
            return Ok(());
        }
        match self.grow_for(mem, size) {
            Ok(()) => {},
            Err(e) => { return Err(e); },
        }
        let ghost mid_heap = mem.mem();
        let ghost mid_self = *self;
        self.length = size;
        let ghost range = self.data().byte_range();
        proof {
            item.lemma_round_trip();
            BlockList::lemma_same_shape(mid_heap.storage().blocks(), mid_heap.storage().blocks());
            BlockList::lemma_same_bytes(mid_heap.storage().blocks(), mid_heap.storage().blocks());
            BlockList::lemma_same_changed(
                mid_heap.storage().blocks(),
                mid_heap.storage().blocks(),
                range.0,
                range.1,
            );
        }
        let mut index: ArraySize = length;
        while index < size
            invariant
                mem.wf(),
                *final(mem.heap) == *final(old(mem).heap),
                mem.mem().symbols() == old(mem).mem().symbols(),
                mid_heap.wf(),
                self.bounded(mem.mem()),
                self.len() == size,
                self.data() == mid_self.data(),
                self.borrow_flag() == old(self).borrow_flag(),
                range == self.data().byte_range(),
                length <= index <= size,
                length == mid_self.len(),
                mid_self.wf(mid_heap),
                forall|i: int|
                    0 <= i < length ==> #[trigger] self.data().item_at(mem.mem(), i)
                        == mid_self.data().item_at(mid_heap, i),
                forall|i: int|
                    length <= i < index ==> #[trigger] self.data().item_at(mem.mem(), i) == Some(
                        item,
                    ),
                kept_outside(mid_heap, mem.mem(), range.0, range.1),
                BlockList::changed_within(
                    mid_heap.storage().blocks(),
                    mem.mem().storage().blocks(),
                    range.0,
                    range.1,
                ),
            decreases size - index,
        {
            let ghost before = mem.mem();
            match self.write(mem, index, item) {
                Ok(()) => {},
                Err(e) => { unreached::<()>() },
            }
            proof {
                let after = mem.mem();
                item.lemma_round_trip();
                self.data().lemma_item_range(before, index as int);
                let slot = self.data().item_addr(index as int);
                lemma_kept_wider(before, after, slot, slot + T::spec_size(), range.0, range.1);
                lemma_kept_twice(mid_heap, before, after, range.0, range.1);
                BlockList::lemma_wrote_changed(
                    before.storage().blocks(),
                    after.storage().blocks(),
                    slot,
                    item.spec_bytes(),
                    range.0,
                    range.1,
                );
                BlockList::lemma_changed_twice(
                    mid_heap.storage().blocks(),
                    before.storage().blocks(),
                    after.storage().blocks(),
                    range.0,
                    range.1,
                );
            }
            index = index + 1;
        }
        proof {
            let new_heap = mem.mem();
            assert forall|i: int| 0 <= i < self.len() implies (#[trigger] self.data().item_at(
                new_heap,
                i,
            )) is Some by {
                if i < length {
                    assert(mid_self.data().item_at(mid_heap, i) is Some);
                }
            }
            assert(self.items(new_heap) =~= old(self).items(old_heap) + Seq::new(
                (size - old(self).len()) as nat,
                |i: int| item,
            )) by {
                assert forall|i: int| 0 <= i < length implies self.items(new_heap)[i] == old(self).items(old_heap)[i] by {
                    assert(self.data().item_at(new_heap, i) == mid_self.data().item_at(mid_heap, i));
                    assert(mid_self.items(mid_heap)[i] == old(self).items(old_heap)[i]);
                }
            }
            if size <= old(self).data().cap() {
                lemma_kept_wider(old_heap, mid_heap, 0, 0, range.0, range.1);
                lemma_kept_twice(old_heap, mid_heap, new_heap, range.0, range.1);
                BlockList::lemma_same_changed(
                    old_heap.storage().blocks(),
                    mid_heap.storage().blocks(),
                    range.0,
                    range.1,
                );
                BlockList::lemma_changed_twice(
                    old_heap.storage().blocks(),
                    mid_heap.storage().blocks(),
                    new_heap.storage().blocks(),
                    range.0,
                    range.1,
                );
            } else {
                let grown = grown_capacity(old(self).data().cap());
                let grown_len = RawArray::<T>::byte_len(grown);
                let header = crate::heap::array_header_for(grown_len as u32).spec_bytes();
                let payload = old(self).data().resized_bytes(old_heap, grown as u32);
                lemma_kept_fresh(
                    old_heap,
                    mid_heap,
                    new_heap,
                    header,
                    payload,
                    self.data().base()->0,
                    range.0,
                    range.1,
                );
                lemma_kept_wider(
                    old_heap,
                    new_heap,
                    0,
                    0,
                    old(self).data().byte_range().0,
                    old(self).data().byte_range().1,
                );
                crate::sticky_immix_heap::lemma_alloc_then_change(
                    old_heap.storage().blocks(),
                    mid_heap.storage().blocks(),
                    new_heap.storage().blocks(),
                    header,
                    payload,
                    self.data().base()->0,
                );
            }
        }
        Ok(())
    }

    /// What filling an array up to `size` items does to the array and to
    /// the heap, and returns.
    ///
    /// An array that is longer than `size` is left as it is, and so is
    /// the heap. An array with room for `size` items is filled where it
    /// is: nothing but bytes of its items changes. Any other grows
    /// first: a run of items of the grown capacity is allocated and holds
    /// the items in the end; filling fails if the grown capacity or
    /// its bytes cannot be counted in an `ArraySize`, or if the
    /// allocation fails.
    pub open spec fn fill_spec(
        self,
        old_heap: Heap,
        after: Array<T>,
        new_heap: Heap,
        size: ArraySize,
        r: Result<(), RuntimeError>,
    ) -> bool {
        let old_blocks = old_heap.storage().blocks();
        let new_blocks = new_heap.storage().blocks();
        let cap = self.data().cap();
        let grown = grown_capacity(cap);
        let grown_len = RawArray::<T>::byte_len(grown);
        if self.len() > size {
            &&& r is Ok
            &&& after == self
            &&& BlockList::same(old_blocks, new_blocks)
        } else if size <= cap {
            &&& r is Ok
            &&& after.len() == size
            &&& after.data() == self.data()
            &&& BlockList::changed_within(
                old_blocks,
                new_blocks,
                self.data().byte_range().0,
                self.data().byte_range().1,
            )
        } else if grown > u32::MAX || grown_len > u32::MAX {
            r matches Err(e) && e.kind() == ErrorKind::BadAllocationRequest && e.pos() is None
        } else {
            match r {
                Ok(()) => {
                    &&& after.len() == size
                    &&& after.data().cap() == grown
                    &&& after.data().base() is Some
                    &&& alloc_spec(
                        old_blocks,
                        new_blocks,
                        crate::heap::array_header_for(grown_len as u32).spec_bytes(),
                        new_blocks.bytes(after.data().base()->0.addr(), grown_len),
                        Ok(after.data().base()->0),
                    )
                },
                Err(e) => {
                    &&& is_alloc_error(e)
                    &&& alloc_spec(
                        old_blocks,
                        new_blocks,
                        crate::heap::array_header_for(grown_len as u32).spec_bytes(),
                        Seq::new(grown_len as nat, |i: int| 0u8),
                        as_alloc_result::<RawPtr>(Err(e)),
                    )
                },
            }
        }
    }
}

/// The number of bytes that an `Array` takes up.
pub const ARRAY_SIZE: ArraySize = 32;

impl<T: HeapData + Copy> HeapData for Array<T> {
    open spec fn spec_size() -> ArraySize {
        ARRAY_SIZE
    }

    open spec fn spec_bytes(&self) -> Seq<u8> {
        u32_le(self.len()) + u32_le(self.data().cap()) + ptr_bytes(self.data().base()) + i64_le(
            self.borrow_flag() as i64,
        )
    }

    open spec fn spec_from_bytes(bytes: Seq<u8>) -> Option<Array<T>> {
        if bytes.len() == ARRAY_SIZE && isize::MIN <= i64_at(bytes, 24) <= isize::MAX {
            match ptr_at(bytes, 8) {
                Some(ptr) => Some(
                    Array::with(
                        u32_at(bytes, 0),
                        RawArray::with(u32_at(bytes, 4), ptr),
                        i64_at(bytes, 24) as isize,
                    ),
                ),
                None => None,
            }
        } else {
            None
        }
    }

    fn object_size() -> (size: ArraySize) {
        ARRAY_SIZE
    }

    fn to_bytes(&self) -> (bytes: Vec<u8>) {
        let mut bytes: Vec<u8> = Vec::new();
        put_u32(&mut bytes, self.length);
        put_u32(&mut bytes, self.data.capacity());
        put_ptr(&mut bytes, self.data.as_ptr());
        put_i64(&mut bytes, self.borrow as i64);
        bytes
    }

    fn from_bytes(bytes: &Vec<u8>) -> (object: Option<Array<T>>) {
        if bytes.len() != ARRAY_SIZE as usize {
            return None;
        }
        let borrow: i64 = get_i64(bytes, 24);
        if borrow < isize::MIN as i64 || borrow > isize::MAX as i64 {
            return None;
        }
        let ptr: Option<RawPtr> = match get_ptr(bytes, 8) {
            Some(ptr) => ptr,
            None => { return None; },
        };
        Some(
            Array {
                length: get_u32(bytes, 0),
                data: RawArray::from_parts(get_u32(bytes, 4), ptr),
                borrow: borrow as isize,
            },
        )
    }

    proof fn lemma_size() {
    }

    proof fn lemma_round_trip(&self) {
        let bytes = self.spec_bytes();
        assert(bytes.subrange(0, 4) =~= u32_le(self.len()));
        assert(bytes.subrange(4, 8) =~= u32_le(self.data().cap()));
        assert(bytes.subrange(8, 24) =~= ptr_bytes(self.data().base()));
        assert(bytes.subrange(24, 32) =~= i64_le(self.borrow_flag() as i64));
        lemma_u32_round_trip(self.len(), bytes, 0);
        lemma_u32_round_trip(self.data().cap(), bytes, 4);
        lemma_ptr_round_trip(self.data().base(), bytes, 8);
        lemma_i64_round_trip(self.borrow_flag() as i64, bytes, 24);
        RawArray::<T>::lemma_parts(self.data());
        Self::lemma_parts(*self);
    }
}

impl<T: ArrayItem> AllocObject<TypeList> for Array<T> {
    open spec fn spec_type_id() -> TypeList {
        T::spec_array_type()
    }

    fn type_id() -> (id: TypeList) {
        T::array_type()
    }
}

impl<T: ArrayItem> Array<T> {
    /// Allocates an array with no items and no capacity in the heap.
    pub fn allocate<'guard>(mem: &mut MutatorView<'guard>) -> (r: Result<
        ScopedPtr<'guard>,
        RuntimeError,
    >)
        requires
            old(mem).wf(),
        ensures
            final(mem).wf(),
            *final(final(mem).heap) == *final(old(mem).heap),
            final(mem).mem().symbols() == old(mem).mem().symbols(),
            r matches Err(e) ==> is_alloc_error(e),
            alloc_spec(
                old(mem).mem().storage().blocks(),
                final(mem).mem().storage().blocks(),
                header_for::<Array<T>>().spec_bytes(),
                Array::<T>::with(0, RawArray::with(0, None), INTERIOR_ONLY).spec_bytes(),
                match r {
                    Ok(scoped) => Ok(scoped.raw()),
                    Err(e) => as_alloc_result::<RawPtr>(Err(e)),
                },
            ),
    {
        let array: Array<T> = Array::new();
        proof {
            RawArray::<T>::lemma_parts(array.data());
            Self::lemma_parts(array);
        }
        mem.allocate(array)
    }
}

} // verus!
