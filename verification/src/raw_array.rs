//! The backing store of the containers: a run of items in the heap.

use vstd::prelude::*;
use core::marker::PhantomData;
use crate::allocation::{AllocHeader, ArraySize, HeapData, RawPtr};
use crate::block_list::BlockList;
use crate::errors::{ErrorKind, RuntimeError};
use crate::heap::{
    array_header_for, as_alloc_result, is_alloc_error, kept_outside, lemma_alloc_kept,
    lemma_kept_range, lemma_wrote_kept, Heap,
};
use crate::mutator_view::MutatorView;
use crate::sticky_immix_heap::{alloc_spec, lemma_alloc_then_store};

verus! {

/// A run of `capacity` items of type `T` in the heap, or nothing yet.
pub struct RawArray<T: HeapData> {
    /// The number of items that fit the array.
    capacity: ArraySize,
    ptr: Option<RawPtr>,
    marker: PhantomData<T>,
}

impl<T: HeapData> Clone for RawArray<T> {
    fn clone(&self) -> (copy: Self)
        ensures
            copy == *self,
    {
        RawArray { capacity: self.capacity, ptr: self.ptr, marker: PhantomData }
    }
}

impl<T: HeapData> Copy for RawArray<T> {

}

/// Whether two ranges of addresses, each from its first address up to,
/// not including, its second, have no address in common.
pub open spec fn apart(a: (int, int), b: (int, int)) -> bool {
    a.1 <= a.0 || b.1 <= b.0 || a.1 <= b.0 || b.1 <= a.0
}

/// The payload of a new object has no address in common with a range
/// that had been handed out before the object was allocated.
pub proof fn lemma_fresh_apart(
    old: Heap,
    new: Heap,
    header: Seq<u8>,
    payload: Seq<u8>,
    ptr: RawPtr,
    addr: int,
    len: int,
)
    requires
        old.wf(),
        new.wf(),
        alloc_spec(old.storage().blocks(), new.storage().blocks(), header, payload, Ok(ptr)),
        old.storage().blocks().used_range(addr, len),
    ensures
        apart((ptr.addr(), ptr.addr() + payload.len()), (addr, addr + len)),
{
    let lo = ptr.addr();
    let hi = ptr.addr() + payload.len();
    if !(hi <= lo || addr + len <= addr || hi <= addr || addr + len <= lo) {
        let common = if addr <= lo {
            lo
        } else {
            addr
        };
        old.storage().blocks().lemma_range(addr, len, common - addr);
        assert(old.storage().blocks().used(common));
        crate::constants::lemma_align_down_bounds(
            header.len() + payload.len() + crate::constants::WORD_SIZE - 1,
            0,
        );
    }
}

impl<T: HeapData> RawArray<T> {
    /// The number of items that fit the array.
    pub closed spec fn cap(self) -> ArraySize {
        self.capacity
    }

    /// The address of the first item, if the array has been allocated.
    pub closed spec fn base(self) -> Option<RawPtr> {
        self.ptr
    }

    /// The number of bytes that `count` items take up.
    pub open spec fn byte_len(count: int) -> int {
        count * T::spec_size()
    }

    /// The address of the item `index`.
    pub open spec fn item_addr(self, index: int) -> int {
        self.base()->0.addr() + Self::byte_len(index)
    }

    /// An array without a pointer has no capacity; the items of
    /// one with a pointer have been handed out in the storage of `heap`,
    /// and their bytes can be counted in an `ArraySize`.
    pub open spec fn wf(self, heap: Heap) -> bool {
        match self.base() {
            Some(ptr) => {
                &&& Self::byte_len(self.cap() as int) <= u32::MAX
                &&& self.cap() > 0 ==> heap.storage().blocks().used_range(
                    ptr.addr(),
                    Self::byte_len(self.cap() as int),
                )
            },
            None => self.cap() == 0,
        }
    }

    /// The item `index`, if the bytes there stand for one.
    pub open spec fn item_at(self, heap: Heap, index: int) -> Option<T> {
        T::spec_from_bytes(
            heap.storage().blocks().bytes(self.item_addr(index), T::spec_size() as int),
        )
    }

    /// The bytes of the item `index` lie within the bytes of the array.
    pub proof fn lemma_item_range(self, heap: Heap, index: int)
        requires
            heap.wf(),
            self.wf(heap),
            0 <= index < self.cap(),
        ensures
            self.base() is Some,
            0 <= Self::byte_len(index),
            Self::byte_len(index) + T::spec_size() <= Self::byte_len(self.cap() as int),
            heap.storage().blocks().used_range(self.item_addr(index), T::spec_size() as int),
            self.item_addr(index) + T::spec_size() <= usize::MAX,
    {
        T::lemma_size();
        let size = T::spec_size() as int;
        let cap = self.cap() as int;
        assert(0 <= index * size && index * size + size <= cap * size) by (nonlinear_arith)
            requires
                0 <= index < cap,
                size > 0,
        ;
        let blocks = heap.storage().blocks();
        let addr = self.base()->0.addr();
        if index > 0 {
            blocks.lemma_range(addr, cap * size, index * size);
        }
        blocks.lemma_mapped(self.item_addr(index));
        blocks.blocks()[blocks.block_of(self.item_addr(index))].lemma_wf();
    }

    /// The array with this capacity and this pointer.
    pub closed spec fn with(capacity: ArraySize, ptr: Option<RawPtr>) -> RawArray<T> {
        RawArray { capacity, ptr, marker: PhantomData }
    }

    /// An array is its capacity and its pointer, and nothing else.
    pub broadcast proof fn lemma_with(capacity: ArraySize, ptr: Option<RawPtr>)
        ensures
            (#[trigger] Self::with(capacity, ptr)).cap() == capacity,
            Self::with(capacity, ptr).base() == ptr,
    {
    }

    /// An array is its capacity and its pointer, and nothing else.
    pub broadcast proof fn lemma_parts(self)
        ensures
            #[trigger] Self::with(self.cap(), self.base()) == self,
    {
    }

    /// The addresses from the first byte of the array up to, not
    /// including, the byte behind its last; an empty range if the array
    /// has not been allocated.
    pub open spec fn byte_range(self) -> (int, int) {
        match self.base() {
            Some(ptr) => (ptr.addr(), ptr.addr() + Self::byte_len(self.cap() as int)),
            None => (0, 0),
        }
    }

    /// The array with this capacity and this pointer.
    pub fn from_parts(capacity: ArraySize, ptr: Option<RawPtr>) -> (array: RawArray<T>)
        ensures
            array == Self::with(capacity, ptr),
            array.cap() == capacity,
            array.base() == ptr,
    {
        RawArray { capacity, ptr, marker: PhantomData }
    }

    /// An array with no capacity and no pointer.
    pub fn new() -> (array: RawArray<T>)
        ensures
            array.cap() == 0,
            array.base() is None,
    {
        RawArray { capacity: 0, ptr: None, marker: PhantomData }
    }

    /// Allocates an array of `capacity` items, all of whose bytes are zero.
    ///
    /// Fails with a bad allocation request, and allocates nothing, if
    /// the bytes of the items cannot be counted in an `ArraySize`;
    /// else fails as the allocation of the bytes does.
    pub fn with_capacity(mem: &mut MutatorView, capacity: ArraySize) -> (r: Result<
        RawArray<T>,
        RuntimeError,
    >)
        requires
            old(mem).wf(),
        ensures
            final(mem).wf(),
            *final(final(mem).heap) == *final(old(mem).heap),
            final(mem).mem().symbols() == old(mem).mem().symbols(),
            r matches Err(e) ==> is_alloc_error(e),
            r matches Ok(array) ==> array.cap() == capacity && array.base() is Some && array.wf(
                final(mem).mem(),
            ),
            r is Err ==> BlockList::same(
                old(mem).mem().storage().blocks(),
                final(mem).mem().storage().blocks(),
            ),
            kept_outside(old(mem).mem(), final(mem).mem(), 0, 0),
            if Self::byte_len(capacity as int) > u32::MAX {
                &&& r matches Err(e) && e.kind() == ErrorKind::BadAllocationRequest
                &&& BlockList::same(
                    old(mem).mem().storage().blocks(),
                    final(mem).mem().storage().blocks(),
                )
            } else {
                alloc_spec(
                    old(mem).mem().storage().blocks(),
                    final(mem).mem().storage().blocks(),
                    array_header_for(Self::byte_len(capacity as int) as u32).spec_bytes(),
                    Seq::new(Self::byte_len(capacity as int) as nat, |i: int| 0u8),
                    match r {
                        Ok(array) => Ok(array.base()->0),
                        Err(e) => as_alloc_result::<RawPtr>(Err(e)),
                    },
                )
            },
    {
        proof {
            T::lemma_size();
            assert(Self::byte_len(capacity as int) >= 0) by (nonlinear_arith)
                requires
                    Self::byte_len(capacity as int) == capacity * T::spec_size(),
            ;
        }
        // convert to bytes, checking for possible overflow of ArraySize limit
        let capacity_bytes: ArraySize = match capacity.checked_mul(T::object_size()) {
            Some(capacity_bytes) => capacity_bytes,
            None => {
                proof {
                    BlockList::lemma_same_shape(
                        mem.mem().storage().blocks(),
                        mem.mem().storage().blocks(),
                    );
                    BlockList::lemma_same_bytes(
                        mem.mem().storage().blocks(),
                        mem.mem().storage().blocks(),
                    );
                }
                return Err(RuntimeError::new(ErrorKind::BadAllocationRequest));
            },
        };
        let ghost old_heap = mem.mem();
        let ptr: RawPtr = match mem.alloc_array(capacity_bytes) {
            Ok(ptr) => ptr,
            Err(e) => {
                proof {
                    lemma_alloc_kept(
                        old_heap,
                        mem.mem(),
                        array_header_for(capacity_bytes).spec_bytes(),
                        Seq::new(capacity_bytes as nat, |i: int| 0u8),
                        as_alloc_result::<RawPtr>(Err(e)),
                    );
                }
                return Err(e);
            },
        };
        proof {
            lemma_alloc_kept(
                old_heap,
                mem.mem(),
                array_header_for(capacity_bytes).spec_bytes(),
                Seq::new(capacity_bytes as nat, |i: int| 0u8),
                Ok(ptr),
            );
            mem.mem().storage().lemma_allocated(
                old(mem).mem().storage().blocks(),
                array_header_for(capacity_bytes),
                Seq::new(capacity_bytes as nat, |i: int| 0u8),
                ptr,
            );
            if capacity > 0 {
                assert(capacity * T::spec_size() > 0) by (nonlinear_arith)
                    requires
                        capacity > 0,
                        T::spec_size() > 0,
                ;
            }
        }
        Ok(RawArray { capacity, ptr: Some(ptr), marker: PhantomData })
    }

    /// The number of items that fit the array.
    pub fn capacity(&self) -> (capacity: ArraySize)
        ensures
            capacity == self.cap(),
    {
        self.capacity
    }

    /// The address of the first item, or `None` if the array has not
    /// been allocated.
    pub fn as_ptr(&self) -> (ptr: Option<RawPtr>)
        ensures
            ptr == self.base(),
    {
        match self.ptr {
            Some(ptr) => Some(ptr),
            None => None,
        }
    }

    /// Two items of an array do not share a byte.
    pub proof fn lemma_items_apart(index: int, other: int)
        requires
            0 <= index,
            0 <= other,
            index != other,
        ensures
            Self::byte_len(index) + T::spec_size() <= Self::byte_len(other) || Self::byte_len(
                other,
            ) + T::spec_size() <= Self::byte_len(index),
    {
        T::lemma_size();
        let size = T::spec_size() as int;
        assert(index * size + size <= other * size || other * size + size <= index * size)
            by (nonlinear_arith)
            requires
                0 <= index,
                0 <= other,
                index != other,
                size > 0,
        ;
    }

    /// The item `index`, or `None` if the array has no such item or
    /// the bytes there stand for no item.
    pub fn get(&self, guard: &MutatorView, index: ArraySize) -> (item: Option<T>)
        requires
            guard.wf(),
            self.wf(guard.mem()),
        ensures
            item == if index < self.cap() {
                self.item_at(guard.mem(), index as int)
            } else {
                None
            },
    {
        if index >= self.capacity {
            return None;
        }
        proof {
            self.lemma_item_range(guard.mem(), index as int);
        }
        match self.ptr {
            Some(ptr) => {
                let offset: usize = (index as usize) * (T::object_size() as usize);
                let at: RawPtr = RawPtr::new(ptr.as_word() + offset);
                match guard.heap.objects().read_bytes(at, T::object_size() as usize) {
                    Some(bytes) => T::from_bytes(&bytes),
                    None => None,
                }
            },
            None => None,
        }
    }

    /// Stores `item` as the item `index` and returns `true`, or returns
    /// `false` and changes nothing if the array has no such item.
    pub fn set(&self, mem: &mut MutatorView, index: ArraySize, item: &T) -> (stored: bool)
        requires
            old(mem).wf(),
            self.wf(old(mem).mem()),
        ensures
            final(mem).wf(),
            *final(final(mem).heap) == *final(old(mem).heap),
            final(mem).mem().symbols() == old(mem).mem().symbols(),
            self.wf(final(mem).mem()),
            BlockList::same_shape(
                old(mem).mem().storage().blocks(),
                final(mem).mem().storage().blocks(),
            ),
            stored == (index < self.cap()),
            stored ==> {
                &&& self.item_at(final(mem).mem(), index as int) == Some(*item)
                &&& forall|other: int|
                    0 <= other < self.cap() && other != index ==> #[trigger] self.item_at(
                        final(mem).mem(),
                        other,
                    ) == self.item_at(old(mem).mem(), other)
                &&& kept_outside(
                    old(mem).mem(),
                    final(mem).mem(),
                    self.item_addr(index as int),
                    self.item_addr(index as int) + T::spec_size(),
                )
                &&& BlockList::wrote(
                    old(mem).mem().storage().blocks(),
                    final(mem).mem().storage().blocks(),
                    self.item_addr(index as int),
                    item.spec_bytes(),
                )
            },
            !stored ==> BlockList::same(
                old(mem).mem().storage().blocks(),
                final(mem).mem().storage().blocks(),
            ),
    {
        if index >= self.capacity {
            proof {
                BlockList::lemma_same_shape(
                    mem.mem().storage().blocks(),
                    mem.mem().storage().blocks(),
                );
            }
            return false;
        }
        proof {
            self.lemma_item_range(mem.mem(), index as int);
        }
        let ptr: RawPtr = match self.ptr {
            Some(ptr) => ptr,
            None => vstd::pervasive::unreached(),
        };
        let offset: usize = (index as usize) * (T::object_size() as usize);
        let at: RawPtr = RawPtr::new(ptr.as_word() + offset);
        let stored: bool = mem.store(at, item);
        proof {
            let old_heap = old(mem).mem();
            let new_heap = mem.mem();
            item.lemma_round_trip();
            BlockList::lemma_same_shape(old_heap.storage().blocks(), new_heap.storage().blocks());
            lemma_wrote_kept(old_heap, new_heap, at.addr(), item.spec_bytes());
            assert forall|other: int|
                0 <= other < self.cap() && other != index implies #[trigger] self.item_at(
                new_heap,
                other,
            ) == self.item_at(old_heap, other) by {
                self.lemma_item_range(old_heap, other);
                Self::lemma_items_apart(index as int, other);
                T::lemma_size();
                lemma_kept_range(
                    old_heap,
                    new_heap,
                    at.addr(),
                    at.addr() + T::spec_size(),
                    self.item_addr(other),
                    T::spec_size() as int,
                );
            }
        }
        stored
    }

    /// The bytes that an array of `new_capacity` items holds right after
    /// this array has been resized to it: the bytes of this array, as far
    /// as they fit, and zeros behind them.
    pub open spec fn resized_bytes(self, heap: Heap, new_capacity: ArraySize) -> Seq<u8> {
        let new_len = Self::byte_len(new_capacity as int);
        match self.base() {
            Some(ptr) => {
                let old_len = Self::byte_len(self.cap() as int);
                let count = if old_len <= new_len {
                    old_len
                } else {
                    new_len
                };
                heap.storage().blocks().bytes(ptr.addr(), count) + Seq::new(
                    (new_len - count) as nat,
                    |i: int| 0u8,
                )
            },
            None => Seq::new(new_len as nat, |i: int| 0u8),
        }
    }

    /// An array that has been allocated with the bytes that a resized
    /// array holds has the items of the old array, as far as they fit.
    pub proof fn lemma_resized_items(
        self,
        old_heap: Heap,
        resized: RawArray<T>,
        new_heap: Heap,
        index: int,
    )
        requires
            old_heap.wf(),
            new_heap.wf(),
            self.wf(old_heap),
            resized.cap() > 0,
            resized.base() is Some,
            Self::byte_len(resized.cap() as int) <= u32::MAX,
            alloc_spec(
                old_heap.storage().blocks(),
                new_heap.storage().blocks(),
                array_header_for(Self::byte_len(resized.cap() as int) as u32).spec_bytes(),
                self.resized_bytes(old_heap, resized.cap()),
                Ok(resized.base()->0),
            ),
            0 <= index < self.cap(),
            index < resized.cap(),
        ensures
            resized.item_at(new_heap, index) == self.item_at(old_heap, index),
    {
        T::lemma_size();
        let size = T::spec_size() as int;
        let old_cap = self.cap() as int;
        let new_cap = resized.cap() as int;
        let old_len = Self::byte_len(old_cap);
        let new_len = Self::byte_len(new_cap);
        let count = if old_len <= new_len {
            old_len
        } else {
            new_len
        };
        assert(0 <= index * size && index * size + size <= old_cap * size && index * size + size
            <= new_cap * size) by (nonlinear_arith)
            requires
                0 <= index < old_cap,
                index < new_cap,
                size > 0,
        ;
        let payload = self.resized_bytes(old_heap, resized.cap());
        let old_blocks = old_heap.storage().blocks();
        let new_blocks = new_heap.storage().blocks();
        new_heap.storage().lemma_allocated(
            old_blocks,
            array_header_for(new_len as u32),
            payload,
            resized.base()->0,
        );
        new_blocks.lemma_bytes_part(resized.base()->0.addr(), new_len, index * size, size);
        old_blocks.lemma_bytes_part(self.base()->0.addr(), count, index * size, size);
        assert(payload.subrange(index * size, index * size + size) =~= old_blocks.bytes(
            self.base()->0.addr(),
            count,
        ).subrange(index * size, index * size + size));
    }

    /// Gives the array the capacity `new_capacity`.
    ///
    /// With a capacity of zero the array gives up its items. With any other,
    /// a new run of items is allocated, the items of the old run are
    /// copied to it as far as they fit, and the rest of it is zero. Fails
    /// with a bad allocation request if the bytes of the new run cannot
    /// be counted in an `ArraySize`, else as the allocation of the bytes
    /// does. A failure changes nothing.
    pub fn resize(&mut self, mem: &mut MutatorView, new_capacity: ArraySize) -> (r: Result<
        (),
        RuntimeError,
    >)
        requires
            old(mem).wf(),
            old(self).wf(old(mem).mem()),
        ensures
            final(mem).wf(),
            *final(final(mem).heap) == *final(old(mem).heap),
            final(mem).mem().symbols() == old(mem).mem().symbols(),
            final(self).wf(final(mem).mem()),
            kept_outside(old(mem).mem(), final(mem).mem(), 0, 0),
            match r {
                Ok(()) => {
                    &&& final(self).cap() == new_capacity
                    &&& if new_capacity == 0 {
                        &&& final(self).base() is None
                        &&& BlockList::same(
                            old(mem).mem().storage().blocks(),
                            final(mem).mem().storage().blocks(),
                        )
                    } else {
                        &&& final(self).base() is Some
                        &&& Self::byte_len(new_capacity as int) <= u32::MAX
                        &&& alloc_spec(
                            old(mem).mem().storage().blocks(),
                            final(mem).mem().storage().blocks(),
                            array_header_for(
                                Self::byte_len(new_capacity as int) as u32,
                            ).spec_bytes(),
                            old(self).resized_bytes(old(mem).mem(), new_capacity),
                            Ok(final(self).base()->0),
                        )
                    }
                },
                Err(e) => {
                    &&& new_capacity > 0
                    &&& is_alloc_error(e)
                    &&& final(self).cap() == old(self).cap()
                    &&& final(self).base() == old(self).base()
                    &&& BlockList::same(
                        old(mem).mem().storage().blocks(),
                        final(mem).mem().storage().blocks(),
                    )
                    &&& if Self::byte_len(new_capacity as int) > u32::MAX {
                        e.kind() == ErrorKind::BadAllocationRequest
                    } else {
                        alloc_spec(
                            old(mem).mem().storage().blocks(),
                            final(mem).mem().storage().blocks(),
                            array_header_for(
                                Self::byte_len(new_capacity as int) as u32,
                            ).spec_bytes(),
                            Seq::new(Self::byte_len(new_capacity as int) as nat, |i: int| 0u8),
                            as_alloc_result::<RawPtr>(Err(e)),
                        )
                    }
                },
            },
    {
        let ghost old_heap = mem.mem();
        proof {
            T::lemma_size();
            BlockList::lemma_same_shape(old_heap.storage().blocks(), old_heap.storage().blocks());
            BlockList::lemma_same_bytes(old_heap.storage().blocks(), old_heap.storage().blocks());
            assert(Self::byte_len(new_capacity as int) >= 0) by (nonlinear_arith)
                requires
                    Self::byte_len(new_capacity as int) == new_capacity * T::spec_size(),
            ;
            assert(Self::byte_len(self.cap() as int) >= 0) by (nonlinear_arith)
                requires
                    Self::byte_len(self.cap() as int) == self.cap() * T::spec_size(),
            ;
        }
        // with no capacity left, simply let go of the items
        if new_capacity == 0 {
            self.capacity = 0;
            self.ptr = None;
            return Ok(());
        }
        match self.ptr {
            // with items, allocate the new run and copy the old one over
            Some(old_ptr) => {
                let old_capacity_bytes: ArraySize = T::object_size() * self.capacity;
                let new_capacity_bytes: ArraySize = match new_capacity.checked_mul(
                    T::object_size(),
                ) {
                    Some(new_capacity_bytes) => new_capacity_bytes,
                    None => { return Err(RuntimeError::new(ErrorKind::BadAllocationRequest)); },
                };
                let new_ptr: RawPtr = match mem.alloc_array(new_capacity_bytes) {
                    Ok(new_ptr) => new_ptr,
                    Err(e) => {
                        proof {
                            lemma_alloc_kept(
                                old_heap,
                                mem.mem(),
                                array_header_for(new_capacity_bytes).spec_bytes(),
                                Seq::new(new_capacity_bytes as nat, |i: int| 0u8),
                                as_alloc_result::<RawPtr>(Err(e)),
                            );
                            BlockList::lemma_same_bytes(
                                old_heap.storage().blocks(),
                                mem.mem().storage().blocks(),
                            );
                            BlockList::lemma_same_shape(
                                old_heap.storage().blocks(),
                                mem.mem().storage().blocks(),
                            );
                        }
                        return Err(e);
                    },
                };
                let ghost mid_heap = mem.mem();
                let count: ArraySize = if old_capacity_bytes <= new_capacity_bytes {
                    old_capacity_bytes
                } else {
                    new_capacity_bytes
                };
                proof {
                    assert(new_capacity * T::spec_size() > 0) by (nonlinear_arith)
                        requires
                            new_capacity > 0,
                            T::spec_size() > 0,
                    ;
                    mid_heap.storage().lemma_allocated(
                        old_heap.storage().blocks(),
                        array_header_for(new_capacity_bytes),
                        Seq::new(new_capacity_bytes as nat, |i: int| 0u8),
                        new_ptr,
                    );
                    lemma_alloc_kept(
                        old_heap,
                        mid_heap,
                        array_header_for(new_capacity_bytes).spec_bytes(),
                        Seq::new(new_capacity_bytes as nat, |i: int| 0u8),
                        Ok(new_ptr),
                    );
                    let cap = old(self).cap() as int;
                    let size = T::spec_size() as int;
                    assert(size * cap == cap * size && (size * cap > 0 ==> cap > 0))
                        by (nonlinear_arith)
                        requires
                            cap >= 0,
                            size > 0,
                    ;
                    if count > 0 {
                        lemma_kept_range(
                            old_heap,
                            mid_heap,
                            0,
                            0,
                            old_ptr.addr(),
                            count as int,
                        );
                    }
                }
                if count > 0 {
                    let bytes: Vec<u8> = match mem.heap.objects().read_bytes(
                        old_ptr,
                        count as usize,
                    ) {
                        Some(bytes) => bytes,
                        None => vstd::pervasive::unreached(),
                    };
                    let stored: bool = mem.write_bytes(new_ptr, &bytes);
                    proof {
                        let new_heap = mem.mem();
                        lemma_alloc_then_store(
                            old_heap.storage().blocks(),
                            mid_heap.storage().blocks(),
                            new_heap.storage().blocks(),
                            array_header_for(new_capacity_bytes).spec_bytes(),
                            new_capacity_bytes as nat,
                            new_ptr,
                            bytes@,
                        );
                    }
                } else {
                    proof {
                        assert(old_heap.storage().blocks().bytes(old_ptr.addr(), 0) + Seq::new(
                            new_capacity_bytes as nat,
                            |i: int| 0u8,
                        ) =~= Seq::new(new_capacity_bytes as nat, |i: int| 0u8));
                    }
                }
                self.ptr = Some(new_ptr);
                self.capacity = new_capacity;
                proof {
                    let new_heap = mem.mem();
                    new_heap.storage().lemma_allocated(
                        old_heap.storage().blocks(),
                        array_header_for(new_capacity_bytes),
                        old(self).resized_bytes(old_heap, new_capacity),
                        new_ptr,
                    );
                    lemma_alloc_kept(
                        old_heap,
                        new_heap,
                        array_header_for(new_capacity_bytes).spec_bytes(),
                        old(self).resized_bytes(old_heap, new_capacity),
                        Ok(new_ptr),
                    );
                }
                Ok(())
            },
            // with no items, allocate a blank run
            None => {
                match Self::with_capacity(mem, new_capacity) {
                    Ok(array) => {
                        proof {
                            lemma_alloc_kept(
                                old_heap,
                                mem.mem(),
                                array_header_for(
                                    Self::byte_len(new_capacity as int) as u32,
                                ).spec_bytes(),
                                Seq::new(Self::byte_len(new_capacity as int) as nat, |i: int| 0u8),
                                Ok(array.base()->0),
                            );
                        }
                        *self = array;
                        Ok(())
                    },
                    Err(e) => {
                        proof {
                            if Self::byte_len(new_capacity as int) <= u32::MAX {
                                lemma_alloc_kept(
                                    old_heap,
                                    mem.mem(),
                                    array_header_for(
                                        Self::byte_len(new_capacity as int) as u32,
                                    ).spec_bytes(),
                                    Seq::new(
                                        Self::byte_len(new_capacity as int) as nat,
                                        |i: int| 0u8,
                                    ),
                                    as_alloc_result::<RawPtr>(Err(e)),
                                );
                            } else {
                                BlockList::lemma_same_bytes(
                                    old_heap.storage().blocks(),
                                    mem.mem().storage().blocks(),
                                );
                            }
                        }
                        Err(e)
                    },
                }
            },
        }
    }
}

} // verus!
