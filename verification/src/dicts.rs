//! The dictionary: a hash table with open addressing in the heap.

use vstd::prelude::*;
use vstd::pervasive::unreached;
use crate::allocation::{AllocHeader, AllocObject, ArraySize, HeapData, RawPtr};
use crate::array::{default_array_growth, grown_capacity};
use crate::block_list::BlockList;
use crate::codec::{
    get_ptr, get_u32, lemma_ptr_round_trip, lemma_u32_round_trip, ptr_at, ptr_bytes, put_ptr,
    put_u32, u32_at, u32_le,
};
use crate::containers::Container;
use crate::dict_item::{lemma_zeros_are_blank, DictItem, DICT_ITEM_SIZE, TOMBSTONE};
use crate::errors::{ErrorKind, RuntimeError};
use crate::hash_table::{
    chained, found_slot, grown_slots, lemma_blank_table, lemma_found_slot, lemma_insert_table,
    lemma_live_and_blank, lemma_model_all, lemma_model_found, lemma_probe, lemma_rehash_step,
    lemma_remove_table, lemma_table, live_upto, model, model_upto, over_load, probe, rehash_into,
    rehashed, search_ends, slot_after, table_wf,
};
use crate::hashing::{hash_key, key_hash, key_readable};
use crate::heap::{as_alloc_result, header_for, is_alloc_error, kept_outside, Heap};
use crate::mutator_view::MutatorView;
use crate::ptrs::{ScopedPtr, TaggedCellPtr, TaggedScopedPtr};
use crate::raw_array::RawArray;
use crate::sticky_immix_heap::alloc_spec;
use crate::tagged_ptr::TaggedPtr;
use crate::type_list::TypeList;

verus! {

/// Whether a dictionary that uses `used_entries` of `capacity` slots has
/// reached its load factor of four fifths, and must grow before it takes
/// another entry.
pub fn needs_to_grow(used_entries: ArraySize, capacity: ArraySize) -> (grow: bool)
    ensures
        grow == over_load(used_entries, capacity),
{
    5 * (used_entries as u64) > 4 * (capacity as u64)
}

/// The entries of the table `data`, slot by slot.
pub open spec fn slots_of(data: RawArray<DictItem>, heap: Heap) -> Seq<DictItem> {
    Seq::new(data.cap() as nat, |i: int| data.item_at(heap, i)->0)
}

/// Whether the table `data` is well-formed in `heap` and the bytes of
/// each of its slots stand for an entry.
pub open spec fn readable(data: RawArray<DictItem>, heap: Heap) -> bool {
    &&& data.wf(heap)
    &&& forall|i: int| 0 <= i < data.cap() ==> (#[trigger] data.item_at(heap, i)) is Some
}

/// Finds the slot for `hash` in the table `data`: the slot of the entry
/// with that hash if there is one, else the slot that an entry with
/// that hash is to be put in. Fails with a bounds error if the table
/// has not been allocated.
pub fn find_entry(guard: &MutatorView, data: &RawArray<DictItem>, hash: u64) -> (r: Result<
    ArraySize,
    RuntimeError,
>)
    requires
        guard.wf(),
        readable(*data, guard.mem()),
        data.base() is Some ==> data.cap() > 0 && search_ends(slots_of(*data, guard.mem()), hash),
    ensures
        match r {
            Ok(index) => {
                &&& data.base() is Some
                &&& index < data.cap()
                &&& index == found_slot(slots_of(*data, guard.mem()), hash)
                &&& slots_of(*data, guard.mem())[index as int].hash() == hash || slots_of(
                    *data,
                    guard.mem(),
                )[index as int].vacant()
            },
            Err(e) => {
                &&& data.base() is None
                &&& e.kind() == ErrorKind::BoundsError
                &&& e.pos() is None
            },
        },
{
    // the table must have been allocated
    if data.as_ptr().is_none() {
        return Err(RuntimeError::new(ErrorKind::BoundsError));
    }
    let capacity: ArraySize = data.capacity();
    let ghost slots = slots_of(*data, guard.mem());
    // the slot at which the search starts
    let start: ArraySize = (hash % (capacity as u64)) as ArraySize;
    let ghost end_slot = choose|i: int| 0 <= i < slots.len() && (#[trigger] slots[i]).stops(hash);
    let ghost end = if end_slot >= start {
        end_slot - start
    } else {
        end_slot - start + capacity
    };
    let mut index: ArraySize = start;
    // the first tombstone that is found is kept here
    let mut tombstone: Option<ArraySize> = None;
    let mut steps: ArraySize = 0;
    loop
        invariant
            guard.wf(),
            readable(*data, guard.mem()),
            slots == slots_of(*data, guard.mem()),
            capacity == data.cap(),
            capacity > 0,
            start < capacity,
            start == hash as int % capacity as int,
            steps <= end < capacity,
            index == slot_after(start as int, steps as int, capacity as int),
            slots[slot_after(start as int, end, capacity as int)].stops(hash),
            tombstone matches Some(earlier) ==> earlier < capacity && slots[earlier as int].is_tombstone(),
            probe(
                slots,
                hash,
                start as int,
                steps as int,
                match tombstone {
                    Some(earlier) => Some(earlier as int),
                    None => None,
                },
            ) == found_slot(slots, hash),
        decreases capacity - steps,
    {
        let entry: DictItem = match data.get(guard, index) {
            Some(entry) => entry,
            None => unreached(),
        };
        proof {
            lemma_probe(
                slots,
                hash,
                start as int,
                steps as int,
                match tombstone {
                    Some(earlier) => Some(earlier as int),
                    None => None,
                },
                end,
            );
        }
        if entry.get_hash() == TOMBSTONE && entry.get_key().is_nil() {
            // this is a tombstone: keep the first one that is found
            if tombstone.is_none() {
                tombstone = Some(index);
            }
        } else if entry.get_hash() == hash {
            // this is the entry with the hash
            return Ok(index);
        } else if entry.get_key().is_nil() {
            // this entry has never been used: use a tombstone again if one was found
            return match tombstone {
                Some(earlier) => Ok(earlier),
                None => Ok(index),
            };
        }
        // go on to the next slot, to the first one from the last
        index = if index + 1 == capacity {
            0
        } else {
            index + 1
        };
        steps = steps + 1;
    }
}

/// Makes every entry of the table `data` an entry that has never been
/// used. Fails with a bounds error if the table has not been allocated.
pub fn fill_with_blank_entries(mem: &mut MutatorView, data: &RawArray<DictItem>) -> (r: Result<
    (),
    RuntimeError,
>)
    requires
        old(mem).wf(),
        data.wf(old(mem).mem()),
    ensures
        final(mem).wf(),
        *final(final(mem).heap) == *final(old(mem).heap),
        final(mem).mem().symbols() == old(mem).mem().symbols(),
        data.wf(final(mem).mem()),
        kept_outside(old(mem).mem(), final(mem).mem(), data.byte_range().0, data.byte_range().1),
        BlockList::changed_within(
            old(mem).mem().storage().blocks(),
            final(mem).mem().storage().blocks(),
            data.byte_range().0,
            data.byte_range().1,
        ),
        match r {
            Ok(()) => {
                &&& data.base() is Some
                &&& readable(*data, final(mem).mem())
                &&& forall|i: int|
                    0 <= i < data.cap() ==> #[trigger] slots_of(*data, final(mem).mem())[i]
                        == DictItem::spec_blank()
            },
            Err(e) => {
                &&& data.base() is None
                &&& e.kind() == ErrorKind::BoundsError
                &&& e.pos() is None
                &&& BlockList::same(
                    old(mem).mem().storage().blocks(),
                    final(mem).mem().storage().blocks(),
                )
            },
        },
{
    let ghost old_heap = mem.mem();
    let ghost range = data.byte_range();
    proof {
        BlockList::lemma_same_shape(old_heap.storage().blocks(), old_heap.storage().blocks());
        BlockList::lemma_same_bytes(old_heap.storage().blocks(), old_heap.storage().blocks());
        BlockList::lemma_same_changed(
            old_heap.storage().blocks(),
            old_heap.storage().blocks(),
            range.0,
            range.1,
        );
    }
    if data.as_ptr().is_none() {
        return Err(RuntimeError::new(ErrorKind::BoundsError));
    }
    let blank_entry: DictItem = DictItem::blank();
    let mut index: ArraySize = 0;
    while index < data.capacity()
        invariant
            mem.wf(),
            old_heap.wf(),
            *final(mem.heap) == *final(old(mem).heap),
            mem.mem().symbols() == old(mem).mem().symbols(),
            data.wf(mem.mem()),
            data.base() is Some,
            range == data.byte_range(),
            index <= data.cap(),
            blank_entry == DictItem::spec_blank(),
            forall|i: int| 0 <= i < index ==> #[trigger] data.item_at(mem.mem(), i) == Some(blank_entry),
            kept_outside(old_heap, mem.mem(), range.0, range.1),
            BlockList::changed_within(
                old_heap.storage().blocks(),
                mem.mem().storage().blocks(),
                range.0,
                range.1,
            ),
        decreases data.cap() - index,
    {
        let ghost before = mem.mem();
        let stored: bool = data.set(mem, index, &blank_entry);
        proof {
            let after = mem.mem();
            blank_entry.lemma_round_trip();
            data.lemma_item_range(before, index as int);
            let slot = data.item_addr(index as int);
            crate::heap::lemma_kept_wider(
                before,
                after,
                slot,
                slot + DICT_ITEM_SIZE,
                range.0,
                range.1,
            );
            crate::heap::lemma_kept_twice(old_heap, before, after, range.0, range.1);
            BlockList::lemma_wrote_changed(
                before.storage().blocks(),
                after.storage().blocks(),
                slot,
                blank_entry.spec_bytes(),
                range.0,
                range.1,
            );
            BlockList::lemma_changed_twice(
                old_heap.storage().blocks(),
                before.storage().blocks(),
                after.storage().blocks(),
                range.0,
                range.1,
            );
        }
        index = index + 1;
    }
    Ok(())
}

/// A dictionary: how many keys it holds, how many of its slots have been
/// used, and the table of its entries in the heap.
#[derive(Copy, Clone)]
pub struct Dict {
    /// The number of entries with a key.
    length: ArraySize,
    /// The number of entries that have been used, with a key or without.
    used_entries: ArraySize,
    /// The table of entries.
    data: RawArray<DictItem>,
}

/// The number of bytes that a `Dict` takes up.
pub const DICT_SIZE: ArraySize = 32;

impl Dict {
    /// The number of entries with a key.
    pub closed spec fn len(self) -> ArraySize {
        self.length
    }

    /// The number of entries that have been used.
    pub closed spec fn used(self) -> ArraySize {
        self.used_entries
    }

    /// The table of entries.
    pub closed spec fn data(self) -> RawArray<DictItem> {
        self.data
    }

    /// The dictionary with these three parts.
    pub closed spec fn with(length: ArraySize, used_entries: ArraySize, data: RawArray<DictItem>) -> Dict {
        Dict { length, used_entries, data }
    }

    /// A dictionary is its three parts, and nothing else.
    pub broadcast proof fn lemma_with(
        length: ArraySize,
        used_entries: ArraySize,
        data: RawArray<DictItem>,
    )
        ensures
            (#[trigger] Self::with(length, used_entries, data)).len() == length,
            Self::with(length, used_entries, data).used() == used_entries,
            Self::with(length, used_entries, data).data() == data,
    {
    }

    /// A dictionary is its three parts, and nothing else.
    pub broadcast proof fn lemma_parts(self)
        ensures
            #[trigger] Self::with(self.len(), self.used(), self.data()) == self,
    {
    }

    /// The entries, slot by slot.
    pub open spec fn slots(self, heap: Heap) -> Seq<DictItem> {
        slots_of(self.data(), heap)
    }

    /// The table can be read, no more than four fifths of its slots
    /// count as used, each slot that does not count as used has never
    /// been used, each entry with a key is the one that a search for its
    /// hash finds, and the length is the number of entries with a key.
    pub open spec fn wf(self, heap: Heap) -> bool {
        &&& readable(self.data(), heap)
        &&& table_wf(self.slots(heap), self.len() as int, self.used() as int)
    }

    /// What the dictionary stands for: for each hash of a key, the
    /// entry with that key.
    pub open spec fn entries(self, heap: Heap) -> Map<u64, DictItem> {
        model(self.slots(heap))
    }

    /// Whether the table can be searched: it has a slot, or it has not
    /// been allocated.
    pub open spec fn searchable(self) -> bool {
        self.data().base() is Some ==> self.data().cap() > 0
    }

    /// In a well-formed dictionary that can be searched, every search ends.
    pub proof fn lemma_search_ends(self, heap: Heap, hash: u64)
        requires
            self.wf(heap),
            self.data().cap() > 0,
        ensures
            search_ends(self.slots(heap), hash),
    {
        lemma_table(self.slots(heap), self.len() as int, self.used() as int);
    }

    /// A dictionary with no entries and no table.
    pub fn new() -> (dict: Dict)
        ensures
            dict.len() == 0,
            dict.used() == 0,
            dict.data().cap() == 0,
            dict.data().base() is None,
            forall|heap: Heap| heap.wf() ==> #[trigger] dict.wf(heap),
            forall|heap: Heap| #[trigger] dict.entries(heap) == Map::<u64, DictItem>::empty(),
    {
        let dict = Dict { length: 0, used_entries: 0, data: RawArray::new() };
        proof {
            assert forall|heap: Heap| #[trigger]
                dict.entries(heap) == Map::<u64, DictItem>::empty() by {
                assert(dict.slots(heap) =~= Seq::<DictItem>::empty());
                assert(model(dict.slots(heap)) =~= Map::<u64, DictItem>::empty());
            }
        }
        proof {
            assert forall|heap: Heap| heap.wf() implies #[trigger] dict.wf(heap) by {
                assert(dict.slots(heap) =~= Seq::<DictItem>::empty());
            }
        }
        dict
    }

    /// The number of entries with a key.
    pub fn length(&self) -> (length: ArraySize)
        ensures
            length == self.len(),
    {
        self.length
    }

    /// The number of slots of the table.
    pub fn capacity(&self) -> (capacity: ArraySize)
        ensures
            capacity == self.data().cap(),
    {
        self.data.capacity()
    }

    /// What making a dictionary with a table of `capacity` slots does to
    /// the heap and returns. The table is allocated as an array of bytes
    /// is. On success every slot is as if it had never been used. On
    /// failure nothing has changed; the failure is a bad allocation
    /// request if the bytes of the table cannot be counted in an
    /// `ArraySize`.
    pub open spec fn with_capacity_spec(
        old: Heap,
        new: Heap,
        capacity: ArraySize,
        r: Result<Dict, RuntimeError>,
    ) -> bool {
        match r {
            Ok(dict) => {
                &&& dict.len() == 0
                &&& dict.used() == 0
                &&& dict.data().cap() == capacity
                &&& dict.data().base() is Some
                &&& dict.wf(new)
                &&& dict.entries(new) == Map::<u64, DictItem>::empty()
                &&& forall|i: int|
                    0 <= i < capacity ==> #[trigger] dict.slots(new)[i] == DictItem::spec_blank()
                &&& RawArray::<DictItem>::byte_len(capacity as int) <= u32::MAX
                &&& alloc_spec(
                    old.storage().blocks(),
                    new.storage().blocks(),
                    crate::heap::array_header_for(
                        RawArray::<DictItem>::byte_len(capacity as int) as u32,
                    ).spec_bytes(),
                    new.storage().blocks().bytes(
                        dict.data().base()->0.addr(),
                        RawArray::<DictItem>::byte_len(capacity as int),
                    ),
                    Ok(dict.data().base()->0),
                )
            },
            Err(e) => {
                &&& is_alloc_error(e)
                &&& BlockList::same(old.storage().blocks(), new.storage().blocks())
                &&& if RawArray::<DictItem>::byte_len(capacity as int) > u32::MAX {
                    e.kind() == ErrorKind::BadAllocationRequest
                } else {
                    alloc_spec(
                        old.storage().blocks(),
                        new.storage().blocks(),
                        crate::heap::array_header_for(
                            RawArray::<DictItem>::byte_len(capacity as int) as u32,
                        ).spec_bytes(),
                        Seq::new(
                            RawArray::<DictItem>::byte_len(capacity as int) as nat,
                            |i: int| 0u8,
                        ),
                        as_alloc_result::<RawPtr>(Err(e)),
                    )
                }
            },
        }
    }

    /// What allocating a dictionary with a table of `capacity` slots
    /// does to the heap and returns: the table is made, which leads from
    /// `old` to a heap in between, and the dictionary that holds it is
    /// allocated from there. If the table cannot be made, nothing has
    /// changed. If the dictionary cannot be allocated, the table stays.
    pub open spec fn alloc_with_capacity_spec(
        old: Heap,
        new: Heap,
        capacity: ArraySize,
        r: Result<RawPtr, RuntimeError>,
    ) -> bool {
        exists|between: Heap, made: Result<Dict, RuntimeError>|
            {
                &&& #[trigger] Self::with_capacity_spec(old, between, capacity, made)
                &&& between.wf()
                &&& match made {
                    Ok(dict) => alloc_spec(
                        between.storage().blocks(),
                        new.storage().blocks(),
                        header_for::<Dict>().spec_bytes(),
                        dict.spec_bytes(),
                        as_alloc_result::<RawPtr>(r),
                    ),
                    Err(e) => {
                        &&& r == Err::<RawPtr, RuntimeError>(e)
                        &&& BlockList::same(between.storage().blocks(), new.storage().blocks())
                    },
                }
            }
    }

    /// A dictionary with no entries and a table of `capacity` slots,
    /// none of which has been used. Fails as the allocation of the table
    /// does, and then changes nothing.
    pub fn with_capacity(mem: &mut MutatorView, capacity: ArraySize) -> (r: Result<
        Dict,
        RuntimeError,
    >)
        requires
            old(mem).wf(),
        ensures
            final(mem).wf(),
            *final(final(mem).heap) == *final(old(mem).heap),
            final(mem).mem().symbols() == old(mem).mem().symbols(),
            kept_outside(old(mem).mem(), final(mem).mem(), 0, 0),
            Self::with_capacity_spec(old(mem).mem(), final(mem).mem(), capacity, r),
    {
        let ghost old_heap = mem.mem();
        let data: RawArray<DictItem> = match RawArray::with_capacity(mem, capacity) {
            Ok(data) => data,
            Err(e) => { return Err(e); },
        };
        let ghost mid_heap = mem.mem();
        let dict = Dict { length: 0, used_entries: 0, data };
        match fill_with_blank_entries(mem, &data) {
            Ok(()) => {},
            Err(e) => { unreached::<()>() },
        }
        proof {
            let new_heap = mem.mem();
            let len = RawArray::<DictItem>::byte_len(capacity as int);
            let header = crate::heap::array_header_for(len as u32).spec_bytes();
            let zeros = Seq::new(len as nat, |i: int| 0u8);
            crate::sticky_immix_heap::lemma_alloc_then_change(
                old_heap.storage().blocks(),
                mid_heap.storage().blocks(),
                new_heap.storage().blocks(),
                header,
                zeros,
                data.base()->0,
            );
            crate::heap::lemma_kept_fresh(
                old_heap,
                mid_heap,
                new_heap,
                header,
                zeros,
                data.base()->0,
                data.byte_range().0,
                data.byte_range().1,
            );
            let slots = dict.slots(new_heap);
            assert forall|i: int| 0 <= i < slots.len() implies (#[trigger] slots[i]).is_blank() by {
                assert(slots_of(data, new_heap)[i] == DictItem::spec_blank());
                DictItem::lemma_with(
                    TaggedCellPtr::of(TaggedPtr::of_word(0)),
                    TaggedCellPtr::of(TaggedPtr::of_word(0)),
                    0,
                );
                TaggedCellPtr::lemma_of(TaggedPtr::of_word(0));
                TaggedPtr::lemma_word(0);
            }
            lemma_blank_table(slots);
        }
        Ok(dict)
    }

    /// Forgets every entry: every slot of the table is as if it had
    /// never been used. Fails with a bounds error, and changes nothing,
    /// if the table has not been allocated.
    pub fn clear(&mut self, mem: &mut MutatorView) -> (r: Result<(), RuntimeError>)
        requires
            old(mem).wf(),
            old(self).wf(old(mem).mem()),
        ensures
            final(mem).wf(),
            *final(final(mem).heap) == *final(old(mem).heap),
            final(mem).mem().symbols() == old(mem).mem().symbols(),
            final(self).wf(final(mem).mem()),
            final(self).data() == old(self).data(),
            kept_outside(
                old(mem).mem(),
                final(mem).mem(),
                old(self).data().byte_range().0,
                old(self).data().byte_range().1,
            ),
            BlockList::changed_within(
                old(mem).mem().storage().blocks(),
                final(mem).mem().storage().blocks(),
                old(self).data().byte_range().0,
                old(self).data().byte_range().1,
            ),
            match r {
                Ok(()) => {
                    &&& old(self).data().base() is Some
                    &&& final(self).len() == 0
                    &&& final(self).used() == 0
                    &&& final(self).entries(final(mem).mem()) == Map::<u64, DictItem>::empty()
                    &&& forall|i: int|
                        0 <= i < final(self).data().cap() ==> #[trigger] final(self).slots(
                            final(mem).mem(),
                        )[i] == DictItem::spec_blank()
                },
                Err(e) => {
                    &&& old(self).data().base() is None
                    &&& e.kind() == ErrorKind::BoundsError
                    &&& e.pos() is None
                    &&& final(self).len() == old(self).len()
                    &&& final(self).used() == old(self).used()
                    &&& BlockList::same(
                        old(mem).mem().storage().blocks(),
                        final(mem).mem().storage().blocks(),
                    )
                },
            },
    {
        let data: RawArray<DictItem> = self.data;
        match fill_with_blank_entries(mem, &data) {
            Ok(()) => {},
            Err(e) => {
                proof {
                    assert(self.slots(mem.mem()) =~= Seq::<DictItem>::empty());
                    assert(self.slots(old(mem).mem()) =~= Seq::<DictItem>::empty());
                }
                return Err(e);
            },
        }
        self.length = 0;
        self.used_entries = 0;
        proof {
            let slots = self.slots(mem.mem());
            assert forall|i: int| 0 <= i < slots.len() implies (#[trigger] slots[i]).is_blank() by {
                assert(slots_of(data, mem.mem())[i] == DictItem::spec_blank());
                DictItem::lemma_with(
                    TaggedCellPtr::of(TaggedPtr::of_word(0)),
                    TaggedCellPtr::of(TaggedPtr::of_word(0)),
                    0,
                );
                TaggedCellPtr::lemma_of(TaggedPtr::of_word(0));
                TaggedPtr::lemma_word(0);
            }
            lemma_blank_table(slots);
        }
        Ok(())
    }
}

/// A table of which one slot has been stored to can still be read, and
/// has the entry stored in that slot and its other entries as they were.
pub proof fn lemma_slot_stored(
    data: RawArray<DictItem>,
    old: Heap,
    new: Heap,
    index: int,
    item: DictItem,
)
    requires
        readable(data, old),
        data.wf(new),
        0 <= index < data.cap(),
        data.item_at(new, index) == Some(item),
        forall|other: int|
            0 <= other < data.cap() && other != index ==> #[trigger] data.item_at(new, other)
                == data.item_at(old, other),
    ensures
        readable(data, new),
        slots_of(data, new) == slots_of(data, old).update(index, item),
{
    assert forall|i: int| 0 <= i < data.cap() implies (#[trigger] data.item_at(new, i)) is Some by {
        if i != index {
            assert(data.item_at(old, i) is Some);
        }
    }
    assert(slots_of(data, new) =~= slots_of(data, old).update(index, item));
}

/// A table whose bytes are kept can still be read, and has its entries
/// as they were.
pub proof fn lemma_slots_kept(data: RawArray<DictItem>, old: Heap, new: Heap, from: int, to: int)
    requires
        old.wf(),
        new.wf(),
        readable(data, old),
        kept_outside(old, new, from, to),
        crate::raw_array::apart((from, to), data.byte_range()),
    ensures
        readable(data, new),
        slots_of(data, new) == slots_of(data, old),
{
    if data.cap() > 0 {
        let cap = data.cap() as int;
        assert(data.byte_range().0 < data.byte_range().1) by (nonlinear_arith)
            requires
                cap > 0,
                data.byte_range().1 == data.byte_range().0 + cap * 24,
        ;
        crate::heap::lemma_kept_range(
            old,
            new,
            from,
            to,
            data.base()->0.addr(),
            RawArray::<DictItem>::byte_len(cap),
        );
    }
    assert forall|i: int| 0 <= i < data.cap() implies #[trigger] data.item_at(new, i)
        == data.item_at(old, i) by {
        data.lemma_item_range(old, i);
        crate::heap::lemma_kept_range(old, new, from, to, data.item_addr(i), 24);
    }
    assert(slots_of(data, new) =~= slots_of(data, old));
}

impl Dict {
    /// The entry for `hash` and its slot. Fails with a bounds error
    /// if the table has not been allocated.
    fn entry_for(&self, guard: &MutatorView, hash: u64) -> (r: Result<
        (ArraySize, DictItem),
        RuntimeError,
    >)
        requires
            guard.wf(),
            self.wf(guard.mem()),
            self.searchable(),
        ensures
            match r {
                Ok((index, entry)) => {
                    &&& self.data().base() is Some
                    &&& index < self.data().cap()
                    &&& index == found_slot(self.slots(guard.mem()), hash)
                    &&& entry == self.slots(guard.mem())[index as int]
                    &&& entry.hash() == hash || entry.vacant()
                },
                Err(e) => {
                    &&& self.data().base() is None
                    &&& e.kind() == ErrorKind::BoundsError
                    &&& e.pos() is None
                },
            },
    {
        proof {
            if self.data().cap() > 0 {
                self.lemma_search_ends(guard.mem(), hash);
            }
        }
        let data: RawArray<DictItem> = self.data;
        let index: ArraySize = match find_entry(guard, &data, hash) {
            Ok(index) => index,
            Err(e) => { return Err(e); },
        };
        match data.get(guard, index) {
            Some(entry) => Ok((index, entry)),
            None => unreached(),
        }
    }

    /// The value that goes with the key whose hash is `hash`. Fails
    /// with a key error if there is no such key, and with a bounds error
    /// if the table has not been allocated.
    pub fn lookup_hash(&self, guard: &MutatorView, hash: u64) -> (r: Result<
        TaggedCellPtr,
        RuntimeError,
    >)
        requires
            guard.wf(),
            self.wf(guard.mem()),
            self.searchable(),
        ensures
            match r {
                Ok(value) => {
                    &&& self.data().base() is Some
                    &&& self.entries(guard.mem()).dom().contains(hash)
                    &&& value == self.entries(guard.mem())[hash].value()
                    &&& !self.slots(guard.mem())[found_slot(self.slots(guard.mem()), hash)].vacant()
                    &&& value == self.slots(guard.mem())[found_slot(
                        self.slots(guard.mem()),
                        hash,
                    )].value()
                },
                Err(e) => {
                    &&& e.pos() is None
                    &&& !self.entries(guard.mem()).dom().contains(hash)
                    &&& if self.data().base() is None {
                        e.kind() == ErrorKind::BoundsError
                    } else {
                        &&& e.kind() == ErrorKind::KeyError
                        &&& self.slots(guard.mem())[found_slot(
                            self.slots(guard.mem()),
                            hash,
                        )].vacant()
                    }
                },
            },
    {
        proof {
            if self.data().cap() > 0 {
                self.lemma_search_ends(guard.mem(), hash);
                lemma_model_found(self.slots(guard.mem()), hash);
            } else {
                assert(self.slots(guard.mem()) =~= Seq::<DictItem>::empty());
            }
        }
        let (_, entry) = match self.entry_for(guard, hash) {
            Ok(found) => found,
            Err(e) => { return Err(e); },
        };
        if !entry.get_key().is_nil() {
            Ok(entry.get_value())
        } else {
            Err(RuntimeError::new(ErrorKind::KeyError))
        }
    }

    /// Whether there is a key whose hash is `hash`. Fails with a bounds
    /// error if the table has not been allocated.
    pub fn exists_hash(&self, guard: &MutatorView, hash: u64) -> (r: Result<bool, RuntimeError>)
        requires
            guard.wf(),
            self.wf(guard.mem()),
            self.searchable(),
        ensures
            match r {
                Ok(found) => {
                    &&& self.data().base() is Some
                    &&& found == self.entries(guard.mem()).dom().contains(hash)
                    &&& found == !self.slots(guard.mem())[found_slot(
                        self.slots(guard.mem()),
                        hash,
                    )].vacant()
                },
                Err(e) => {
                    &&& self.data().base() is None
                    &&& e.kind() == ErrorKind::BoundsError
                    &&& e.pos() is None
                },
            },
    {
        proof {
            if self.data().cap() > 0 {
                self.lemma_search_ends(guard.mem(), hash);
                lemma_model_found(self.slots(guard.mem()), hash);
            }
        }
        let (_, entry) = match self.entry_for(guard, hash) {
            Ok(found) => found,
            Err(e) => { return Err(e); },
        };
        Ok(!entry.get_key().is_nil())
    }

    /// Removes the key whose hash is `hash` and returns the value that
    /// went with it: the entry keeps its slot as a tombstone. Fails with
    /// a key error if there is no such key, and with a bounds error if
    /// the table has not been allocated; a failure changes nothing.
    pub fn dissoc_hash(&mut self, mem: &mut MutatorView, hash: u64) -> (r: Result<
        TaggedCellPtr,
        RuntimeError,
    >)
        requires
            old(mem).wf(),
            old(self).wf(old(mem).mem()),
            old(self).searchable(),
        ensures
            final(mem).wf(),
            *final(final(mem).heap) == *final(old(mem).heap),
            final(mem).mem().symbols() == old(mem).mem().symbols(),
            final(self).wf(final(mem).mem()),
            final(self).data() == old(self).data(),
            final(self).used() == old(self).used(),
            match r {
                Ok(value) => {
                    &&& old(self).entries(old(mem).mem()).dom().contains(hash)
                    &&& value == old(self).entries(old(mem).mem())[hash].value()
                    &&& final(self).entries(final(mem).mem()) == old(self).entries(
                        old(mem).mem(),
                    ).remove(hash)
                },
                Err(_) => final(self).entries(final(mem).mem()) == old(self).entries(
                    old(mem).mem(),
                ),
            },
            kept_outside(
                old(mem).mem(),
                final(mem).mem(),
                old(self).data().byte_range().0,
                old(self).data().byte_range().1,
            ),
            BlockList::changed_within(
                old(mem).mem().storage().blocks(),
                final(mem).mem().storage().blocks(),
                old(self).data().byte_range().0,
                old(self).data().byte_range().1,
            ),
            ({
                let slots = old(self).slots(old(mem).mem());
                let index = found_slot(slots, hash);
                match r {
                    Ok(value) => {
                        &&& old(self).data().base() is Some
                        &&& !slots[index].vacant()
                        &&& value == slots[index].value()
                        &&& final(self).len() == old(self).len() - 1
                        &&& final(self).slots(final(mem).mem()) == slots.update(
                            index,
                            DictItem::with(
                                TaggedCellPtr::of(TaggedPtr::of_word(0)),
                                value,
                                TOMBSTONE,
                            ),
                        )
                    },
                    Err(e) => {
                        &&& e.pos() is None
                        &&& final(self).len() == old(self).len()
                        &&& final(self).slots(final(mem).mem()) == slots
                        &&& BlockList::same(
                            old(mem).mem().storage().blocks(),
                            final(mem).mem().storage().blocks(),
                        )
                        &&& if old(self).data().base() is None {
                            e.kind() == ErrorKind::BoundsError
                        } else {
                            e.kind() == ErrorKind::KeyError && slots[index].vacant()
                        }
                    },
                }
            }),
    {
        let ghost old_heap = mem.mem();
        let ghost range = self.data().byte_range();
        proof {
            BlockList::lemma_same_shape(old_heap.storage().blocks(), old_heap.storage().blocks());
            BlockList::lemma_same_bytes(old_heap.storage().blocks(), old_heap.storage().blocks());
            BlockList::lemma_same_changed(
                old_heap.storage().blocks(),
                old_heap.storage().blocks(),
                range.0,
                range.1,
            );
        }
        let (index, entry) = match self.entry_for(mem, hash) {
            Ok(found) => found,
            Err(e) => { return Err(e); },
        };
        if entry.get_key().is_nil() {
            // no key in the entry: the key was not found
            return Err(RuntimeError::new(ErrorKind::KeyError));
        }
        // the entry becomes a tombstone
        let tombstone: DictItem = DictItem::new(TaggedCellPtr::new_nil(), entry.get_value(), TOMBSTONE);
        proof {
            DictItem::lemma_with(TaggedCellPtr::of(TaggedPtr::of_word(0)), entry.value(), TOMBSTONE);
            TaggedCellPtr::lemma_of(TaggedPtr::of_word(0));
            TaggedPtr::lemma_word(0);
            lemma_remove_table(
                old(self).slots(old_heap),
                self.len() as int,
                self.used() as int,
                hash,
                tombstone,
            );
        }
        // one key less, but no slot less that has been used
        self.length = self.length - 1;
        let data: RawArray<DictItem> = self.data;
        let stored: bool = data.set(mem, index, &tombstone);
        proof {
            let new_heap = mem.mem();
            tombstone.lemma_round_trip();
            data.lemma_item_range(old_heap, index as int);
            let slot = data.item_addr(index as int);
            crate::heap::lemma_kept_wider(old_heap, new_heap, slot, slot + 24, range.0, range.1);
            BlockList::lemma_wrote_changed(
                old_heap.storage().blocks(),
                new_heap.storage().blocks(),
                slot,
                tombstone.spec_bytes(),
                range.0,
                range.1,
            );
            lemma_slot_stored(data, old_heap, new_heap, index as int, tombstone);
        }
        // the value that went with the key
        Ok(entry.get_value())
    }
}

/// A table that has just been allocated, all zeros, can be read and holds
/// entries that have never been used. It lies apart from a table that
/// was there before, which is as it was and of which nothing has been
/// put into the new table yet.
proof fn lemma_fresh_table(
    old: Heap,
    new: Heap,
    data: RawArray<DictItem>,
    new_data: RawArray<DictItem>,
)
    requires
        old.wf(),
        new.wf(),
        readable(data, old),
        new_data.base() is Some,
        new_data.wf(new),
        alloc_spec(
            old.storage().blocks(),
            new.storage().blocks(),
            crate::heap::array_header_for(
                RawArray::<DictItem>::byte_len(new_data.cap() as int) as u32,
            ).spec_bytes(),
            Seq::new(RawArray::<DictItem>::byte_len(new_data.cap() as int) as nat, |i: int| 0u8),
            Ok(new_data.base()->0),
        ),
        kept_outside(old, new, 0, 0),
    ensures
        readable(data, new),
        slots_of(data, new) == slots_of(data, old),
        readable(new_data, new),
        slots_of(new_data, new) == Seq::new(new_data.cap() as nat, |i: int| DictItem::spec_blank()),
        crate::raw_array::apart(new_data.byte_range(), data.byte_range()),
        rehashed(slots_of(new_data, new), slots_of(data, old), 0),
{
    let new_len = RawArray::<DictItem>::byte_len(new_data.cap() as int);
    let header = crate::heap::array_header_for(new_len as u32).spec_bytes();
    let zeros = Seq::new(new_len as nat, |i: int| 0u8);
    lemma_slots_kept(data, old, new, 0, 0);
    new.storage().lemma_allocated(
        old.storage().blocks(),
        crate::heap::array_header_for(new_len as u32),
        zeros,
        new_data.base()->0,
    );
    assert forall|i: int| 0 <= i < new_data.cap() implies #[trigger] new_data.item_at(new, i)
        == Some(DictItem::spec_blank()) by {
        new_data.lemma_item_range(new, i);
        new.storage().blocks().lemma_bytes_part(
            new_data.base()->0.addr(),
            new_len,
            RawArray::<DictItem>::byte_len(i),
            24,
        );
        lemma_zeros_are_blank(new.storage().blocks().bytes(new_data.item_addr(i), 24));
    }
    assert(slots_of(new_data, new) =~= Seq::new(
        new_data.cap() as nat,
        |i: int| DictItem::spec_blank(),
    ));
    DictItem::lemma_with(
        TaggedCellPtr::of(TaggedPtr::of_word(0)),
        TaggedCellPtr::of(TaggedPtr::of_word(0)),
        0,
    );
    TaggedCellPtr::lemma_of(TaggedPtr::of_word(0));
    TaggedPtr::lemma_word(0);
    lemma_blank_table(slots_of(new_data, new));
    assert(model_upto(slots_of(data, old), 0) =~= Map::<u64, DictItem>::empty());
    if data.cap() > 0 {
        crate::raw_array::lemma_fresh_apart(
            old,
            new,
            header,
            zeros,
            new_data.base()->0,
            data.base()->0.addr(),
            RawArray::<DictItem>::byte_len(data.cap() as int),
        );
    }
}

impl Dict {
    /// Puts each entry of the table `data` that has a key into the
    /// table `new_data`, into the slot that a search for its hash finds
    /// there, in the order of the slots of `data`. Only the bytes of
    /// `new_data` change.
    fn rehash(mem: &mut MutatorView, data: &RawArray<DictItem>, new_data: &RawArray<DictItem>)
        requires
            old(mem).wf(),
            new_data.base() is Some,
            new_data.cap() > data.cap(),
            readable(*data, old(mem).mem()),
            readable(*new_data, old(mem).mem()),
            crate::raw_array::apart(new_data.byte_range(), data.byte_range()),
            chained(slots_of(*data, old(mem).mem())),
            5 * live_upto(slots_of(*data, old(mem).mem()), data.cap() as int) <= 4 * data.cap(),
            rehashed(slots_of(*new_data, old(mem).mem()), slots_of(*data, old(mem).mem()), 0),
        ensures
            final(mem).wf(),
            *final(final(mem).heap) == *final(old(mem).heap),
            final(mem).mem().symbols() == old(mem).mem().symbols(),
            readable(*data, final(mem).mem()),
            slots_of(*data, final(mem).mem()) == slots_of(*data, old(mem).mem()),
            readable(*new_data, final(mem).mem()),
            slots_of(*new_data, final(mem).mem()) == rehash_into(
                slots_of(*new_data, old(mem).mem()),
                slots_of(*data, old(mem).mem()),
                0,
            ),
            rehashed(
                slots_of(*new_data, final(mem).mem()),
                slots_of(*data, old(mem).mem()),
                data.cap() as int,
            ),
            kept_outside(
                old(mem).mem(),
                final(mem).mem(),
                new_data.byte_range().0,
                new_data.byte_range().1,
            ),
            BlockList::changed_within(
                old(mem).mem().storage().blocks(),
                final(mem).mem().storage().blocks(),
                new_data.byte_range().0,
                new_data.byte_range().1,
            ),
    {
        let ghost start_heap = mem.mem();
        let ghost old_slots = slots_of(*data, start_heap);
        let ghost start_table = slots_of(*new_data, start_heap);
        let ghost range = new_data.byte_range();
        let ghost capacity = data.cap();
        proof {
            BlockList::lemma_same_shape(
                start_heap.storage().blocks(),
                start_heap.storage().blocks(),
            );
            BlockList::lemma_same_bytes(
                start_heap.storage().blocks(),
                start_heap.storage().blocks(),
            );
            BlockList::lemma_same_changed(
                start_heap.storage().blocks(),
                start_heap.storage().blocks(),
                range.0,
                range.1,
            );
        }
        if data.as_ptr().is_some() {
            let mut index: ArraySize = 0;
            while index < data.capacity()
                invariant
                    mem.wf(),
                    start_heap.wf(),
                    *final(mem.heap) == *final(old(mem).heap),
                    mem.mem().symbols() == old(mem).mem().symbols(),
                    index <= capacity,
                    capacity == data.cap(),
                    new_data.cap() > capacity,
                    new_data.base() is Some,
                    range == new_data.byte_range(),
                    readable(*data, mem.mem()),
                    slots_of(*data, mem.mem()) == old_slots,
                    old_slots.len() == capacity,
                    readable(*new_data, mem.mem()),
                    crate::raw_array::apart(range, data.byte_range()),
                    rehash_into(slots_of(*new_data, mem.mem()), old_slots, index as int)
                        == rehash_into(start_table, old_slots, 0),
                    chained(old_slots),
                    5 * live_upto(old_slots, capacity as int) <= 4 * capacity,
                    rehashed(slots_of(*new_data, mem.mem()), old_slots, index as int),
                    kept_outside(start_heap, mem.mem(), range.0, range.1),
                    BlockList::changed_within(
                        start_heap.storage().blocks(),
                        mem.mem().storage().blocks(),
                        range.0,
                        range.1,
                    ),
                decreases capacity - index,
            {
                let ghost before = mem.mem();
                let ghost table = slots_of(*new_data, before);
                let entry: DictItem = match data.get(mem, index) {
                    Some(entry) => entry,
                    None => unreached(),
                };
                proof {
                    lemma_rehash_step(table, old_slots, index as int);
                }
                if !entry.get_key().is_nil() {
                    let new_index: ArraySize = match find_entry(mem, new_data, entry.get_hash()) {
                        Ok(new_index) => new_index,
                        Err(e) => unreached(),
                    };
                    let stored: bool = new_data.set(mem, new_index, &entry);
                    proof {
                        let after = mem.mem();
                        entry.lemma_round_trip();
                        new_data.lemma_item_range(before, new_index as int);
                        let slot = new_data.item_addr(new_index as int);
                        crate::heap::lemma_kept_wider(
                            before,
                            after,
                            slot,
                            slot + 24,
                            range.0,
                            range.1,
                        );
                        crate::heap::lemma_kept_twice(start_heap, before, after, range.0, range.1);
                        BlockList::lemma_wrote_changed(
                            before.storage().blocks(),
                            after.storage().blocks(),
                            slot,
                            entry.spec_bytes(),
                            range.0,
                            range.1,
                        );
                        BlockList::lemma_changed_twice(
                            start_heap.storage().blocks(),
                            before.storage().blocks(),
                            after.storage().blocks(),
                            range.0,
                            range.1,
                        );
                        lemma_slot_stored(*new_data, before, after, new_index as int, entry);
                        lemma_slots_kept(*data, before, after, range.0, range.1);
                    }
                }
                index = index + 1;
            }
        } else {
            proof {
                assert(old_slots =~= Seq::<DictItem>::empty());
            }
        }
    }

    /// Gives the dictionary a table of the grown capacity that holds
    /// the entries with a key: each is put into the slot that a search
    /// for its hash finds in the new table, in the order of their slots
    /// in the old one. The old table is left as it is. A failure changes nothing.
    fn grow_capacity(&mut self, mem: &mut MutatorView) -> (r: Result<(), RuntimeError>)
        requires
            old(mem).wf(),
            old(self).wf(old(mem).mem()),
            old(self).data().cap() != 1,
        ensures
            final(mem).wf(),
            *final(final(mem).heap) == *final(old(mem).heap),
            final(mem).mem().symbols() == old(mem).mem().symbols(),
            final(self).wf(final(mem).mem()),
            final(self).len() == old(self).len(),
            final(self).used() == old(self).used(),
            kept_outside(old(mem).mem(), final(mem).mem(), 0, 0),
            ({
                let old_blocks = old(mem).mem().storage().blocks();
                let new_blocks = final(mem).mem().storage().blocks();
                let grown = grown_capacity(old(self).data().cap());
                let grown_len = RawArray::<DictItem>::byte_len(grown);
                match r {
                    Ok(()) => {
                        &&& grown <= u32::MAX
                        &&& grown_len <= u32::MAX
                        &&& final(self).data().cap() == grown
                        &&& final(self).data().base() is Some
                        &&& final(self).slots(final(mem).mem()) == grown_slots(
                            old(self).slots(old(mem).mem()),
                        )
                        &&& final(self).entries(final(mem).mem()) == old(self).entries(
                            old(mem).mem(),
                        )
                        &&& alloc_spec(
                            old_blocks,
                            new_blocks,
                            crate::heap::array_header_for(grown_len as u32).spec_bytes(),
                            new_blocks.bytes(final(self).data().base()->0.addr(), grown_len),
                            Ok(final(self).data().base()->0),
                        )
                    },
                    Err(e) => {
                        &&& final(self).data() == old(self).data()
                        &&& final(self).slots(final(mem).mem()) == old(self).slots(old(mem).mem())
                        &&& BlockList::same(old_blocks, new_blocks)
                        &&& is_alloc_error(e)
                        &&& if grown > u32::MAX || grown_len > u32::MAX {
                            e.kind() == ErrorKind::BadAllocationRequest
                        } else {
                            alloc_spec(
                                old_blocks,
                                new_blocks,
                                crate::heap::array_header_for(grown_len as u32).spec_bytes(),
                                Seq::new(grown_len as nat, |i: int| 0u8),
                                as_alloc_result::<RawPtr>(Err(e)),
                            )
                        }
                    },
                }
            }),
    {
        let ghost old_heap = mem.mem();
        let ghost old_slots = self.slots(old_heap);
        let data: RawArray<DictItem> = self.data;
        proof {
            BlockList::lemma_same_shape(old_heap.storage().blocks(), old_heap.storage().blocks());
            BlockList::lemma_same_bytes(old_heap.storage().blocks(), old_heap.storage().blocks());
        }
        let new_capacity: ArraySize = match default_array_growth(data.capacity()) {
            Ok(new_capacity) => new_capacity,
            Err(e) => { return Err(e); },
        };
        let new_data: RawArray<DictItem> = match RawArray::with_capacity(mem, new_capacity) {
            Ok(new_data) => new_data,
            Err(e) => {
                proof {
                    lemma_slots_kept(data, old_heap, mem.mem(), 0, 0);
                }
                return Err(e);
            },
        };
        let ghost mid_heap = mem.mem();
        let ghost new_len = RawArray::<DictItem>::byte_len(new_capacity as int);
        let ghost header = crate::heap::array_header_for(new_len as u32).spec_bytes();
        let ghost zeros = Seq::new(new_len as nat, |i: int| 0u8);
        let ghost range = new_data.byte_range();
        proof {
            lemma_fresh_table(old_heap, mid_heap, data, new_data);
            lemma_live_and_blank(old_slots, data.cap() as int);
            assert(old_slots.subrange(0, data.cap() as int) =~= old_slots);
        }
        Self::rehash(mem, &data, &new_data);
        self.data = new_data;
        proof {
            let new_heap = mem.mem();
            crate::sticky_immix_heap::lemma_alloc_then_change(
                old_heap.storage().blocks(),
                mid_heap.storage().blocks(),
                new_heap.storage().blocks(),
                header,
                zeros,
                new_data.base()->0,
            );
            crate::heap::lemma_kept_fresh(
                old_heap,
                mid_heap,
                new_heap,
                header,
                zeros,
                new_data.base()->0,
                range.0,
                range.1,
            );
            lemma_model_all(old_slots);
            if data.base() is None {
                assert(old_slots =~= Seq::<DictItem>::empty());
                assert(model(old_slots) =~= Map::<u64, DictItem>::empty());
            }
        }
        Ok(())
    }
}

impl Dict {
    /// What putting the entry `item` into a dictionary does to the
    /// dictionary and to its entries, where it succeeds.
    ///
    /// A dictionary that would use more than four fifths of its slots
    /// with one slot more grows first. The entry is put into the slot
    /// that a search for its hash finds. The dictionary has one key more
    /// if that slot had no key, and uses one slot more if that slot had
    /// never been used.
    pub open spec fn assoc_spec(
        self,
        slots: Seq<DictItem>,
        after: Dict,
        after_slots: Seq<DictItem>,
        item: DictItem,
    ) -> bool {
        let grow = over_load((self.used() + 1) as u32, self.data().cap());
        let table = if grow {
            grown_slots(slots)
        } else {
            slots
        };
        let index = found_slot(table, item.hash());
        &&& after_slots == table.update(index, item)
        &&& after.len() == self.len() + if table[index].vacant() {
            1int
        } else {
            0int
        }
        &&& after.used() == self.used() + if table[index].is_blank() {
            1int
        } else {
            0int
        }
        &&& after.data().cap() == if grow {
            grown_capacity(self.data().cap())
        } else {
            self.data().cap() as int
        }
        &&& !grow ==> after.data() == self.data()
    }

    /// Puts the entry `item` into the slot that a search for its hash
    /// finds, in a dictionary that has room for one entry more.
    fn insert(&mut self, mem: &mut MutatorView, item: DictItem)
        requires
            old(mem).wf(),
            old(self).wf(old(mem).mem()),
            old(self).data().base() is Some,
            old(self).data().cap() > 0,
            5 * (old(self).used() + 1) <= 4 * old(self).data().cap(),
            !item.vacant(),
        ensures
            final(mem).wf(),
            *final(final(mem).heap) == *final(old(mem).heap),
            final(mem).mem().symbols() == old(mem).mem().symbols(),
            final(self).wf(final(mem).mem()),
            final(self).data() == old(self).data(),
            ({
                let table = old(self).slots(old(mem).mem());
                let index = found_slot(table, item.hash());
                &&& 0 <= index < table.len()
                &&& final(self).slots(final(mem).mem()) == table.update(index, item)
                &&& final(self).entries(final(mem).mem()) == old(self).entries(
                    old(mem).mem(),
                ).insert(item.hash(), item)
                &&& final(self).len() == old(self).len() + if table[index].vacant() {
                    1int
                } else {
                    0int
                }
                &&& final(self).used() == old(self).used() + if table[index].is_blank() {
                    1int
                } else {
                    0int
                }
                &&& kept_outside(
                    old(mem).mem(),
                    final(mem).mem(),
                    old(self).data().item_addr(index),
                    old(self).data().item_addr(index) + DICT_ITEM_SIZE,
                )
                &&& old(self).data().byte_range().0 <= old(self).data().item_addr(index)
                &&& old(self).data().item_addr(index) + DICT_ITEM_SIZE <= old(self).data().byte_range().1
            }),
    {
        let ghost old_heap = mem.mem();
        let ghost table = self.slots(old_heap);
        let data: RawArray<DictItem> = self.data;
        // the slot of the entry with the hash, or the nearest slot that can be used
        let (index, entry) = match self.entry_for(mem, item.get_hash()) {
            Ok(found) => found,
            Err(e) => unreached(),
        };
        proof {
            lemma_insert_table(table, self.len() as int, self.used() as int, item);
        }
        // count the key, and the slot if it has never been used
        if entry.get_key().is_nil() {
            self.length = self.length + 1;
            if entry.get_hash() == 0 {
                self.used_entries = self.used_entries + 1;
            }
        }
        // write the key, the value and the hash to the entry
        let stored: bool = data.set(mem, index, &item);
        proof {
            let new_heap = mem.mem();
            data.lemma_item_range(old_heap, index as int);
            lemma_slot_stored(data, old_heap, new_heap, index as int, item);
        }
    }

    /// Puts `value` into the dictionary as what goes with `key`, whose
    /// hash is `hash`: in place of what went with a key of that hash
    /// before, if there was one. Fails, and changes nothing, if the
    /// dictionary must grow and cannot.
    #[verifier::rlimit(40)]
    pub fn assoc_hash(
        &mut self,
        mem: &mut MutatorView,
        hash: u64,
        key: TaggedScopedPtr,
        value: TaggedScopedPtr,
    ) -> (r: Result<(), RuntimeError>)
        requires
            old(mem).wf(),
            old(self).wf(old(mem).mem()),
            old(self).data().cap() != 1,
            key.tagged().word() != 0,
        ensures
            final(mem).wf(),
            *final(final(mem).heap) == *final(old(mem).heap),
            final(mem).mem().symbols() == old(mem).mem().symbols(),
            final(self).wf(final(mem).mem()),
            kept_outside(
                old(mem).mem(),
                final(mem).mem(),
                old(self).data().byte_range().0,
                old(self).data().byte_range().1,
            ),
            match r {
                Ok(()) => {
                    &&& final(self).searchable()
                    &&& final(self).entries(final(mem).mem()) == old(self).entries(
                        old(mem).mem(),
                    ).insert(
                        hash,
                        DictItem::with(
                            TaggedCellPtr::of(key.tagged()),
                            TaggedCellPtr::of(value.tagged()),
                            hash,
                        ),
                    )
                    &&& old(self).assoc_spec(
                        old(self).slots(old(mem).mem()),
                        *final(self),
                        final(self).slots(final(mem).mem()),
                        DictItem::with(
                            TaggedCellPtr::of(key.tagged()),
                            TaggedCellPtr::of(value.tagged()),
                            hash,
                        ),
                    )
                },
                Err(e) => {
                    &&& over_load((old(self).used() + 1) as u32, old(self).data().cap())
                    &&& is_alloc_error(e)
                    &&& final(self).len() == old(self).len()
                    &&& final(self).used() == old(self).used()
                    &&& final(self).data() == old(self).data()
                    &&& final(self).slots(final(mem).mem()) == old(self).slots(old(mem).mem())
                    &&& final(self).entries(final(mem).mem()) == old(self).entries(old(mem).mem())
                    &&& BlockList::same(
                        old(mem).mem().storage().blocks(),
                        final(mem).mem().storage().blocks(),
                    )
                },
            },
    {
        let ghost old_heap = mem.mem();
        let ghost old_range = self.data().byte_range();
        let key_cell: TaggedCellPtr = TaggedCellPtr::new_with(key);
        let value_cell: TaggedCellPtr = TaggedCellPtr::new_with(value);
        proof {
            TaggedCellPtr::lemma_tagged(key_cell);
            TaggedCellPtr::lemma_tagged(value_cell);
        }
        let item: DictItem = DictItem::new(key_cell, value_cell, hash);
        proof {
            DictItem::lemma_with(key_cell, value_cell, hash);
        }
        // grow first if the load factor would be passed
        let grow: bool = needs_to_grow(self.used_entries + 1, self.data.capacity());
        if grow {
            match self.grow_capacity(mem) {
                Ok(()) => {},
                Err(e) => { return Err(e); },
            }
        }
        let ghost mid_heap = mem.mem();
        let ghost mid_self = *self;
        self.insert(mem, item);
        proof {
            let new_heap = mem.mem();
            let index = found_slot(mid_self.slots(mid_heap), hash);
            let slot = mid_self.data().item_addr(index);
            if grow {
                // the new table had not been handed out before
                let grown_len = RawArray::<DictItem>::byte_len(mid_self.data().cap() as int);
                crate::heap::lemma_kept_fresh(
                    old_heap,
                    mid_heap,
                    new_heap,
                    crate::heap::array_header_for(grown_len as u32).spec_bytes(),
                    mid_heap.storage().blocks().bytes(mid_self.data().base()->0.addr(), grown_len),
                    mid_self.data().base()->0,
                    slot,
                    slot + 24,
                );
                crate::heap::lemma_kept_wider(old_heap, new_heap, 0, 0, old_range.0, old_range.1);
            } else {
                crate::heap::lemma_kept_wider(
                    old_heap,
                    new_heap,
                    slot,
                    slot + 24,
                    old_range.0,
                    old_range.1,
                );
            }
        }
        Ok(())
    }
}

/// Whether the value of each entry of `slots` stands for something in `heap`.
pub open spec fn values_decode(slots: Seq<DictItem>, heap: Heap) -> bool {
    forall|i: int|
        0 <= i < slots.len() ==> (#[trigger] slots[i]).value().tagged().decode(heap.storage())
            is Some
}

/// A container that is indexed by keys that can be hashed. Two keys
/// with the same hash are the same key to it.
pub trait HashIndexedAnyContainer: Sized {
    /// The dictionary that the container is.
    spec fn spec_dict(&self) -> Dict;

    /// The value that goes with `key`. Fails with an unhashable error
    /// if the key cannot be hashed, with a key error if there is no
    /// such key, and with a bounds error if the table has not been allocated.
    fn lookup<'guard>(&self, guard: &MutatorView<'guard>, key: TaggedScopedPtr) -> (r: Result<
        TaggedScopedPtr<'guard>,
        RuntimeError,
    >)
        requires
            guard.wf(),
            self.spec_dict().wf(guard.mem()),
            self.spec_dict().searchable(),
            key_readable(guard.mem(), key.fat()),
            values_decode(self.spec_dict().slots(guard.mem()), guard.mem()),
        ensures
            match key_hash(guard.mem(), key.fat()) {
                Some(hash) => {
                    let slots = self.spec_dict().slots(guard.mem());
                    let index = found_slot(slots, hash);
                    match r {
                        Ok(value) => {
                            &&& self.spec_dict().data().base() is Some
                            &&& self.spec_dict().entries(guard.mem()).dom().contains(hash)
                            &&& value.tagged() == self.spec_dict().entries(
                                guard.mem(),
                            )[hash].value().tagged()
                            &&& !slots[index].vacant()
                            &&& value.tagged() == slots[index].value().tagged()
                            &&& Some(value.fat()) == value.tagged().decode(guard.mem().storage())
                        },
                        Err(e) => {
                            &&& e.pos() is None
                            &&& !self.spec_dict().entries(guard.mem()).dom().contains(hash)
                            &&& if self.spec_dict().data().base() is None {
                                e.kind() == ErrorKind::BoundsError
                            } else {
                                e.kind() == ErrorKind::KeyError && slots[index].vacant()
                            }
                        },
                    }
                },
                None => r matches Err(e) && e.kind() == ErrorKind::UnhashableError && e.pos() is None,
            },
    ;

    /// Puts `value` into the container as what goes with `key`. Fails
    /// with an unhashable error if the key cannot be hashed, and as
    /// the growth of the table does if the table must grow and
    /// cannot. A failure changes nothing.
    fn assoc(&mut self, mem: &mut MutatorView, key: TaggedScopedPtr, value: TaggedScopedPtr) -> (r:
        Result<(), RuntimeError>)
        requires
            old(mem).wf(),
            old(self).spec_dict().wf(old(mem).mem()),
            old(self).spec_dict().data().cap() != 1,
            key.tagged().word() != 0,
            key_readable(old(mem).mem(), key.fat()),
        ensures
            final(mem).wf(),
            *final(final(mem).heap) == *final(old(mem).heap),
            final(mem).mem().symbols() == old(mem).mem().symbols(),
            final(self).spec_dict().wf(final(mem).mem()),
            kept_outside(
                old(mem).mem(),
                final(mem).mem(),
                old(self).spec_dict().data().byte_range().0,
                old(self).spec_dict().data().byte_range().1,
            ),
            match r {
                Ok(()) => {
                    &&& final(self).spec_dict().searchable()
                    &&& key_hash(old(mem).mem(), key.fat()) matches Some(hash) && final(self).spec_dict().entries(final(mem).mem()) == old(self).spec_dict().entries(
                        old(mem).mem(),
                    ).insert(
                        hash,
                        DictItem::with(
                            TaggedCellPtr::of(key.tagged()),
                            TaggedCellPtr::of(value.tagged()),
                            hash,
                        ),
                    )
                    &&& key_hash(old(mem).mem(), key.fat()) matches Some(hash) && old(self).spec_dict().assoc_spec(
                        old(self).spec_dict().slots(old(mem).mem()),
                        final(self).spec_dict(),
                        final(self).spec_dict().slots(final(mem).mem()),
                        DictItem::with(
                            TaggedCellPtr::of(key.tagged()),
                            TaggedCellPtr::of(value.tagged()),
                            hash,
                        ),
                    )
                },
                Err(e) => {
                    &&& final(self).spec_dict() == old(self).spec_dict()
                    &&& final(self).spec_dict().slots(final(mem).mem()) == old(self).spec_dict().slots(old(mem).mem())
                    &&& BlockList::same(
                        old(mem).mem().storage().blocks(),
                        final(mem).mem().storage().blocks(),
                    )
                    &&& if key_hash(old(mem).mem(), key.fat()) is None {
                        e.kind() == ErrorKind::UnhashableError
                    } else {
                        &&& is_alloc_error(e)
                        &&& over_load(
                            (old(self).spec_dict().used() + 1) as u32,
                            old(self).spec_dict().data().cap(),
                        )
                    }
                },
            },
    ;

    /// Removes `key` and returns the value that went with it. Fails
    /// with an unhashable error if the key cannot be hashed, with a key
    /// error if there is no such key, and with a bounds error if the
    /// table has not been allocated. A failure changes nothing.
    fn dissoc<'guard>(&mut self, mem: &mut MutatorView<'guard>, key: TaggedScopedPtr) -> (r: Result<
        TaggedScopedPtr<'guard>,
        RuntimeError,
    >)
        requires
            old(mem).wf(),
            old(self).spec_dict().wf(old(mem).mem()),
            old(self).spec_dict().searchable(),
            key_readable(old(mem).mem(), key.fat()),
            values_decode(old(self).spec_dict().slots(old(mem).mem()), old(mem).mem()),
        ensures
            final(mem).wf(),
            *final(final(mem).heap) == *final(old(mem).heap),
            final(mem).mem().symbols() == old(mem).mem().symbols(),
            final(self).spec_dict().wf(final(mem).mem()),
            final(self).spec_dict().data() == old(self).spec_dict().data(),
            final(self).spec_dict().used() == old(self).spec_dict().used(),
            kept_outside(
                old(mem).mem(),
                final(mem).mem(),
                old(self).spec_dict().data().byte_range().0,
                old(self).spec_dict().data().byte_range().1,
            ),
            ({
                let slots = old(self).spec_dict().slots(old(mem).mem());
                match (key_hash(old(mem).mem(), key.fat()), r) {
                    (Some(hash), Ok(value)) => {
                        let index = found_slot(slots, hash);
                        &&& old(self).spec_dict().entries(old(mem).mem()).dom().contains(hash)
                        &&& value.tagged() == old(self).spec_dict().entries(
                            old(mem).mem(),
                        )[hash].value().tagged()
                        &&& final(self).spec_dict().entries(final(mem).mem()) == old(self).spec_dict().entries(old(mem).mem()).remove(hash)
                        &&& !slots[index].vacant()
                        &&& value.tagged() == slots[index].value().tagged()
                        &&& Some(value.fat()) == value.tagged().decode(old(mem).mem().storage())
                        &&& final(self).spec_dict().len() == old(self).spec_dict().len() - 1
                        &&& final(self).spec_dict().slots(final(mem).mem()) == slots.update(
                            index,
                            DictItem::with(
                                TaggedCellPtr::of(TaggedPtr::of_word(0)),
                                slots[index].value(),
                                TOMBSTONE,
                            ),
                        )
                    },
                    (Some(hash), Err(e)) => {
                        &&& e.pos() is None
                        &&& final(self).spec_dict().len() == old(self).spec_dict().len()
                        &&& final(self).spec_dict().slots(final(mem).mem()) == slots
                        &&& if old(self).spec_dict().data().base() is None {
                            e.kind() == ErrorKind::BoundsError
                        } else {
                            e.kind() == ErrorKind::KeyError && slots[found_slot(
                                slots,
                                hash,
                            )].vacant()
                        }
                    },
                    (None, Err(e)) => {
                        &&& e.kind() == ErrorKind::UnhashableError
                        &&& e.pos() is None
                        &&& final(self).spec_dict().len() == old(self).spec_dict().len()
                        &&& final(self).spec_dict().slots(final(mem).mem()) == slots
                    },
                    (None, Ok(_)) => false,
                }
            }),
    ;

    /// Whether `key` is in the container. Fails with an unhashable
    /// error if the key cannot be hashed, and with a bounds error if
    /// the table has not been allocated.
    fn exists_key(&self, guard: &MutatorView, key: TaggedScopedPtr) -> (r: Result<
        bool,
        RuntimeError,
    >)
        requires
            guard.wf(),
            self.spec_dict().wf(guard.mem()),
            self.spec_dict().searchable(),
            key_readable(guard.mem(), key.fat()),
        ensures
            match key_hash(guard.mem(), key.fat()) {
                Some(hash) => match r {
                    Ok(found) => {
                        &&& self.spec_dict().data().base() is Some
                        &&& found == self.spec_dict().entries(guard.mem()).dom().contains(hash)
                        &&& found == !self.spec_dict().slots(guard.mem())[found_slot(
                            self.spec_dict().slots(guard.mem()),
                            hash,
                        )].vacant()
                    },
                    Err(e) => {
                        &&& self.spec_dict().data().base() is None
                        &&& e.kind() == ErrorKind::BoundsError
                        &&& e.pos() is None
                    },
                },
                None => r matches Err(e) && e.kind() == ErrorKind::UnhashableError && e.pos() is None,
            },
    ;
}

impl HashIndexedAnyContainer for Dict {
    open spec fn spec_dict(&self) -> Dict {
        *self
    }

    fn lookup<'guard>(&self, guard: &MutatorView<'guard>, key: TaggedScopedPtr) -> (r: Result<
        TaggedScopedPtr<'guard>,
        RuntimeError,
    >) {
        let hash: u64 = match hash_key(guard, key) {
            Ok(hash) => hash,
            Err(e) => { return Err(e); },
        };
        match self.lookup_hash(guard, hash) {
            Ok(value) => {
                proof {
                    let slots = self.slots(guard.mem());
                    self.lemma_search_ends(guard.mem(), hash);
                    lemma_found_slot(slots, hash);
                    assert(slots[found_slot(slots, hash)].value().tagged().decode(
                        guard.mem().storage(),
                    ) is Some);
                }
                Ok(value.get(guard))
            },
            Err(e) => Err(e),
        }
    }

    fn assoc(&mut self, mem: &mut MutatorView, key: TaggedScopedPtr, value: TaggedScopedPtr) -> (r:
        Result<(), RuntimeError>) {
        let hash: u64 = match hash_key(mem, key) {
            Ok(hash) => hash,
            Err(e) => {
                proof {
                    BlockList::lemma_same_shape(
                        mem.mem().storage().blocks(),
                        mem.mem().storage().blocks(),
                    );
                    BlockList::lemma_same_bytes(
                        mem.mem().storage().blocks(),
                        mem.mem().storage().blocks(),
                    );
                }
                return Err(e);
            },
        };
        proof {
            Dict::lemma_parts(*self);
        }
        let r = self.assoc_hash(mem, hash, key, value);
        proof {
            if r is Err {
                Dict::lemma_parts(*self);
            }
        }
        r
    }

    fn dissoc<'guard>(&mut self, mem: &mut MutatorView<'guard>, key: TaggedScopedPtr) -> (r: Result<
        TaggedScopedPtr<'guard>,
        RuntimeError,
    >) {
        let ghost old_heap = mem.mem();
        let ghost slots = self.slots(old_heap);
        let hash: u64 = match hash_key(mem, key) {
            Ok(hash) => hash,
            Err(e) => {
                proof {
                    BlockList::lemma_same_shape(
                        old_heap.storage().blocks(),
                        old_heap.storage().blocks(),
                    );
                    BlockList::lemma_same_bytes(
                        old_heap.storage().blocks(),
                        old_heap.storage().blocks(),
                    );
                }
                return Err(e);
            },
        };
        // what the value stands for is read before the entry is stored to
        let value: TaggedScopedPtr<'guard> = match self.lookup_hash(mem, hash) {
            Ok(value) => {
                proof {
                    old(self).lemma_search_ends(old_heap, hash);
                    lemma_found_slot(slots, hash);
                    assert(slots[found_slot(slots, hash)].value().tagged().decode(
                        old_heap.storage(),
                    ) is Some);
                }
                value.get(mem)
            },
            Err(e) => {
                proof {
                    BlockList::lemma_same_shape(
                        old_heap.storage().blocks(),
                        old_heap.storage().blocks(),
                    );
                    BlockList::lemma_same_bytes(
                        old_heap.storage().blocks(),
                        old_heap.storage().blocks(),
                    );
                }
                return Err(e);
            },
        };
        match self.dissoc_hash(mem, hash) {
            Ok(_) => Ok(value),
            Err(e) => Err(e),
        }
    }

    fn exists_key(&self, guard: &MutatorView, key: TaggedScopedPtr) -> (r: Result<
        bool,
        RuntimeError,
    >) {
        let hash: u64 = match hash_key(guard, key) {
            Ok(hash) => hash,
            Err(e) => { return Err(e); },
        };
        self.exists_hash(guard, hash)
    }
}

impl HeapData for Dict {
    open spec fn spec_size() -> ArraySize {
        DICT_SIZE
    }

    open spec fn spec_bytes(&self) -> Seq<u8> {
        u32_le(self.len()) + u32_le(self.used()) + ptr_bytes(self.data().base()) + u32_le(
            self.data().cap(),
        ) + u32_le(0)
    }

    open spec fn spec_from_bytes(bytes: Seq<u8>) -> Option<Dict> {
        if bytes.len() != DICT_SIZE {
            None
        } else {
            match ptr_at(bytes, 8) {
                Some(ptr) => Some(
                    Dict::with(
                        u32_at(bytes, 0),
                        u32_at(bytes, 4),
                        RawArray::with(u32_at(bytes, 24), ptr),
                    ),
                ),
                None => None,
            }
        }
    }

    fn object_size() -> (size: ArraySize) {
        DICT_SIZE
    }

    fn to_bytes(&self) -> (bytes: Vec<u8>) {
        let mut bytes: Vec<u8> = Vec::new();
        put_u32(&mut bytes, self.length);
        put_u32(&mut bytes, self.used_entries);
        put_ptr(&mut bytes, self.data.as_ptr());
        put_u32(&mut bytes, self.data.capacity());
        put_u32(&mut bytes, 0);
        bytes
    }

    fn from_bytes(bytes: &Vec<u8>) -> (object: Option<Dict>) {
        if bytes.len() != DICT_SIZE as usize {
            return None;
        }
        let ptr: Option<RawPtr> = match get_ptr(bytes, 8) {
            Some(ptr) => ptr,
            None => { return None; },
        };
        Some(
            Dict {
                length: get_u32(bytes, 0),
                used_entries: get_u32(bytes, 4),
                data: RawArray::from_parts(get_u32(bytes, 24), ptr),
            },
        )
    }

    proof fn lemma_size() {
    }

    proof fn lemma_round_trip(&self) {
        let bytes = self.spec_bytes();
        assert(bytes.subrange(0, 4) =~= u32_le(self.len()));
        assert(bytes.subrange(4, 8) =~= u32_le(self.used()));
        assert(bytes.subrange(8, 24) =~= ptr_bytes(self.data().base()));
        assert(bytes.subrange(24, 28) =~= u32_le(self.data().cap()));
        lemma_u32_round_trip(self.len(), bytes, 0);
        lemma_u32_round_trip(self.used(), bytes, 4);
        lemma_ptr_round_trip(self.data().base(), bytes, 8);
        lemma_u32_round_trip(self.data().cap(), bytes, 24);
        RawArray::<DictItem>::lemma_parts(self.data());
        Dict::lemma_parts(*self);
    }
}

impl AllocObject<TypeList> for Dict {
    open spec fn spec_type_id() -> TypeList {
        TypeList::Dict
    }

    fn type_id() -> (id: TypeList) {
        TypeList::Dict
    }
}

impl Dict {
    /// Allocates a dictionary with no entries and no table in the heap.
    pub fn allocate<'guard>(mem: &mut MutatorView<'guard>) -> (r: Result<
        ScopedPtr<'guard>,
        RuntimeError,
    >)
        requires
            old(mem).wf(),
        ensures
            final(mem).wf(),
            *final(final(mem).heap) == *final(old(mem).heap),
            final(mem).mem().symbols() == old(mem).mem().symbols(),
            r matches Err(e) ==> is_alloc_error(e),
            alloc_spec(
                old(mem).mem().storage().blocks(),
                final(mem).mem().storage().blocks(),
                header_for::<Dict>().spec_bytes(),
                Dict::with(0, 0, RawArray::with(0, None)).spec_bytes(),
                match r {
                    Ok(scoped) => Ok(scoped.raw()),
                    Err(e) => as_alloc_result::<RawPtr>(Err(e)),
                },
            ),
    {
        let dict: Dict = Dict::new();
        proof {
            RawArray::<DictItem>::lemma_parts(dict.data());
            Dict::lemma_parts(dict);
        }
        mem.allocate(dict)
    }

    /// Allocates a dictionary with no entries and a table of
    /// `capacity` slots in the heap: first the table, then the
    /// dictionary. If the dictionary cannot be allocated, the table
    /// stays allocated.
    pub fn alloc_with_capacity<'guard>(mem: &mut MutatorView<'guard>, capacity: ArraySize) -> (r:
        Result<ScopedPtr<'guard>, RuntimeError>)
        requires
            old(mem).wf(),
        ensures
            final(mem).wf(),
            *final(final(mem).heap) == *final(old(mem).heap),
            final(mem).mem().symbols() == old(mem).mem().symbols(),
            kept_outside(old(mem).mem(), final(mem).mem(), 0, 0),
            match r {
                Ok(scoped) => {
                    &&& final(mem).mem().object_at::<Dict>(scoped.raw()) matches Some(dict)
                    &&& dict.len() == 0
                    &&& dict.used() == 0
                    &&& dict.data().cap() == capacity
                    &&& dict.data().base() is Some
                    &&& dict.wf(final(mem).mem())
                    &&& forall|i: int|
                        0 <= i < capacity ==> #[trigger] dict.slots(final(mem).mem())[i]
                            == DictItem::spec_blank()
                },
                Err(e) => is_alloc_error(e),
            },
            Self::alloc_with_capacity_spec(
                old(mem).mem(),
                final(mem).mem(),
                capacity,
                match r {
                    Ok(scoped) => Ok(scoped.raw()),
                    Err(e) => Err(e),
                },
            ),
    {
        let ghost old_heap = mem.mem();
        let dict: Dict = match Dict::with_capacity(mem, capacity) {
            Ok(dict) => dict,
            Err(e) => {
                proof {
                    assert(Self::with_capacity_spec(
                        old_heap,
                        mem.mem(),
                        capacity,
                        Err::<Dict, RuntimeError>(e),
                    ));
                }
                return Err(e);
            },
        };
        assert(Self::with_capacity_spec(old_heap, mem.mem(), capacity, Ok::<Dict, RuntimeError>(dict)));
        let ghost mid_heap = mem.mem();
        let ghost header = header_for::<Dict>().spec_bytes();
        match mem.allocate(dict) {
            Ok(scoped) => {
                proof {
                    let new_heap = mem.mem();
                    crate::heap::lemma_alloc_kept(
                        mid_heap,
                        new_heap,
                        header,
                        dict.spec_bytes(),
                        Ok(scoped.raw()),
                    );
                    crate::heap::lemma_kept_twice(old_heap, mid_heap, new_heap, 0, 0);
                    lemma_slots_kept(dict.data(), mid_heap, new_heap, 0, 0);
                    dict.lemma_round_trip();
                    new_heap.storage().lemma_allocated(
                        mid_heap.storage().blocks(),
                        header_for::<Dict>(),
                        dict.spec_bytes(),
                        scoped.raw(),
                    );
                    new_heap.storage().blocks().lemma_range(scoped.raw().addr(), 32, 0);
                }
                Ok(scoped)
            },
            Err(e) => {
                proof {
                    let new_heap = mem.mem();
                    crate::heap::lemma_alloc_kept(
                        mid_heap,
                        new_heap,
                        header,
                        dict.spec_bytes(),
                        as_alloc_result::<RawPtr>(Err(e)),
                    );
                    crate::heap::lemma_kept_twice(old_heap, mid_heap, new_heap, 0, 0);
                }
                Err(e)
            },
        }
    }
}

impl Container<DictItem> for Dict {
    open spec fn spec_wf(&self, heap: Heap) -> bool {
        self.wf(heap)
    }

    open spec fn spec_len(&self) -> ArraySize {
        self.len()
    }

    open spec fn spec_capacity(&self) -> ArraySize {
        self.data().cap()
    }

    open spec fn spec_with_capacity(
        old: Heap,
        new: Heap,
        capacity: ArraySize,
        r: Result<Dict, RuntimeError>,
    ) -> bool {
        Dict::with_capacity_spec(old, new, capacity, r)
    }

    /// A dictionary whose table has not been allocated is not cleared.
    open spec fn spec_clear_refused(&self) -> Option<ErrorKind> {
        if self.data().base() is None {
            Some(ErrorKind::BoundsError)
        } else {
            None
        }
    }

    fn new() -> (container: Dict) {
        Dict::new()
    }

    fn with_capacity(mem: &mut MutatorView, capacity: ArraySize) -> (r: Result<Dict, RuntimeError>) {
        Dict::with_capacity(mem, capacity)
    }

    fn clear(&mut self, mem: &mut MutatorView) -> (r: Result<(), RuntimeError>) {
        proof {
            Dict::lemma_parts(*self);
        }
        let r = Dict::clear(self, mem);
        proof {
            Dict::lemma_parts(*self);
        }
        r
    }

    fn length(&self) -> (length: ArraySize) {
        Dict::length(self)
    }
}

} // verus!
