//! A table of dictionary entries with open addressing: where a search for
//! a hash ends, what the table stands for, and what putting an entry in
//! and taking one out do to it.

use vstd::prelude::*;
use crate::allocation::ArraySize;
use crate::array::grown_capacity;
use crate::dict_item::DictItem;

verus! {

/// The slot that lies `steps` slots behind the slot `start` in a table of
/// `capacity` slots, where the first slot lies behind the last.
pub open spec fn slot_after(start: int, steps: int, capacity: int) -> int {
    if start + steps < capacity {
        start + steps
    } else {
        start + steps - capacity
    }
}

/// The slot that a search for `hash` finds in `slots` when it has looked
/// at the `steps` slots from the slot `start` on and found none at
/// which it ends, and `tombstone` is the first tombstone among them.
///
/// The search ends at the first entry with that hash, which is the slot
/// found, or at the first entry with no key that is no tombstone; then
/// the first tombstone is the slot found if there was one, so that it is
/// used again, and else the entry at which the search ends.
pub open spec fn probe(
    slots: Seq<DictItem>,
    hash: u64,
    start: int,
    steps: int,
    tombstone: Option<int>,
) -> int
    decreases slots.len() - steps,
{
    if steps < 0 || steps >= slots.len() {
        start
    } else {
        let index = slot_after(start, steps, slots.len() as int);
        let entry = slots[index];
        if entry.is_tombstone() {
            probe(
                slots,
                hash,
                start,
                steps + 1,
                if tombstone is None {
                    Some(index)
                } else {
                    tombstone
                },
            )
        } else if entry.hash() == hash {
            index
        } else if entry.vacant() {
            match tombstone {
                Some(earlier) => earlier,
                None => index,
            }
        } else {
            probe(slots, hash, start, steps + 1, tombstone)
        }
    }
}

/// The slot that a search for `hash` finds in `slots`: the search
/// starts at the slot that is the hash modulo the number of slots.
pub open spec fn found_slot(slots: Seq<DictItem>, hash: u64) -> int {
    probe(slots, hash, hash as int % slots.len() as int, 0, None)
}

/// Whether some entry of `slots` ends a search for `hash`.
pub open spec fn search_ends(slots: Seq<DictItem>, hash: u64) -> bool {
    exists|i: int| 0 <= i < slots.len() && (#[trigger] slots[i]).stops(hash)
}

/// The slot that a search finds is a slot of the table, and its entry
/// has the hash searched for or no key.
pub proof fn lemma_probe(
    slots: Seq<DictItem>,
    hash: u64,
    start: int,
    steps: int,
    tombstone: Option<int>,
    end: int,
)
    requires
        0 <= start < slots.len(),
        0 <= steps <= end < slots.len(),
        slots[slot_after(start, end, slots.len() as int)].stops(hash),
        tombstone matches Some(earlier) ==> 0 <= earlier < slots.len()
            && slots[earlier].is_tombstone(),
    ensures
        0 <= probe(slots, hash, start, steps, tombstone) < slots.len(),
        slots[probe(slots, hash, start, steps, tombstone)].hash() == hash || slots[probe(
            slots,
            hash,
            start,
            steps,
            tombstone,
        )].vacant(),
    decreases slots.len() - steps,
{
    let index = slot_after(start, steps, slots.len() as int);
    let entry = slots[index];
    if entry.is_tombstone() {
        lemma_probe(
            slots,
            hash,
            start,
            steps + 1,
            if tombstone is None {
                Some(index)
            } else {
                tombstone
            },
            end,
        );
    } else if entry.hash() == hash {
    } else if entry.vacant() {
    } else {
        lemma_probe(slots, hash, start, steps + 1, tombstone, end);
    }
}

/// Whether a dictionary that uses `used_entries` of `capacity` slots
/// is so full that it must grow before it takes another entry: more
/// than four fifths of the slots are used.
pub open spec fn over_load(used_entries: ArraySize, capacity: ArraySize) -> bool {
    5 * used_entries > 4 * capacity
}

/// The number of steps from the slot `start` to the slot `slot` in a
/// table of `capacity` slots, where the first slot lies behind the last.
pub open spec fn steps_to(start: int, slot: int, capacity: int) -> int {
    if slot >= start {
        slot - start
    } else {
        slot - start + capacity
    }
}

/// Whether a search for `hash` in `slots` gets as far as the slot `slot`:
/// it ends at no slot before it.
pub open spec fn reaches(slots: Seq<DictItem>, hash: u64, slot: int) -> bool {
    let start = hash as int % slots.len() as int;
    forall|t: int|
        0 <= t < slots.len() && steps_to(start, t, slots.len() as int) < steps_to(
            start,
            slot,
            slots.len() as int,
        ) ==> !(#[trigger] slots[t]).stops(hash)
}

/// Whether each entry of `slots` with a key is the entry that a search
/// for its hash gets to first.
pub open spec fn chained(slots: Seq<DictItem>) -> bool {
    forall|s: int|
        0 <= s < slots.len() && !(#[trigger] slots[s]).vacant() ==> reaches(
            slots,
            slots[s].hash(),
            s,
        )
}

/// A search that has come as far as an entry with the hash searched
/// for, and has ended at none before it, finds that entry.
proof fn lemma_probe_finds(
    slots: Seq<DictItem>,
    hash: u64,
    slot: int,
    steps: int,
    tombstone: Option<int>,
)
    requires
        0 <= slot < slots.len(),
        slots[slot].hash() == hash,
        !slots[slot].is_tombstone(),
        reaches(slots, hash, slot),
        0 <= steps <= steps_to(hash as int % slots.len() as int, slot, slots.len() as int),
    ensures
        probe(slots, hash, hash as int % slots.len() as int, steps, tombstone) == slot,
    decreases slots.len() - steps,
{
    let start = hash as int % slots.len() as int;
    let index = slot_after(start, steps, slots.len() as int);
    if steps < steps_to(start, slot, slots.len() as int) {
        assert(steps_to(start, index, slots.len() as int) == steps);
        assert(!slots[index].stops(hash));
        lemma_probe_finds(
            slots,
            hash,
            slot,
            steps + 1,
            if slots[index].is_tombstone() && tombstone is None {
                Some(index)
            } else {
                tombstone
            },
        );
    } else {
        assert(index == slot);
    }
}

/// An entry with a key that a search for its hash gets to is the entry
/// that the search finds.
pub proof fn lemma_found_reached(slots: Seq<DictItem>, slot: int)
    requires
        0 <= slot < slots.len(),
        !slots[slot].vacant(),
        reaches(slots, slots[slot].hash(), slot),
    ensures
        found_slot(slots, slots[slot].hash()) == slot,
{
    lemma_probe_finds(slots, slots[slot].hash(), slot, 0, None);
}

/// The slot that a search finds is one that the search gets to, and its
/// entry has the hash searched for and is no tombstone, or has no key.
proof fn lemma_probe_reaches(
    slots: Seq<DictItem>,
    hash: u64,
    steps: int,
    tombstone: Option<int>,
    end: int,
)
    requires
        slots.len() > 0,
        0 <= steps <= end < slots.len(),
        slots[slot_after(hash as int % slots.len() as int, end, slots.len() as int)].stops(hash),
        forall|t: int|
            0 <= t < slots.len() && steps_to(
                hash as int % slots.len() as int,
                t,
                slots.len() as int,
            ) < steps ==> !(#[trigger] slots[t]).stops(hash),
        tombstone matches Some(earlier) ==> 0 <= earlier < slots.len()
            && slots[earlier].is_tombstone() && steps_to(
            hash as int % slots.len() as int,
            earlier,
            slots.len() as int,
        ) < steps,
    ensures
        ({
            let found = probe(slots, hash, hash as int % slots.len() as int, steps, tombstone);
            &&& 0 <= found < slots.len()
            &&& reaches(slots, hash, found)
            &&& (slots[found].hash() == hash && !slots[found].is_tombstone()) || slots[found].vacant()
        }),
    decreases slots.len() - steps,
{
    let start = hash as int % slots.len() as int;
    let index = slot_after(start, steps, slots.len() as int);
    let entry = slots[index];
    assert(steps_to(start, index, slots.len() as int) == steps);
    if entry.is_tombstone() {
        lemma_probe_reaches(
            slots,
            hash,
            steps + 1,
            if tombstone is None {
                Some(index)
            } else {
                tombstone
            },
            end,
        );
    } else if entry.hash() == hash {
    } else if entry.vacant() {
    } else {
        lemma_probe_reaches(slots, hash, steps + 1, tombstone, end);
    }
}

/// In a table in which a search for `hash` ends, the slot that it finds
/// is one that it gets to, and its entry has that hash and is no
/// tombstone, or has no key.
pub proof fn lemma_found_reaches(slots: Seq<DictItem>, hash: u64)
    requires
        slots.len() > 0,
        search_ends(slots, hash),
    ensures
        0 <= found_slot(slots, hash) < slots.len(),
        reaches(slots, hash, found_slot(slots, hash)),
        (slots[found_slot(slots, hash)].hash() == hash && !slots[found_slot(
            slots,
            hash,
        )].is_tombstone()) || slots[found_slot(slots, hash)].vacant(),
{
    let start = hash as int % slots.len() as int;
    let end_slot = choose|i: int| 0 <= i < slots.len() && (#[trigger] slots[i]).stops(hash);
    let end = steps_to(start, end_slot, slots.len() as int);
    lemma_probe_reaches(slots, hash, 0, None, end);
}

/// Putting an entry with a key into the slot that a search for its
/// hash finds keeps the table chained.
pub proof fn lemma_insert_chained(slots: Seq<DictItem>, item: DictItem)
    requires
        slots.len() > 0,
        chained(slots),
        search_ends(slots, item.hash()),
        !item.vacant(),
    ensures
        chained(slots.update(found_slot(slots, item.hash()), item)),
{
    let hash = item.hash();
    let index = found_slot(slots, hash);
    let after = slots.update(index, item);
    lemma_found_reaches(slots, hash);
    assert forall|s: int| 0 <= s < after.len() && !(#[trigger] after[s]).vacant() implies reaches(
        after,
        after[s].hash(),
        s,
    ) by {
        if s == index {
            assert forall|t: int|
                0 <= t < after.len() && steps_to(
                    hash as int % after.len() as int,
                    t,
                    after.len() as int,
                ) < steps_to(hash as int % after.len() as int, s, after.len() as int) implies !(
            #[trigger] after[t]).stops(hash) by {
                assert(!slots[t].stops(hash));
            }
        } else {
            let other = slots[s].hash();
            assert(reaches(slots, other, s));
            if other == hash {
                lemma_found_reached(slots, s);
            }
            assert forall|t: int|
                0 <= t < after.len() && steps_to(
                    other as int % after.len() as int,
                    t,
                    after.len() as int,
                ) < steps_to(other as int % after.len() as int, s, after.len() as int) implies !(
            #[trigger] after[t]).stops(other) by {
                if t != index {
                    assert(!slots[t].stops(other));
                }
            }
        }
    }
}

/// Making an entry a tombstone keeps the table chained.
pub proof fn lemma_remove_chained(slots: Seq<DictItem>, index: int, tombstone: DictItem)
    requires
        0 <= index < slots.len(),
        chained(slots),
        tombstone.is_tombstone(),
    ensures
        chained(slots.update(index, tombstone)),
{
    let after = slots.update(index, tombstone);
    assert forall|s: int| 0 <= s < after.len() && !(#[trigger] after[s]).vacant() implies reaches(
        after,
        after[s].hash(),
        s,
    ) by {
        let other = slots[s].hash();
        assert(reaches(slots, other, s));
        assert forall|t: int|
            0 <= t < after.len() && steps_to(
                other as int % after.len() as int,
                t,
                after.len() as int,
            ) < steps_to(other as int % after.len() as int, s, after.len() as int) implies !(
        #[trigger] after[t]).stops(other) by {
            if t != index {
                assert(!slots[t].stops(other));
            }
        }
    }
}

/// The number of entries of `slots` that have never been used.
pub open spec fn blank_count(slots: Seq<DictItem>) -> nat
    decreases slots.len(),
{
    if slots.len() == 0 {
        0
    } else {
        blank_count(slots.drop_last()) + if slots.last().is_blank() {
            1nat
        } else {
            0nat
        }
    }
}

/// There are no more blank entries than entries, and where there is
/// one that has never been used, every search ends.
pub proof fn lemma_blank_count(slots: Seq<DictItem>)
    ensures
        blank_count(slots) <= slots.len(),
        blank_count(slots) > 0 ==> exists|i: int|
            0 <= i < slots.len() && (#[trigger] slots[i]).is_blank(),
        blank_count(slots) > 0 ==> forall|hash: u64| search_ends(slots, hash),
        (forall|i: int| 0 <= i < slots.len() ==> (#[trigger] slots[i]).is_blank()) ==> blank_count(
            slots,
        ) == slots.len(),
    decreases slots.len(),
{
    if slots.len() > 0 {
        lemma_blank_count(slots.drop_last());
        if blank_count(slots) > 0 {
            if slots.last().is_blank() {
                assert(slots[slots.len() - 1].is_blank());
            } else {
                let i = choose|i: int|
                    0 <= i < slots.drop_last().len() && (#[trigger] slots.drop_last()[i]).is_blank();
                assert(slots[i].is_blank());
            }
            let i = choose|i: int| 0 <= i < slots.len() && (#[trigger] slots[i]).is_blank();
            assert forall|hash: u64| search_ends(slots, hash) by {
                assert(slots[i].stops(hash));
            }
        }
        if forall|i: int| 0 <= i < slots.len() ==> (#[trigger] slots[i]).is_blank() {
            assert forall|i: int| 0 <= i < slots.drop_last().len() implies (
            #[trigger] slots.drop_last()[i]).is_blank() by {
                assert(slots[i].is_blank());
            }
            assert(slots[slots.len() - 1].is_blank());
        }
    }
}

/// Putting an entry into a slot changes the number of blank entries by
/// what the slot gains or loses.
pub proof fn lemma_blank_count_update(slots: Seq<DictItem>, index: int, item: DictItem)
    requires
        0 <= index < slots.len(),
    ensures
        blank_count(slots.update(index, item)) + (if slots[index].is_blank() {
            1nat
        } else {
            0nat
        }) == blank_count(slots) + if item.is_blank() {
            1nat
        } else {
            0nat
        },
    decreases slots.len(),
{
    let updated = slots.update(index, item);
    if index == slots.len() - 1 {
        assert(updated.drop_last() =~= slots.drop_last());
    } else {
        assert(updated.drop_last() =~= slots.drop_last().update(index, item));
        lemma_blank_count_update(slots.drop_last(), index, item);
    }
}

/// The number of entries with a key among the first `count` entries of `slots`.
pub open spec fn live_upto(slots: Seq<DictItem>, count: int) -> nat
    decreases count,
{
    if count <= 0 {
        0
    } else {
        live_upto(slots, count - 1) + if slots[count - 1].vacant() {
            0nat
        } else {
            1nat
        }
    }
}

/// No entry has a key and has never been used: the entries with a key
/// and those that have never been used are no more than the entries.
pub proof fn lemma_live_and_blank(slots: Seq<DictItem>, count: int)
    requires
        0 <= count <= slots.len(),
    ensures
        live_upto(slots, count) + blank_count(slots.subrange(0, count)) <= count,
        live_upto(slots, count) <= live_upto(slots, slots.len() as int),
    decreases count,
{
    if count > 0 {
        lemma_live_and_blank(slots, count - 1);
        assert(slots.subrange(0, count).drop_last() =~= slots.subrange(0, count - 1));
    }
    lemma_live_and_blank_more(slots, count);
}

/// There are no fewer entries with a key among more entries.
proof fn lemma_live_and_blank_more(slots: Seq<DictItem>, count: int)
    requires
        0 <= count <= slots.len(),
    ensures
        live_upto(slots, count) <= live_upto(slots, slots.len() as int),
    decreases slots.len() - count,
{
    if count < slots.len() {
        lemma_live_and_blank_more(slots, count + 1);
    }
}

/// Putting an entry into a slot changes the number of entries with a
/// key by what the slot gains or loses.
pub proof fn lemma_live_update(slots: Seq<DictItem>, index: int, item: DictItem, count: int)
    requires
        0 <= index < slots.len(),
        0 <= count <= slots.len(),
    ensures
        index < count ==> live_upto(slots.update(index, item), count) + (if slots[index].vacant() {
            0nat
        } else {
            1nat
        }) == live_upto(slots, count) + if item.vacant() {
            0nat
        } else {
            1nat
        },
        index >= count ==> live_upto(slots.update(index, item), count) == live_upto(slots, count),
    decreases count,
{
    if count > 0 {
        lemma_live_update(slots, index, item, count - 1);
    }
}

/// There are no more entries with a key than entries: fewer if some
/// entry has no key, none if none has one, and at least one if one has.
pub proof fn lemma_live_bounds(slots: Seq<DictItem>, count: int)
    requires
        0 <= count <= slots.len(),
    ensures
        live_upto(slots, count) <= count,
        (exists|t: int| 0 <= t < count && (#[trigger] slots[t]).vacant()) ==> live_upto(
            slots,
            count,
        ) < count,
        (exists|t: int| 0 <= t < count && !(#[trigger] slots[t]).vacant()) ==> live_upto(
            slots,
            count,
        ) > 0,
        (forall|t: int| 0 <= t < count ==> (#[trigger] slots[t]).vacant()) ==> live_upto(
            slots,
            count,
        ) == 0,
    decreases count,
{
    if count > 0 {
        lemma_live_bounds(slots, count - 1);
        if exists|t: int| 0 <= t < count && (#[trigger] slots[t]).vacant() {
            let t = choose|t: int| 0 <= t < count && (#[trigger] slots[t]).vacant();
            if t < count - 1 {
                assert(slots[t].vacant());
            }
        }
        if exists|t: int| 0 <= t < count && !(#[trigger] slots[t]).vacant() {
            let t = choose|t: int| 0 <= t < count && !(#[trigger] slots[t]).vacant();
            if t < count - 1 {
                assert(!slots[t].vacant());
            }
        }
        if forall|t: int| 0 <= t < count ==> (#[trigger] slots[t]).vacant() {
            assert(slots[count - 1].vacant());
        }
    }
}

/// What a table of entries stands for: for each hash of an entry with a
/// key, the entry that a search for the hash finds.
pub open spec fn model(slots: Seq<DictItem>) -> Map<u64, DictItem> {
    Map::new(
        |hash: u64|
            exists|s: int|
                0 <= s < slots.len() && !(#[trigger] slots[s]).vacant() && slots[s].hash() == hash,
        |hash: u64| slots[found_slot(slots, hash)],
    )
}

/// In a chained table in which every search ends, a hash has an entry
/// if and only if the entry that a search for it finds has a key.
pub proof fn lemma_model_found(slots: Seq<DictItem>, hash: u64)
    requires
        slots.len() > 0,
        chained(slots),
        search_ends(slots, hash),
    ensures
        model(slots).dom().contains(hash) <==> !slots[found_slot(slots, hash)].vacant(),
        model(slots).dom().contains(hash) ==> model(slots)[hash].hash() == hash,
{
    lemma_found_reaches(slots, hash);
    if model(slots).dom().contains(hash) {
        let s = choose|s: int|
            0 <= s < slots.len() && !(#[trigger] slots[s]).vacant() && slots[s].hash() == hash;
        lemma_found_reached(slots, s);
    } else if !slots[found_slot(slots, hash)].vacant() {
        assert(!slots[found_slot(slots, hash)].vacant() && slots[found_slot(slots, hash)].hash()
            == hash);
    }
}

/// Putting an entry with a key into the slot that a search for its
/// hash finds makes the table stand for the entry at its hash, and for
/// what it stood for at every other hash.
pub proof fn lemma_insert_model(slots: Seq<DictItem>, item: DictItem)
    requires
        slots.len() > 0,
        chained(slots),
        search_ends(slots, item.hash()),
        !item.vacant(),
    ensures
        model(slots.update(found_slot(slots, item.hash()), item)) == model(slots).insert(
            item.hash(),
            item,
        ),
{
    let hash = item.hash();
    let index = found_slot(slots, hash);
    let after = slots.update(index, item);
    lemma_found_reaches(slots, hash);
    lemma_insert_chained(slots, item);
    assert forall|other: u64| #[trigger]
        model(after).dom().contains(other) == model(slots).insert(hash, item).dom().contains(
            other,
        ) by {
        if model(after).dom().contains(other) && other != hash {
            let s = choose|s: int|
                0 <= s < after.len() && !(#[trigger] after[s]).vacant() && after[s].hash() == other;
            assert(!slots[s].vacant() && slots[s].hash() == other);
        }
        if model(slots).dom().contains(other) && other != hash {
            let s = choose|s: int|
                0 <= s < slots.len() && !(#[trigger] slots[s]).vacant() && slots[s].hash() == other;
            if s == index {
                lemma_found_reached(slots, s);
            }
            assert(!after[s].vacant() && after[s].hash() == other);
        }
        if other == hash {
            assert(!after[index].vacant() && after[index].hash() == hash);
        }
    }
    assert forall|other: u64| model(after).dom().contains(other) implies #[trigger] model(
        after,
    )[other] == model(slots).insert(hash, item)[other] by {
        let s = choose|s: int|
            0 <= s < after.len() && !(#[trigger] after[s]).vacant() && after[s].hash() == other;
        lemma_found_reached(after, s);
        if other != hash {
            assert(!slots[s].vacant() && slots[s].hash() == other);
            lemma_found_reached(slots, s);
        } else {
            lemma_found_reached(after, index);
        }
    }
    assert(model(after) =~= model(slots).insert(hash, item));
}

/// Making the entry that a search for `hash` finds a tombstone makes
/// the table stand for nothing at that hash, and for what it stood
/// for at every other hash.
pub proof fn lemma_remove_model(slots: Seq<DictItem>, hash: u64, tombstone: DictItem)
    requires
        slots.len() > 0,
        chained(slots),
        search_ends(slots, hash),
        !slots[found_slot(slots, hash)].vacant(),
        tombstone.is_tombstone(),
    ensures
        model(slots.update(found_slot(slots, hash), tombstone)) == model(slots).remove(hash),
{
    let index = found_slot(slots, hash);
    let after = slots.update(index, tombstone);
    lemma_found_reaches(slots, hash);
    lemma_remove_chained(slots, index, tombstone);
    assert forall|other: u64| #[trigger]
        model(after).dom().contains(other) == model(slots).remove(hash).dom().contains(other) by {
        if model(after).dom().contains(other) {
            let s = choose|s: int|
                0 <= s < after.len() && !(#[trigger] after[s]).vacant() && after[s].hash() == other;
            assert(!slots[s].vacant() && slots[s].hash() == other);
            if other == hash {
                lemma_found_reached(slots, s);
            }
        }
        if model(slots).dom().contains(other) && other != hash {
            let s = choose|s: int|
                0 <= s < slots.len() && !(#[trigger] slots[s]).vacant() && slots[s].hash() == other;
            assert(!after[s].vacant() && after[s].hash() == other);
        }
    }
    assert forall|other: u64| model(after).dom().contains(other) implies #[trigger] model(
        after,
    )[other] == model(slots).remove(hash)[other] by {
        let s = choose|s: int|
            0 <= s < after.len() && !(#[trigger] after[s]).vacant() && after[s].hash() == other;
        lemma_found_reached(after, s);
        assert(!slots[s].vacant() && slots[s].hash() == other);
        lemma_found_reached(slots, s);
    }
    assert(model(after) =~= model(slots).remove(hash));
}

/// Whether a table with the entries `slots` is the table of a
/// dictionary of `len` keys that counts `used` of its slots as used: no
/// more than four fifths of the slots count as used, each slot that does
/// not count as used has never been used, each entry with a key is the
/// one that a search for its hash finds, and `len` is the number of
/// entries with a key.
pub open spec fn table_wf(slots: Seq<DictItem>, len: int, used: int) -> bool {
    &&& 0 <= used
    &&& 5 * used <= 4 * slots.len()
    &&& blank_count(slots) + used >= slots.len()
    &&& chained(slots)
    &&& len == live_upto(slots, slots.len() as int)
}

/// In the table of a dictionary every search ends, and there are no
/// more keys than slots.
pub proof fn lemma_table(slots: Seq<DictItem>, len: int, used: int)
    requires
        slots.len() > 0,
        table_wf(slots, len, used),
    ensures
        forall|hash: u64| search_ends(slots, hash),
        0 <= len <= slots.len(),
{
    lemma_blank_count(slots);
    lemma_live_bounds(slots, slots.len() as int);
}

/// Putting an entry with a key into the slot that a search for its hash
/// finds, in the table of a dictionary with room for one entry more,
/// gives the table of a dictionary with that entry at its hash: with
/// one key more if the slot had no key, and with one slot more that
/// counts as used if the slot had never been used.
pub proof fn lemma_insert_table(slots: Seq<DictItem>, len: int, used: int, item: DictItem)
    requires
        slots.len() > 0,
        table_wf(slots, len, used),
        5 * (used + 1) <= 4 * slots.len(),
        !item.vacant(),
    ensures
        ({
            let index = found_slot(slots, item.hash());
            &&& 0 <= index < slots.len()
            &&& slots[index].vacant() ==> len < slots.len()
            &&& table_wf(
                slots.update(index, item),
                len + if slots[index].vacant() {
                    1int
                } else {
                    0int
                },
                used + if slots[index].is_blank() {
                    1int
                } else {
                    0int
                },
            )
            &&& model(slots.update(index, item)) == model(slots).insert(item.hash(), item)
            &&& slots[index].hash() == item.hash() || slots[index].vacant()
        }),
{
    lemma_table(slots, len, used);
    let index = found_slot(slots, item.hash());
    lemma_found_reaches(slots, item.hash());
    lemma_insert_chained(slots, item);
    lemma_insert_model(slots, item);
    lemma_blank_count_update(slots, index, item);
    lemma_live_update(slots, index, item, slots.len() as int);
    lemma_live_bounds(slots, slots.len() as int);
    if slots[index].vacant() {
        assert(slots[index].vacant());
    }
}

/// Making the entry with a key that a search for `hash` finds a
/// tombstone, in the table of a dictionary, gives the table of a
/// dictionary with one key less, and nothing at that hash.
pub proof fn lemma_remove_table(
    slots: Seq<DictItem>,
    len: int,
    used: int,
    hash: u64,
    tombstone: DictItem,
)
    requires
        slots.len() > 0,
        table_wf(slots, len, used),
        !slots[found_slot(slots, hash)].vacant(),
        tombstone.is_tombstone(),
    ensures
        len > 0,
        table_wf(slots.update(found_slot(slots, hash), tombstone), len - 1, used),
        model(slots.update(found_slot(slots, hash), tombstone)) == model(slots).remove(hash),
        model(slots).dom().contains(hash),
        model(slots)[hash] == slots[found_slot(slots, hash)],
{
    lemma_table(slots, len, used);
    let index = found_slot(slots, hash);
    lemma_found_reaches(slots, hash);
    lemma_remove_chained(slots, index, tombstone);
    lemma_remove_model(slots, hash, tombstone);
    lemma_model_found(slots, hash);
    lemma_blank_count_update(slots, index, tombstone);
    lemma_live_update(slots, index, tombstone, slots.len() as int);
    lemma_live_bounds(slots, slots.len() as int);
    assert(!slots[index].vacant());
}

/// A table of entries that have never been used is the table of a
/// dictionary with no keys that counts none of its slots as used, and
/// stands for nothing.
pub proof fn lemma_blank_table(slots: Seq<DictItem>)
    requires
        forall|i: int| 0 <= i < slots.len() ==> (#[trigger] slots[i]).is_blank(),
    ensures
        table_wf(slots, 0, 0),
        model(slots) == Map::<u64, DictItem>::empty(),
{
    lemma_blank_count(slots);
    lemma_live_bounds(slots, slots.len() as int);
    assert(model(slots) =~= Map::<u64, DictItem>::empty());
}

/// What the first `count` entries of `slots` stand for.
pub open spec fn model_upto(slots: Seq<DictItem>, count: int) -> Map<u64, DictItem> {
    Map::new(
        |hash: u64|
            exists|s: int|
                0 <= s < count && s < slots.len() && !(#[trigger] slots[s]).vacant() && slots[s].hash()
                    == hash,
        |hash: u64| slots[found_slot(slots, hash)],
    )
}

/// Whether `table` is what the entries with a key among the first
/// `count` entries of the chained table `slots` have been put into, one
/// by one, from a table of entries that had never been used.
pub open spec fn rehashed(table: Seq<DictItem>, slots: Seq<DictItem>, count: int) -> bool {
    &&& table_wf(table, live_upto(slots, count) as int, live_upto(slots, count) as int)
    &&& model(table) == model_upto(slots, count)
    &&& forall|t: int| 0 <= t < table.len() && (#[trigger] table[t]).vacant() ==> table[t].is_blank()
}

/// Putting the next entry of `slots` into `table`, if it has a key,
/// goes on with what `rehashed` says.
pub proof fn lemma_rehash_step(table: Seq<DictItem>, slots: Seq<DictItem>, count: int)
    requires
        0 <= count < slots.len(),
        slots.len() < table.len(),
        chained(slots),
        rehashed(table, slots, count),
        5 * live_upto(slots, slots.len() as int) <= 4 * slots.len(),
    ensures
        slots[count].vacant() ==> rehashed(table, slots, count + 1),
        !slots[count].vacant() ==> {
            let index = found_slot(table, slots[count].hash());
            &&& 0 <= index < table.len()
            &&& search_ends(table, slots[count].hash())
            &&& rehashed(table.update(index, slots[count]), slots, count + 1)
        },
{
    let item = slots[count];
    lemma_live_and_blank(slots, count + 1);
    if item.vacant() {
        assert(model_upto(slots, count + 1) =~= model_upto(slots, count));
    } else {
        let hash = item.hash();
        let live = live_upto(slots, count) as int;
        lemma_table(table, live, live);
        lemma_insert_table(table, live, live, item);
        let index = found_slot(table, hash);
        let after = table.update(index, item);
        // the entry has a hash of its own: the slot found has no key
        lemma_model_found(table, hash);
        if !table[index].vacant() {
            assert(model_upto(slots, count).dom().contains(hash));
            let s = choose|s: int|
                0 <= s < count && s < slots.len() && !(#[trigger] slots[s]).vacant()
                    && slots[s].hash() == hash;
            lemma_found_reached(slots, s);
            lemma_found_reached(slots, count);
        }
        lemma_found_reached(slots, count);
        assert(model_upto(slots, count + 1) =~= model_upto(slots, count).insert(hash, item)) by {
            assert forall|other: u64| #[trigger]
                model_upto(slots, count + 1).dom().contains(other) == model_upto(
                    slots,
                    count,
                ).insert(hash, item).dom().contains(other) by {
                if model_upto(slots, count + 1).dom().contains(other) {
                    let s = choose|s: int|
                        0 <= s < count + 1 && s < slots.len() && !(#[trigger] slots[s]).vacant()
                            && slots[s].hash() == other;
                    if s < count {
                        assert(!slots[s].vacant() && slots[s].hash() == other);
                    }
                }
                if model_upto(slots, count).dom().contains(other) {
                    let s = choose|s: int|
                        0 <= s < count && s < slots.len() && !(#[trigger] slots[s]).vacant()
                            && slots[s].hash() == other;
                    assert(!slots[s].vacant() && slots[s].hash() == other);
                }
                if other == hash {
                    assert(!slots[count].vacant() && slots[count].hash() == hash);
                }
            }
        }
    }
}

/// What all the entries of a table stand for is what the table stands for.
pub proof fn lemma_model_all(slots: Seq<DictItem>)
    ensures
        model_upto(slots, slots.len() as int) == model(slots),
{
    assert(model_upto(slots, slots.len() as int) =~= model(slots));
}

/// The table `table` after the entries of `entries` from the index
/// `next` on that have a key have been put into it, each into the slot
/// that a search for its hash finds.
pub open spec fn rehash_into(table: Seq<DictItem>, entries: Seq<DictItem>, next: int) -> Seq<
    DictItem,
>
    decreases entries.len() - next,
{
    if next < 0 || next >= entries.len() {
        table
    } else if entries[next].vacant() {
        rehash_into(table, entries, next + 1)
    } else {
        rehash_into(
            table.update(found_slot(table, entries[next].hash()), entries[next]),
            entries,
            next + 1,
        )
    }
}

/// The table that a table with the entries `slots` grows into: a table
/// of the grown capacity that holds the entries of `slots` that have a key.
pub open spec fn grown_slots(slots: Seq<DictItem>) -> Seq<DictItem> {
    rehash_into(
        Seq::new(grown_capacity(slots.len() as u32) as nat, |i: int| DictItem::spec_blank()),
        slots,
        0,
    )
}

/// The slot that a search finds in a table in which the search ends
/// is a slot of the table.
pub proof fn lemma_found_slot(slots: Seq<DictItem>, hash: u64)
    requires
        slots.len() > 0,
        search_ends(slots, hash),
    ensures
        0 <= found_slot(slots, hash) < slots.len(),
        slots[found_slot(slots, hash)].hash() == hash || slots[found_slot(slots, hash)].vacant(),
{
    let start = hash as int % slots.len() as int;
    let end_slot = choose|i: int| 0 <= i < slots.len() && (#[trigger] slots[i]).stops(hash);
    let end = if end_slot >= start {
        end_slot - start
    } else {
        end_slot - start + slots.len()
    };
    lemma_probe(slots, hash, start, 0, None, end);
}

} // verus!
