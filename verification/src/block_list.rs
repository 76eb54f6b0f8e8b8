//! The blocks of a heap and the parts they play.

use vstd::prelude::*;
use vstd::pervasive::unreached;
use crate::address_space::AddressSpace;
use crate::block_meta::lines_free;
use crate::bump_block::{bump, BumpBlock};
use crate::constants::{
    align_down, lemma_align_down_bounds, lemma_line_aligned_is_word_aligned, BLOCK_CAPACITY, BLOCK_SIZE, LINE_COUNT, WORD_SIZE,
};
use crate::errors::AllocError;

verus! {

/// Every block that was ever created, in the order of creation, and the
/// part that each plays: the head block takes small objects and the medium
/// objects that fit its current hole, the overflow block takes the other
/// medium objects, and the rest are retired.
///
/// The blocks lie one after another in the address space, so the block that
/// an address falls in is found by division.
pub struct BlockList {
    blocks: Vec<BumpBlock>,
    head: Option<usize>,
    overflow: Option<usize>,
    rest: Vec<usize>,
    space: AddressSpace,
}

/// The two blocks that take allocations.
#[derive(Copy, Clone, Debug, PartialEq, Eq, Structural)]
pub enum Slot {
    Head,
    Overflow,
}

impl BlockList {
    /// The blocks, in the order in which they were created.
    pub closed spec fn blocks(self) -> Seq<BumpBlock> {
        self.blocks@
    }

    /// The index of the head block.
    pub closed spec fn head(self) -> Option<usize> {
        self.head
    }

    /// The index of the overflow block.
    pub closed spec fn overflow(self) -> Option<usize> {
        self.overflow
    }

    /// The indices of the retired blocks, in the order in which they were retired.
    pub closed spec fn rest(self) -> Seq<usize> {
        self.rest@
    }

    /// The address space that new blocks are taken from.
    pub closed spec fn space(self) -> AddressSpace {
        self.space
    }

    /// The index of the block in `slot`.
    pub open spec fn slot(self, slot: Slot) -> Option<usize> {
        match slot {
            Slot::Head => self.head(),
            Slot::Overflow => self.overflow(),
        }
    }

    /// The address of the first block.
    pub open spec fn origin(self) -> int {
        if self.blocks().len() > 0 {
            self.blocks()[0].base()
        } else {
            0
        }
    }

    /// Whether the block `index` is the head, the overflow block or a retired block.
    pub open spec fn reachable(self, index: int) -> bool {
        ||| self.head() == Some(index as usize)
        ||| self.overflow() == Some(index as usize)
        ||| self.rest().contains(index as usize)
    }

    /// The blocks are well-formed and lie one after another from the
    /// origin, where the used part of the address space ends with the last
    /// of them. Every block is reachable through exactly one of the head,
    /// the overflow slot and the list of retired blocks.
    pub open spec fn wf(self) -> bool {
        &&& self.space().wf()
        &&& forall|i: int|
            0 <= i < self.blocks().len() ==> {
                &&& (#[trigger] self.blocks()[i]).wf()
                &&& self.blocks()[i].base() == self.origin() + i * BLOCK_SIZE
            }
        &&& self.blocks().len() > 0 ==> {
            &&& self.space().next() == self.origin() + self.blocks().len() * BLOCK_SIZE
            &&& self.space().start() <= self.origin()
        }
        &&& self.head() matches Some(h) ==> h < self.blocks().len()
        &&& self.overflow() matches Some(o) ==> o < self.blocks().len() && self.head() != Some(o)
        &&& forall|j: int|
            0 <= j < self.rest().len() ==> {
                &&& (#[trigger] self.rest()[j]) < self.blocks().len()
                &&& self.head() != Some(self.rest()[j])
                &&& self.overflow() != Some(self.rest()[j])
            }
        &&& forall|j: int, k: int|
            0 <= j < k < self.rest().len() ==> #[trigger] self.rest()[j] != #[trigger] self.rest()[k]
        &&& forall|i: int| 0 <= i < self.blocks().len() ==> #[trigger] self.reachable(i)
    }

    /// Whether `new` is `old` after the block `index` has served an
    /// allocation of `alloc_size` bytes at the address `ptr`: that block
    /// has moved its hole as `bump` says, and but for its bytes, of which
    /// this says nothing, nothing has changed.
    pub open spec fn served_by(
        old: BlockList,
        new: BlockList,
        index: int,
        alloc_size: int,
        ptr: int,
    ) -> bool {
        &&& 0 <= index < old.blocks().len()
        &&& new.blocks().len() == old.blocks().len()
        &&& forall|i: int|
            0 <= i < old.blocks().len() && i != index ==> (#[trigger] new.blocks()[i]).same_shape(
                old.blocks()[i],
            )
        &&& bump(
            old.blocks()[index].cursor(),
            old.blocks()[index].limit(),
            old.blocks()[index].marks(),
            alloc_size,
        ) == Some((new.blocks()[index].cursor(), new.blocks()[index].limit()))
        &&& new.blocks()[index].base() == old.blocks()[index].base()
        &&& new.blocks()[index].marks() == old.blocks()[index].marks()
        &&& ptr == new.blocks()[index].base() + new.blocks()[index].cursor()
        &&& new.blocks()[index].cursor() + alloc_size <= old.blocks()[index].cursor()
        &&& new.head() == old.head()
        &&& new.overflow() == old.overflow()
        &&& new.rest() == old.rest()
        &&& new.space() == old.space()
    }

    /// Whether `new` is `old` after a fresh block has been put into `slot`
    /// and has served an allocation of `alloc_size` bytes at the address
    /// `ptr`: the block that was in the slot, if any, is retired, the fresh
    /// block is the last of the blocks and holds the allocation at the top
    /// of its capacity, and no other block has changed. Of the bytes of the
    /// fresh block this says nothing.
    pub open spec fn served_fresh(
        old: BlockList,
        new: BlockList,
        slot: Slot,
        alloc_size: int,
        ptr: int,
    ) -> bool {
        let index = old.blocks().len() as int;
        &&& old.space().fits(BLOCK_SIZE as int)
        &&& new.blocks().len() == index + 1
        &&& forall|i: int|
            0 <= i < index ==> (#[trigger] new.blocks()[i]).same_shape(old.blocks()[i])
        &&& new.blocks()[index].cursor() == align_down(BLOCK_CAPACITY - alloc_size)
        &&& new.blocks()[index].limit() == 0
        &&& lines_free(new.blocks()[index].marks(), 0, LINE_COUNT as int)
        &&& ptr == new.blocks()[index].base() + new.blocks()[index].cursor()
        &&& new.slot(slot) == Some(index as usize)
        &&& match slot {
            Slot::Head => new.overflow() == old.overflow(),
            Slot::Overflow => new.head() == old.head(),
        }
        &&& new.rest() == match old.slot(slot) {
            Some(retired) => old.rest().push(retired),
            None => old.rest(),
        }
        &&& new.space().start() == old.space().start()
        &&& new.space().end() == old.space().end()
    }

    /// Whether the block in `slot`, if there is one, can take `alloc_size` bytes.
    pub open spec fn slot_can_take(self, slot: Slot, alloc_size: int) -> bool {
        match self.slot(slot) {
            Some(index) => bump(
                self.blocks()[index as int].cursor(),
                self.blocks()[index as int].limit(),
                self.blocks()[index as int].marks(),
                alloc_size,
            ) is Some,
            None => false,
        }
    }

    /// What an allocation of `alloc_size` bytes through `slot` does: the
    /// block in the slot serves it if it can; else a fresh block is put
    /// into the slot and serves it; if the address space has no room for
    /// one, the allocation fails with `OOM` and nothing changes.
    pub open spec fn slot_alloc_spec(
        old: BlockList,
        new: BlockList,
        slot: Slot,
        alloc_size: int,
        r: Result<usize, AllocError>,
    ) -> bool {
        if old.slot_can_take(slot, alloc_size) {
            r matches Ok(ptr) && Self::served_by(
                old,
                new,
                old.slot(slot)->0 as int,
                alloc_size,
                ptr as int,
            )
        } else if old.space().fits(BLOCK_SIZE as int) {
            r matches Ok(ptr) && Self::served_fresh(old, new, slot, alloc_size, ptr as int)
        } else {
            r == Err::<usize, AllocError>(AllocError::OOM) && Self::same(old, new)
        }
    }

    /// The index of the block that the address `addr` falls in, if it falls in one.
    #[verifier::opaque]
    pub open spec fn block_of(self, addr: int) -> int {
        (addr - self.origin()) / (BLOCK_SIZE as int)
    }

    /// The offset of the address `addr` in its block.
    #[verifier::opaque]
    pub open spec fn offset_of(addr: int) -> int {
        addr % (BLOCK_SIZE as int)
    }

    /// Whether `addr` is the address of a byte that can hold part of an
    /// object: it falls in one of the blocks, below the line marks.
    pub open spec fn mapped(self, addr: int) -> bool {
        &&& self.blocks().len() > 0
        &&& self.origin() <= addr < self.origin() + self.blocks().len() * BLOCK_SIZE
        &&& Self::offset_of(addr) < BLOCK_CAPACITY
    }

    /// The byte at the address `addr`.
    pub open spec fn byte(self, addr: int) -> u8
        recommends
            self.mapped(addr),
    {
        self.blocks()[self.block_of(addr)].bytes()[Self::offset_of(addr)]
    }

    /// Whether the byte at `addr` has been handed out: it lies at or above
    /// the cursor of its block.
    pub open spec fn used(self, addr: int) -> bool {
        &&& self.mapped(addr)
        &&& Self::offset_of(addr) >= self.blocks()[self.block_of(addr)].cursor()
    }

    /// Whether the `len` bytes from `addr` on are mapped and lie in one block.
    pub open spec fn mapped_range(self, addr: int, len: int) -> bool {
        &&& len >= 0
        &&& self.mapped(addr)
        &&& Self::offset_of(addr) + len <= BLOCK_CAPACITY
    }

    /// Whether the `len` bytes from `addr` on lie in one block and have been handed out.
    pub open spec fn used_range(self, addr: int, len: int) -> bool {
        &&& self.mapped_range(addr, len)
        &&& self.used(addr)
    }

    /// The `len` bytes from `addr` on.
    pub open spec fn bytes(self, addr: int, len: int) -> Seq<u8>
        recommends
            self.mapped_range(addr, len),
    {
        Seq::new(len as nat, |i: int| self.byte(addr + i))
    }

    /// Whether every byte that was mapped in `old` is mapped in `new` and
    /// holds what it held, and every other byte that is mapped in `new` is zero.
    pub open spec fn bytes_kept(old: BlockList, new: BlockList) -> bool {
        &&& forall|addr: int| #[trigger] old.mapped(addr) ==> new.mapped(addr)
        &&& forall|addr: int| #[trigger]
            new.mapped(addr) ==> new.byte(addr) == if old.mapped(addr) {
                old.byte(addr)
            } else {
                0u8
            }
    }

    /// Whether every byte that had been handed out in `old` still counts as handed out in `new`.
    pub open spec fn used_kept(old: BlockList, new: BlockList) -> bool {
        forall|addr: int| #[trigger] old.used(addr) ==> new.used(addr)
    }

    /// Whether the `len` bytes from `ptr` on, none of which had been
    /// handed out in `old`, are handed out in `new`, in one block and from a word boundary on.
    pub open spec fn newly_used(old: BlockList, new: BlockList, ptr: int, len: int) -> bool {
        &&& ptr > 0
        &&& ptr % (WORD_SIZE as int) == 0
        &&& len > 0 ==> new.used_range(ptr, len)
        &&& forall|addr: int| ptr <= addr < ptr + len ==> !#[trigger] old.used(addr)
    }

    /// What an allocation does to the memory, whichever block serves it:
    /// it hands out bytes that had not been handed out, and leaves every
    /// byte as it was.
    pub open spec fn alloc_effect(
        old: BlockList,
        new: BlockList,
        alloc_size: int,
        r: Result<usize, AllocError>,
    ) -> bool {
        &&& Self::bytes_kept(old, new)
        &&& Self::used_kept(old, new)
        &&& r matches Ok(ptr) ==> Self::newly_used(old, new, ptr as int, alloc_size)
    }

    /// Whether each block of `old` holds the same bytes in `new`, and a
    /// block that `new` has beyond those of `old` holds zeros only.
    pub open spec fn block_bytes_kept(old: BlockList, new: BlockList) -> bool {
        &&& old.blocks().len() <= new.blocks().len()
        &&& forall|i: int|
            0 <= i < new.blocks().len() ==> (#[trigger] new.blocks()[i]).bytes() == if i
                < old.blocks().len() {
                old.blocks()[i].bytes()
            } else {
                Seq::new(BLOCK_SIZE as nat, |k: int| 0u8)
            }
    }

    /// An allocation through a slot leaves each block that there was
    /// where it was.
    proof fn lemma_alloc_origin(
        old: BlockList,
        new: BlockList,
        slot: Slot,
        alloc_size: int,
        r: Result<usize, AllocError>,
    )
        requires
            old.wf(),
            new.wf(),
            0 <= alloc_size,
            Self::slot_alloc_spec(old, new, slot, alloc_size, r),
        ensures
            old.blocks().len() <= new.blocks().len(),
            forall|i: int|
                0 <= i < old.blocks().len() ==> (#[trigger] new.blocks()[i]).base()
                    == old.blocks()[i].base(),
            forall|i: int|
                0 <= i < old.blocks().len() ==> (#[trigger] new.blocks()[i]).cursor()
                    <= old.blocks()[i].cursor(),
            old.blocks().len() > 0 ==> new.origin() == old.origin(),
            forall|addr: int| #[trigger] old.mapped(addr) ==> new.mapped(addr),
            old.blocks().len() > 0 ==> forall|addr: int| #[trigger]
                old.block_of(addr) == new.block_of(addr),
    {
        assert forall|i: int| 0 <= i < old.blocks().len() implies (#[trigger] new.blocks()[i]).base()
            == old.blocks()[i].base() && new.blocks()[i].cursor() <= old.blocks()[i].cursor() by {
            if old.slot_can_take(slot, alloc_size) {
                let index = old.slot(slot)->0 as int;
                if i != index {
                    assert(new.blocks()[i].same_shape(old.blocks()[i]));
                }
            } else {
                assert(new.blocks()[i].same_shape(old.blocks()[i]));
            }
        }
        if old.blocks().len() > 0 {
            assert(new.blocks()[0].base() == old.blocks()[0].base());
            old.lemma_same_origin(new);
        }
    }

    /// An allocation through a slot that leaves the bytes of the blocks
    /// alone leaves every byte of the memory alone.
    proof fn lemma_alloc_bytes_kept(
        old: BlockList,
        new: BlockList,
        slot: Slot,
        alloc_size: int,
        r: Result<usize, AllocError>,
    )
        requires
            old.wf(),
            new.wf(),
            0 <= alloc_size,
            Self::slot_alloc_spec(old, new, slot, alloc_size, r),
            Self::block_bytes_kept(old, new),
        ensures
            Self::bytes_kept(old, new),
    {
        Self::lemma_alloc_origin(old, new, slot, alloc_size, r);
        assert forall|addr: int| #[trigger] new.mapped(addr) implies new.byte(addr) == if old.mapped(
            addr,
        ) {
            old.byte(addr)
        } else {
            0u8
        } by {
            new.lemma_mapped(addr);
            if old.mapped(addr) {
                old.lemma_mapped(addr);
            }
        }
    }

    /// An allocation through a slot takes nothing back that had been handed out.
    proof fn lemma_alloc_used_kept(
        old: BlockList,
        new: BlockList,
        slot: Slot,
        alloc_size: int,
        r: Result<usize, AllocError>,
    )
        requires
            old.wf(),
            new.wf(),
            0 <= alloc_size,
            Self::slot_alloc_spec(old, new, slot, alloc_size, r),
        ensures
            Self::used_kept(old, new),
    {
        Self::lemma_alloc_origin(old, new, slot, alloc_size, r);
        assert forall|addr: int| #[trigger] old.used(addr) implies new.used(addr) by {
            old.lemma_mapped(addr);
            assert(new.blocks()[old.block_of(addr)].cursor() <= old.blocks()[old.block_of(
                addr,
            )].cursor());
        }
    }

    /// The bytes that an allocation through a slot returns had not
    /// been handed out, and now are.
    proof fn lemma_alloc_newly_used(
        old: BlockList,
        new: BlockList,
        slot: Slot,
        alloc_size: int,
        ptr: usize,
    )
        requires
            old.wf(),
            new.wf(),
            0 <= alloc_size <= BLOCK_CAPACITY,
            Self::slot_alloc_spec(old, new, slot, alloc_size, Ok(ptr)),
        ensures
            Self::newly_used(old, new, ptr as int, alloc_size),
    {
        Self::lemma_alloc_origin(old, new, slot, alloc_size, Ok(ptr));
        let index = if old.slot_can_take(slot, alloc_size) {
            old.slot(slot)->0 as int
        } else {
            old.blocks().len() as int
        };
        let block = new.blocks()[index];
        block.lemma_wf();
        lemma_line_aligned_is_word_aligned(block.base());
        lemma_align_down_bounds(BLOCK_CAPACITY - alloc_size, 0);
        if old.slot_can_take(slot, alloc_size) {
            old.blocks()[index].lemma_wf();
        }
        assert(ptr == block.base() + block.cursor());
        assert(block.cursor() + alloc_size <= BLOCK_CAPACITY);
        if alloc_size > 0 {
            new.lemma_locate(index, block.cursor());
        }
        assert forall|addr: int| ptr <= addr < ptr + alloc_size implies !#[trigger] old.used(
            addr,
        ) by {
            new.lemma_locate(index, addr - block.base());
            if old.mapped(addr) {
                old.lemma_mapped(addr);
            }
        }
    }

    /// An allocation through a slot that leaves the bytes of the blocks
    /// alone has the effect of an allocation on the memory.
    proof fn lemma_alloc_effect(
        old: BlockList,
        new: BlockList,
        slot: Slot,
        alloc_size: int,
        r: Result<usize, AllocError>,
    )
        requires
            old.wf(),
            new.wf(),
            0 <= alloc_size <= BLOCK_CAPACITY,
            Self::slot_alloc_spec(old, new, slot, alloc_size, r),
            Self::block_bytes_kept(old, new),
        ensures
            Self::alloc_effect(old, new, alloc_size, r),
    {
        Self::lemma_alloc_bytes_kept(old, new, slot, alloc_size, r);
        Self::lemma_alloc_used_kept(old, new, slot, alloc_size, r);
        if r is Ok {
            Self::lemma_alloc_newly_used(old, new, slot, alloc_size, r->Ok_0);
        }
    }

    /// An address in the block `index`, at `offset` from its base, falls
    /// in that block at that offset.
    pub proof fn lemma_locate(self, index: int, offset: int)
        requires
            self.wf(),
            0 <= index < self.blocks().len(),
            0 <= offset < BLOCK_SIZE,
        ensures
            self.block_of(self.blocks()[index].base() + offset) == index,
            Self::offset_of(self.blocks()[index].base() + offset) == offset,
            self.origin() % (BLOCK_SIZE as int) == 0,
            self.origin() > 0,
    {
        reveal(BlockList::block_of);
        reveal(BlockList::offset_of);
        self.blocks()[0].lemma_wf();
        self.blocks()[index].lemma_wf();
        let origin = self.origin();
        let addr = origin + index * BLOCK_SIZE + offset;
        assert(addr - origin == index * BLOCK_SIZE + offset);
        assert((index * BLOCK_SIZE + offset) / (BLOCK_SIZE as int) == index);
        assert(addr % (BLOCK_SIZE as int) == offset);
    }

    /// The bytes of a mapped range are mapped one by one, in the block
    /// of the first of them and at the offsets that follow its offset.
    pub proof fn lemma_range(self, addr: int, len: int, k: int)
        requires
            self.wf(),
            self.mapped_range(addr, len),
            0 <= k < len,
        ensures
            self.mapped(addr + k),
            self.block_of(addr + k) == self.block_of(addr),
            Self::offset_of(addr + k) == Self::offset_of(addr) + k,
            self.mapped_range(addr + k, len - k),
            self.used(addr) ==> self.used(addr + k),
    {
        self.lemma_mapped(addr);
        self.lemma_locate(self.block_of(addr), Self::offset_of(addr) + k);
        self.blocks()[0].lemma_wf();
    }

    /// The offset of an address in its block is the same in every list.
    pub proof fn lemma_offset_of_same(old: BlockList, new: BlockList, addr: int)
        ensures
            old.mapped_range(addr, 0) && new.mapped(addr) ==> new.mapped_range(addr, 0),
            forall|len: int|
                old.mapped_range(addr, len) && new.mapped(addr) ==> #[trigger] new.mapped_range(
                    addr,
                    len,
                ),
    {
    }

    /// Two lists with the same origin find an address in the same block.
    pub proof fn lemma_same_origin(self, other: BlockList)
        requires
            self.origin() == other.origin(),
        ensures
            forall|addr: int| #[trigger] self.block_of(addr) == other.block_of(addr),
    {
        reveal(BlockList::block_of);
    }

    /// A mapped address falls in one of the blocks, at an offset below the capacity.
    pub proof fn lemma_mapped(self, addr: int)
        requires
            self.wf(),
            self.mapped(addr),
        ensures
            0 <= self.block_of(addr) < self.blocks().len(),
            0 <= Self::offset_of(addr) < BLOCK_CAPACITY,
            addr == self.blocks()[self.block_of(addr)].base() + Self::offset_of(addr),
            0 < addr < usize::MAX,
            self.space().start() <= addr < self.space().end(),
    {
        reveal(BlockList::block_of);
        reveal(BlockList::offset_of);
        self.blocks()[0].lemma_wf();
        let origin = self.origin();
        let index = self.block_of(addr);
        assert(0 <= index < self.blocks().len());
        self.blocks()[index].lemma_wf();
        assert(addr - origin == index * BLOCK_SIZE + (addr - origin) % (BLOCK_SIZE as int));
        assert((addr - origin) % (BLOCK_SIZE as int) == addr % (BLOCK_SIZE as int));
    }

    /// Whether `new` has the blocks of `old`, with the same holes, line
    /// marks and bytes and in the same parts, and the same address space.
    pub open spec fn same(old: BlockList, new: BlockList) -> bool {
        &&& Self::same_shape(old, new)
        &&& forall|i: int|
            0 <= i < old.blocks().len() ==> (#[trigger] new.blocks()[i]).bytes()
                == old.blocks()[i].bytes()
    }

    /// Whether `new` has the blocks of `old` at the same addresses, in the
    /// same parts and with the same holes and line marks, and the same
    /// address space; the bytes of the blocks may differ.
    pub open spec fn same_shape(old: BlockList, new: BlockList) -> bool {
        &&& new.blocks().len() == old.blocks().len()
        &&& forall|i: int|
            0 <= i < old.blocks().len() ==> (#[trigger] new.blocks()[i]).same_shape(old.blocks()[i])
        &&& new.head() == old.head()
        &&& new.overflow() == old.overflow()
        &&& new.rest() == old.rest()
        &&& new.space() == old.space()
    }

    /// Whether `new` is `old` with `data` stored from the address `addr` on.
    pub open spec fn wrote(old: BlockList, new: BlockList, addr: int, data: Seq<u8>) -> bool {
        &&& Self::same_shape(old, new)
        &&& forall|a: int| #[trigger]
            new.mapped(a) ==> new.byte(a) == if addr <= a < addr + data.len() {
                data[a - addr]
            } else {
                old.byte(a)
            }
    }

    /// Some of the bytes of a range are the bytes of the range at their places.
    pub proof fn lemma_bytes_part(self, addr: int, len: int, from: int, part: int)
        requires
            0 <= from,
            0 <= part,
            from + part <= len,
        ensures
            self.bytes(addr + from, part) == self.bytes(addr, len).subrange(from, from + part),
    {
        assert(self.bytes(addr + from, part) =~= self.bytes(addr, len).subrange(
            from,
            from + part,
        ));
    }

    /// Lists that are the same hold the same bytes, and have handed out the same.
    pub proof fn lemma_same_bytes(old: BlockList, new: BlockList)
        requires
            Self::same(old, new),
        ensures
            forall|a: int| #[trigger] new.used(a) == old.used(a),
            forall|a: int| #[trigger] new.mapped(a) == old.mapped(a),
            forall|a: int| old.mapped(a) ==> #[trigger] new.byte(a) == old.byte(a),
    {
        Self::lemma_same_shape(old, new);
        assert forall|a: int| old.mapped(a) implies #[trigger] new.byte(a) == old.byte(a) by {
            reveal(BlockList::block_of);
            assert(new.blocks()[old.block_of(a)].bytes() == old.blocks()[old.block_of(a)].bytes());
        }
    }

    /// Whether `new` is `old` but for the bytes from the address `from` up
    /// to, not including, the address `to`, of which this says nothing.
    pub open spec fn changed_within(old: BlockList, new: BlockList, from: int, to: int) -> bool {
        &&& Self::same_shape(old, new)
        &&& forall|a: int| #[trigger]
            new.mapped(a) && !(from <= a < to) ==> new.byte(a) == old.byte(a)
    }

    /// A change within some bytes and then another within the same bytes
    /// is a change within those bytes.
    pub proof fn lemma_changed_twice(
        old: BlockList,
        mid: BlockList,
        new: BlockList,
        from: int,
        to: int,
    )
        requires
            Self::changed_within(old, mid, from, to),
            Self::changed_within(mid, new, from, to),
        ensures
            Self::changed_within(old, new, from, to),
    {
        Self::lemma_same_shape(mid, new);
        assert forall|i: int| 0 <= i < old.blocks().len() implies (#[trigger] new.blocks()[i]).same_shape(
            old.blocks()[i],
        ) by {
            assert(new.blocks()[i].same_shape(mid.blocks()[i]));
            assert(mid.blocks()[i].same_shape(old.blocks()[i]));
        }
        assert forall|a: int| #[trigger] new.mapped(a) && !(from <= a < to) implies new.byte(a)
            == old.byte(a) by {
            assert(mid.mapped(a));
        }
    }

    /// Storing bytes is a change within the bytes stored to, and within
    /// any bytes that those lie in.
    pub proof fn lemma_wrote_changed(
        old: BlockList,
        new: BlockList,
        addr: int,
        data: Seq<u8>,
        from: int,
        to: int,
    )
        requires
            Self::wrote(old, new, addr, data),
            data.len() == 0 || (from <= addr && addr + data.len() <= to),
        ensures
            Self::changed_within(old, new, from, to),
    {
    }

    /// Lists that are the same differ by a change within no bytes.
    pub proof fn lemma_same_changed(old: BlockList, new: BlockList, from: int, to: int)
        requires
            Self::same(old, new),
        ensures
            Self::changed_within(old, new, from, to),
    {
        Self::lemma_same_bytes(old, new);
    }

    /// Storing to a list that is the same as another is storing to the other.
    pub proof fn lemma_same_then_wrote(
        old: BlockList,
        mid: BlockList,
        new: BlockList,
        addr: int,
        data: Seq<u8>,
    )
        requires
            Self::same(old, mid),
            Self::wrote(mid, new, addr, data),
        ensures
            Self::wrote(old, new, addr, data),
    {
        Self::lemma_same_bytes(old, mid);
        Self::lemma_same_shape(mid, new);
        assert forall|i: int| 0 <= i < old.blocks().len() implies (#[trigger] new.blocks()[i]).same_shape(
            old.blocks()[i],
        ) by {
            assert(new.blocks()[i].same_shape(mid.blocks()[i]));
            assert(mid.blocks()[i].same_shape(old.blocks()[i]));
        }
        assert forall|a: int| #[trigger] new.mapped(a) implies new.byte(a) == if addr <= a < addr
            + data.len() {
            data[a - addr]
        } else {
            old.byte(a)
        } by {
            assert(mid.mapped(a));
        }
    }

    /// What has been stored is read back.
    pub proof fn lemma_wrote_reads(old: BlockList, new: BlockList, addr: int, data: Seq<u8>)
        requires
            new.wf(),
            Self::wrote(old, new, addr, data),
            new.mapped_range(addr, data.len() as int),
        ensures
            new.bytes(addr, data.len() as int) == data,
    {
        assert forall|k: int| 0 <= k < data.len() implies new.byte(addr + k) == data[k] by {
            new.lemma_range(addr, data.len() as int, k);
        }
        assert(new.bytes(addr, data.len() as int) =~= data);
    }

    /// What has been stored leaves the bytes of a range that it does not
    /// touch as they were.
    pub proof fn lemma_wrote_keeps(
        old: BlockList,
        new: BlockList,
        addr: int,
        data: Seq<u8>,
        other: int,
        len: int,
    )
        requires
            old.wf(),
            new.wf(),
            Self::wrote(old, new, addr, data),
            old.mapped_range(other, len),
            other + len <= addr || addr + data.len() <= other,
        ensures
            new.mapped_range(other, len),
            new.bytes(other, len) == old.bytes(other, len),
    {
        Self::lemma_same_shape(old, new);
        assert forall|k: int| 0 <= k < len implies #[trigger] new.byte(other + k) == old.byte(
            other + k,
        ) by {
            old.lemma_range(other, len, k);
            assert(new.mapped(other + k));
        }
        assert(new.bytes(other, len) =~= old.bytes(other, len));
    }

    /// Lists of the same shape map the same addresses, find them in the
    /// same blocks, and have handed out the same bytes.
    pub proof fn lemma_same_shape(old: BlockList, new: BlockList)
        requires
            Self::same_shape(old, new),
        ensures
            new.origin() == old.origin(),
            forall|a: int| #[trigger] new.mapped(a) == old.mapped(a),
            forall|a: int| #[trigger] new.block_of(a) == old.block_of(a),
            forall|a: int| #[trigger] new.used(a) == old.used(a),
            forall|a: int, len: int| #[trigger] new.mapped_range(a, len) == old.mapped_range(a, len),
            forall|a: int, len: int| #[trigger] new.used_range(a, len) == old.used_range(a, len),
    {
        if old.blocks().len() > 0 {
            assert(new.blocks()[0].same_shape(old.blocks()[0]));
        }
        old.lemma_same_origin(new);
        assert forall|a: int| #[trigger] new.used(a) == old.used(a) by {
            reveal(BlockList::block_of);
            if old.mapped(a) {
                assert(new.blocks()[old.block_of(a)].same_shape(old.blocks()[old.block_of(a)]));
            }
        }
    }

    /// What an allocation through a slot has done to the shape of the
    /// list still holds after bytes have been stored.
    pub proof fn lemma_alloc_then_write(
        old: BlockList,
        mid: BlockList,
        new: BlockList,
        slot: Slot,
        alloc_size: int,
        ptr: usize,
    )
        requires
            Self::slot_alloc_spec(old, mid, slot, alloc_size, Ok(ptr)),
            Self::same_shape(mid, new),
        ensures
            Self::slot_alloc_spec(old, new, slot, alloc_size, Ok(ptr)),
    {
        if old.slot_can_take(slot, alloc_size) {
            let index = old.slot(slot)->0 as int;
            assert(new.blocks()[index].same_shape(mid.blocks()[index]));
            assert forall|i: int|
                0 <= i < old.blocks().len() && i != index implies (#[trigger] new.blocks()[i]).same_shape(
                old.blocks()[i],
            ) by {
                assert(new.blocks()[i].same_shape(mid.blocks()[i]));
                assert(mid.blocks()[i].same_shape(old.blocks()[i]));
            }
        } else {
            let index = old.blocks().len() as int;
            assert(new.blocks()[index].same_shape(mid.blocks()[index]));
            assert forall|i: int| 0 <= i < index implies (#[trigger] new.blocks()[i]).same_shape(
                old.blocks()[i],
            ) by {
                assert(new.blocks()[i].same_shape(mid.blocks()[i]));
                assert(mid.blocks()[i].same_shape(old.blocks()[i]));
            }
        }
    }

    /// A list with no block yet, that takes its blocks from `space`.
    pub fn new(space: AddressSpace) -> (list: BlockList)
        requires
            space.wf(),
        ensures
            list.wf(),
            list.blocks().len() == 0,
            list.head() is None,
            list.overflow() is None,
            list.rest().len() == 0,
            list.space() == space,
    {
        BlockList { blocks: Vec::new(), head: None, overflow: None, rest: Vec::new(), space }
    }

    /// The number of blocks.
    pub fn block_count(&self) -> (count: usize)
        ensures
            count == self.blocks().len(),
    {
        self.blocks.len()
    }

    /// The block `index`, counted in the order of creation.
    pub fn block(&self, index: usize) -> (block: &BumpBlock)
        requires
            index < self.blocks().len(),
        ensures
            *block == self.blocks()[index as int],
    {
        &self.blocks[index]
    }

    /// The index of the head block, if there is one.
    pub fn head_index(&self) -> (index: Option<usize>)
        ensures
            index == self.head(),
    {
        self.head
    }

    /// The index of the overflow block, if there is one.
    pub fn overflow_index(&self) -> (index: Option<usize>)
        ensures
            index == self.overflow(),
    {
        self.overflow
    }

    /// The indices of the retired blocks, in the order in which they were retired.
    pub fn rest_indices(&self) -> (indices: &Vec<usize>)
        ensures
            indices@ == self.rest(),
    {
        &self.rest
    }

    /// The size of the current hole of the head block, if there is a head block.
    pub fn head_hole_size(&self) -> (size: Option<usize>)
        requires
            self.wf(),
        ensures
            match self.head() {
                Some(h) => size == Some(
                    (self.blocks()[h as int].cursor() - self.blocks()[h as int].limit()) as usize,
                ),
                None => size is None,
            },
    {
        match self.head {
            Some(h) => {
                proof {
                    self.blocks()[h as int].lemma_wf();
                }
                Some(self.blocks[h].current_hole_size())
            },
            None => None,
        }
    }

    /// The block that `addr` falls in and its offset there, or `None` if
    /// `addr` is not mapped.
    pub fn locate(&self, addr: usize) -> (r: Option<(usize, usize)>)
        requires
            self.wf(),
        ensures
            match r {
                Some((index, offset)) => {
                    &&& self.mapped(addr as int)
                    &&& index == self.block_of(addr as int)
                    &&& offset == Self::offset_of(addr as int)
                    &&& index < self.blocks().len()
                    &&& offset < BLOCK_CAPACITY
                },
                None => !self.mapped(addr as int),
            },
    {
        if self.blocks.len() == 0 {
            return None;
        }
        let origin: usize = self.blocks[0].as_ptr();
        if addr < origin {
            return None;
        }
        let index: usize = (addr - origin) / BLOCK_SIZE;
        let offset: usize = (addr - origin) % BLOCK_SIZE;
        proof {
            reveal(BlockList::block_of);
            reveal(BlockList::offset_of);
            self.blocks()[0].lemma_wf();
            assert((addr - origin) % (BLOCK_SIZE as int) == addr as int % (BLOCK_SIZE as int));
        }
        if index < self.blocks.len() && offset < BLOCK_CAPACITY {
            Some((index, offset))
        } else {
            None
        }
    }

    /// The byte at the address `addr`, or `None` if `addr` is not mapped.
    pub fn read_byte(&self, addr: usize) -> (r: Option<u8>)
        requires
            self.wf(),
        ensures
            r == if self.mapped(addr as int) {
                Some(self.byte(addr as int))
            } else {
                None
            },
    {
        match self.locate(addr) {
            Some((index, offset)) => {
                proof {
                    self.blocks()[index as int].lemma_wf();
                }
                Some(self.blocks[index].read(offset))
            },
            None => None,
        }
    }

    /// Stores `byte` at the address `addr` and returns `true`, or returns
    /// `false` and changes nothing if `addr` is not mapped.
    pub fn write_byte(&mut self, addr: usize, byte: u8) -> (stored: bool)
        requires
            old(self).wf(),
        ensures
            final(self).wf(),
            stored == old(self).mapped(addr as int),
            Self::wrote(
                *old(self),
                *final(self),
                addr as int,
                if stored {
                    seq![byte]
                } else {
                    Seq::empty()
                },
            ),
    {
        match self.locate(addr) {
            Some((index, offset)) => {
                proof {
                    self.blocks()[index as int].lemma_wf();
                }
                self.blocks[index].write(offset, byte);
                proof {
                    assert forall|i: int| 0 <= i < self.blocks().len() implies #[trigger] self.reachable(
                        i,
                    ) by {
                        assert(old(self).reachable(i));
                    }
                    assert(Self::same_shape(*old(self), *self));
                    Self::lemma_same_shape(*old(self), *self);
                    assert forall|a: int| #[trigger] self.mapped(a) implies self.byte(a) == if a
                        == addr {
                        byte
                    } else {
                        old(self).byte(a)
                    } by {
                        self.lemma_mapped(a);
                        old(self).lemma_mapped(a);
                        old(self).lemma_mapped(addr as int);
                    }
                }
                true
            },
            None => {
                proof {
                    Self::lemma_same_shape(*old(self), *self);
                }
                false
            },
        }
    }

    /// The `len` bytes from the address `addr` on, or `None` if they are
    /// not all mapped in one block.
    pub fn read_bytes(&self, addr: usize, len: usize) -> (r: Option<Vec<u8>>)
        requires
            self.wf(),
        ensures
            match r {
                Some(data) => self.mapped_range(addr as int, len as int) && data@ == self.bytes(
                    addr as int,
                    len as int,
                ),
                None => !self.mapped_range(addr as int, len as int),
            },
    {
        let (index, offset) = match self.locate(addr) {
            Some(place) => place,
            None => { return None; },
        };
        if len > BLOCK_CAPACITY - offset {
            return None;
        }
        proof {
            self.blocks()[index as int].lemma_wf();
            self.lemma_mapped(addr as int);
        }
        let mut data: Vec<u8> = Vec::new();
        let mut i: usize = 0;
        while i < len
            invariant
                self.wf(),
                i <= len,
                index < self.blocks().len(),
                offset + len <= BLOCK_CAPACITY,
                data@.len() == i,
                forall|k: int|
                    0 <= k < i ==> data@[k] == self.blocks()[index as int].bytes()[offset + k],
            decreases len - i,
        {
            proof {
                self.blocks()[index as int].lemma_wf();
            }
            data.push(self.blocks[index].read(offset + i));
            i = i + 1;
        }
        proof {
            assert forall|k: int| 0 <= k < len implies data@[k] == self.byte(addr + k) by {
                self.lemma_locate(index as int, offset + k);
            }
            assert(data@ =~= self.bytes(addr as int, len as int));
        }
        Some(data)
    }

    /// Stores `data` from the address `addr` on and returns `true`, or
    /// returns `false` and changes nothing if the bytes to store to are
    /// not all mapped in one block.
    pub fn write_bytes(&mut self, addr: usize, data: &Vec<u8>) -> (stored: bool)
        requires
            old(self).wf(),
        ensures
            final(self).wf(),
            stored == old(self).mapped_range(addr as int, data@.len() as int),
            Self::wrote(
                *old(self),
                *final(self),
                addr as int,
                if stored {
                    data@
                } else {
                    Seq::empty()
                },
            ),
    {
        let (index, offset) = match self.locate(addr) {
            Some(place) => place,
            None => {
                proof {
                    Self::lemma_same_shape(*old(self), *self);
                }
                return false;
            },
        };
        let len: usize = data.len();
        if len > BLOCK_CAPACITY - offset {
            proof {
                Self::lemma_same_shape(*old(self), *self);
            }
            return false;
        }
        proof {
            self.lemma_mapped(addr as int);
        }
        let mut i: usize = 0;
        while i < len
            invariant
                self.wf(),
                i <= len,
                len == data@.len(),
                index < self.blocks().len(),
                offset + len <= BLOCK_CAPACITY,
                Self::same_shape(*old(self), *self),
                forall|j: int|
                    0 <= j < self.blocks().len() && j != index ==> #[trigger] self.blocks()[j]
                        == old(self).blocks()[j],
                forall|k: int|
                    0 <= k < BLOCK_SIZE ==> #[trigger] self.blocks()[index as int].bytes()[k] == if offset
                        <= k < offset + i {
                        data@[k - offset]
                    } else {
                        old(self).blocks()[index as int].bytes()[k]
                    },
            decreases len - i,
        {
            let ghost before = *self;
            proof {
                self.blocks()[index as int].lemma_wf();
            }
            self.blocks[index].write(offset + i, data[i]);
            proof {
                assert forall|j: int| 0 <= j < self.blocks().len() implies #[trigger] self.reachable(
                    j,
                ) by {
                    assert(before.reachable(j));
                }
            }
            i = i + 1;
        }
        proof {
            Self::lemma_same_shape(*old(self), *self);
            assert forall|a: int| #[trigger] self.mapped(a) implies self.byte(a) == if addr <= a
                < addr + data@.len() {
                data@[a - addr]
            } else {
                old(self).byte(a)
            } by {
                self.lemma_mapped(a);
                old(self).lemma_mapped(a);
                old(self).lemma_locate(index as int, offset as int);
                if self.block_of(a) == index {
                    self.lemma_locate(index as int, Self::offset_of(a));
                    assert(a - addr == Self::offset_of(a) - offset);
                } else {
                    assert(self.blocks()[self.block_of(a)] == old(self).blocks()[self.block_of(a)]);
                }
            }
        }
        true
    }

    /// Allocates `alloc_size` bytes through `slot`.
    fn slot_alloc(&mut self, slot: Slot, alloc_size: usize) -> (r: Result<usize, AllocError>)
        requires
            old(self).wf(),
            alloc_size <= BLOCK_CAPACITY,
        ensures
            final(self).wf(),
            Self::slot_alloc_spec(*old(self), *final(self), slot, alloc_size as int, r),
            Self::block_bytes_kept(*old(self), *final(self)),
    {
        let occupant: Option<usize> = match slot {
            Slot::Head => self.head,
            Slot::Overflow => self.overflow,
        };
        if let Some(index) = occupant {
            let ghost before = self.blocks@[index as int];
            if let Some(space) = self.blocks[index].inner_alloc(alloc_size) {
                proof {
                    before.lemma_wf();
                    assert(self.blocks@[0].base() == old(self).blocks@[0].base());
                    assert forall|i: int| 0 <= i < self.blocks().len() implies #[trigger] self.reachable(
                        i,
                    ) by {
                        assert(old(self).reachable(i));
                    }
                }
                return Ok(space);
            }
            assert(self.blocks@ =~= old(self).blocks@);
        }
        let mut block: BumpBlock = match BumpBlock::new(&mut self.space) {
            Ok(block) => block,
            Err(e) => {
                proof {
                    assert forall|i: int| 0 <= i < self.blocks().len() implies #[trigger] self.reachable(
                        i,
                    ) by {
                        assert(old(self).reachable(i));
                    }
                }
                return Err(e);
            },
        };
        proof {
            lemma_align_down_bounds(BLOCK_CAPACITY - alloc_size, 0);
        }
        let space: usize = match block.inner_alloc(alloc_size) {
            Some(space) => space,
            None => unreached(),
        };
        let new_index: usize = self.blocks.len();
        proof {
            block.lemma_wf();
            if new_index > 0 {
                old(self).blocks()[0].lemma_wf();
            }
        }
        self.blocks.push(block);
        if let Some(index) = occupant {
            self.rest.push(index);
        }
        match slot {
            Slot::Head => { self.head = Some(new_index); },
            Slot::Overflow => { self.overflow = Some(new_index); },
        }
        proof {
            assert forall|i: int| 0 <= i < self.blocks().len() implies #[trigger] self.reachable(
                i,
            ) by {
                if i < new_index {
                    assert(old(self).reachable(i));
                    if old(self).rest().contains(i as usize) {
                        let j = choose|j: int|
                            0 <= j < old(self).rest().len() && old(self).rest()[j] == i as usize;
                        assert(self.rest()[j] == i as usize);
                    } else if occupant == Some(i as usize) {
                        assert(self.rest()[self.rest().len() - 1] == i as usize);
                    }
                }
            }
        }
        Ok(space)
    }

    /// Allocates `alloc_size` bytes for a medium object that does not fit
    /// the current hole of the head block: the overflow block serves it if it can;
    /// else a fresh overflow block is created and serves it, and the old
    /// one is retired. Fails with `OOM`, and changes nothing, if a fresh
    /// block is needed and the address space has no room for one.
    pub fn overflow_alloc(&mut self, alloc_size: usize) -> (r: Result<usize, AllocError>)
        requires
            old(self).wf(),
            alloc_size <= BLOCK_CAPACITY,
        ensures
            final(self).wf(),
            Self::slot_alloc_spec(*old(self), *final(self), Slot::Overflow, alloc_size as int, r),
            Self::block_bytes_kept(*old(self), *final(self)),
            Self::alloc_effect(*old(self), *final(self), alloc_size as int, r),
    {
        let r = self.slot_alloc(Slot::Overflow, alloc_size);
        proof {
            Self::lemma_alloc_effect(*old(self), *self, Slot::Overflow, alloc_size as int, r);
        }
        r
    }

    /// Allocates `alloc_size` bytes in the head block if it can take
    /// them; else a fresh head block is created and serves the allocation,
    /// and the old one is retired. Fails with `OOM`, and changes
    /// nothing, if a fresh block is needed and the address space has no
    /// room for one.
    pub fn head_alloc(&mut self, alloc_size: usize) -> (r: Result<usize, AllocError>)
        requires
            old(self).wf(),
            alloc_size <= BLOCK_CAPACITY,
        ensures
            final(self).wf(),
            Self::slot_alloc_spec(*old(self), *final(self), Slot::Head, alloc_size as int, r),
            Self::block_bytes_kept(*old(self), *final(self)),
            Self::alloc_effect(*old(self), *final(self), alloc_size as int, r),
    {
        let r = self.slot_alloc(Slot::Head, alloc_size);
        proof {
            Self::lemma_alloc_effect(*old(self), *self, Slot::Head, alloc_size as int, r);
        }
        r
    }
}

} // verus!
