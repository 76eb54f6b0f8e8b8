//! A block that is filled downward, hole by hole.

use vstd::prelude::*;
use vstd::arithmetic::power2::is_pow2;
use crate::address_space::{aligned_base, AddressSpace};
use crate::block::Block;
use crate::block_meta::{lines_free, next_hole, BlockMeta};
use crate::constants::{
    align_down, lemma_align_down_bounds, lemma_line_aligned_is_word_aligned,
    lemma_mask_is_align_down, ALLOC_ALIGN_MASK, BLOCK_CAPACITY, BLOCK_SIZE, LINE_COUNT,
    LINE_SIZE, WORD_SIZE,
};
use crate::errors::{AllocError, BlockError};

verus! {

/// A block, its line marks, and the hole that is being filled: the bytes
/// from the offset `limit` up to, not including, the offset `cursor`.
pub struct BumpBlock {
    cursor: usize,
    limit: usize,
    block: Block,
    meta: BlockMeta,
}

/// Where an allocation of `alloc_size` bytes leaves the cursor and the limit
/// of a block, or `None` if the block cannot take it.
///
/// The allocation is cut from the top of the current hole if it fits there.
/// If it does not, and lines lie below the hole, it is cut from the top of
/// the next hole that is large enough.
pub open spec fn bump(cursor: int, limit: int, marks: Seq<u8>, alloc_size: int) -> Option<
    (int, int),
> {
    if cursor < alloc_size {
        None
    } else if align_down(cursor - alloc_size) >= limit {
        Some((align_down(cursor - alloc_size), limit))
    } else if limit > 0 {
        match next_hole(marks, limit, alloc_size) {
            Some((hole_cursor, hole_limit)) => Some(
                (align_down(hole_cursor - alloc_size), hole_limit),
            ),
            None => None,
        }
    } else {
        None
    }
}

/// An allocation of at least one byte moves the cursor down by at
/// least the bytes allocated, to a word boundary at or above the limit
/// of the hole that it is cut from; the limit does not move up.
pub proof fn lemma_bump_decreases(cursor: int, limit: int, marks: Seq<u8>, alloc_size: int)
    requires
        0 <= limit <= cursor <= BLOCK_CAPACITY,
        limit % (LINE_SIZE as int) == 0,
        cursor % (WORD_SIZE as int) == 0,
        marks.len() == LINE_COUNT,
        alloc_size > 0,
        bump(cursor, limit, marks, alloc_size) is Some,
    ensures
        ({
            let (next_cursor, next_limit) = bump(cursor, limit, marks, alloc_size)->0;
            &&& 0 <= next_limit <= next_cursor < cursor
            &&& next_cursor + alloc_size <= cursor
            &&& next_limit <= limit
            &&& next_cursor % (WORD_SIZE as int) == 0
            &&& next_limit % (LINE_SIZE as int) == 0
        }),
{
    if align_down(cursor - alloc_size) >= limit {
        lemma_align_down_bounds(cursor - alloc_size, 0);
    } else {
        crate::block_meta::lemma_next_hole_sound(marks, limit, alloc_size);
        let (hole_cursor, hole_limit) = next_hole(marks, limit, alloc_size)->0;
        lemma_line_aligned_is_word_aligned(hole_limit);
        lemma_align_down_bounds(hole_cursor - alloc_size, hole_limit);
    }
}

/// Of two allocations in a block, one after the other and of at least
/// one byte each, the second lies below the first, and they share no byte.
pub proof fn lemma_bump_twice(
    cursor: int,
    limit: int,
    marks: Seq<u8>,
    first_size: int,
    second_size: int,
)
    requires
        0 <= limit <= cursor <= BLOCK_CAPACITY,
        limit % (LINE_SIZE as int) == 0,
        cursor % (WORD_SIZE as int) == 0,
        marks.len() == LINE_COUNT,
        first_size > 0,
        second_size > 0,
        bump(cursor, limit, marks, first_size) matches Some((first_cursor, first_limit)) && bump(
            first_cursor,
            first_limit,
            marks,
            second_size,
        ) is Some,
    ensures
        ({
            let (first_cursor, first_limit) = bump(cursor, limit, marks, first_size)->0;
            let (second_cursor, second_limit) = bump(
                first_cursor,
                first_limit,
                marks,
                second_size,
            )->0;
            &&& second_cursor < first_cursor < cursor
            &&& second_cursor + second_size <= first_cursor
            &&& first_cursor + first_size <= cursor
        }),
{
    lemma_bump_decreases(cursor, limit, marks, first_size);
    let (first_cursor, first_limit) = bump(cursor, limit, marks, first_size)->0;
    lemma_bump_decreases(first_cursor, first_limit, marks, second_size);
}

/// Where the cursor of a fresh block stands after the first `count`
/// of the allocations of the sizes `sizes`.
pub open spec fn fresh_cursor(sizes: Seq<int>, count: int) -> int
    decreases count,
{
    if count <= 0 {
        BLOCK_CAPACITY as int
    } else {
        fresh_cursor(sizes, count - 1) - sizes[count - 1]
    }
}

/// In a fresh block, allocations of whole words lie one right below
/// the other from the capacity down: each one takes the bytes from
/// where it leaves the cursor up to where the one before left it. So the
/// bytes from the cursor up to the capacity are the bytes of the
/// allocations made, each byte in one of them.
pub proof fn lemma_fresh_block_tiles(marks: Seq<u8>, sizes: Seq<int>, index: int)
    requires
        0 <= index < sizes.len(),
        forall|i: int|
            0 <= i < sizes.len() ==> #[trigger] sizes[i] > 0 && sizes[i] % (WORD_SIZE as int) == 0,
        fresh_cursor(sizes, index + 1) >= 0,
    ensures
        bump(fresh_cursor(sizes, index), 0, marks, sizes[index]) == Some(
            (fresh_cursor(sizes, index + 1), 0int),
        ),
        fresh_cursor(sizes, index + 1) + sizes[index] == fresh_cursor(sizes, index),
        fresh_cursor(sizes, index) <= BLOCK_CAPACITY,
        fresh_cursor(sizes, index) % (WORD_SIZE as int) == 0,
    decreases index,
{
    if index > 0 {
        assert(sizes[index - 1] > 0);
        lemma_fresh_block_tiles(marks, sizes, index - 1);
    }
    assert(sizes[index] > 0 && sizes[index] % (WORD_SIZE as int) == 0);
}

impl BumpBlock {
    /// The offset at which the last allocation starts, and the next one ends.
    pub closed spec fn cursor(self) -> int {
        self.cursor as int
    }

    /// The offset at which the current hole starts.
    pub closed spec fn limit(self) -> int {
        self.limit as int
    }

    /// The address of the block.
    pub closed spec fn base(self) -> int {
        self.block.base()
    }

    /// The bytes of the block, by offset.
    pub closed spec fn bytes(self) -> Seq<u8> {
        self.block.bytes()
    }

    /// The line marks of the block.
    pub closed spec fn marks(self) -> Seq<u8> {
        self.meta.marks()
    }

    /// The hole lies within the capacity of the block, starts on a line and
    /// ends on a word, and the bytes of the block above its capacity are
    /// the line marks.
    pub closed spec fn wf(self) -> bool {
        &&& self.block.wf()
        &&& self.block.len() == BLOCK_SIZE
        &&& self.meta.wf()
        &&& self.limit <= self.cursor <= BLOCK_CAPACITY
        &&& self.limit as int % (LINE_SIZE as int) == 0
        &&& self.cursor as int % (WORD_SIZE as int) == 0
        &&& forall|line: int|
            0 <= line < LINE_COUNT ==> self.block.bytes()[BLOCK_CAPACITY + line]
                == #[trigger] self.meta.marks()[line]
    }

    /// Whether the two blocks are at the same address and have the same
    /// hole and the same line marks; their bytes may differ.
    pub open spec fn same_shape(self, other: BumpBlock) -> bool {
        &&& self.base() == other.base()
        &&& self.cursor() == other.cursor()
        &&& self.limit() == other.limit()
        &&& self.marks() == other.marks()
    }

    /// What a well-formed block is made of.
    pub proof fn lemma_wf(self)
        requires
            self.wf(),
        ensures
            0 <= self.limit() <= self.cursor() <= BLOCK_CAPACITY,
            self.limit() % (LINE_SIZE as int) == 0,
            self.cursor() % (WORD_SIZE as int) == 0,
            self.base() > 0,
            self.base() % (BLOCK_SIZE as int) == 0,
            self.base() + BLOCK_SIZE <= usize::MAX,
            self.bytes().len() == BLOCK_SIZE,
            self.marks().len() == LINE_COUNT,
    {
    }

    /// The bytes of a well-formed block above its capacity are the
    /// marks of its lines.
    pub proof fn lemma_marks_in_block(self, line: int)
        requires
            self.wf(),
            0 <= line < LINE_COUNT,
        ensures
            self.bytes()[BLOCK_CAPACITY + line] == self.marks()[line],
    {
    }

    /// Takes a fresh block from the address space: all of its capacity is one
    /// hole, every line is free and every byte is zero. Fails with `OOM`, and
    /// takes nothing, if the address space has no room for a block.
    pub fn new(space: &mut AddressSpace) -> (r: Result<BumpBlock, AllocError>)
        requires
            old(space).wf(),
        ensures
            final(space).wf(),
            final(space).start() == old(space).start(),
            final(space).end() == old(space).end(),
            match r {
                Ok(block) => {
                    &&& old(space).fits(BLOCK_SIZE as int)
                    &&& block.wf()
                    &&& block.cursor() == BLOCK_CAPACITY
                    &&& block.limit() == 0
                    &&& block.base() == aligned_base(old(space).next(), BLOCK_SIZE as int)
                    &&& block.bytes() == Seq::new(BLOCK_SIZE as nat, |i: int| 0u8)
                    &&& lines_free(block.marks(), 0, LINE_COUNT as int)
                    &&& final(space).next() == block.base() + BLOCK_SIZE
                },
                Err(e) => {
                    &&& e == AllocError::OOM
                    &&& !old(space).fits(BLOCK_SIZE as int)
                    &&& *final(space) == *old(space)
                },
            },
    {
        proof {
            reveal_with_fuel(is_pow2, 17);
            assert(is_pow2(BLOCK_SIZE as int));
        }
        match Block::new(BLOCK_SIZE, space) {
            Ok(inner_block) => {
                Ok(
                    BumpBlock {
                        cursor: BLOCK_CAPACITY,
                        limit: 0,
                        block: inner_block,
                        meta: BlockMeta::new(),
                    },
                )
            },
            Err(BlockError::OOM) => Err(AllocError::OOM),
            Err(BlockError::BadRequest) => Err(AllocError::BadRequest),
        }
    }

    /// Cuts `alloc_size` bytes from the block and returns the address of the
    /// first of them, or returns `None`, and leaves the block as it was, if
    /// the block has no hole that can take them.
    ///
    /// The block is filled downward: the address returned is below every
    /// address returned before, and the bytes cut end at or below the
    /// cursor as it was before the call.
    #[verifier::rlimit(40)]
    pub fn inner_alloc(&mut self, alloc_size: usize) -> (r: Option<usize>)
        requires
            old(self).wf(),
        ensures
            final(self).wf(),
            final(self).base() == old(self).base(),
            final(self).bytes() == old(self).bytes(),
            final(self).marks() == old(self).marks(),
            match r {
                Some(ptr) => {
                    &&& bump(
                        old(self).cursor(),
                        old(self).limit(),
                        old(self).marks(),
                        alloc_size as int,
                    ) == Some((final(self).cursor(), final(self).limit()))
                    &&& ptr == final(self).base() + final(self).cursor()
                    &&& ptr % WORD_SIZE == 0
                    &&& final(self).limit() <= final(self).cursor()
                    &&& final(self).cursor() + alloc_size <= old(self).cursor()
                    &&& final(self).limit() <= old(self).limit()
                },
                None => {
                    &&& bump(
                        old(self).cursor(),
                        old(self).limit(),
                        old(self).marks(),
                        alloc_size as int,
                    ) is None
                    &&& *final(self) == *old(self)
                },
            },
        decreases old(self).limit(),
    {
        let next_ptr: usize = match self.cursor.checked_sub(alloc_size) {
            Some(difference) => difference & ALLOC_ALIGN_MASK,
            None => { return None; },
        };
        proof {
            lemma_mask_is_align_down((self.cursor - alloc_size) as usize);
            lemma_align_down_bounds(self.cursor - alloc_size, 0);
            lemma_line_aligned_is_word_aligned(self.block.base());
        }
        if next_ptr < self.limit {
            if self.limit > 0 {
                if let Some((cursor, limit)) = self.meta.find_next_available_hole(
                    self.limit,
                    alloc_size,
                ) {
                    proof {
                        lemma_line_aligned_is_word_aligned(limit as int);
                        lemma_line_aligned_is_word_aligned(cursor as int);
                        lemma_align_down_bounds(cursor - alloc_size, limit as int);
                    }
                    self.cursor = cursor;
                    self.limit = limit;
                    return self.inner_alloc(alloc_size);
                }
            }
            None
        } else {
            self.cursor = next_ptr;
            Some(self.block.as_ptr() + self.cursor)
        }
    }

    /// The number of bytes in the hole that is being filled.
    pub fn current_hole_size(&self) -> (size: usize)
        requires
            self.wf(),
        ensures
            size == self.cursor() - self.limit(),
    {
        self.cursor - self.limit
    }

    /// The address of the block.
    pub fn as_ptr(&self) -> (ptr: usize)
        ensures
            ptr == self.base(),
    {
        self.block.as_ptr()
    }

    /// The offset at which the last allocation starts.
    pub fn cursor_offset(&self) -> (offset: usize)
        ensures
            offset == self.cursor(),
    {
        self.cursor
    }

    /// The offset at which the current hole starts.
    pub fn limit_offset(&self) -> (offset: usize)
        ensures
            offset == self.limit(),
    {
        self.limit
    }

    /// The byte at `offset` in the block: a byte of an object, or the
    /// mark of a line if the offset is at or above the capacity.
    pub fn read(&self, offset: usize) -> (byte: u8)
        requires
            self.wf(),
            offset < BLOCK_SIZE,
        ensures
            byte == self.bytes()[offset as int],
    {
        self.block.read(offset)
    }

    /// Stores `byte` at `offset` in the part of the block that holds objects.
    pub fn write(&mut self, offset: usize, byte: u8)
        requires
            old(self).wf(),
            offset < BLOCK_CAPACITY,
        ensures
            final(self).wf(),
            final(self).base() == old(self).base(),
            final(self).cursor() == old(self).cursor(),
            final(self).limit() == old(self).limit(),
            final(self).marks() == old(self).marks(),
            final(self).bytes() == old(self).bytes().update(offset as int, byte),
    {
        self.block.write(offset, byte);
    }

    /// Marks the line `index` as holding live data.
    pub fn mark_line(&mut self, index: usize)
        requires
            old(self).wf(),
            index < LINE_COUNT,
        ensures
            final(self).wf(),
            final(self).base() == old(self).base(),
            final(self).cursor() == old(self).cursor(),
            final(self).limit() == old(self).limit(),
            final(self).bytes() == old(self).bytes().update(BLOCK_CAPACITY + index, 1u8),
            final(self).marks() == old(self).marks().update(index as int, 1u8),
    {
        self.meta.mark_line(index);
        self.block.write(BLOCK_CAPACITY + index, 1);
    }

    /// Makes the highest hole of at least one line the hole that is filled
    /// next, as is done with a block whose lines have been marked anew.
    /// Returns whether there is such a hole; if there is none, the block is
    /// left with an empty hole at offset zero.
    pub fn recycle(&mut self) -> (found: bool)
        requires
            old(self).wf(),
        ensures
            final(self).wf(),
            final(self).base() == old(self).base(),
            final(self).bytes() == old(self).bytes(),
            final(self).marks() == old(self).marks(),
            match next_hole(old(self).marks(), BLOCK_CAPACITY as int, LINE_SIZE as int) {
                Some((cursor, limit)) => {
                    &&& found
                    &&& final(self).cursor() == cursor
                    &&& final(self).limit() == limit
                },
                None => {
                    &&& !found
                    &&& final(self).cursor() == 0
                    &&& final(self).limit() == 0
                },
            },
    {
        match self.meta.find_next_available_hole(BLOCK_CAPACITY, LINE_SIZE) {
            Some((cursor, limit)) => {
                self.cursor = cursor;
                self.limit = limit;
                true
            },
            None => {
                self.cursor = 0;
                self.limit = 0;
                false
            },
        }
    }
}

} // verus!
