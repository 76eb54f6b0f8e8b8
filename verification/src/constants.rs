//! Sizes that fix the memory layout.

use vstd::prelude::*;

verus! {

/// Base two logarithm of the size of a line.
pub const LINE_SIZE_BITS: usize = 7;

/// Bytes in a line, the granularity at which a block is marked.
pub const LINE_SIZE: usize = 128;

/// Base two logarithm of the size of a block.
pub const BLOCK_SIZE_BITS: usize = 15;

/// Bytes in a block.
pub const BLOCK_SIZE: usize = 32768;

/// Lines in a block.
pub const LINE_COUNT: usize = 256;

/// Bytes of a block that can hold objects: the rest holds one mark byte per line.
pub const BLOCK_CAPACITY: usize = 32512;

/// Bytes to which every allocation is aligned.
pub const WORD_SIZE: usize = 8;

/// Mask that clears the bits of an address below the alignment.
pub const ALLOC_ALIGN_MASK: usize = !7;

/// The sizes are the powers of two that the bit counts name, and the
/// capacity is what the line marks leave of a block.
pub proof fn lemma_layout_constants()
    ensures
        LINE_SIZE == 1usize << LINE_SIZE_BITS,
        BLOCK_SIZE == 1usize << BLOCK_SIZE_BITS,
        LINE_COUNT * LINE_SIZE == BLOCK_SIZE,
        BLOCK_CAPACITY == BLOCK_SIZE - LINE_COUNT,
        BLOCK_CAPACITY % LINE_SIZE == 0,
        LINE_SIZE % WORD_SIZE == 0,
        ALLOC_ALIGN_MASK == !((WORD_SIZE - 1) as usize),
{
    assert(128usize == 1usize << 7usize) by (bit_vector);
    assert(32768usize == 1usize << 15usize) by (bit_vector);
}

/// The greatest multiple of the alignment that is at most `n`.
pub open spec fn align_down(n: int) -> int {
    n - n % (WORD_SIZE as int)
}

/// The least multiple of the alignment that is at least `n`.
pub open spec fn align_up(n: int) -> int {
    align_down(n + WORD_SIZE - 1)
}

/// Rounding down stays between a lower bound that is itself aligned and the
/// number that is rounded.
pub proof fn lemma_align_down_bounds(n: int, floor: int)
    requires
        floor % (WORD_SIZE as int) == 0,
        floor <= n,
    ensures
        floor <= align_down(n) <= n,
        n - align_down(n) < WORD_SIZE,
        align_down(n) % (WORD_SIZE as int) == 0,
{
}

/// A multiple of the line size, or of the block size, is a multiple of the word size.
pub proof fn lemma_line_aligned_is_word_aligned(n: int)
    ensures
        n % (LINE_SIZE as int) == 0 ==> n % (WORD_SIZE as int) == 0,
        n % (BLOCK_SIZE as int) == 0 ==> n % (WORD_SIZE as int) == 0,
{
}

/// Masking an address with the alignment mask rounds it down to a word boundary.
pub proof fn lemma_mask_is_align_down(n: usize)
    ensures
        (n & ALLOC_ALIGN_MASK) == align_down(n as int),
{
    assert((n & !7usize) == n - n % 8) by (bit_vector);
}

} // verus!
