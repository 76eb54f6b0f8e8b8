//! The range of addresses that blocks are taken from.
//!
//! It stands where a host allocator would: it hands out aligned regions, each
//! once, until the range is used up.

use vstd::prelude::*;
use vstd::arithmetic::power2::is_pow2;
use crate::errors::BlockError;

verus! {

/// A range of addresses, of which everything below `next` has been handed out.
pub struct AddressSpace {
    start: usize,
    next: usize,
    end: usize,
}

/// The lowest multiple of `size` that is at least `next`.
pub open spec fn aligned_base(next: int, size: int) -> int {
    if next % size == 0 {
        next
    } else {
        next + (size - next % size)
    }
}

impl AddressSpace {
    /// The address at which the range starts.
    pub closed spec fn start(self) -> int {
        self.start as int
    }

    /// The lowest address that has not been handed out.
    pub closed spec fn next(self) -> int {
        self.next as int
    }

    /// The address at which the range ends.
    pub closed spec fn end(self) -> int {
        self.end as int
    }

    /// Address zero is never handed out: it stands for nil. What has
    /// been handed out lies in the range.
    pub open spec fn wf(self) -> bool {
        &&& 0 < self.start() <= self.next()
        &&& self.next() > self.start() ==> self.next() <= self.end()
    }

    /// Whether a region of `size` bytes, aligned to `size`, is left in the range.
    pub open spec fn fits(self, size: int) -> bool {
        aligned_base(self.next(), size) + size <= self.end()
    }

    /// The range from `start`, or from address one if `start` is zero, up to `end`.
    pub fn new(start: usize, end: usize) -> (space: AddressSpace)
        ensures
            space.wf(),
            space.start() == if start == 0 { 1 } else { start as int },
            space.next() == space.start(),
            space.end() == end,
    {
        let start: usize = if start == 0 { 1 } else { start };
        AddressSpace { start, next: start, end }
    }

    /// The bytes between the next free address and the end of the range.
    pub fn remaining(&self) -> (n: usize)
        ensures
            n == if self.next() <= self.end() { self.end() - self.next() } else { 0 },
    {
        if self.next <= self.end {
            self.end - self.next
        } else {
            0
        }
    }
}

/// Whether `n` is a power of two.
pub fn is_power_of_two(n: usize) -> (r: bool)
    ensures
        r == is_pow2(n as int),
{
    let mut m: usize = n;
    while m > 1 && m % 2 == 0
        invariant
            is_pow2(m as int) == is_pow2(n as int),
        decreases m,
    {
        proof {
            reveal(is_pow2);
        }
        m = m / 2;
    }
    proof {
        reveal(is_pow2);
    }
    m == 1
}

/// Takes the lowest region of `size` bytes, aligned to `size`, out of the
/// address space and returns its base address. Fails with `OOM`, and takes
/// nothing, if no such region is left.
pub fn alloc_block(space: &mut AddressSpace, size: usize) -> (r: Result<usize, BlockError>)
    requires
        old(space).wf(),
        is_pow2(size as int),
    ensures
        final(space).wf(),
        final(space).start() == old(space).start(),
        final(space).end() == old(space).end(),
        match r {
            Ok(base) => {
                &&& old(space).fits(size as int)
                &&& base >= old(space).next()
                &&& base == aligned_base(old(space).next(), size as int)
                &&& base > 0
                &&& base % size == 0
                &&& base + size <= usize::MAX
                &&& final(space).next() == base + size
            },
            Err(e) => {
                &&& e == BlockError::OOM
                &&& !old(space).fits(size as int)
                &&& *final(space) == *old(space)
            },
        },
{
    proof {
        reveal(is_pow2);
    }
    let rest: usize = space.next % size;
    let pad: usize = if rest == 0 { 0 } else { size - rest };
    assert((space.next + pad) % (size as int) == 0int) by (nonlinear_arith)
        requires
            size > 0,
            rest == space.next % size,
            pad == if rest == 0 { 0int } else { size - rest },
    ;
    let base: usize = match space.next.checked_add(pad) {
        Some(base) => base,
        None => { return Err(BlockError::OOM); },
    };
    let top: usize = match base.checked_add(size) {
        Some(top) => top,
        None => { return Err(BlockError::OOM); },
    };
    if top > space.end {
        return Err(BlockError::OOM);
    }
    space.next = top;
    Ok(base)
}

} // verus!
