//! A block: an aligned region of the address space and the bytes in it.

use vstd::prelude::*;
use vstd::arithmetic::power2::is_pow2;
use crate::address_space::{alloc_block, is_power_of_two, AddressSpace};
use crate::errors::BlockError;

verus! {

/// An address.
pub type BlockPtr = usize;

/// A size in bytes.
pub type BlockSize = usize;

/// A region of `size` bytes that starts at an address aligned to `size`.
pub struct Block {
    ptr: BlockPtr,
    size: BlockSize,
    bytes: Vec<u8>,
}

impl Block {
    /// The address of the first byte.
    pub closed spec fn base(self) -> int {
        self.ptr as int
    }

    /// The number of bytes.
    pub closed spec fn len(self) -> int {
        self.size as int
    }

    /// The bytes, by their offset from the base.
    pub closed spec fn bytes(self) -> Seq<u8> {
        self.bytes@
    }

    /// The size is a power of two, the base is aligned to it and is not
    /// zero, and the last byte has an address.
    pub open spec fn wf(self) -> bool {
        &&& is_pow2(self.len())
        &&& self.base() > 0
        &&& self.base() % self.len() == 0
        &&& self.base() + self.len() <= usize::MAX
        &&& self.bytes().len() == self.len()
    }

    /// Takes a block of `size` zero bytes from the address space.
    ///
    /// Fails with `BadRequest` if `size` is no power of two, and with `OOM`
    /// if the address space has no aligned region of that size left. A
    /// failure takes nothing from the address space.
    pub fn new(size: BlockSize, space: &mut AddressSpace) -> (r: Result<Block, BlockError>)
        requires
            old(space).wf(),
        ensures
            final(space).wf(),
            final(space).start() == old(space).start(),
            final(space).end() == old(space).end(),
            match r {
                Ok(block) => {
                    &&& is_pow2(size as int)
                    &&& old(space).fits(size as int)
                    &&& block.wf()
                    &&& block.len() == size
                    &&& block.base() == crate::address_space::aligned_base(
                        old(space).next(),
                        size as int,
                    )
                    &&& block.bytes() == Seq::new(size as nat, |i: int| 0u8)
                    &&& final(space).next() == block.base() + size
                },
                Err(BlockError::BadRequest) => {
                    &&& !is_pow2(size as int)
                    &&& *final(space) == *old(space)
                },
                Err(BlockError::OOM) => {
                    &&& is_pow2(size as int)
                    &&& !old(space).fits(size as int)
                    &&& *final(space) == *old(space)
                },
            },
    {
        if !is_power_of_two(size) {
            return Err(BlockError::BadRequest);
        }
        match alloc_block(space, size) {
            Ok(ptr) => {
                let bytes: Vec<u8> = vec![0u8; size];
                assert(bytes@ =~= Seq::new(size as nat, |i: int| 0u8));
                Ok(Block { ptr, size, bytes })
            },
            Err(e) => Err(e),
        }
    }

    /// The base address.
    pub fn as_ptr(&self) -> (ptr: BlockPtr)
        ensures
            ptr == self.base(),
    {
        self.ptr
    }

    /// The number of bytes.
    pub fn size(&self) -> (size: BlockSize)
        ensures
            size == self.len(),
    {
        self.size
    }

    /// The byte at `offset` from the base.
    pub fn read(&self, offset: usize) -> (byte: u8)
        requires
            self.wf(),
            offset < self.len(),
        ensures
            byte == self.bytes()[offset as int],
    {
        self.bytes[offset]
    }

    /// Stores `byte` at `offset` from the base.
    pub fn write(&mut self, offset: usize, byte: u8)
        requires
            old(self).wf(),
            offset < old(self).len(),
        ensures
            final(self).wf(),
            final(self).base() == old(self).base(),
            final(self).len() == old(self).len(),
            final(self).bytes() == old(self).bytes().update(offset as int, byte),
    {
        self.bytes[offset] = byte;
    }
}

} // verus!
