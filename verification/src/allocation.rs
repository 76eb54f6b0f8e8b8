//! What an allocator and the things it allocates agree on: size classes,
//! marks, pointers, and the traits of objects and of their headers.

use vstd::prelude::*;
use crate::constants::{align_up, lemma_mask_is_align_down, ALLOC_ALIGN_MASK, BLOCK_CAPACITY, LINE_SIZE, WORD_SIZE};
pub use crate::errors::AllocError;

verus! {

/// The size of an array or of an object, in bytes or in items.
pub type ArraySize = u32;

/// The three classes of allocation size.
#[derive(Copy, Clone, Debug, PartialEq, Eq, Structural)]
pub enum SizeClass {
    /// At most a line.
    Small,
    /// More than a line, and at most the capacity of a block.
    Medium,
    /// More than the capacity of a block.
    Large,
}

impl SizeClass {
    /// The class of an allocation of `size` bytes.
    pub open spec fn for_size(size: int) -> SizeClass {
        if size <= LINE_SIZE {
            SizeClass::Small
        } else if size <= BLOCK_CAPACITY {
            SizeClass::Medium
        } else {
            SizeClass::Large
        }
    }

    /// The class of an allocation of `object_size` bytes. Every size has a class.
    pub fn get_for_size(object_size: usize) -> (r: Result<SizeClass, AllocError>)
        ensures
            r == Ok::<SizeClass, AllocError>(Self::for_size(object_size as int)),
    {
        if object_size <= LINE_SIZE {
            Ok(SizeClass::Small)
        } else if object_size <= BLOCK_CAPACITY {
            Ok(SizeClass::Medium)
        } else {
            Ok(SizeClass::Large)
        }
    }
}

/// What a collector knows of an object.
#[derive(Copy, Clone, Debug, PartialEq, Eq, Structural)]
pub enum Mark {
    Allocated,
    Unmarked,
    Marked,
}

/// `object_size` rounded up to a multiple of the word size.
pub fn alloc_size_of(object_size: usize) -> (size: usize)
    requires
        object_size + WORD_SIZE - 1 <= usize::MAX,
    ensures
        size == align_up(object_size as int),
        size % WORD_SIZE == 0,
        object_size <= size < object_size + WORD_SIZE,
{
    proof {
        lemma_mask_is_align_down((object_size + (WORD_SIZE - 1)) as usize);
    }
    (object_size + (WORD_SIZE - 1)) & ALLOC_ALIGN_MASK
}

/// A type whose values tell the types of objects apart.
pub trait AllocTypeId: Copy + Clone {

}

/// A type whose values can be kept in memory: it has a size, and a form
/// in bytes from which a value can be read back.
pub trait HeapData: Sized {
    /// The number of bytes that a value takes up.
    spec fn spec_size() -> ArraySize;

    /// The bytes that stand for the value.
    spec fn spec_bytes(&self) -> Seq<u8>;

    /// The value that the bytes stand for, if they stand for one.
    spec fn spec_from_bytes(bytes: Seq<u8>) -> Option<Self>;

    /// The number of bytes that a value takes up.
    fn object_size() -> (size: ArraySize)
        ensures
            size == Self::spec_size(),
    ;

    /// The bytes that stand for the value.
    fn to_bytes(&self) -> (bytes: Vec<u8>)
        ensures
            bytes@ == self.spec_bytes(),
            bytes@.len() == Self::spec_size(),
    ;

    /// The value that the bytes stand for, or `None` if they stand for none.
    fn from_bytes(bytes: &Vec<u8>) -> (object: Option<Self>)
        ensures
            object == Self::spec_from_bytes(bytes@),
    ;

    /// A value takes up at least one byte.
    proof fn lemma_size()
        ensures
            Self::spec_size() > 0,
    ;

    /// A value is read back from its bytes as it was.
    proof fn lemma_round_trip(&self)
        ensures
            self.spec_bytes().len() == Self::spec_size(),
            Self::spec_from_bytes(self.spec_bytes()) == Some(*self),
    ;
}

/// A type of object that can be allocated: it can be kept in memory,
/// and it has a type identifier.
pub trait AllocObject<T: AllocTypeId>: HeapData {
    /// The identifier of this type of object.
    spec fn spec_type_id() -> T;

    /// The identifier of this type of object.
    fn type_id() -> (id: T)
        ensures
            id == Self::spec_type_id(),
    ;
}

/// A type of object header: the record that stands right before every object.
pub trait AllocHeader: Sized {
    /// The type that tells the types of objects apart.
    type TypeId: AllocTypeId;

    /// The number of bytes that a header takes up.
    spec fn spec_header_size() -> nat;

    /// The header of an object of the type `type_id`.
    spec fn spec_new(
        type_id: Self::TypeId,
        size: ArraySize,
        size_class: SizeClass,
        mark: Mark,
    ) -> Self;

    /// The header of an array of bytes.
    spec fn spec_new_array(size: ArraySize, size_class: SizeClass, mark: Mark) -> Self;

    /// The header, marked.
    spec fn spec_mark(self) -> Self;

    /// Whether the header says that the object is marked.
    spec fn spec_is_marked(&self) -> bool;

    /// The size class in the header.
    spec fn spec_size_class(&self) -> SizeClass;

    /// The size of the object in bytes, as the header has it.
    spec fn spec_size(&self) -> ArraySize;

    /// The type of the object, as the header has it.
    spec fn spec_type_id(&self) -> Self::TypeId;

    /// The bytes that stand for the header.
    spec fn spec_bytes(&self) -> Seq<u8>;

    /// The header that the bytes stand for, if they stand for one.
    spec fn spec_from_bytes(bytes: Seq<u8>) -> Option<Self>;

    /// The number of bytes that a header takes up.
    fn header_size() -> (size: usize)
        ensures
            size == Self::spec_header_size(),
    ;

    /// Creates the header of an object of type `O`.
    fn new<O: AllocObject<Self::TypeId>>(size: ArraySize, size_class: SizeClass, mark: Mark) -> (header: Self)
        ensures
            header == Self::spec_new(O::spec_type_id(), size, size_class, mark),
    ;

    /// Creates the header of an array of bytes.
    fn new_array(size: ArraySize, size_class: SizeClass, mark: Mark) -> (header: Self)
        ensures
            header == Self::spec_new_array(size, size_class, mark),
    ;

    /// Sets the mark to marked.
    fn mark(&mut self)
        ensures
            *final(self) == old(self).spec_mark(),
    ;

    /// Whether the object is marked.
    fn is_marked(&self) -> (marked: bool)
        ensures
            marked == self.spec_is_marked(),
    ;

    /// The size class of the object.
    fn size_class(&self) -> (size_class: SizeClass)
        ensures
            size_class == self.spec_size_class(),
    ;

    /// The size of the object in bytes.
    fn size(&self) -> (size: ArraySize)
        ensures
            size == self.spec_size(),
    ;

    /// The type of the object.
    fn type_id(&self) -> (id: Self::TypeId)
        ensures
            id == self.spec_type_id(),
    ;

    /// The bytes that stand for the header.
    fn to_bytes(&self) -> (bytes: Vec<u8>)
        ensures
            bytes@ == self.spec_bytes(),
            bytes@.len() == Self::spec_header_size(),
    ;

    /// The header that the bytes stand for, or `None` if they stand for none.
    fn from_bytes(bytes: &Vec<u8>) -> (header: Option<Self>)
        ensures
            header == Self::spec_from_bytes(bytes@),
    ;

    /// A header takes up whole words, and less than a line.
    proof fn lemma_header_size()
        ensures
            Self::spec_header_size() % (WORD_SIZE as nat) == 0,
            Self::spec_header_size() < LINE_SIZE,
    ;

    /// A header is read back from its bytes as it was.
    proof fn lemma_round_trip(&self)
        ensures
            self.spec_bytes().len() == Self::spec_header_size(),
            Self::spec_from_bytes(self.spec_bytes()) == Some(*self),
    ;
}

/// The address of an object in a heap. It is never zero.
#[derive(Copy, Clone, Debug, PartialEq, Eq, Structural)]
pub struct RawPtr {
    ptr: usize,
}

/// The bits of a word that hold a tag.
pub const TAG_MASK: usize = 0x3;

/// The bits of a word that hold an address.
pub const PTR_MASK: usize = !0x3;

impl RawPtr {
    /// The address.
    pub closed spec fn addr(self) -> int {
        self.ptr as int
    }

    /// The pointer to the address `addr`.
    pub closed spec fn at(addr: int) -> RawPtr {
        RawPtr { ptr: addr as usize }
    }

    /// An address fits a word.
    pub proof fn lemma_addr_bounds(self)
        ensures
            0 <= self.addr() <= usize::MAX,
    {
    }

    /// A pointer is the pointer to its address.
    pub broadcast proof fn lemma_at_addr(self)
        ensures
            #[trigger] RawPtr::at(self.addr()) == self,
    {
    }

    /// The pointer to an address has that address.
    pub broadcast proof fn lemma_addr_at(addr: int)
        requires
            0 <= addr <= usize::MAX,
        ensures
            #[trigger] RawPtr::at(addr).addr() == addr,
    {
    }

    /// The pointer to the address `ptr`.
    pub(crate) fn new(ptr: usize) -> (raw: RawPtr)
        ensures
            raw.addr() == ptr,
            raw == RawPtr::at(ptr as int),
    {
        RawPtr { ptr }
    }

    /// The address, as a word.
    pub fn as_word(&self) -> (word: usize)
        ensures
            word == self.addr(),
    {
        self.ptr
    }

    /// The address.
    pub fn as_ptr(&self) -> (ptr: usize)
        ensures
            ptr == self.addr(),
    {
        self.ptr
    }
}

/// Pointers that can carry a tag in the two low bits of their word.
pub trait Tagged: Sized {
    /// The word that holds the pointer and the tag.
    spec fn spec_tag(self, tag: usize) -> usize;

    /// The pointer that a tagged word holds.
    spec fn spec_untag(from: usize) -> Self;

    /// The word that holds the pointer and `tag`.
    fn tag(self, tag: usize) -> (word: usize)
        ensures
            word == self.spec_tag(tag),
    ;

    /// The pointer that the tagged word `from` holds.
    fn untag(from: usize) -> (raw: Self)
        ensures
            raw == Self::spec_untag(from),
    ;
}

impl Tagged for RawPtr {
    open spec fn spec_tag(self, tag: usize) -> usize {
        (self.addr() as usize) | tag
    }

    open spec fn spec_untag(from: usize) -> RawPtr {
        RawPtr::at((from & PTR_MASK) as int)
    }

    fn tag(self, tag: usize) -> (word: usize) {
        self.as_word() | tag
    }

    fn untag(from: usize) -> (raw: RawPtr) {
        RawPtr::new(from & PTR_MASK)
    }
}

/// A word that holds an address with its two low bits clear and a tag gives
/// both back: the tag in the low bits, the address in the rest.
pub proof fn lemma_tag_untag(addr: usize, tag: usize)
    requires
        addr % 4 == 0,
        tag <= TAG_MASK,
    ensures
        (addr | tag) & TAG_MASK == tag,
        (addr | tag) & PTR_MASK == addr,
        tag != 0 ==> (addr | tag) != 0,
        tag == 0 ==> (addr | tag) == addr,
{
    assert((addr | tag) & 3usize == tag && (addr | tag) & !3usize == addr && (tag != 0 ==> (addr
        | tag) != 0) && (tag == 0 ==> (addr | tag) == addr)) by (bit_vector)
        requires
            addr % 4 == 0,
            tag <= 3usize,
    ;
}

} // verus!
