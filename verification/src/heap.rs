//! The heap of the runtime: the storage of its objects and the table of its symbols.

use vstd::prelude::*;
use crate::allocation::{AllocError, AllocHeader, AllocObject, HeapData, ArraySize, Mark, RawPtr, SizeClass, Tagged};
use crate::block_list::BlockList;
use crate::constants::{align_up, WORD_SIZE};
use crate::errors::{lemma_from_alloc_error, ErrorKind, RuntimeError};
use crate::fat_ptr::FatPtr;
use crate::object_header::ObjectHeader;
use crate::sticky_immix_heap::{alloc_spec, lemma_word_aligned_low_bits, StickyImmixHeap};
use crate::symbol::Symbol;
use crate::symbol_map::SymbolMap;
use crate::tagged_ptr::{encodable, lemma_tag_round_trip, lemma_tagged_word, TaggedPtr, TAG_SYMBOL};
use crate::type_list::TypeList;

verus! {

/// The storage of the objects of the runtime.
pub type HeapStorage = StickyImmixHeap<ObjectHeader>;

/// The objects of the runtime and its interned symbols.
pub struct Heap {
    heap: HeapStorage,
    syms: SymbolMap,
}

/// The result of an allocation, with the error as the allocator has it.
pub open spec fn as_alloc_result<A>(r: Result<A, RuntimeError>) -> Result<A, AllocError> {
    match r {
        Ok(value) => Ok(value),
        Err(e) => if e.kind() == ErrorKind::OutOfMemory {
            Err(AllocError::OOM)
        } else {
            Err(AllocError::BadRequest)
        },
    }
}

/// Whether `e` is what an error of the allocator turns into.
pub open spec fn is_alloc_error(e: RuntimeError) -> bool {
    &&& e.kind() == ErrorKind::OutOfMemory || e.kind() == ErrorKind::BadAllocationRequest
    &&& e.pos() is None
}

/// Whether every byte that had been handed out in the storage of `old`,
/// but for those from the address `from` up to, not including, the
/// address `to`, is still handed out in the storage of `new` and holds
/// what it held.
pub open spec fn kept_outside(old: Heap, new: Heap, from: int, to: int) -> bool {
    forall|addr: int| #[trigger]
        old.storage().blocks().used(addr) && !(from <= addr < to) ==> {
            &&& new.storage().blocks().used(addr)
            &&& new.storage().blocks().byte(addr) == old.storage().blocks().byte(addr)
        }
}

/// What is kept is read as it was: the bytes of a range that had been
/// handed out and lies outside the bytes that may have changed are
/// still handed out, and hold what they held.
pub proof fn lemma_kept_range(old: Heap, new: Heap, from: int, to: int, addr: int, len: int)
    requires
        old.wf(),
        new.wf(),
        kept_outside(old, new, from, to),
        old.storage().blocks().used_range(addr, len),
        len > 0,
        addr + len <= from || to <= addr || to <= from,
    ensures
        new.storage().blocks().used_range(addr, len),
        new.storage().blocks().bytes(addr, len) == old.storage().blocks().bytes(addr, len),
{
    let old_blocks = old.storage().blocks();
    let new_blocks = new.storage().blocks();
    old_blocks.lemma_mapped(addr);
    assert(new_blocks.used(addr));
    BlockList::lemma_offset_of_same(old_blocks, new_blocks, addr);
    assert forall|k: int| 0 <= k < len implies #[trigger] new_blocks.byte(addr + k)
        == old_blocks.byte(addr + k) by {
        old_blocks.lemma_range(addr, len, k);
        assert(old_blocks.used(addr + k));
    }
    assert(new_blocks.bytes(addr, len) =~= old_blocks.bytes(addr, len));
}

/// An allocation keeps everything that had been handed out.
pub proof fn lemma_alloc_kept(
    old: Heap,
    new: Heap,
    header: Seq<u8>,
    payload: Seq<u8>,
    r: Result<RawPtr, AllocError>,
)
    requires
        old.wf(),
        new.wf(),
        alloc_spec(old.storage().blocks(), new.storage().blocks(), header, payload, r),
    ensures
        kept_outside(old, new, 0, 0),
{
    let old_blocks = old.storage().blocks();
    let new_blocks = new.storage().blocks();
    match r {
        Ok(ptr) => {
            assert forall|addr: int| #[trigger] old_blocks.used(addr) implies new_blocks.used(addr)
                && new_blocks.byte(addr) == old_blocks.byte(addr) by {
                assert(new_blocks.used(addr));
                let space = ptr.addr() - header.len();
                crate::constants::lemma_align_down_bounds(
                    header.len() + payload.len() + WORD_SIZE - 1,
                    0,
                );
            }
        },
        Err(_) => {
            BlockList::lemma_same_bytes(old_blocks, new_blocks);
        },
    }
}

/// Storing bytes keeps everything outside the bytes that are stored to.
pub proof fn lemma_wrote_kept(old: Heap, new: Heap, addr: int, data: Seq<u8>)
    requires
        old.wf(),
        new.wf(),
        BlockList::wrote(old.storage().blocks(), new.storage().blocks(), addr, data),
    ensures
        kept_outside(old, new, addr, addr + data.len()),
{
    BlockList::lemma_same_shape(old.storage().blocks(), new.storage().blocks());
}

/// What is kept by one step and by the next is kept by both.
pub proof fn lemma_kept_twice(old: Heap, mid: Heap, new: Heap, from: int, to: int)
    requires
        kept_outside(old, mid, from, to),
        kept_outside(mid, new, from, to),
    ensures
        kept_outside(old, new, from, to),
{
    assert forall|addr: int| #[trigger]
        old.storage().blocks().used(addr) && !(from <= addr < to) implies new.storage().blocks().used(
        addr,
    ) && new.storage().blocks().byte(addr) == old.storage().blocks().byte(addr) by {
        assert(mid.storage().blocks().used(addr));
    }
}

/// What an allocation keeps is kept when bytes of the new object are
/// stored to afterwards: they had not been handed out before.
pub proof fn lemma_kept_fresh(
    old: Heap,
    mid: Heap,
    new: Heap,
    header: Seq<u8>,
    payload: Seq<u8>,
    ptr: RawPtr,
    from: int,
    to: int,
)
    requires
        old.wf(),
        mid.wf(),
        new.wf(),
        alloc_spec(old.storage().blocks(), mid.storage().blocks(), header, payload, Ok(ptr)),
        kept_outside(mid, new, from, to),
        ptr.addr() <= from,
        to <= ptr.addr() + payload.len(),
    ensures
        kept_outside(old, new, 0, 0),
{
    lemma_alloc_kept(old, mid, header, payload, Ok(ptr));
    crate::constants::lemma_align_down_bounds(header.len() + payload.len() + WORD_SIZE - 1, 0);
    assert forall|addr: int| #[trigger] old.storage().blocks().used(addr) implies new.storage().blocks().used(
        addr,
    ) && new.storage().blocks().byte(addr) == old.storage().blocks().byte(addr) by {
        assert(mid.storage().blocks().used(addr));
    }
}

/// What is kept outside some bytes is kept outside more bytes.
pub proof fn lemma_kept_wider(old: Heap, new: Heap, from: int, to: int, lo: int, hi: int)
    requires
        kept_outside(old, new, from, to),
        to <= from || (lo <= from && to <= hi),
    ensures
        kept_outside(old, new, lo, hi),
{
}

/// The header that an object of type `T` is given when it is allocated.
pub open spec fn header_for<T: AllocObject<TypeList>>() -> ObjectHeader {
    ObjectHeader::spec_new(
        T::spec_type_id(),
        T::spec_size(),
        SizeClass::for_size(align_up((ObjectHeader::spec_header_size() + T::spec_size()) as int)),
        Mark::Allocated,
    )
}

/// The header that an array of `size_bytes` bytes is given when it is allocated.
pub open spec fn array_header_for(size_bytes: ArraySize) -> ObjectHeader {
    ObjectHeader::spec_new_array(
        size_bytes,
        SizeClass::for_size(align_up((ObjectHeader::spec_header_size() + size_bytes) as int)),
        Mark::Allocated,
    )
}

impl Heap {
    /// The storage of the objects.
    pub closed spec fn storage(self) -> HeapStorage {
        self.heap
    }

    /// The table of the symbols.
    pub closed spec fn symbols(self) -> SymbolMap {
        self.syms
    }

    /// The storage and the table of symbols are well-formed, and the
    /// addresses of the symbols lie below those of the other objects.
    pub open spec fn wf(self) -> bool {
        &&& self.storage().wf()
        &&& self.symbols().wf()
        &&& self.symbols().arena().heap().blocks().space().end()
            <= self.storage().blocks().space().start()
    }

    /// The symbol of a name that has been interned is found where the
    /// pointer of the name points, and leads back to the name.
    pub proof fn lemma_symbol_at(self, name: Seq<char>, ptr: RawPtr)
        requires
            self.wf(),
            self.symbols().interned(name, ptr),
        ensures
            self.object_at::<Symbol>(ptr) matches Some(symbol) && symbol.name_ptr()
                < self.symbols().names().len() && self.symbols().names()[symbol.name_ptr() as int]
                == name,
    {
        let symbols = self.symbols();
        symbols.lemma_len_bound();
        let i = choose|i: int|
            0 <= i < symbols.names().len() && #[trigger] symbols.names()[i] == name
                && symbols.ptrs()[i] == ptr;
        assert(symbols.symbol_stored(i));
        symbols.arena().heap().blocks().lemma_mapped(ptr.addr());
        if self.storage().blocks().mapped(ptr.addr()) {
            self.storage().blocks().lemma_mapped(ptr.addr());
        }
        symbols.symbol_at(i).lemma_round_trip();
        Symbol::lemma_with(i as usize, vstd::utf8::encode_utf8(symbols.names()[i]).len() as usize);
    }

    /// Two names that have been interned have the same tagged pointer
    /// if and only if they are the same name.
    pub proof fn lemma_interned_tags(self, a: Seq<char>, pa: RawPtr, b: Seq<char>, pb: RawPtr)
        requires
            self.wf(),
            self.symbols().interned(a, pa),
            self.symbols().interned(b, pb),
        ensures
            (a == b) <==> (TaggedPtr::of_fat(FatPtr::Symbol(pa)) == TaggedPtr::of_fat(
                FatPtr::Symbol(pb),
            )),
    {
        let symbols = self.symbols();
        symbols.lemma_interning(a, pa, b, pb);
        let i = choose|i: int|
            0 <= i < symbols.names().len() && #[trigger] symbols.names()[i] == a
                && symbols.ptrs()[i] == pa;
        let j = choose|j: int|
            0 <= j < symbols.names().len() && #[trigger] symbols.names()[j] == b
                && symbols.ptrs()[j] == pb;
        assert(symbols.symbol_stored(i));
        assert(symbols.symbol_stored(j));
        lemma_tagged_word(pa, TAG_SYMBOL);
        lemma_tagged_word(pb, TAG_SYMBOL);
        TaggedPtr::lemma_word(pa.spec_tag(TAG_SYMBOL));
        TaggedPtr::lemma_word(pb.spec_tag(TAG_SYMBOL));
    }

    /// A heap with no object and no symbol yet.
    pub fn new() -> (heap: Heap)
        ensures
            heap.wf(),
            heap.storage().blocks().blocks().len() == 0,
            heap.symbols().names().len() == 0,
    {
        Heap { heap: StickyImmixHeap::new(), syms: SymbolMap::new() }
    }

    /// Allocates `object` in the storage and returns a pointer to it.
    pub fn allocate<T: AllocObject<TypeList>>(&mut self, object: T) -> (r: Result<RawPtr, RuntimeError>)
        requires
            old(self).wf(),
        ensures
            final(self).wf(),
            final(self).symbols() == old(self).symbols(),
            r matches Err(e) ==> is_alloc_error(e),
            alloc_spec(
                old(self).storage().blocks(),
                final(self).storage().blocks(),
                header_for::<T>().spec_bytes(),
                object.spec_bytes(),
                as_alloc_result(r),
            ),
    {
        match self.heap.allocate(object) {
            Ok(ptr) => Ok(ptr),
            Err(e) => {
                proof {
                    lemma_from_alloc_error(e);
                }
                Err(RuntimeError::from(e))
            },
        }
    }

    /// Allocates `object` in the storage and returns a tagged pointer to it.
    #[verifier::rlimit(40)]
    pub fn alloc_tagged<T: AllocObject<TypeList>>(&mut self, object: T) -> (r: Result<
        TaggedPtr,
        RuntimeError,
    >)
        requires
            old(self).wf(),
            FatPtr::for_type(T::spec_type_id(), RawPtr::at(0)) is Some,
        ensures
            final(self).wf(),
            final(self).symbols() == old(self).symbols(),
            match r {
                Ok(tagged) => {
                    let ptr = RawPtr::spec_untag(tagged.word());
                    &&& alloc_spec(
                        old(self).storage().blocks(),
                        final(self).storage().blocks(),
                        header_for::<T>().spec_bytes(),
                        object.spec_bytes(),
                        Ok(ptr),
                    )
                    &&& FatPtr::for_type(T::spec_type_id(), ptr) matches Some(fat) && tagged
                        == TaggedPtr::of_fat(fat) && tagged.decode(final(self).storage()) == Some(
                        fat,
                    )
                },
                Err(e) => {
                    &&& is_alloc_error(e)
                    &&& alloc_spec(
                        old(self).storage().blocks(),
                        final(self).storage().blocks(),
                        header_for::<T>().spec_bytes(),
                        object.spec_bytes(),
                        as_alloc_result::<RawPtr>(Err(e)),
                    )
                },
            },
    {
        let ghost payload = object.spec_bytes();
        match self.heap.allocate(object) {
            Ok(ptr) => {
                let fat: FatPtr = match FatPtr::from_raw(T::type_id(), ptr) {
                    Some(fat) => fat,
                    None => vstd::pervasive::unreached(),
                };
                let tagged: TaggedPtr = TaggedPtr::from(fat);
                proof {
                    self.heap.lemma_allocated(
                        old(self).heap.blocks(),
                        header_for::<T>(),
                        payload,
                        ptr,
                    );
                    ptr.lemma_addr_bounds();
                    lemma_word_aligned_low_bits(ptr.addr() as usize);
                    ObjectHeader::lemma_fields(
                        Mark::Allocated,
                        SizeClass::for_size(
                            align_up((ObjectHeader::spec_header_size() + T::spec_size()) as int),
                        ),
                        T::spec_type_id(),
                        T::spec_size(),
                    );
                    assert(encodable(fat, self.heap));
                    lemma_tag_round_trip(fat, self.heap);
                    lemma_tagged_word(ptr, tagged.word() % 4);
                    TaggedPtr::lemma_word(ptr.spec_tag(crate::tagged_ptr::TAG_OBJECT));
                    TaggedPtr::lemma_word(ptr.spec_tag(crate::tagged_ptr::TAG_PAIR));
                    TaggedPtr::lemma_word(ptr.spec_tag(crate::tagged_ptr::TAG_SYMBOL));
                    lemma_tagged_word(ptr, crate::tagged_ptr::TAG_OBJECT);
                    lemma_tagged_word(ptr, crate::tagged_ptr::TAG_PAIR);
                    lemma_tagged_word(ptr, crate::tagged_ptr::TAG_SYMBOL);
                }
                Ok(tagged)
            },
            Err(e) => {
                proof {
                    lemma_from_alloc_error(e);
                }
                Err(RuntimeError::from(e))
            },
        }
    }

    /// Allocates an array of `size_bytes` zero bytes in the storage
    /// and returns a pointer to it.
    pub fn alloc_array(&mut self, size_bytes: ArraySize) -> (r: Result<RawPtr, RuntimeError>)
        requires
            old(self).wf(),
        ensures
            final(self).wf(),
            final(self).symbols() == old(self).symbols(),
            r matches Err(e) ==> is_alloc_error(e),
            alloc_spec(
                old(self).storage().blocks(),
                final(self).storage().blocks(),
                array_header_for(size_bytes).spec_bytes(),
                Seq::new(size_bytes as nat, |i: int| 0u8),
                as_alloc_result(r),
            ),
    {
        match self.heap.alloc_array(size_bytes) {
            Ok(ptr) => Ok(ptr),
            Err(e) => {
                proof {
                    lemma_from_alloc_error(e);
                }
                Err(RuntimeError::from(e))
            },
        }
    }

    /// The tagged pointer to the symbol of `name`, which is interned
    /// first if it has not been.
    pub fn lookup_sym(&mut self, name: &str) -> (tagged: TaggedPtr)
        requires
            old(self).wf(),
            old(self).symbols().can_intern(name@),
        ensures
            final(self).wf(),
            final(self).storage() == old(self).storage(),
            final(self).symbols().interned(name@, RawPtr::spec_untag(tagged.word())),
            tagged == TaggedPtr::of_fat(FatPtr::Symbol(RawPtr::spec_untag(tagged.word()))),
            tagged.decode(final(self).storage()) == Some(
                FatPtr::Symbol(RawPtr::spec_untag(tagged.word())),
            ),
            forall|other: Seq<char>, p: RawPtr| #[trigger]
                old(self).symbols().interned(other, p) ==> final(self).symbols().interned(other, p),
            old(self).symbols().knows(name@) ==> {
                &&& final(self).symbols().names() == old(self).symbols().names()
                &&& final(self).symbols().ptrs() == old(self).symbols().ptrs()
            },
            !old(self).symbols().knows(name@) ==> final(self).symbols().names() == old(self).symbols().names().push(
                name@,
            ),
    {
        let ptr: RawPtr = self.syms.lookup(name);
        proof {
            ptr.lemma_addr_bounds();
            lemma_word_aligned_low_bits(ptr.addr() as usize);
            lemma_tagged_word(ptr, TAG_SYMBOL);
            lemma_tag_round_trip(FatPtr::Symbol(ptr), self.heap);
        }
        TaggedPtr::symbol(ptr)
    }

    /// The `len` bytes from the address `ptr` on, where they are mapped
    /// in one block of the storage or, failing that, of the arena of the symbols.
    pub open spec fn bytes_at(self, ptr: RawPtr, len: int) -> Option<Seq<u8>> {
        if self.storage().blocks().mapped_range(ptr.addr(), len) {
            Some(self.storage().blocks().bytes(ptr.addr(), len))
        } else if self.symbols().arena().heap().blocks().mapped_range(ptr.addr(), len) {
            Some(self.symbols().arena().heap().blocks().bytes(ptr.addr(), len))
        } else {
            None
        }
    }

    /// The object of type `T` that the bytes at `ptr` stand for, if they
    /// are mapped and stand for one.
    pub open spec fn object_at<T: HeapData>(self, ptr: RawPtr) -> Option<T> {
        match self.bytes_at(ptr, T::spec_size() as int) {
            Some(bytes) => T::spec_from_bytes(bytes),
            None => None,
        }
    }

    /// The `len` bytes from the address `ptr` on, or `None` if they are
    /// not all mapped in one block.
    pub fn read_bytes(&self, ptr: RawPtr, len: usize) -> (r: Option<Vec<u8>>)
        requires
            self.wf(),
        ensures
            match r {
                Some(data) => self.bytes_at(ptr, len as int) == Some(data@),
                None => self.bytes_at(ptr, len as int) is None,
            },
    {
        match self.heap.read_bytes(ptr, len) {
            Some(data) => Some(data),
            None => self.syms.storage().storage().read_bytes(ptr, len),
        }
    }

    /// Stores `data` from the address `ptr` on in the storage and
    /// returns `true`, or returns `false` and changes nothing if the
    /// bytes to store to are not all mapped in one block of the storage.
    pub fn write_bytes(&mut self, ptr: RawPtr, data: &Vec<u8>) -> (stored: bool)
        requires
            old(self).wf(),
        ensures
            final(self).wf(),
            final(self).symbols() == old(self).symbols(),
            stored == old(self).storage().blocks().mapped_range(ptr.addr(), data@.len() as int),
            crate::block_list::BlockList::wrote(
                old(self).storage().blocks(),
                final(self).storage().blocks(),
                ptr.addr(),
                if stored {
                    data@
                } else {
                    Seq::empty()
                },
            ),
    {
        self.heap.write_bytes(ptr, data)
    }

    /// The object of type `T` at `ptr`, or `None` if the bytes there
    /// are not mapped or stand for no such object.
    pub fn load<T: HeapData>(&self, ptr: RawPtr) -> (object: Option<T>)
        requires
            self.wf(),
        ensures
            object == self.object_at::<T>(ptr),
    {
        match self.read_bytes(ptr, T::object_size() as usize) {
            Some(bytes) => T::from_bytes(&bytes),
            None => None,
        }
    }

    /// Stores `object` at `ptr` in the storage and returns `true`, or
    /// returns `false` and changes nothing if the bytes to store to are
    /// not all mapped in one block of the storage.
    pub fn store<T: HeapData>(&mut self, ptr: RawPtr, object: &T) -> (stored: bool)
        requires
            old(self).wf(),
        ensures
            final(self).wf(),
            final(self).symbols() == old(self).symbols(),
            stored == old(self).storage().blocks().mapped_range(ptr.addr(), T::spec_size() as int),
            crate::block_list::BlockList::wrote(
                old(self).storage().blocks(),
                final(self).storage().blocks(),
                ptr.addr(),
                if stored {
                    object.spec_bytes()
                } else {
                    Seq::empty()
                },
            ),
            stored ==> final(self).object_at::<T>(ptr) == Some(*object),
    {
        let bytes: Vec<u8> = object.to_bytes();
        let stored: bool = self.heap.write_bytes(ptr, &bytes);
        proof {
            object.lemma_round_trip();
            if stored {
                crate::block_list::BlockList::lemma_same_shape(
                    old(self).storage().blocks(),
                    self.storage().blocks(),
                );
                crate::block_list::BlockList::lemma_wrote_reads(
                    old(self).storage().blocks(),
                    self.storage().blocks(),
                    ptr.addr(),
                    bytes@,
                );
            }
        }
        stored
    }

    /// The storage of the objects.
    pub fn objects(&self) -> (storage: &HeapStorage)
        ensures
            *storage == self.storage(),
    {
        &self.heap
    }

    /// The table of the symbols.
    pub fn symbol_map(&self) -> (symbols: &SymbolMap)
        ensures
            *symbols == self.symbols(),
    {
        &self.syms
    }
}

} // verus!
