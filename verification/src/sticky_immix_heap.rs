//! The heap: it classifies a request by its size, finds space for it in
//! the blocks, and writes the header and the object there.

use vstd::prelude::*;
use vstd::pervasive::unreached;
use core::marker::PhantomData;
use crate::address_space::AddressSpace;
use crate::allocation::{
    alloc_size_of, AllocError, AllocHeader, AllocObject, ArraySize, Mark, RawPtr, SizeClass,
};
use crate::block_list::{BlockList, Slot};
use crate::constants::{align_up, BLOCK_CAPACITY, BLOCK_SIZE, WORD_SIZE};

verus! {

/// The lowest address of the range that a heap takes its blocks from
/// unless it is given another.
pub const HEAP_START: usize = 0x4000_0000;

/// The address at which that range ends.
pub const HEAP_END: usize = 0x8000_0000;

/// A heap whose objects have headers of type `H`.
pub struct StickyImmixHeap<H> {
    blocks: BlockList,
    _header_type: PhantomData<H>,
}

/// The slot through which `alloc_size` bytes of the class `size_class` are
/// allocated: the overflow slot for a medium object that does not fit the
/// current hole of the head block, else the head.
pub open spec fn slot_for(blocks: BlockList, alloc_size: int, size_class: SizeClass) -> Slot {
    match blocks.head() {
        Some(h) => if size_class == SizeClass::Medium && alloc_size > blocks.blocks()[h as int].cursor()
            - blocks.blocks()[h as int].limit() {
            Slot::Overflow
        } else {
            Slot::Head
        },
        None => Slot::Head,
    }
}

/// What finding space for `alloc_size` bytes of the class `size_class`
/// does to the blocks and returns: a large request fails with
/// `BadRequest` and changes nothing; any other is an allocation through
/// the slot that `slot_for` names.
pub open spec fn find_space_spec(
    old: BlockList,
    new: BlockList,
    alloc_size: int,
    size_class: SizeClass,
    r: Result<usize, AllocError>,
) -> bool {
    if size_class == SizeClass::Large {
        r == Err::<usize, AllocError>(AllocError::BadRequest) && BlockList::same(old, new)
    } else {
        BlockList::slot_alloc_spec(old, new, slot_for(old, alloc_size, size_class), alloc_size, r)
    }
}

/// Whether `new` holds what `old` held, but for `header` stored from
/// the address `space` on and `payload` right behind it, with zeros in
/// every byte that was not mapped in `old` and is not written.
pub open spec fn stored(
    old: BlockList,
    new: BlockList,
    space: int,
    header: Seq<u8>,
    payload: Seq<u8>,
) -> bool {
    &&& forall|a: int| #[trigger] old.mapped(a) ==> new.mapped(a)
    &&& forall|a: int| #[trigger]
        new.mapped(a) ==> new.byte(a) == if space <= a < space + header.len() {
            header[a - space]
        } else if space + header.len() <= a < space + header.len() + payload.len() {
            payload[a - space - header.len()]
        } else if old.mapped(a) {
            old.byte(a)
        } else {
            0u8
        }
}

/// What an allocation of an object with the bytes `header` before it and
/// the bytes `payload` in it does to the blocks and returns.
///
/// The bytes are rounded up to whole words and classified. Space is found
/// as `find_space_spec` says. On success the header and the payload stand
/// in memory from the address found, the pointer returned is the address
/// of the payload, the bytes taken had not been handed out before, and no
/// other byte has changed. On failure nothing has changed.
pub open spec fn alloc_spec(
    old: BlockList,
    new: BlockList,
    header: Seq<u8>,
    payload: Seq<u8>,
    r: Result<RawPtr, AllocError>,
) -> bool {
    let alloc_size = align_up((header.len() + payload.len()) as int);
    let size_class = SizeClass::for_size(alloc_size);
    match r {
        Ok(ptr) => {
            let space = ptr.addr() - header.len();
            &&& 0 < space <= usize::MAX
            &&& find_space_spec(old, new, alloc_size, size_class, Ok(space as usize))
            &&& ptr.addr() % (WORD_SIZE as int) == 0
            &&& BlockList::newly_used(old, new, space, alloc_size)
            &&& BlockList::used_kept(old, new)
            &&& stored(old, new, space, header, payload)
        },
        Err(e) => find_space_spec(old, new, alloc_size, size_class, Err(e)),
    }
}

/// What has been stored is read back: the header from the address of
/// the space on, and the payload right behind it.
pub proof fn lemma_stored_reads(
    old: BlockList,
    new: BlockList,
    space: int,
    header: Seq<u8>,
    payload: Seq<u8>,
)
    requires
        new.wf(),
        stored(old, new, space, header, payload),
        header.len() + payload.len() > 0 ==> new.mapped_range(
            space,
            (header.len() + payload.len()) as int,
        ),
    ensures
        new.bytes(space, header.len() as int) == header,
        new.bytes(space + header.len(), payload.len() as int) == payload,
        header.len() > 0 ==> new.mapped_range(space, header.len() as int),
        payload.len() > 0 ==> new.mapped_range(space + header.len(), payload.len() as int),
{
    let total = (header.len() + payload.len()) as int;
    assert forall|i: int| 0 <= i < header.len() implies new.byte(space + i) == header[i] by {
        new.lemma_range(space, total, i);
    }
    assert forall|i: int| 0 <= i < payload.len() implies new.byte(space + header.len() + i)
        == payload[i] by {
        new.lemma_range(space, total, header.len() + i);
    }
    if payload.len() > 0 {
        new.lemma_range(space, total, header.len() as int);
    }
    assert(new.bytes(space, header.len() as int) =~= header);
    assert(new.bytes(space + header.len(), payload.len() as int) =~= payload);
}

/// An allocation leaves what had been handed out before as it was: the
/// bytes of a range that had been handed out are still handed out, and
/// hold what they held.
pub proof fn lemma_alloc_keeps(
    old: BlockList,
    new: BlockList,
    header: Seq<u8>,
    payload: Seq<u8>,
    ptr: RawPtr,
    addr: int,
    len: int,
)
    requires
        old.wf(),
        new.wf(),
        alloc_spec(old, new, header, payload, Ok(ptr)),
        old.used_range(addr, len),
    ensures
        new.used_range(addr, len),
        new.bytes(addr, len) == old.bytes(addr, len),
        len > 0 && payload.len() > 0 ==> ptr.addr() != addr,
{
    let space = ptr.addr() - header.len();
    let alloc_size = align_up((header.len() + payload.len()) as int);
    old.lemma_mapped(addr);
    assert(new.used(addr));
    new.lemma_mapped(addr);
    BlockList::lemma_offset_of_same(old, new, addr);
    assert forall|k: int| 0 <= k < len implies #[trigger] new.byte(addr + k) == old.byte(
        addr + k,
    ) by {
        old.lemma_range(addr, len, k);
        assert(old.used(addr + k));
        assert(new.mapped(addr + k));
    }
    assert(new.bytes(addr, len) =~= old.bytes(addr, len));
    if len > 0 && payload.len() > 0 && ptr.addr() == addr {
        assert(old.used(addr));
        assert(space <= ptr.addr() < space + alloc_size) by {
            crate::constants::lemma_align_down_bounds(
                header.len() + payload.len() + WORD_SIZE - 1,
                0,
            );
        }
    }
}

/// Allocating zeros and then storing bytes over the first of them is an
/// allocation of those bytes, followed by the zeros that are left.
pub proof fn lemma_alloc_then_store(
    old: BlockList,
    mid: BlockList,
    new: BlockList,
    header: Seq<u8>,
    len: nat,
    ptr: RawPtr,
    data: Seq<u8>,
)
    requires
        old.wf(),
        mid.wf(),
        new.wf(),
        alloc_spec(old, mid, header, Seq::new(len, |i: int| 0u8), Ok(ptr)),
        BlockList::wrote(mid, new, ptr.addr(), data),
        data.len() <= len,
    ensures
        alloc_spec(
            old,
            new,
            header,
            data + Seq::new((len - data.len()) as nat, |i: int| 0u8),
            Ok(ptr),
        ),
{
    let zeros = Seq::new(len, |i: int| 0u8);
    let payload = data + Seq::new((len - data.len()) as nat, |i: int| 0u8);
    assert(payload.len() == zeros.len());
    let alloc_size = align_up((header.len() + payload.len()) as int);
    let size_class = SizeClass::for_size(alloc_size);
    let space = ptr.addr() - header.len();
    BlockList::lemma_alloc_then_write(
        old,
        mid,
        new,
        slot_for(old, alloc_size, size_class),
        alloc_size,
        space as usize,
    );
    BlockList::lemma_same_shape(mid, new);
    assert forall|a: int| #[trigger] new.mapped(a) implies new.byte(a) == if space <= a < space
        + header.len() {
        header[a - space]
    } else if space + header.len() <= a < space + header.len() + payload.len() {
        payload[a - space - header.len()]
    } else if old.mapped(a) {
        old.byte(a)
    } else {
        0u8
    } by {
        assert(mid.mapped(a));
    }
}

/// `payload` with `data` in place of the bytes from the index `at` on.
pub open spec fn spliced(payload: Seq<u8>, at: int, data: Seq<u8>) -> Seq<u8> {
    payload.subrange(0, at) + data + payload.subrange(at + data.len(), payload.len() as int)
}

/// Allocating an object and then storing bytes over some of its bytes
/// is an allocation of the object with those bytes in place.
pub proof fn lemma_alloc_then_store_at(
    old: BlockList,
    mid: BlockList,
    new: BlockList,
    header: Seq<u8>,
    payload: Seq<u8>,
    ptr: RawPtr,
    at: int,
    data: Seq<u8>,
)
    requires
        old.wf(),
        mid.wf(),
        new.wf(),
        alloc_spec(old, mid, header, payload, Ok(ptr)),
        BlockList::wrote(mid, new, ptr.addr() + at, data),
        0 <= at,
        at + data.len() <= payload.len(),
    ensures
        alloc_spec(old, new, header, spliced(payload, at, data), Ok(ptr)),
{
    let changed = spliced(payload, at, data);
    assert(changed.len() == payload.len());
    let alloc_size = align_up((header.len() + payload.len()) as int);
    let size_class = SizeClass::for_size(alloc_size);
    let space = ptr.addr() - header.len();
    BlockList::lemma_alloc_then_write(
        old,
        mid,
        new,
        slot_for(old, alloc_size, size_class),
        alloc_size,
        space as usize,
    );
    BlockList::lemma_same_shape(mid, new);
    assert forall|a: int| #[trigger] new.mapped(a) implies new.byte(a) == if space <= a < space
        + header.len() {
        header[a - space]
    } else if space + header.len() <= a < space + header.len() + changed.len() {
        changed[a - space - header.len()]
    } else if old.mapped(a) {
        old.byte(a)
    } else {
        0u8
    } by {
        assert(mid.mapped(a));
    }
}

/// Allocating an object and then changing bytes of it is an allocation
/// of the object with the bytes that it holds in the end.
pub proof fn lemma_alloc_then_change(
    old: BlockList,
    mid: BlockList,
    new: BlockList,
    header: Seq<u8>,
    payload: Seq<u8>,
    ptr: RawPtr,
)
    requires
        old.wf(),
        mid.wf(),
        new.wf(),
        alloc_spec(old, mid, header, payload, Ok(ptr)),
        BlockList::changed_within(mid, new, ptr.addr(), ptr.addr() + payload.len()),
    ensures
        alloc_spec(old, new, header, new.bytes(ptr.addr(), payload.len() as int), Ok(ptr)),
{
    let changed = new.bytes(ptr.addr(), payload.len() as int);
    let alloc_size = align_up((header.len() + payload.len()) as int);
    let size_class = SizeClass::for_size(alloc_size);
    let space = ptr.addr() - header.len();
    BlockList::lemma_alloc_then_write(
        old,
        mid,
        new,
        slot_for(old, alloc_size, size_class),
        alloc_size,
        space as usize,
    );
    BlockList::lemma_same_shape(mid, new);
    assert forall|a: int| #[trigger] new.mapped(a) implies new.byte(a) == if space <= a < space
        + header.len() {
        header[a - space]
    } else if space + header.len() <= a < space + header.len() + changed.len() {
        changed[a - space - header.len()]
    } else if old.mapped(a) {
        old.byte(a)
    } else {
        0u8
    } by {
        assert(mid.mapped(a));
    }
}

/// An address that is a multiple of the word size has its two low bits clear.
pub proof fn lemma_word_aligned_low_bits(addr: usize)
    requires
        addr % WORD_SIZE == 0,
    ensures
        addr & 0x3 == 0,
        addr % 4 == 0,
{
    assert(addr & 0x3 == 0) by (bit_vector)
        requires
            addr % 8 == 0,
    ;
}

/// Bytes that are stored after bytes have been kept are stored over
/// what there was before both.
proof fn lemma_kept_then_stored(
    old: BlockList,
    mid: BlockList,
    new: BlockList,
    space: int,
    header: Seq<u8>,
    payload: Seq<u8>,
)
    requires
        BlockList::bytes_kept(old, mid),
        forall|a: int| #[trigger] new.mapped(a) == mid.mapped(a),
        stored(mid, new, space, header, payload),
    ensures
        stored(old, new, space, header, payload),
{
    assert forall|a: int| #[trigger] old.mapped(a) implies new.mapped(a) by {
        assert(mid.mapped(a));
    }
    assert forall|a: int| #[trigger] new.mapped(a) implies new.byte(a) == if space <= a < space
        + header.len() {
        header[a - space]
    } else if space + header.len() <= a < space + header.len() + payload.len() {
        payload[a - space - header.len()]
    } else if old.mapped(a) {
        old.byte(a)
    } else {
        0u8
    } by {
        assert(mid.mapped(a));
    }
}

/// What an allocation has handed out is still handed out, and nothing
/// more, in a list of the same shape.
proof fn lemma_used_same_shape(
    old: BlockList,
    mid: BlockList,
    new: BlockList,
    space: int,
    alloc_size: int,
)
    requires
        BlockList::used_kept(old, mid),
        BlockList::newly_used(old, mid, space, alloc_size),
        forall|a: int| #[trigger] new.used(a) == mid.used(a),
        forall|a: int, len: int| #[trigger] new.used_range(a, len) == mid.used_range(a, len),
    ensures
        BlockList::used_kept(old, new),
        BlockList::newly_used(old, new, space, alloc_size),
{
    assert forall|a: int| #[trigger] old.used(a) implies new.used(a) by {
        assert(mid.used(a));
    }
    if alloc_size > 0 {
        assert(mid.used_range(space, alloc_size));
        assert(new.used_range(space, alloc_size));
    }
}

/// Finding space and then storing the header and the payload there is an allocation.
proof fn lemma_alloc(
    old: BlockList,
    mid: BlockList,
    new: BlockList,
    header: Seq<u8>,
    payload: Seq<u8>,
    space: usize,
)
    requires
        old.wf(),
        mid.wf(),
        header.len() % (WORD_SIZE as nat) == 0,
        align_up((header.len() + payload.len()) as int) <= BLOCK_CAPACITY,
        find_space_spec(
            old,
            mid,
            align_up((header.len() + payload.len()) as int),
            SizeClass::for_size(align_up((header.len() + payload.len()) as int)),
            Ok(space),
        ),
        BlockList::alloc_effect(
            old,
            mid,
            align_up((header.len() + payload.len()) as int),
            Ok(space),
        ),
        BlockList::same_shape(mid, new),
        stored(mid, new, space as int, header, payload),
        space > 0,
        space + header.len() <= usize::MAX,
    ensures
        alloc_spec(old, new, header, payload, Ok(RawPtr::at(space + header.len()))),
{
    let alloc_size = align_up((header.len() + payload.len()) as int);
    let size_class = SizeClass::for_size(alloc_size);
    let ptr = RawPtr::at(space + header.len());
    RawPtr::lemma_addr_at(space + header.len());
    assert(ptr.addr() - header.len() == space);
    assert(find_space_spec(old, new, alloc_size, size_class, Ok(space))) by {
        BlockList::lemma_alloc_then_write(
            old,
            mid,
            new,
            slot_for(old, alloc_size, size_class),
            alloc_size,
            space,
        );
    }
    BlockList::lemma_same_shape(mid, new);
    lemma_kept_then_stored(old, mid, new, space as int, header, payload);
    lemma_used_same_shape(old, mid, new, space as int, alloc_size);
    assert(ptr.addr() % (WORD_SIZE as int) == 0);
}

impl<H: AllocHeader> StickyImmixHeap<H> {
    /// The blocks of the heap.
    pub closed spec fn blocks(self) -> BlockList {
        self.blocks
    }

    /// The blocks are well-formed.
    pub open spec fn wf(self) -> bool {
        self.blocks().wf()
    }

    /// The address of the header of the object at `object`.
    pub open spec fn spec_get_header(object: RawPtr) -> RawPtr {
        RawPtr::at(object.addr() - H::spec_header_size())
    }

    /// The address of the object whose header is at `header`.
    pub open spec fn spec_get_object(header: RawPtr) -> RawPtr {
        RawPtr::at(header.addr() + H::spec_header_size())
    }

    /// The header that stands before the object at `object`, if the bytes
    /// there are mapped and stand for a header.
    pub open spec fn header_of(self, object: RawPtr) -> Option<H> {
        let at = object.addr() - H::spec_header_size();
        if self.blocks().mapped_range(at, H::spec_header_size() as int) {
            H::spec_from_bytes(self.blocks().bytes(at, H::spec_header_size() as int))
        } else {
            None
        }
    }

    /// The header that an object of type `T` is given when it is allocated.
    pub open spec fn object_header<T: AllocObject<H::TypeId>>() -> H {
        H::spec_new(
            T::spec_type_id(),
            T::spec_size(),
            SizeClass::for_size(align_up((H::spec_header_size() + T::spec_size()) as int)),
            Mark::Allocated,
        )
    }

    /// The header that an array of `size_bytes` bytes is given when it
    /// is allocated.
    pub open spec fn array_header(size_bytes: ArraySize) -> H {
        H::spec_new_array(
            size_bytes,
            SizeClass::for_size(align_up((H::spec_header_size() + size_bytes) as int)),
            Mark::Allocated,
        )
    }

    /// Whether an allocation of an object of `payload_size` bytes is sure
    /// to succeed: the object is not large, and the block that it goes to
    /// can take it or a fresh block can be had.
    pub open spec fn can_take(self, payload_size: nat) -> bool {
        let alloc_size = align_up((H::spec_header_size() + payload_size) as int);
        let size_class = SizeClass::for_size(alloc_size);
        &&& size_class != SizeClass::Large
        &&& {
            ||| self.blocks().slot_can_take(
                slot_for(self.blocks(), alloc_size, size_class),
                alloc_size,
            )
            ||| self.blocks().space().fits(BLOCK_SIZE as int)
        }
    }

    /// The object of a header that is the header of an object is that object.
    pub proof fn lemma_header_round_trip(object: RawPtr)
        requires
            object.addr() >= H::spec_header_size(),
        ensures
            Self::spec_get_object(Self::spec_get_header(object)) == object,
    {
        object.lemma_addr_bounds();
        RawPtr::lemma_addr_at(object.addr() - H::spec_header_size());
        RawPtr::lemma_at_addr(object);
    }

    /// What can be read of an object right after it has been allocated:
    /// the header it was given stands before it, and its bytes are those
    /// it was given. The pointer to it is a multiple of the word size and
    /// leads to its header and back.
    pub proof fn lemma_allocated(
        self,
        old: BlockList,
        header: H,
        payload: Seq<u8>,
        ptr: RawPtr,
    )
        requires
            self.wf(),
            alloc_spec(old, self.blocks(), header.spec_bytes(), payload, Ok(ptr)),
        ensures
            H::spec_header_size() + payload.len() > 0 ==> self.header_of(ptr) == Some(header),
            self.blocks().bytes(ptr.addr(), payload.len() as int) == payload,
            payload.len() > 0 ==> self.blocks().used_range(ptr.addr(), payload.len() as int),
            ptr.addr() % (WORD_SIZE as int) == 0,
            ptr.addr() > H::spec_header_size(),
            Self::spec_get_object(Self::spec_get_header(ptr)) == ptr,
    {
        header.lemma_round_trip();
        H::lemma_header_size();
        let bytes = header.spec_bytes();
        let space = ptr.addr() - bytes.len();
        let total = (bytes.len() + payload.len()) as int;
        if total > 0 {
            self.blocks().lemma_range(space, align_up(total), 0);
            if payload.len() > 0 {
                self.blocks().lemma_range(space, align_up(total), bytes.len() as int);
            }
        }
        lemma_stored_reads(old, self.blocks(), space, bytes, payload);
        Self::lemma_header_round_trip(ptr);
    }

    /// A heap with no block yet, that takes its blocks from the range
    /// of addresses from `HEAP_START` to `HEAP_END`.
    pub fn new() -> (heap: StickyImmixHeap<H>)
        ensures
            heap.wf(),
            heap.blocks().blocks().len() == 0,
            heap.blocks().head() is None,
            heap.blocks().overflow() is None,
            heap.blocks().rest().len() == 0,
            heap.blocks().space().start() == HEAP_START,
            heap.blocks().space().next() == HEAP_START,
            heap.blocks().space().end() == HEAP_END,
    {
        StickyImmixHeap {
            blocks: BlockList::new(AddressSpace::new(HEAP_START, HEAP_END)),
            _header_type: PhantomData,
        }
    }

    /// A heap with no block yet, that takes its blocks from `space`.
    pub fn with_space(space: AddressSpace) -> (heap: StickyImmixHeap<H>)
        requires
            space.wf(),
        ensures
            heap.wf(),
            heap.blocks().blocks().len() == 0,
            heap.blocks().head() is None,
            heap.blocks().overflow() is None,
            heap.blocks().rest().len() == 0,
            heap.blocks().space() == space,
    {
        StickyImmixHeap { blocks: BlockList::new(space), _header_type: PhantomData }
    }

    /// The blocks of the heap.
    pub fn block_list(&self) -> (blocks: &BlockList)
        ensures
            *blocks == self.blocks(),
    {
        &self.blocks
    }

    /// Finds space for `alloc_size` bytes of the class `size_class` and
    /// returns its address.
    ///
    /// A large request fails with `BadRequest`. A medium request that does
    /// not fit the current hole of the head block goes to the overflow
    /// block. Any other goes to the head block; if that cannot take it, it
    /// is retired and a fresh block takes its place. Fails with `OOM` if a
    /// fresh block is needed and cannot be had. A failure changes nothing.
    pub fn find_space(&mut self, alloc_size: usize, size_class: SizeClass) -> (r: Result<
        usize,
        AllocError,
    >)
        requires
            old(self).wf(),
            size_class != SizeClass::Large ==> alloc_size <= BLOCK_CAPACITY,
        ensures
            final(self).wf(),
            find_space_spec(
                old(self).blocks(),
                final(self).blocks(),
                alloc_size as int,
                size_class,
                r,
            ),
            size_class != SizeClass::Large ==> BlockList::block_bytes_kept(
                old(self).blocks(),
                final(self).blocks(),
            ) && BlockList::alloc_effect(
                old(self).blocks(),
                final(self).blocks(),
                alloc_size as int,
                r,
            ),
    {
        if size_class == SizeClass::Large {
            return Err(AllocError::BadRequest);
        }
        match self.blocks.head_hole_size() {
            Some(hole_size) => {
                proof {
                    self.blocks().blocks()[self.blocks().head()->0 as int].lemma_wf();
                }
                if size_class == SizeClass::Medium && alloc_size > hole_size {
                    return self.blocks.overflow_alloc(alloc_size);
                }
                self.blocks.head_alloc(alloc_size)
            },
            None => self.blocks.head_alloc(alloc_size),
        }
    }

    /// Finds space for an object of `payload_size` bytes and its header,
    /// and returns the address of the space.
    fn reserve(&mut self, payload_size: ArraySize) -> (r: Result<usize, AllocError>)
        requires
            old(self).wf(),
        ensures
            final(self).wf(),
            ({
                let alloc_size = align_up((H::spec_header_size() + payload_size) as int);
                let size_class = SizeClass::for_size(alloc_size);
                &&& find_space_spec(
                    old(self).blocks(),
                    final(self).blocks(),
                    alloc_size,
                    size_class,
                    r,
                )
                &&& r is Ok ==> {
                    &&& alloc_size <= BLOCK_CAPACITY
                    &&& BlockList::block_bytes_kept(old(self).blocks(), final(self).blocks())
                    &&& BlockList::alloc_effect(
                        old(self).blocks(),
                        final(self).blocks(),
                        alloc_size,
                        r,
                    )
                }
            }),
    {
        proof {
            H::lemma_header_size();
        }
        let header_size: usize = H::header_size();
        let total_size: usize = match header_size.checked_add(payload_size as usize) {
            Some(total_size) => total_size,
            None => { return Err(AllocError::BadRequest); },
        };
        if total_size > usize::MAX - (WORD_SIZE - 1) {
            return Err(AllocError::BadRequest);
        }
        // round the size up to the next word boundary to keep objects aligned
        let alloc_size: usize = alloc_size_of(total_size);
        let size_class: SizeClass = match SizeClass::get_for_size(alloc_size) {
            Ok(size_class) => size_class,
            Err(e) => { return Err(e); },
        };
        self.find_space(alloc_size, size_class)
    }

    /// Stores `header` from the address `space` on and `payload` right
    /// behind it, in the space that has been found for them since the
    /// heap was as `start` has it, and returns the pointer to the payload.
    fn finish(
        &mut self,
        space: usize,
        header: &Vec<u8>,
        payload: &Vec<u8>,
        Ghost(start): Ghost<BlockList>,
    ) -> (ptr: RawPtr)
        requires
            old(self).wf(),
            start.wf(),
            header@.len() == H::spec_header_size(),
            align_up((header@.len() + payload@.len()) as int) <= BLOCK_CAPACITY,
            find_space_spec(
                start,
                old(self).blocks(),
                align_up((header@.len() + payload@.len()) as int),
                SizeClass::for_size(align_up((header@.len() + payload@.len()) as int)),
                Ok(space),
            ),
            BlockList::alloc_effect(
                start,
                old(self).blocks(),
                align_up((header@.len() + payload@.len()) as int),
                Ok(space),
            ),
        ensures
            final(self).wf(),
            alloc_spec(start, final(self).blocks(), header@, payload@, Ok(ptr)),
    {
        let ghost before = self.blocks;
        let ghost total = (header@.len() + payload@.len()) as int;
        proof {
            H::lemma_header_size();
            if total > 0 {
                before.lemma_mapped(space as int);
                before.blocks()[before.block_of(space as int)].lemma_wf();
                before.lemma_range(space as int, align_up(total), 0);
            }
        }
        proof {
            if header@.len() > 0 && payload@.len() > 0 {
                before.lemma_range(space as int, total, header@.len() as int);
            }
        }
        let header_stored: bool = self.blocks.write_bytes(space, header);
        let ghost mid = self.blocks;
        proof {
            BlockList::lemma_same_shape(before, mid);
        }
        if payload.len() > 0 {
            let payload_stored: bool = self.blocks.write_bytes(space + header.len(), payload);
        }
        proof {
            BlockList::lemma_same_shape(mid, self.blocks);
            BlockList::lemma_same_shape(before, self.blocks);
            assert forall|i: int| 0 <= i < before.blocks().len() implies (
            #[trigger] self.blocks.blocks()[i]).same_shape(before.blocks()[i]) by {
                assert(self.blocks.blocks()[i].same_shape(mid.blocks()[i]));
                assert(mid.blocks()[i].same_shape(before.blocks()[i]));
            }
            assert(stored(before, self.blocks, space as int, header@, payload@));
            lemma_alloc(start, before, self.blocks, header@, payload@, space);
        }
        RawPtr::new(space + header.len())
    }

    /// Allocates space for `object`, writes a header for it and the object
    /// into the space, and returns a pointer to the object.
    pub fn allocate<T: AllocObject<H::TypeId>>(&mut self, object: T) -> (r: Result<RawPtr, AllocError>)
        requires
            old(self).wf(),
        ensures
            final(self).wf(),
            alloc_spec(
                old(self).blocks(),
                final(self).blocks(),
                Self::object_header::<T>().spec_bytes(),
                object.spec_bytes(),
                r,
            ),
            r matches Ok(ptr) ==> {
                &&& ptr.addr() % (WORD_SIZE as int) == 0
                &&& Self::spec_get_object(Self::spec_get_header(ptr)) == ptr
                &&& final(self).header_of(ptr) == Some(Self::object_header::<T>())
                &&& final(self).blocks().bytes(ptr.addr(), T::spec_size() as int)
                    == object.spec_bytes()
            },
    {
        let object_size: ArraySize = T::object_size();
        let space: usize = match self.reserve(object_size) {
            Ok(space) => space,
            Err(e) => {
                proof {
                    object.lemma_round_trip();
                    Self::object_header::<T>().lemma_round_trip();
                }
                return Err(e);
            },
        };
        let size_class: SizeClass = match SizeClass::get_for_size(
            alloc_size_of(H::header_size() + object_size as usize),
        ) {
            Ok(size_class) => size_class,
            Err(e) => unreached(),
        };
        let header: H = H::new::<T>(object_size, size_class, Mark::Allocated);
        proof {
            header.lemma_round_trip();
            object.lemma_round_trip();
            T::lemma_size();
        }
        let ptr: RawPtr = self.finish(
            space,
            &header.to_bytes(),
            &object.to_bytes(),
            Ghost(old(self).blocks),
        );
        proof {
            self.lemma_allocated(old(self).blocks(), header, object.spec_bytes(), ptr);
        }
        Ok(ptr)
    }

    /// Allocates space for an array of `size_bytes` bytes, writes a
    /// header for it into the space, fills the array with zeros, and
    /// returns a pointer to the array.
    pub fn alloc_array(&mut self, size_bytes: ArraySize) -> (r: Result<RawPtr, AllocError>)
        requires
            old(self).wf(),
        ensures
            final(self).wf(),
            alloc_spec(
                old(self).blocks(),
                final(self).blocks(),
                Self::array_header(size_bytes).spec_bytes(),
                Seq::new(size_bytes as nat, |i: int| 0u8),
                r,
            ),
            r matches Ok(ptr) ==> {
                &&& ptr.addr() % (WORD_SIZE as int) == 0
                &&& Self::spec_get_object(Self::spec_get_header(ptr)) == ptr
                &&& H::spec_header_size() + size_bytes > 0 ==> final(self).header_of(ptr) == Some(
                    Self::array_header(size_bytes),
                )
                &&& final(self).blocks().bytes(ptr.addr(), size_bytes as int) == Seq::new(
                    size_bytes as nat,
                    |i: int| 0u8,
                )
            },
    {
        let space: usize = match self.reserve(size_bytes) {
            Ok(space) => space,
            Err(e) => {
                proof {
                    Self::array_header(size_bytes).lemma_round_trip();
                }
                return Err(e);
            },
        };
        let size_class: SizeClass = match SizeClass::get_for_size(
            alloc_size_of(H::header_size() + size_bytes as usize),
        ) {
            Ok(size_class) => size_class,
            Err(e) => unreached(),
        };
        let header: H = H::new_array(size_bytes, size_class, Mark::Allocated);
        proof {
            header.lemma_round_trip();
        }
        let zeros: Vec<u8> = vec![0u8; size_bytes as usize];
        assert(zeros@ =~= Seq::new(size_bytes as nat, |i: int| 0u8));
        let ptr: RawPtr = self.finish(space, &header.to_bytes(), &zeros, Ghost(old(self).blocks));
        proof {
            self.lemma_allocated(old(self).blocks(), header, zeros@, ptr);
        }
        Ok(ptr)
    }

    /// The address of the header of the object at `object`.
    pub fn get_header(object: RawPtr) -> (header: RawPtr)
        requires
            object.addr() > H::spec_header_size(),
        ensures
            header == Self::spec_get_header(object),
            header.addr() == object.addr() - H::spec_header_size(),
            header.addr() > 0,
    {
        RawPtr::new(object.as_word() - H::header_size())
    }

    /// The address of the object whose header is at `header`.
    pub fn get_object(header: RawPtr) -> (object: RawPtr)
        requires
            header.addr() + H::spec_header_size() <= usize::MAX,
        ensures
            object == Self::spec_get_object(header),
            object.addr() == header.addr() + H::spec_header_size(),
    {
        RawPtr::new(header.as_word() + H::header_size())
    }

    /// The header that stands before the object at `object`, or `None`
    /// if the bytes there are not mapped or stand for no header.
    pub fn read_header(&self, object: RawPtr) -> (header: Option<H>)
        requires
            self.wf(),
        ensures
            header == self.header_of(object),
    {
        let header_size: usize = H::header_size();
        if object.as_word() < header_size {
            proof {
                if self.blocks().mapped(object.addr() - H::spec_header_size()) {
                    self.blocks().lemma_mapped(object.addr() - H::spec_header_size());
                }
            }
            return None;
        }
        match self.blocks.read_bytes(object.as_word() - header_size, header_size) {
            Some(bytes) => H::from_bytes(&bytes),
            None => None,
        }
    }

    /// The `len` bytes from the address `ptr` on, or `None` if they
    /// are not all mapped in one block.
    pub fn read_bytes(&self, ptr: RawPtr, len: usize) -> (r: Option<Vec<u8>>)
        requires
            self.wf(),
        ensures
            match r {
                Some(data) => self.blocks().mapped_range(ptr.addr(), len as int) && data@
                    == self.blocks().bytes(ptr.addr(), len as int),
                None => !self.blocks().mapped_range(ptr.addr(), len as int),
            },
    {
        self.blocks.read_bytes(ptr.as_word(), len)
    }

    /// Stores `data` from the address `ptr` on and returns `true`, or
    /// returns `false` and changes nothing if the bytes to store to are
    /// not all mapped in one block.
    pub fn write_bytes(&mut self, ptr: RawPtr, data: &Vec<u8>) -> (stored: bool)
        requires
            old(self).wf(),
        ensures
            final(self).wf(),
            stored == old(self).blocks().mapped_range(ptr.addr(), data@.len() as int),
            BlockList::wrote(
                old(self).blocks(),
                final(self).blocks(),
                ptr.addr(),
                if stored {
                    data@
                } else {
                    Seq::empty()
                },
            ),
    {
        self.blocks.write_bytes(ptr.as_word(), data)
    }
}

/// An allocator of objects with headers.
pub trait AllocRaw {
    /// The type of the headers.
    type Header: AllocHeader;

    /// Whether the allocator is well-formed.
    spec fn spec_wf(&self) -> bool;

    /// The blocks that the allocator allocates in.
    spec fn spec_blocks(&self) -> BlockList;

    /// Allocates space for `object`, writes a header for it and the object
    /// into the space, and returns a pointer to the object.
    fn allocate<T: AllocObject<<Self::Header as AllocHeader>::TypeId>>(&mut self, object: T) -> (r:
        Result<RawPtr, AllocError>)
        requires
            old(self).spec_wf(),
        ensures
            final(self).spec_wf(),
            alloc_spec(
                old(self).spec_blocks(),
                final(self).spec_blocks(),
                StickyImmixHeap::<Self::Header>::object_header::<T>().spec_bytes(),
                object.spec_bytes(),
                r,
            ),
    ;

    /// Allocates space for an array of `size_bytes` bytes, writes a
    /// header for it into the space, fills the array with zeros, and
    /// returns a pointer to the array.
    fn alloc_array(&mut self, size_bytes: ArraySize) -> (r: Result<RawPtr, AllocError>)
        requires
            old(self).spec_wf(),
        ensures
            final(self).spec_wf(),
            alloc_spec(
                old(self).spec_blocks(),
                final(self).spec_blocks(),
                StickyImmixHeap::<Self::Header>::array_header(size_bytes).spec_bytes(),
                Seq::new(size_bytes as nat, |i: int| 0u8),
                r,
            ),
    ;

    /// The address of the header of the object at `object`.
    fn get_header(object: RawPtr) -> (header: RawPtr)
        requires
            object.addr() > Self::Header::spec_header_size(),
        ensures
            header == StickyImmixHeap::<Self::Header>::spec_get_header(object),
    ;

    /// The address of the object whose header is at `header`.
    fn get_object(header: RawPtr) -> (object: RawPtr)
        requires
            header.addr() + Self::Header::spec_header_size() <= usize::MAX,
        ensures
            object == StickyImmixHeap::<Self::Header>::spec_get_object(header),
    ;
}

impl<H: AllocHeader> AllocRaw for StickyImmixHeap<H> {
    type Header = H;

    open spec fn spec_wf(&self) -> bool {
        self.wf()
    }

    open spec fn spec_blocks(&self) -> BlockList {
        self.blocks()
    }

    fn allocate<T: AllocObject<H::TypeId>>(&mut self, object: T) -> (r: Result<RawPtr, AllocError>) {
        StickyImmixHeap::allocate(self, object)
    }

    fn alloc_array(&mut self, size_bytes: ArraySize) -> (r: Result<RawPtr, AllocError>) {
        StickyImmixHeap::alloc_array(self, size_bytes)
    }

    fn get_header(object: RawPtr) -> (header: RawPtr) {
        StickyImmixHeap::<H>::get_header(object)
    }

    fn get_object(header: RawPtr) -> (object: RawPtr) {
        StickyImmixHeap::<H>::get_object(header)
    }
}

} // verus!
