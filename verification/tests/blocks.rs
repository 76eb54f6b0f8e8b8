use stickyimmix::address_space::{alloc_block, is_power_of_two, AddressSpace};
use stickyimmix::allocation::{alloc_size_of, AllocError, AllocHeader, HeapData, Mark, SizeClass};
use stickyimmix::arena::{Arena, ArenaHeader};
use stickyimmix::block::Block;
use stickyimmix::block_list::BlockList;
use stickyimmix::block_meta::BlockMeta;
use stickyimmix::bump_block::BumpBlock;
use stickyimmix::constants::{
    ALLOC_ALIGN_MASK, BLOCK_CAPACITY, BLOCK_SIZE, BLOCK_SIZE_BITS, LINE_COUNT, LINE_SIZE,
    LINE_SIZE_BITS, WORD_SIZE,
};
use stickyimmix::errors::{BlockError, ErrorKind, RuntimeError};
use stickyimmix::object_header::ObjectHeader;
use stickyimmix::pair::Pair;
use stickyimmix::sticky_immix_heap::{StickyImmixHeap, HEAP_START};
use stickyimmix::symbol::Symbol;
use stickyimmix::token::SourcePos;
use stickyimmix::type_list::TypeList;

#[test]
fn the_layout_is_as_given() {
    assert_eq!(LINE_SIZE_BITS, 7);
    assert_eq!(BLOCK_SIZE_BITS, 15);
    assert_eq!(LINE_SIZE, 1 << LINE_SIZE_BITS);
    assert_eq!(BLOCK_SIZE, 1 << BLOCK_SIZE_BITS);
    assert_eq!(LINE_COUNT, BLOCK_SIZE / LINE_SIZE);
    assert_eq!(BLOCK_CAPACITY, BLOCK_SIZE - LINE_COUNT);
    assert_eq!(ALLOC_ALIGN_MASK, !(WORD_SIZE - 1));
    assert_eq!(alloc_size_of(0), 0);
    assert_eq!(alloc_size_of(1), 8);
    assert_eq!(alloc_size_of(8), 8);
    assert_eq!(alloc_size_of(24), 24);
    assert_eq!(alloc_size_of(25), 32);
}

#[test]
fn sizes_fall_into_three_classes() {
    assert_eq!(SizeClass::get_for_size(0), Ok(SizeClass::Small));
    assert_eq!(SizeClass::get_for_size(LINE_SIZE), Ok(SizeClass::Small));
    assert_eq!(SizeClass::get_for_size(LINE_SIZE + 1), Ok(SizeClass::Medium));
    assert_eq!(SizeClass::get_for_size(BLOCK_CAPACITY), Ok(SizeClass::Medium));
    assert_eq!(SizeClass::get_for_size(BLOCK_CAPACITY + 1), Ok(SizeClass::Large));
}

#[test]
fn powers_of_two_are_told_apart() {
    for n in [1usize, 2, 4, 1024, BLOCK_SIZE, 1 << 40] {
        assert!(is_power_of_two(n));
    }
    for n in [0usize, 3, 6, 1000, BLOCK_SIZE + 1, BLOCK_CAPACITY] {
        assert!(!is_power_of_two(n));
    }
}

#[test]
fn blocks_are_aligned_to_their_size() {
    let mut space = AddressSpace::new(100, 10 * BLOCK_SIZE);
    let block = Block::new(BLOCK_SIZE, &mut space).unwrap();
    assert_eq!(block.as_ptr(), BLOCK_SIZE);
    assert_eq!(block.size(), BLOCK_SIZE);
    assert_eq!(block.read(0), 0);
    assert_eq!(block.read(BLOCK_SIZE - 1), 0);
    let small = Block::new(64, &mut space).unwrap();
    assert_eq!(small.as_ptr(), 2 * BLOCK_SIZE);
    let next = Block::new(BLOCK_SIZE, &mut space).unwrap();
    assert_eq!(next.as_ptr(), 3 * BLOCK_SIZE);
    assert_eq!(space.remaining(), 6 * BLOCK_SIZE);
    assert_eq!(alloc_block(&mut space, 4 * BLOCK_SIZE), Ok(4 * BLOCK_SIZE));
    assert_eq!(alloc_block(&mut space, 4 * BLOCK_SIZE), Err(BlockError::OOM));
    assert_eq!(space.remaining(), 2 * BLOCK_SIZE);
}

#[test]
fn a_block_of_a_bad_size_is_refused() {
    let mut space = AddressSpace::new(0, usize::MAX);
    assert!(matches!(Block::new(0, &mut space), Err(BlockError::BadRequest)));
    assert!(matches!(Block::new(3 * 1024, &mut space), Err(BlockError::BadRequest)));
    assert!(matches!(Block::new(BLOCK_CAPACITY, &mut space), Err(BlockError::BadRequest)));
    assert_eq!(space.remaining(), usize::MAX - 1);
    let mut full = AddressSpace::new(BLOCK_SIZE, 2 * BLOCK_SIZE - 1);
    assert!(matches!(Block::new(BLOCK_SIZE, &mut full), Err(BlockError::OOM)));
    assert!(matches!(BumpBlock::new(&mut full), Err(AllocError::OOM)));
    let mut top = AddressSpace::new(usize::MAX - 10, usize::MAX);
    assert!(matches!(Block::new(BLOCK_SIZE, &mut top), Err(BlockError::OOM)));
}

#[test]
fn a_hole_is_found_below_marked_lines() {
    let mut meta = BlockMeta::new();
    // with no line marked, all that lies below the start is one hole
    assert_eq!(meta.find_next_available_hole(BLOCK_CAPACITY, LINE_SIZE), Some((BLOCK_CAPACITY, 0)));
    assert_eq!(meta.find_next_available_hole(10 * LINE_SIZE, 1), Some((10 * LINE_SIZE, 0)));
    assert_eq!(meta.find_next_available_hole(10 * LINE_SIZE + 5, 1), Some((10 * LINE_SIZE, 0)));
    assert_eq!(meta.find_next_available_hole(10 * LINE_SIZE, 10 * LINE_SIZE), Some((10 * LINE_SIZE, 0)));
    assert_eq!(meta.find_next_available_hole(10 * LINE_SIZE, 10 * LINE_SIZE + 1), None);
    assert_eq!(meta.find_next_available_hole(0, 1), None);
    assert_eq!(meta.find_next_available_hole(LINE_SIZE - 1, 1), None);

    // lines 4 and 10 are marked
    meta.mark_line(4);
    meta.mark_line(10);
    assert!(meta.is_marked(4));
    assert!(!meta.is_marked(5));
    // from line 20 down: lines 11..20 are free, line 11 is given up
    assert_eq!(meta.find_next_available_hole(20 * LINE_SIZE, LINE_SIZE), Some((20 * LINE_SIZE, 12 * LINE_SIZE)));
    // eight lines fit, nine do not: the hole below is one of five lines and does not fit either
    assert_eq!(meta.find_next_available_hole(20 * LINE_SIZE, 8 * LINE_SIZE), Some((20 * LINE_SIZE, 12 * LINE_SIZE)));
    assert_eq!(meta.find_next_available_hole(20 * LINE_SIZE, 9 * LINE_SIZE), None);
    // from line 10 down: lines 5..10 are free, line 5 is given up
    assert_eq!(meta.find_next_available_hole(10 * LINE_SIZE, LINE_SIZE), Some((10 * LINE_SIZE, 6 * LINE_SIZE)));
    assert_eq!(meta.find_next_available_hole(10 * LINE_SIZE, 4 * LINE_SIZE), Some((10 * LINE_SIZE, 6 * LINE_SIZE)));
    // five lines do not fit there, and the four lines at the bottom do not do either
    assert_eq!(meta.find_next_available_hole(10 * LINE_SIZE, 5 * LINE_SIZE), None);
    // the hole at the bottom is not cut: it reaches the start of the block
    assert_eq!(meta.find_next_available_hole(4 * LINE_SIZE, 4 * LINE_SIZE), Some((4 * LINE_SIZE, 0)));
    assert_eq!(meta.find_next_available_hole(4 * LINE_SIZE, 4 * LINE_SIZE + 1), None);
    // a hole of no bytes may be empty
    meta.mark_line(1);
    assert_eq!(meta.find_next_available_hole(3 * LINE_SIZE, 0), Some((3 * LINE_SIZE, 3 * LINE_SIZE)));
}

#[test]
fn a_block_is_filled_downward() {
    let mut space = AddressSpace::new(BLOCK_SIZE, 3 * BLOCK_SIZE);
    let mut block = BumpBlock::new(&mut space).unwrap();
    assert_eq!(block.as_ptr(), BLOCK_SIZE);
    assert_eq!(block.cursor_offset(), BLOCK_CAPACITY);
    assert_eq!(block.limit_offset(), 0);
    assert_eq!(block.current_hole_size(), BLOCK_CAPACITY);
    let first = block.inner_alloc(24).unwrap();
    assert_eq!(first, BLOCK_SIZE + BLOCK_CAPACITY - 24);
    let second = block.inner_alloc(20).unwrap();
    assert_eq!(second, BLOCK_SIZE + BLOCK_CAPACITY - 24 - 24);
    let third = block.inner_alloc(8).unwrap();
    assert_eq!(third + 8, second);
    assert!(third < second && second < first);
    assert_eq!(block.current_hole_size(), BLOCK_CAPACITY - 56);
    // what does not fit is refused and changes nothing
    assert_eq!(block.inner_alloc(BLOCK_CAPACITY), None);
    assert_eq!(block.cursor_offset(), BLOCK_CAPACITY - 56);
    // the rest fits exactly
    let rest = block.inner_alloc(BLOCK_CAPACITY - 56).unwrap();
    assert_eq!(rest, BLOCK_SIZE);
    assert_eq!(block.current_hole_size(), 0);
    assert_eq!(block.inner_alloc(8), None);
    // bytes are written and read by their offset
    block.write(100, 0xab);
    assert_eq!(block.read(100), 0xab);
    assert_eq!(block.read(101), 0);
}

#[test]
fn a_block_goes_on_in_the_next_hole() {
    let mut space = AddressSpace::new(BLOCK_SIZE, 3 * BLOCK_SIZE);
    let mut block = BumpBlock::new(&mut space).unwrap();
    block.mark_line(200);
    block.mark_line(100);
    assert!(block.recycle());
    // the highest hole: lines 202..254
    assert_eq!(block.cursor_offset(), BLOCK_CAPACITY);
    assert_eq!(block.limit_offset(), 202 * LINE_SIZE);
    assert_eq!(block.current_hole_size(), 52 * LINE_SIZE);
    let a = block.inner_alloc(50 * LINE_SIZE).unwrap();
    assert_eq!(a, BLOCK_SIZE + 204 * LINE_SIZE);
    // three lines do not fit what is left of the hole: the next hole is lines 102..200
    let b = block.inner_alloc(3 * LINE_SIZE).unwrap();
    assert_eq!(b, BLOCK_SIZE + 197 * LINE_SIZE);
    assert_eq!(block.limit_offset(), 102 * LINE_SIZE);
    // a hundred and one lines fit neither this hole nor the last one, of a hundred lines
    assert_eq!(block.inner_alloc(101 * LINE_SIZE), None);
    assert_eq!(block.cursor_offset(), 197 * LINE_SIZE);
    // ninety-six lines fit no more in this hole, but they fit the last one
    let c = block.inner_alloc(96 * LINE_SIZE).unwrap();
    assert_eq!(c, BLOCK_SIZE + 4 * LINE_SIZE);
    assert_eq!(block.limit_offset(), 0);
    // the marks of the lines are the last bytes of the block
    assert_eq!(block.read(BLOCK_CAPACITY + 200), 1);
    assert_eq!(block.read(BLOCK_CAPACITY + 100), 1);
    assert_eq!(block.read(BLOCK_CAPACITY + 101), 0);
    assert_eq!(block.read(BLOCK_SIZE - 1), 0);
    // a block with every other line marked has no hole
    let mut marked = BumpBlock::new(&mut space).unwrap();
    for line in 0..LINE_COUNT {
        if line % 2 == 0 {
            marked.mark_line(line);
        }
    }
    assert!(!marked.recycle());
    assert_eq!(marked.current_hole_size(), 0);
    assert_eq!(marked.inner_alloc(8), None);
}

#[test]
fn blocks_are_retired_when_they_are_full() {
    let mut list = BlockList::new(AddressSpace::new(BLOCK_SIZE, 4 * BLOCK_SIZE));
    assert_eq!(list.block_count(), 0);
    assert_eq!(list.head_hole_size(), None);
    let a = list.head_alloc(BLOCK_CAPACITY - 8).unwrap();
    assert_eq!(a, BLOCK_SIZE + 8);
    assert_eq!(list.head_index(), Some(0));
    assert_eq!(list.head_hole_size(), Some(8));
    // the head cannot take this: it is retired
    let b = list.head_alloc(16).unwrap();
    assert_eq!(b, 2 * BLOCK_SIZE + BLOCK_CAPACITY - 16);
    assert_eq!(list.head_index(), Some(1));
    assert_eq!(list.rest_indices(), &vec![0]);
    // the overflow block is made when it is first needed
    assert_eq!(list.overflow_index(), None);
    let c = list.overflow_alloc(BLOCK_CAPACITY).unwrap();
    assert_eq!(c, 3 * BLOCK_SIZE);
    assert_eq!(list.overflow_index(), Some(2));
    // no room for a fourth block
    assert_eq!(list.overflow_alloc(8), Err(AllocError::OOM));
    assert_eq!(list.overflow_index(), Some(2));
    assert_eq!(list.rest_indices(), &vec![0]);
    assert_eq!(list.block_count(), 3);
    // memory is read and written through the list
    assert_eq!(list.read_byte(b), Some(0));
    assert!(list.write_byte(b, 7));
    assert_eq!(list.read_byte(b), Some(7));
    assert_eq!(list.read_byte(BLOCK_SIZE - 1), None);
    assert_eq!(list.read_byte(BLOCK_SIZE + BLOCK_CAPACITY), None);
    assert!(!list.write_byte(4 * BLOCK_SIZE, 1));
    assert!(list.write_bytes(a, &vec![1, 2, 3]));
    assert_eq!(list.read_bytes(a, 4), Some(vec![1, 2, 3, 0]));
    assert_eq!(list.read_bytes(BLOCK_SIZE + BLOCK_CAPACITY - 2, 3), None);
    assert!(!list.write_bytes(BLOCK_SIZE + BLOCK_CAPACITY - 2, &vec![1, 2, 3]));
    assert_eq!(list.locate(b), Some((1, BLOCK_CAPACITY - 16)));
}

#[test]
fn headers_stand_before_their_objects() {
    let mut heap: StickyImmixHeap<ObjectHeader> = StickyImmixHeap::new();
    let pair = heap.allocate(Pair::new()).unwrap();
    let symbol = heap.allocate(Symbol::new(3, 5)).unwrap();
    let array = heap.alloc_array(300).unwrap();
    assert!(pair.as_word() >= HEAP_START);
    let header = heap.read_header(pair).unwrap();
    assert_eq!(header.type_id(), TypeList::Pair);
    assert_eq!(header.size(), 40);
    assert_eq!(header.size_class(), SizeClass::Small);
    assert_eq!(header.mark_value(), Mark::Allocated);
    assert!(!header.is_marked());
    let header = heap.read_header(symbol).unwrap();
    assert_eq!(header.type_id(), TypeList::Symbol);
    assert_eq!(header.size(), 16);
    let header = heap.read_header(array).unwrap();
    assert_eq!(header.type_id(), TypeList::ArrayBackingBytes);
    assert_eq!(header.size(), 300);
    assert_eq!(header.size_class(), SizeClass::Medium);
    // the bytes of the header are the eight bytes before the object
    let bytes = heap.read_bytes(StickyImmixHeap::<ObjectHeader>::get_header(array), 8).unwrap();
    assert_eq!(bytes, vec![0, 1, 0, 0, 44, 1, 0, 0]);
    assert_eq!(ObjectHeader::from_bytes(&bytes), Some(header));
    assert_eq!(header.to_bytes(), bytes);
    // the array is zero, the objects are what was allocated
    assert_eq!(heap.read_bytes(array, 300), Some(vec![0u8; 300]));
    assert_eq!(Pair::from_bytes(&heap.read_bytes(pair, 40).unwrap()), Some(Pair::new()));
    assert_eq!(Symbol::from_bytes(&heap.read_bytes(symbol, 16).unwrap()), Some(Symbol::new(3, 5)));
    // a marked header
    let mut marked = header;
    marked.mark();
    assert!(marked.is_marked());
    assert_eq!(marked.to_bytes()[0], 2);
    // bytes that stand for no header
    assert_eq!(ObjectHeader::from_bytes(&vec![3, 0, 0, 0, 0, 0, 0, 0]), None);
    assert_eq!(ObjectHeader::from_bytes(&vec![0, 3, 0, 0, 0, 0, 0, 0]), None);
    assert_eq!(ObjectHeader::from_bytes(&vec![0, 0, 18, 0, 0, 0, 0, 0]), None);
    assert_eq!(ObjectHeader::from_bytes(&vec![0, 0, 0, 0]), None);
    assert_eq!(heap.read_header(stickyimmix::allocation::Tagged::untag(16)), None);
}

#[test]
fn the_arena_has_headers_of_no_size() {
    let mut arena = Arena::new();
    let a = arena.allocate(Symbol::new(0, 1)).unwrap();
    let b = arena.allocate(Symbol::new(1, 2)).unwrap();
    assert_eq!(a.as_word(), 0x8000 + BLOCK_CAPACITY - 16);
    assert_eq!(b.as_word() + 16, a.as_word());
    assert_eq!(StickyImmixHeap::<ArenaHeader>::get_header(a), a);
    let header = arena.storage().read_header(a).unwrap();
    assert!(header.is_marked());
    assert_eq!(header.size_class(), SizeClass::Small);
    assert_eq!(header.size(), 1);
    assert_eq!(header.type_id(), TypeList::Symbol);
    assert_eq!(ArenaHeader::header_size(), 0);
    assert_eq!(ObjectHeader::header_size(), 8);
}

#[test]
fn errors_say_what_went_wrong() {
    let cases = [
        (ErrorKind::IOError(String::from("no file")), "IO Error: no file"),
        (ErrorKind::LexerError(String::from("bad char")), "Parse error: bad char"),
        (ErrorKind::ParseError(String::from("bad form")), "Parse error: bad form"),
        (ErrorKind::EvalError(String::from("bad call")), "Evaluation error: bad call"),
        (ErrorKind::OutOfMemory, "Out of memory!"),
        (ErrorKind::BadAllocationRequest, "An invalid memory size allocation was requested!"),
        (ErrorKind::BoundsError, "Indexing bounds error"),
        (ErrorKind::KeyError, "Key does not exist in Dict"),
        (ErrorKind::UnhashableError, "Attempt to access Dict with unhashable key"),
        (ErrorKind::MutableBorrowError, "Attempt to modify a container that is already mutably borrowed"),
    ];
    for (kind, text) in cases {
        assert_eq!(RuntimeError::new(kind).message(), text);
    }
    let err = RuntimeError::with_pos(ErrorKind::KeyError, SourcePos::new(3, 7));
    assert_eq!(err.error_kind(), &ErrorKind::KeyError);
    assert_eq!(err.error_pos(), Some(SourcePos { line: 3, column: 7 }));
    assert_eq!(RuntimeError::new(ErrorKind::KeyError).error_pos(), None);
    assert_eq!(RuntimeError::from(AllocError::OOM), RuntimeError::new(ErrorKind::OutOfMemory));
    assert_eq!(RuntimeError::from(AllocError::BadRequest), RuntimeError::new(ErrorKind::BadAllocationRequest));
    assert_eq!(RuntimeError::from(BlockError::OOM), RuntimeError::new(ErrorKind::OutOfMemory));
    assert_eq!(RuntimeError::from(BlockError::BadRequest), RuntimeError::new(ErrorKind::BadAllocationRequest));
    assert_eq!(AllocError::from(BlockError::OOM), AllocError::OOM);
    assert_eq!(AllocError::from(BlockError::BadRequest), AllocError::BadRequest);
}

#[test]
fn type_identifiers_keep_their_order() {
    let all = [
        TypeList::ArrayBackingBytes, TypeList::ArrayOpcode, TypeList::ArrayU8, TypeList::ArrayU16,
        TypeList::ArrayU32, TypeList::ByteCode, TypeList::CallFrameList, TypeList::Dict,
        TypeList::Function, TypeList::InstructionStream, TypeList::List, TypeList::NumberObject,
        TypeList::Pair, TypeList::Partial, TypeList::Symbol, TypeList::Text, TypeList::Thread,
        TypeList::Upvalue,
    ];
    for (code, id) in all.iter().enumerate() {
        assert_eq!(id.to_code(), code as u16);
        assert_eq!(TypeList::from_code(code as u16), Some(*id));
    }
    assert_eq!(TypeList::from_code(18), None);
}
