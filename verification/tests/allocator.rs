use stickyimmix::address_space::AddressSpace;
use stickyimmix::allocation::{AllocError, SizeClass};
use stickyimmix::constants::{BLOCK_CAPACITY, BLOCK_SIZE, LINE_SIZE};
use stickyimmix::object_header::ObjectHeader;
use stickyimmix::arena::Arena;
use stickyimmix::sticky_immix_heap::{AllocRaw, StickyImmixHeap};

#[test]
fn small_arrays_pack_a_single_block() {
    let mut heap: StickyImmixHeap<ObjectHeader> = StickyImmixHeap::new();
    let mut ptrs = Vec::new();
    for _ in 0..100 {
        ptrs.push(heap.alloc_array(16).unwrap());
    }
    assert_eq!(heap.block_list().block_count(), 1);
    let base = heap.block_list().block(0).as_ptr();
    for (i, p) in ptrs.iter().enumerate() {
        assert_eq!(p.as_word() % 8, 0);
        assert!(p.as_word() >= base && p.as_word() < base + BLOCK_CAPACITY);
        for q in ptrs.iter().skip(i + 1) {
            assert_ne!(p.as_word(), q.as_word());
        }
        let header = StickyImmixHeap::<ObjectHeader>::get_header(*p);
        assert_eq!(header.as_word() + 8, p.as_word());
        assert_eq!(StickyImmixHeap::<ObjectHeader>::get_object(header), *p);
    }
    assert_eq!(ptrs[0].as_word(), base + BLOCK_CAPACITY - 16);
    assert_eq!(ptrs[1].as_word(), base + BLOCK_CAPACITY - 24 - 16);
}

#[test]
fn large_request_fails_and_changes_nothing() {
    let mut heap: StickyImmixHeap<ObjectHeader> = StickyImmixHeap::new();
    heap.alloc_array(16).unwrap();
    let cursor = heap.block_list().block(0).cursor_offset();
    assert_eq!(heap.alloc_array((BLOCK_CAPACITY + 1) as u32), Err(AllocError::BadRequest));
    assert_eq!(heap.block_list().block_count(), 1);
    assert_eq!(heap.block_list().block(0).cursor_offset(), cursor);
    assert_eq!(heap.find_space(BLOCK_SIZE, SizeClass::Large), Err(AllocError::BadRequest));
}

#[test]
fn medium_request_spills_to_overflow() {
    let mut heap: StickyImmixHeap<ObjectHeader> = StickyImmixHeap::new();
    // fill the head block to within one line of full
    while heap.block_list().block_count() == 0
        || heap.block_list().block(0).cursor_offset() > LINE_SIZE
    {
        heap.alloc_array(8).unwrap();
    }
    assert_eq!(heap.block_list().block_count(), 1);
    let p = heap.alloc_array((4 * LINE_SIZE) as u32).unwrap();
    assert_eq!(heap.block_list().block_count(), 2);
    assert_eq!(heap.block_list().head_index(), Some(0));
    assert_eq!(heap.block_list().overflow_index(), Some(1));
    assert!(heap.block_list().rest_indices().is_empty());
    let overflow_base = heap.block_list().block(1).as_ptr();
    assert!(p.as_word() >= overflow_base && p.as_word() < overflow_base + BLOCK_CAPACITY);
}

#[test]
fn exhausted_address_space_is_out_of_memory() {
    let mut heap: StickyImmixHeap<ObjectHeader> =
        StickyImmixHeap::with_space(AddressSpace::new(BLOCK_SIZE, 2 * BLOCK_SIZE));
    heap.alloc_array(16).unwrap();
    loop {
        match heap.alloc_array(100) {
            Ok(_) => {}
            Err(e) => {
                assert_eq!(e, AllocError::OOM);
                break;
            }
        }
    }
    assert_eq!(heap.block_list().block_count(), 1);
}

#[test]
fn an_array_is_zero_when_it_is_handed_out() {
    let mut heap: StickyImmixHeap<ObjectHeader> = StickyImmixHeap::new();
    let first = heap.alloc_array(64).unwrap();
    assert!(heap.write_bytes(first, &vec![0xff; 64]));
    assert_eq!(heap.read_bytes(first, 64), Some(vec![0xff; 64]));
    let second = heap.alloc_array(64).unwrap();
    assert_eq!(heap.read_bytes(second, 64), Some(vec![0; 64]));
    assert_eq!(heap.read_bytes(first, 64), Some(vec![0xff; 64]));
    let none = heap.alloc_array(0).unwrap();
    assert_eq!(heap.read_bytes(none, 0), Some(vec![]));
}

#[test]
fn allocators_are_used_through_their_trait() {
    fn fill<A: AllocRaw>(allocator: &mut A) -> usize {
        let a = allocator.alloc_array(24).unwrap();
        let b = allocator.alloc_array(24).unwrap();
        a.as_word() - b.as_word()
    }
    let mut heap: StickyImmixHeap<ObjectHeader> = StickyImmixHeap::new();
    assert_eq!(fill(&mut heap), 32);
    let mut arena = Arena::new();
    assert_eq!(fill(&mut arena), 24);
}
