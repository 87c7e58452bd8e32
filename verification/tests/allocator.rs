use ilo_lawa::allocator::BumpAllocator;

#[test]
fn empty_heap_refuses() {
    let mut a = BumpAllocator::new();
    assert_eq!(a.allocate(1, 1), None);
    assert_eq!(a.allocate(0, 1), Some(0));
}

#[test]
fn allocations_are_aligned_and_disjoint() {
    let mut a = BumpAllocator::new();
    a.init(0x1000, 0x100);
    let p = a.allocate(3, 1).unwrap();
    assert_eq!(p, 0x1000);
    let q = a.allocate(8, 8).unwrap();
    assert_eq!(q, 0x1008);
    assert!(p + 3 <= q);
    let r = a.allocate(1, 16).unwrap();
    assert_eq!(r, 0x1010);
    assert_eq!(r % 16, 0);
    let s = a.allocate(16, 64).unwrap();
    assert_eq!(s, 0x1040);
}

#[test]
fn exhausted_heap_returns_none_and_keeps_state() {
    let mut a = BumpAllocator::new();
    a.init(0x2000, 64);
    assert_eq!(a.allocate(60, 4), Some(0x2000));
    assert_eq!(a.allocate(8, 4), None);
    assert_eq!(a.allocate(4, 4), Some(0x203C));
    assert_eq!(a.allocate(1, 1), None);
}

#[test]
fn oversized_request_does_not_wrap() {
    let mut a = BumpAllocator::new();
    a.init(0x1000, 0x1000);
    assert_eq!(a.allocate(usize::MAX, 1), None);
    assert_eq!(a.allocate(16, 1), Some(0x1000));
}

#[test]
fn freeing_everything_resets_the_heap() {
    let mut a = BumpAllocator::new();
    a.init(0x1000, 0x100);
    assert_eq!(a.allocate(0x40, 8), Some(0x1000));
    assert_eq!(a.allocate(0x40, 8), Some(0x1040));
    a.deallocate();
    // one allocation is still live: nothing is reused yet
    assert_eq!(a.allocate(0x10, 8), Some(0x1080));
    a.deallocate();
    a.deallocate();
    assert_eq!(a.allocate(0x10, 8), Some(0x1000));
}

#[test]
fn cursor_and_count_are_visible() {
    let mut a = BumpAllocator::new();
    a.init(0x1000, 0x100);
    assert_eq!(a.next_free(), 0x1000);
    assert_eq!(a.live_allocations(), 0);
    a.allocate(5, 4).unwrap();
    assert_eq!(a.next_free(), 0x1005);
    assert_eq!(a.live_allocations(), 1);
    a.deallocate();
    assert_eq!(a.next_free(), 0x1000);
    assert_eq!(a.live_allocations(), 0);
}
