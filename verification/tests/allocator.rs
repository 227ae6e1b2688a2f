use vmboot::mem::PhysicalMemory;
use vmboot::page_allocator::PageAllocator;

const PAGE_SIZE: usize = 4096;

/// An allocator over 8 pages starting at page 0: the bitmap takes one page
/// placed after the highest reserved page 0, so pages 0 and 1 start out
/// reserved and pages 2..8 are free.
fn small_allocator() -> (PageAllocator, PhysicalMemory) {
    let mem = PhysicalMemory::new(8);
    let (alloc, bitmap) = PageAllocator::create(0, 0, 8);
    assert_eq!(bitmap.start, 1);
    assert_eq!(bitmap.end, 2);
    (alloc, mem)
}

#[test]
fn create_reserves_image_and_bitmap() {
    let (alloc, _mem) = small_allocator();
    assert!(alloc.is_allocated(0));
    assert!(alloc.is_allocated(1));
    for page in 2..8 {
        assert!(!alloc.is_allocated(page));
    }
    assert_eq!(alloc.base_page(), 0);
    assert_eq!(alloc.total_page_count(), 8);
    assert_eq!(alloc.next_open(), 2);
}

#[test]
fn allocation_history_matches_is_allocated() {
    let (mut alloc, mut mem) = small_allocator();
    let a = alloc.allocate(&mut mem).unwrap();
    let b = alloc.allocate(&mut mem).unwrap();
    assert_ne!(a, b);
    assert!(alloc.is_allocated(a));
    assert!(alloc.is_allocated(b));

    alloc.deallocate(a);
    assert!(!alloc.is_allocated(a));
    assert!(alloc.is_allocated(b));

    // The hint rewound to the freed page, so it is reused first.
    let c = alloc.allocate(&mut mem).unwrap();
    assert_eq!(c, a);
    assert!(alloc.is_allocated(a));
}

#[test]
fn no_two_live_allocations_share_a_page() {
    let (mut alloc, mut mem) = small_allocator();
    let mut seen = Vec::new();
    while let Some(p) = alloc.allocate(&mut mem) {
        assert!(!seen.contains(&p), "page {} handed out twice", p);
        seen.push(p);
    }
    assert_eq!(seen, vec![2, 3, 4, 5, 6, 7]);
}

#[test]
fn allocated_pages_read_as_zero() {
    let (mut alloc, mut mem) = small_allocator();
    let p = alloc.allocate(&mut mem).unwrap();
    for off in 0..PAGE_SIZE {
        assert_eq!(mem.read_byte(p, off), 0);
    }
}

#[test]
fn exhaustion_takes_exactly_the_free_pages() {
    let (mut alloc, mut mem) = small_allocator();
    // Six pages are free; exactly six allocations succeed.
    for expected in 2..8 {
        assert_eq!(alloc.allocate(&mut mem), Some(expected));
    }
    assert_eq!(alloc.allocate(&mut mem), None);
    assert_eq!(alloc.allocate(&mut mem), None);
}

#[test]
fn out_of_range_pages_report_allocated() {
    let mem = PhysicalMemory::new(16);
    let (alloc, _bitmap) = PageAllocator::create(4, 4, 8);
    // Tracked range is [4, 12); everything outside reads as allocated.
    assert!(alloc.is_allocated(0));
    assert!(alloc.is_allocated(3));
    assert!(alloc.is_allocated(12));
    assert!(alloc.is_allocated(usize::MAX));
    drop(mem);
}

#[test]
fn deallocate_rewinds_hint_only_downward() {
    let (mut alloc, mut mem) = small_allocator();
    let a = alloc.allocate(&mut mem).unwrap();
    let b = alloc.allocate(&mut mem).unwrap();
    assert_eq!((a, b), (2, 3));
    // Freeing the higher page leaves the hint at the next unseen page.
    alloc.deallocate(b);
    assert_eq!(alloc.next_open(), b);
    alloc.deallocate(a);
    assert_eq!(alloc.next_open(), a);
    assert_eq!(alloc.allocate(&mut mem), Some(a));
    // The scan skips nothing: b is free again right after a.
    assert_eq!(alloc.allocate(&mut mem), Some(b));
}
