use vmboot::mem::PhysicalMemory;
use vmboot::page_allocator::{PageAllocator, PageRange};
use vmboot::page_tables::MMUManager;

/// A registry over one backing page (1024 slots) with plenty of memory for
/// root tables.
fn manager_under_test() -> (PhysicalMemory, PageAllocator, MMUManager) {
    let mut mem = PhysicalMemory::new(2048);
    let (mut alloc, _bitmap) = PageAllocator::create(0, 0, 2048);
    let backing = alloc.allocate(&mut mem).unwrap();
    let mgr = MMUManager::create(PageRange { start: backing, end: backing + 1 }, &mut mem);
    (mem, alloc, mgr)
}

#[test]
fn capacity_is_exactly_the_slot_count() {
    let (mut mem, mut alloc, mut mgr) = manager_under_test();
    // One backing page holds exactly 1024 slots; the 1025th call fails.
    for expected in 0..1024 {
        let id = mgr.allocate_address_space(&mut alloc, &mut mem);
        assert_eq!(id, Some(expected));
    }
    assert_eq!(mgr.allocate_address_space(&mut alloc, &mut mem), None);
}

#[test]
fn address_space_ids_are_unique_and_roots_distinct() {
    let (mut mem, mut alloc, mut mgr) = manager_under_test();
    let a = mgr.allocate_address_space(&mut alloc, &mut mem).unwrap();
    let b = mgr.allocate_address_space(&mut alloc, &mut mem).unwrap();
    let c = mgr.allocate_address_space(&mut alloc, &mut mem).unwrap();
    assert!(a != b && b != c && a != c);
    let ra = mgr.get_space(a).unwrap().root_page;
    let rb = mgr.get_space(b).unwrap().root_page;
    let rc = mgr.get_space(c).unwrap().root_page;
    assert!(ra != rb && rb != rc && ra != rc);
    assert!(ra != 0 && rb != 0 && rc != 0);
}

#[test]
fn get_kernel_returns_the_same_space_every_time() {
    let (mut mem, mut alloc, mut mgr) = manager_under_test();
    let first = mgr.get_kernel(&mut alloc, &mut mem).unwrap();
    let root_first = mgr.get_space(first).unwrap().root_page;
    for _ in 0..5 {
        let again = mgr.get_kernel(&mut alloc, &mut mem).unwrap();
        assert_eq!(again, first);
        assert_eq!(mgr.get_space(again).unwrap().root_page, root_first);
    }
    assert_eq!(mgr.kernel_space_id(), first);
}

#[test]
fn kernel_slot_is_never_reused() {
    let (mut mem, mut alloc, mut mgr) = manager_under_test();
    let kid = mgr.get_kernel(&mut alloc, &mut mem).unwrap();
    let other = mgr.allocate_address_space(&mut alloc, &mut mem).unwrap();
    assert_ne!(other, kid);
    assert_eq!(mgr.get_kernel(&mut alloc, &mut mem), Some(kid));
}

#[test]
fn get_space_rejects_out_of_range_and_uninitialized_ids() {
    let (mut mem, mut alloc, mut mgr) = manager_under_test();
    assert!(mgr.get_space(0).is_none());
    assert!(mgr.get_space(1023).is_none());
    assert!(mgr.get_space(1024).is_none());
    assert!(mgr.get_space(usize::MAX).is_none());
    let id = mgr.allocate_address_space(&mut alloc, &mut mem).unwrap();
    assert!(mgr.get_space(id).is_some());
}

#[test]
fn enable_reports_the_slot_id_and_root_page() {
    let (mut mem, mut alloc, mut mgr) = manager_under_test();
    let kid = mgr.get_kernel(&mut alloc, &mut mem).unwrap();
    let root = mgr.get_space(kid).unwrap().root_page;
    let (asid, satp_root) = mgr.enable(kid);
    assert_eq!(asid, kid);
    assert_eq!(satp_root, root);
}
