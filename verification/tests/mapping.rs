use vmboot::mem::PhysicalMemory;
use vmboot::page_allocator::PageAllocator;
use vmboot::page_tables::{MMUManager, PageMapping, VirtualMemorySpace};
use vmboot::page_allocator::PageRange;

const TABLE: usize = 1024;

/// Memory, allocator and one initialized space whose root came from the
/// allocator.
fn space_under_test() -> (PhysicalMemory, PageAllocator, VirtualMemorySpace) {
    let mut mem = PhysicalMemory::new(64);
    let (mut alloc, _bitmap) = PageAllocator::create(0, 0, 64);
    let root = alloc.allocate(&mut mem).unwrap();
    (mem, alloc, VirtualMemorySpace { root_page: root })
}

fn leaf(mem: &PhysicalMemory, space: &VirtualMemorySpace, vpn: usize) -> vmboot::pte::PageTableEntry {
    let root_entry = mem.read_entry(space.root_page, vpn / TABLE);
    assert!(root_entry.valid());
    mem.read_entry(root_entry.ppn() as usize, vpn % TABLE)
}

#[test]
fn uninitialized_space_has_zero_root() {
    let space = VirtualMemorySpace { root_page: 0 };
    assert!(!space.is_initialized());
    let space = VirtualMemorySpace { root_page: 7 };
    assert!(space.is_initialized());
}

#[test]
fn map_page_installs_leaf_and_child_table() {
    let (mut mem, mut alloc, space) = space_under_test();
    let ok = space.map_page(
        &mut alloc,
        &mut mem,
        PageMapping { src: 5, dest: 9, user: true, read: true, write: false, execute: true },
    );
    assert!(ok);
    let l = leaf(&mem, &space, 5).decode();
    assert!(l.valid && l.read && l.execute && l.user);
    assert!(!l.write);
    assert_eq!(l.ppn, 9);
    // The child table's page was taken from the allocator, and the root
    // entry is a bare non-leaf pointer: valid but with the permission bits
    // clear.
    let root_entry = mem.read_entry(space.root_page, 0);
    assert!(alloc.is_allocated(root_entry.ppn() as usize));
    let pointer = root_entry.decode();
    assert!(pointer.valid);
    assert!(!pointer.read && !pointer.write && !pointer.execute);
}

#[test]
fn mapping_same_page_twice_keeps_only_second_permissions() {
    let (mut mem, mut alloc, space) = space_under_test();
    assert!(space.map_page(
        &mut alloc,
        &mut mem,
        PageMapping { src: 40, dest: 8, user: false, read: true, write: true, execute: false },
    ));
    assert!(space.map_page(
        &mut alloc,
        &mut mem,
        PageMapping { src: 40, dest: 12, user: false, read: true, write: false, execute: true },
    ));
    let l = leaf(&mem, &space, 40).decode();
    // Exactly the second mapping, not a merge of both.
    assert_eq!(l.ppn, 12);
    assert!(l.read && l.execute && l.valid);
    assert!(!l.write && !l.user);
}

#[test]
fn remap_does_not_disturb_neighbours() {
    let (mut mem, mut alloc, space) = space_under_test();
    assert!(space.map_page(
        &mut alloc,
        &mut mem,
        PageMapping { src: 40, dest: 8, user: false, read: true, write: true, execute: false },
    ));
    assert!(space.map_page(
        &mut alloc,
        &mut mem,
        PageMapping { src: 41, dest: 9, user: false, read: true, write: false, execute: false },
    ));
    assert!(space.map_page(
        &mut alloc,
        &mut mem,
        PageMapping { src: 40, dest: 10, user: false, read: true, write: false, execute: false },
    ));
    let l41 = leaf(&mem, &space, 41).decode();
    assert_eq!(l41.ppn, 9);
    assert!(l41.read && !l41.write);
}

#[test]
fn map_page_fails_cleanly_when_allocator_is_exhausted() {
    // Four pages: image page 0, bitmap page 1, root page 2, and page 3.
    let mut mem = PhysicalMemory::new(4);
    let (mut alloc, _bitmap) = PageAllocator::create(0, 0, 4);
    let root = alloc.allocate(&mut mem).unwrap();
    let space = VirtualMemorySpace { root_page: root };
    // Page 3 goes to the first child table.
    assert!(space.map_page(
        &mut alloc,
        &mut mem,
        PageMapping { src: 0, dest: 0, user: false, read: true, write: false, execute: false },
    ));
    // A second superpage needs another child table; no page is left.
    let ok = space.map_page(
        &mut alloc,
        &mut mem,
        PageMapping { src: TABLE, dest: 1, user: false, read: true, write: false, execute: false },
    );
    assert!(!ok);
    // The failed request left no partial mapping behind.
    let root_entry = mem.read_entry(space.root_page, 1);
    assert!(!root_entry.valid());
}

#[test]
fn map_identity_range_maps_every_page() {
    let (mut mem, mut alloc, space) = space_under_test();
    assert!(space.map_identity_range(
        &mut alloc,
        &mut mem,
        PageRange { start: 10, end: 14 },
        true,
        true,
        false,
    ));
    for p in 10..14 {
        let l = leaf(&mem, &space, p).decode();
        assert_eq!(l.ppn as usize, p);
        assert!(l.valid && l.read && l.write);
        assert!(!l.execute && !l.user);
    }
}

#[test]
fn manager_slots_allocate_and_resolve() {
    let mut mem = PhysicalMemory::new(64);
    let (mut alloc, _bitmap) = PageAllocator::create(0, 0, 64);
    let backing = alloc.allocate(&mut mem).unwrap();
    let mut mgr = MMUManager::create(PageRange { start: backing, end: backing + 1 }, &mut mem);

    assert!(mgr.get_space(0).is_none());
    let id = mgr.allocate_address_space(&mut alloc, &mut mem).unwrap();
    assert_eq!(id, 0);
    let space = mgr.get_space(id).unwrap();
    assert!(space.is_initialized());
    assert!(alloc.is_allocated(space.root_page));
    assert!(mgr.get_space(id + 1).is_none());
}
