use vmboot::mem::PhysicalMemory;
use vmboot::mmu::{KernelLayout, setup_mmu};
use vmboot::pte::PteFields;

const PAGE_SIZE: usize = 4096;
const TABLE: usize = 1024;

/// The boot image: text on pages [0,4), read-only data on [4,6), data on
/// [6,10), and a 2-page stack on [20,22).
fn image_layout() -> KernelLayout {
    KernelLayout {
        stext: 0,
        etext: 4 * PAGE_SIZE,
        srodata: 4 * PAGE_SIZE,
        erodata: 6 * PAGE_SIZE,
        sdata: 6 * PAGE_SIZE,
        ebss: 10 * PAGE_SIZE,
        estack: 20 * PAGE_SIZE,
        sstack: 22 * PAGE_SIZE,
    }
}

fn leaf_fields(mem: &PhysicalMemory, root: usize, vpn: usize) -> PteFields {
    let root_entry = mem.read_entry(root, vpn / TABLE);
    assert!(root_entry.valid(), "no child table for page {}", vpn);
    mem.read_entry(root_entry.ppn() as usize, vpn % TABLE).decode()
}

fn assert_identity(mem: &PhysicalMemory, root: usize, page: usize, read: bool, write: bool, execute: bool) {
    let l = leaf_fields(mem, root, page);
    assert!(l.valid, "page {} not mapped", page);
    assert_eq!(l.ppn as usize, page, "page {} not identity-mapped", page);
    assert_eq!(l.read, read, "read bit wrong on page {}", page);
    assert_eq!(l.write, write, "write bit wrong on page {}", page);
    assert_eq!(l.execute, execute, "execute bit wrong on page {}", page);
    assert!(!l.user, "kernel page {} must not be user-accessible", page);
}

#[test]
fn boot_identity_maps_the_whole_image() {
    let mut mem = PhysicalMemory::new(64);
    let boot = setup_mmu(&mut mem, image_layout()).unwrap();
    let root = boot.satp_root;

    for page in 0..4 {
        assert_identity(&mem, root, page, true, false, true);
    }
    for page in 4..6 {
        assert_identity(&mem, root, page, true, false, false);
    }
    for page in 6..10 {
        assert_identity(&mem, root, page, true, true, false);
    }
    for page in 20..22 {
        assert_identity(&mem, root, page, true, true, false);
    }
    // The allocator's bitmap pages and the manager's backing page are
    // mapped read+write as well.
    for page in boot.alloc_pages.start..boot.alloc_pages.end {
        assert_identity(&mem, root, page, true, true, false);
    }
    assert_identity(&mem, root, boot.manager_page, true, true, false);
}

#[test]
fn boot_reports_the_computed_ranges() {
    let mut mem = PhysicalMemory::new(64);
    let boot = setup_mmu(&mut mem, image_layout()).unwrap();
    assert_eq!((boot.text_pages.start, boot.text_pages.end), (0, 4));
    assert_eq!((boot.rodata_pages.start, boot.rodata_pages.end), (4, 6));
    assert_eq!((boot.data_pages.start, boot.data_pages.end), (6, 10));
    assert_eq!((boot.stack_pages.start, boot.stack_pages.end), (20, 22));
    // The bitmap sits right after the image's highest page; 64 tracked
    // pages need one page of flags.
    assert_eq!((boot.alloc_pages.start, boot.alloc_pages.end), (22, 23));
    assert_eq!(boot.manager_page, 23);
    assert_eq!(boot.satp_asid, boot.kernel_id);
}

#[test]
fn boot_leaves_untouched_pages_unmapped() {
    let mut mem = PhysicalMemory::new(64);
    let boot = setup_mmu(&mut mem, image_layout()).unwrap();
    let root = boot.satp_root;
    // The gap between data and stack was never requested.
    for page in 10..20 {
        let root_entry = mem.read_entry(root, page / TABLE);
        if root_entry.valid() {
            let l = mem.read_entry(root_entry.ppn() as usize, page % TABLE).decode();
            assert!(!l.valid, "page {} should not be mapped", page);
        }
    }
}

#[test]
fn boot_handles_zero_byte_segments() {
    // Read-only data is empty: its range collapses to zero pages.
    let mut mem = PhysicalMemory::new(64);
    let layout = KernelLayout {
        stext: 0,
        etext: 4 * PAGE_SIZE,
        srodata: 4 * PAGE_SIZE,
        erodata: 4 * PAGE_SIZE,
        sdata: 4 * PAGE_SIZE,
        ebss: 10 * PAGE_SIZE,
        estack: 20 * PAGE_SIZE,
        sstack: 22 * PAGE_SIZE,
    };
    let boot = setup_mmu(&mut mem, layout).unwrap();
    assert_eq!(boot.rodata_pages.start, boot.rodata_pages.end);
    for page in 0..4 {
        assert_identity(&mem, boot.satp_root, page, true, false, true);
    }
    for page in 4..10 {
        assert_identity(&mem, boot.satp_root, page, true, true, false);
    }
}

#[test]
fn boot_fails_when_memory_cannot_hold_the_tables() {
    // The image itself fills memory: no page is left for the manager.
    let mut mem = PhysicalMemory::new(23);
    assert!(setup_mmu(&mut mem, image_layout()).is_none());
    // Two spare pages cover the manager and the root table but not the
    // first child table, so mapping fails partway.
    let mut mem = PhysicalMemory::new(25);
    assert!(setup_mmu(&mut mem, image_layout()).is_none());
}

#[test]
fn boot_leaves_the_image_bytes_untouched() {
    let mut mem = PhysicalMemory::new(64);
    // Plant recognizable words in image pages before the boot runs.
    let marker = vmboot::pte::PageTableEntry { bits: 0xdead_beef };
    mem.write_entry(3, 7, marker);
    mem.write_entry(9, 0, marker);
    mem.write_entry(21, 1023, marker);
    let boot = setup_mmu(&mut mem, image_layout()).unwrap();
    assert_eq!(mem.read_entry(3, 7).bits, 0xdead_beef);
    assert_eq!(mem.read_entry(9, 0).bits, 0xdead_beef);
    assert_eq!(mem.read_entry(21, 1023).bits, 0xdead_beef);
    drop(boot);
}

#[test]
fn boot_kernel_space_is_registered() {
    let mut mem = PhysicalMemory::new(64);
    let boot = setup_mmu(&mut mem, image_layout()).unwrap();
    assert_eq!(boot.manager.kernel_space_id(), boot.kernel_id);
    let space = boot.manager.get_space(boot.kernel_id).unwrap();
    assert!(space.is_initialized());
    assert_eq!(space.root_page, boot.satp_root);
    let (asid, satp_root) = boot.manager.enable(boot.kernel_id);
    assert_eq!(asid, boot.satp_asid);
    assert_eq!(satp_root, boot.satp_root);
}
