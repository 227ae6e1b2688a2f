//! Boot-time sequencing: turns the flat-addressed kernel image into a paged
//! environment. Converts the linker-provided segment boundaries into page
//! ranges, creates the physical page allocator over the remaining memory,
//! allocates the address-space manager's backing page, creates the kernel
//! virtual memory space, identity-maps every page of the running kernel —
//! text, read-only data, data, stack, the allocator's own bitmap pages and
//! the manager's backing page — and computes the activation pair for the
//! translation-mode register. Programming that register and the privilege
//! downgrade itself are the platform layer's work.

use crate::PAGE_SIZE;
use crate::mem::PhysicalMemory;
use crate::page_allocator::PageAllocator;
use crate::page_allocator::PageRange;
use crate::page_allocator::free_suffix;
use crate::page_allocator::lemma_exhaustion_step;
use crate::page_tables::MMUManager;
use crate::page_tables::VirtualMemorySpace;
use crate::page_tables::identity_mapped_range;
use crate::page_tables::leaf_entry;
use crate::mem::entry_at;
use crate::pte::pte_ppn;
use crate::pte::pte_valid;
use crate::page_tables::mapped_with;
use vstd::arithmetic::div_mod::lemma_div_is_ordered;
use vstd::arithmetic::div_mod::lemma_fundamental_div_mod;
use vstd::arithmetic::div_mod::lemma_fundamental_div_mod_converse;
use vstd::prelude::*;

verus! {

/// The linker-provided segment boundaries of the running kernel image, as
/// physical byte addresses. The stack pair is noted end-first, as linked:
/// `estack` is the lowest stack address and `sstack` one past the highest.
#[derive(Clone, Copy, PartialEq, Eq, Structural, Debug)]
pub struct KernelLayout {
    pub stext: usize,
    pub etext: usize,
    pub srodata: usize,
    pub erodata: usize,
    pub sdata: usize,
    pub ebss: usize,
    pub estack: usize,
    pub sstack: usize,
}

/// Everything the boot sequence produced: the two singletons, the kernel
/// space's id, the page ranges that were identity-mapped, and the pair to
/// program into the hardware translation-mode register.
pub struct KernelBoot {
    pub allocator: PageAllocator,
    pub manager: MMUManager,
    pub kernel_id: usize,
    pub text_pages: PageRange,
    pub rodata_pages: PageRange,
    pub data_pages: PageRange,
    pub stack_pages: PageRange,
    pub alloc_pages: PageRange,
    pub manager_page: usize,
    pub satp_asid: usize,
    pub satp_root: usize,
}

/// Number of whole pages needed to hold `addr` bytes; zero bytes take zero
/// pages.
pub open spec fn page_ceil(addr: int) -> int {
    if addr == 0 {
        0
    } else {
        (addr - 1) / (PAGE_SIZE as int) + 1
    }
}

/// For a page-aligned bound `b`, any byte count up to `b` needs at most
/// `b / PAGE_SIZE` pages.
proof fn lemma_page_ceil_le(a: int, b: int)
    requires
        1 <= a <= b,
        b % (PAGE_SIZE as int) == 0,
    ensures
        page_ceil(a) <= b / (PAGE_SIZE as int),
{
    let ps = PAGE_SIZE as int;
    lemma_fundamental_div_mod(b, ps);
    lemma_fundamental_div_mod_converse(b - 1, ps, b / ps - 1, ps - 1);
    lemma_div_is_ordered(a - 1, b - 1, ps);
}

/// A page-aligned address lies at the start of its own page: dividing is
/// exact.
proof fn lemma_aligned_start(s: int)
    requires
        s >= 0,
        s % (PAGE_SIZE as int) == 0,
    ensures
        s == (PAGE_SIZE as int) * (s / (PAGE_SIZE as int)),
{
    lemma_fundamental_div_mod(s, PAGE_SIZE as int);
}

/// The page range `[start/PAGE_SIZE, page_ceil(end))` covering the segment
/// `[start, end)`.
pub open spec fn segment_pages(start: int, end: int) -> PageRange {
    PageRange { start: (start / (PAGE_SIZE as int)) as usize, end: page_ceil(end) as usize }
}

/// The orderly-image precondition of the boot sequence: segment boundaries
/// page-aligned where they are used as page-range edges, segments laid out
/// in ascending order with non-empty text and stack, and the whole image
/// inside physical memory.
pub open spec fn layout_ok(l: KernelLayout, mem_pages: int) -> bool {
    &&& (l.stext as int) % (PAGE_SIZE as int) == 0
    &&& (l.srodata as int) % (PAGE_SIZE as int) == 0
    &&& (l.sdata as int) % (PAGE_SIZE as int) == 0
    &&& (l.estack as int) % (PAGE_SIZE as int) == 0
    &&& l.stext < l.etext
    &&& l.etext <= l.srodata
    &&& l.srodata <= l.erodata
    &&& l.erodata <= l.sdata
    &&& l.sdata <= l.ebss
    &&& l.ebss <= l.estack
    &&& l.estack < l.sstack
    &&& l.sstack <= mem_pages * (PAGE_SIZE as int)
}

/// First page past the allocator's bitmap, as the boot sequence places
/// everything: the image runs to the stack's last page, and the bitmap
/// sits immediately after it, sized for the pages from the kernel base to
/// the end of physical memory.
pub open spec fn boot_reserved_end(l: KernelLayout, mem_pages: int) -> int {
    page_ceil(l.sstack as int) + crate::page_allocator::spec_bitmap_pages(
        mem_pages - (l.stext as int) / (PAGE_SIZE as int),
    )
}

/// An upper bound on the pages the boot sequence allocates: the manager's
/// backing page, the kernel space's root table, and at worst one child
/// table for every page it maps (the image's four segments, the bitmap's
/// pages and the manager's page).
pub open spec fn boot_pages_needed(l: KernelLayout, mem_pages: int) -> int {
    let ps = PAGE_SIZE as int;
    2 + (page_ceil(l.etext as int) - (l.stext as int) / ps) + (page_ceil(l.erodata as int) - (
    l.srodata as int) / ps) + (page_ceil(l.ebss as int) - (l.sdata as int) / ps) + (page_ceil(
        l.sstack as int,
    ) - (l.estack as int) / ps) + crate::page_allocator::spec_bitmap_pages(
        mem_pages - (l.stext as int) / ps,
    ) + 1
}

/// Whether physical memory is generously large enough that the boot
/// sequence cannot run out of pages: beyond the image and the bitmap there
/// is room for everything the sequence could possibly allocate.
pub open spec fn boot_supply_ok(l: KernelLayout, mem_pages: int) -> bool {
    boot_reserved_end(l, mem_pages) + boot_pages_needed(l, mem_pages) <= mem_pages
}

/// After a successful boot, every page of the kernel image is identity-
/// mapped in the kernel space with its documented permission set: text
/// read+execute, read-only data read-only, data and stack read+write, and
/// the allocator's bitmap pages and the manager's backing page read+write.
pub open spec fn boot_image_mapped(boot: KernelBoot, mem: Seq<Seq<u8>>) -> bool {
    let root = boot.satp_root as int;
    &&& identity_mapped_range(mem, root, boot.text_pages, true, false, true)
    &&& identity_mapped_range(mem, root, boot.rodata_pages, true, false, false)
    &&& identity_mapped_range(mem, root, boot.data_pages, true, true, false)
    &&& identity_mapped_range(mem, root, boot.stack_pages, true, true, false)
    &&& identity_mapped_range(mem, root, boot.alloc_pages, true, true, false)
    &&& mapped_with(mem, root, boot.manager_page as int, true, true, false)
}

/// The one-shot boot orchestration, up to the hardware edge. Creates the
/// allocator over the pages from the kernel base to the end of physical
/// memory, allocates and installs the manager's backing page, creates the
/// kernel space, identity-maps the whole running image — leaving the
/// image's own bytes untouched — and returns the activation pair for the
/// translation-mode register. Returns nothing only where a needed page
/// allocation fails, which cannot happen while physical memory is large
/// enough (`boot_supply_ok`); the caller treats failure as fatal, as the
/// boot path has no way to continue without memory.
#[verifier::rlimit(100)]
#[verifier::spinoff_prover]
pub fn setup_mmu(mem: &mut PhysicalMemory, layout: KernelLayout) -> (r: Option<KernelBoot>)
    requires
        old(mem).wf(),
        old(mem)@.len() <= 0x100000,
        layout_ok(layout, old(mem)@.len() as int),
    ensures
        final(mem).wf(),
        final(mem)@.len() == old(mem)@.len(),
        r.is_some() ==> ({
            let boot = r.unwrap();
            &&& boot.allocator.wf()
            &&& boot.manager.wf()
            &&& boot.manager.kernel() == Some(boot.kernel_id)
            &&& boot.satp_asid == boot.kernel_id
            &&& boot.manager.slots()[boot.kernel_id as int].root_page == boot.satp_root
            &&& boot.text_pages == segment_pages(layout.stext as int, layout.etext as int)
            &&& boot.rodata_pages == segment_pages(layout.srodata as int, layout.erodata as int)
            &&& boot.data_pages == segment_pages(layout.sdata as int, layout.ebss as int)
            &&& boot.stack_pages == segment_pages(layout.estack as int, layout.sstack as int)
            &&& boot.allocator.base() == boot.text_pages.start
            &&& boot.allocator.total() == old(mem)@.len() - boot.text_pages.start
            &&& boot.alloc_pages.start == boot.stack_pages.end
            &&& boot.alloc_pages.end == boot.stack_pages.end
                + crate::page_allocator::spec_bitmap_pages(
                old(mem)@.len() - boot.text_pages.start,
            )
            &&& boot.manager_page == boot.alloc_pages.end
            &&& boot.satp_root != 0
            &&& boot_image_mapped(boot, final(mem)@)
            &&& (forall|q: int|
                0 <= q < boot.stack_pages.end ==> final(mem)@[q] == old(mem)@[q])
        }),
        boot_supply_ok(layout, old(mem)@.len() as int) ==> r.is_some(),
{
    let ps = PAGE_SIZE;
    // Convert each boundary pair into an inclusive-exclusive page range;
    // a zero-byte segment yields a zero-length range.
    let text_pages = PageRange { start: layout.stext / ps, end: (layout.etext - 1) / ps + 1 };
    let rodata_pages = PageRange {
        start: layout.srodata / ps,
        end: (layout.erodata - 1) / ps + 1,
    };
    let data_pages = PageRange { start: layout.sdata / ps, end: (layout.ebss - 1) / ps + 1 };
    let stack_pages = PageRange { start: layout.estack / ps, end: (layout.sstack - 1) / ps + 1 };
    let start_page = text_pages.start;
    let max_page = stack_pages.end - 1;
    let mem_len = mem.num_pages();

    proof {
        let psi = PAGE_SIZE as int;
        lemma_page_ceil_le(layout.etext as int, layout.srodata as int);
        lemma_aligned_start(layout.srodata as int);
        lemma_div_is_ordered(layout.srodata as int, layout.erodata as int, psi);
        lemma_page_ceil_le(layout.erodata as int, layout.sdata as int);
        lemma_aligned_start(layout.sdata as int);
        lemma_div_is_ordered(layout.sdata as int, layout.ebss as int, psi);
        lemma_page_ceil_le(layout.ebss as int, layout.estack as int);
        lemma_aligned_start(layout.estack as int);
        lemma_div_is_ordered(layout.estack as int, layout.sstack as int, psi);
        lemma_aligned_start(layout.stext as int);
        lemma_div_is_ordered(layout.stext as int, layout.etext as int, psi);
        assert(mem_len * PAGE_SIZE % (PAGE_SIZE as int) == 0) by (nonlinear_arith);
        lemma_page_ceil_le(layout.sstack as int, mem_len as int * PAGE_SIZE as int);
        assert((mem_len as int * PAGE_SIZE as int) / (PAGE_SIZE as int) == mem_len as int)
            by (nonlinear_arith)
            requires
                PAGE_SIZE == 4096usize,
        ;
        // The ladder of page ranges, in ascending order.
        assert(text_pages.start <= text_pages.end);
        assert(text_pages.end <= rodata_pages.start);
        assert(rodata_pages.start <= rodata_pages.end);
        assert(rodata_pages.end <= data_pages.start);
        assert(data_pages.start <= data_pages.end);
        assert(data_pages.end <= stack_pages.start);
        assert(stack_pages.start <= stack_pages.end);
        assert(stack_pages.end <= mem_len);
        assert(text_pages.end >= text_pages.start + 1) by {
            lemma_div_is_ordered(layout.stext as int, layout.etext as int - 1, PAGE_SIZE as int);
        }
        // The bitmap sizing arithmetic stays far inside the machine word.
        assert(crate::page_allocator::spec_bitmap_pages(mem_len - start_page) <= mem_len as int)
            by (nonlinear_arith)
            requires
                PAGE_SIZE == 4096usize,
                0 <= start_page <= mem_len as int,
                mem_len as int <= 0x100000,
        ;
        assert(crate::page_allocator::spec_bitmap_pages(mem_len - start_page) >= 0);
        // The computed ranges are the spec-level segment ranges.
        assert(text_pages.end == page_ceil(layout.etext as int));
        assert(rodata_pages.end == page_ceil(layout.erodata as int));
        assert(data_pages.end == page_ceil(layout.ebss as int));
        assert(stack_pages.end == page_ceil(layout.sstack as int));
    }

    // Create the physical page allocator over the pages from the kernel
    // base to the end of physical memory; the boot image and the bitmap's
    // own pages start out reserved.
    let total_pages = mem_len - start_page;
    let (mut allocator, alloc_pages) = PageAllocator::create(start_page, max_page, total_pages);
    let ghost a0 = allocator;
    let ghost lt = text_pages.end - text_pages.start;
    let ghost lr = rodata_pages.end - rodata_pages.start;
    let ghost ld = data_pages.end - data_pages.start;
    let ghost ls = stack_pages.end - stack_pages.start;
    let ghost la = alloc_pages.end - alloc_pages.start;
    proof {
        assert(alloc_pages.end == boot_reserved_end(layout, mem_len as int));
        assert(allocator.end_page() == mem_len);
        assert(boot_pages_needed(layout, mem_len as int) == 2 + lt + lr + ld + ls + la + 1);
        if boot_supply_ok(layout, mem_len as int) {
            // Generous memory: everything past the bitmap is free and the
            // scan hint starts right there.
            assert(alloc_pages.end + 2 + lt + lr + ld + ls + la + 1 <= mem_len);
            assert(a0.hint() == alloc_pages.end);
            assert(free_suffix(a0));
        }
    }

    // One page backs the address-space manager.
    let manager_page = match allocator.allocate(mem) {
        Some(p) => p,
        None => {
            proof {
                if boot_supply_ok(layout, mem_len as int) {
                    assert(false);
                }
            }
            return None;
        },
    };
    proof {
        crate::page_allocator::lemma_allocate_fresh(a0, allocator, manager_page as int);
        if start_page == 0 {
            assert(a0.spec_allocated(0));
        }
        assert(allocator.spec_allocated(0));
        // A successful allocation means the bitmap fits inside the range,
        // and the manager's page is exactly the first page after it.
        assert(manager_page == alloc_pages.end);
        assert(alloc_pages.end < allocator.end_page());
        if boot_supply_ok(layout, mem_len as int) {
            lemma_exhaustion_step(a0, allocator, manager_page as int);
            assert(free_suffix(allocator));
            assert(allocator.hint() == alloc_pages.end + 1);
        }
    }
    let mut manager = MMUManager::create(
        PageRange { start: manager_page, end: manager_page + 1 },
        mem,
    );

    // Create the kernel virtual memory space.
    let ghost a1 = allocator;
    let kid = match manager.get_kernel(&mut allocator, mem) {
        Some(k) => k,
        None => {
            proof {
                if boot_supply_ok(layout, mem_len as int) {
                    // A free slot exists and a page was available, so the
                    // kernel space must have been created.
                    assert(manager.cursor() <= 0 < manager.max() && !manager.slot_initialized(0));
                    assert(a1.allocate_ok());
                    assert(false);
                }
            }
            return None;
        },
    };
    let root = manager.get_space(kid).unwrap().root_page;
    let kspace = VirtualMemorySpace { root_page: root };
    proof {
        assert(kspace == manager.slots()[kid as int]);
        assert(kspace.wf_in(allocator, mem@));
        if boot_supply_ok(layout, mem_len as int) {
            assert(PageAllocator::allocate_post(a1, allocator, root as int));
            lemma_exhaustion_step(a1, allocator, root as int);
            assert(free_suffix(allocator));
            assert(allocator.hint() == alloc_pages.end + 2);
        }
    }

    // Identity-map the running image: text read+execute, read-only data
    // read-only, data and stack read+write, then the allocator's bitmap
    // pages and the manager's backing page read+write.
    let ghost rooti = root as int;
    let ghost m0 = mem@;
    let ghost ak1 = allocator;
    proof {
        // Everything below the bitmap's end stays allocated for good; the
        // kernel root lies beyond it, its table starts empty, and nothing
        // below the image's last page has been written yet. These three
        // facts ride through each mapping call and keep the running
        // kernel's own bytes intact.
        assert(stack_pages.end <= alloc_pages.end);
        assert forall|q: int| 0 <= q < alloc_pages.end as int implies #[trigger] ak1.spec_allocated(
            q,
        ) by {
            if q != root as int && q != manager_page as int {
                assert(a0.spec_allocated(q));
            }
        }
        assert(rooti >= alloc_pages.end as int);
        assert forall|sp: int| 0 <= sp < crate::PAGE_TABLE_SIZE as int implies !pte_valid(
            #[trigger] entry_at(m0[rooti], sp),
        ) by {
            crate::mem::lemma_zero_page_entries(sp);
            crate::pte::lemma_zero_entry_invalid();
        }
        assert(forall|q: int| 0 <= q < stack_pages.end as int ==> mem@[q] == old(mem)@[q]);
    }
    if !kspace.map_identity_range(&mut allocator, mem, text_pages, true, false, true) {
        proof {
            if boot_supply_ok(layout, mem_len as int) {
                assert(false);
            }
        }
        return None;
    }
    let ghost m1 = mem@;
    let ghost ak2 = allocator;
    proof {
        if boot_supply_ok(layout, mem_len as int) {
            assert(free_suffix(allocator) && allocator.hint() <= alloc_pages.end + 2 + lt
                && allocator.end_page() == mem_len);
        }
        assert forall|q: int| 0 <= q < alloc_pages.end as int implies #[trigger] allocator.spec_allocated(
            q,
        ) by {
            assert(ak1.spec_allocated(q));
        }
        assert forall|sp: int|
            0 <= sp < crate::PAGE_TABLE_SIZE as int && pte_valid(
                #[trigger] entry_at(mem@[rooti], sp),
            ) implies pte_ppn(entry_at(mem@[rooti], sp)) as int >= alloc_pages.end as int by {
            if pte_valid(entry_at(m0[rooti], sp)) {
                assert(entry_at(mem@[rooti], sp) == entry_at(m0[rooti], sp));
            } else {
                assert(!ak1.spec_allocated(pte_ppn(entry_at(mem@[rooti], sp)) as int));
            }
        }
        assert forall|q: int| 0 <= q < stack_pages.end as int implies mem@[q] == old(mem)@[q] by {
            assert forall|sp: int|
                0 <= sp < crate::PAGE_TABLE_SIZE as int && pte_valid(
                    #[trigger] entry_at(m0[rooti], sp),
                ) implies pte_ppn(entry_at(m0[rooti], sp)) as int != q by {}
            assert(!crate::page_tables::table_frame(m0, rooti, q));
            assert(ak1.spec_allocated(q));
            assert(mem@[q] == m0[q]);
            assert(m0[q] == old(mem)@[q]);
        }
    }
    if !kspace.map_identity_range(&mut allocator, mem, rodata_pages, true, false, false) {
        proof {
            if boot_supply_ok(layout, mem_len as int) {
                assert(false);
            }
        }
        return None;
    }
    let ghost m2 = mem@;
    let ghost ak3 = allocator;
    proof {
        if boot_supply_ok(layout, mem_len as int) {
            assert(free_suffix(allocator) && allocator.hint() <= alloc_pages.end + 2 + lt + lr
                && allocator.end_page() == mem_len);
        }
        assert forall|q: int| 0 <= q < alloc_pages.end as int implies #[trigger] allocator.spec_allocated(
            q,
        ) by {
            assert(ak2.spec_allocated(q));
        }
        assert forall|sp: int|
            0 <= sp < crate::PAGE_TABLE_SIZE as int && pte_valid(
                #[trigger] entry_at(mem@[rooti], sp),
            ) implies pte_ppn(entry_at(mem@[rooti], sp)) as int >= alloc_pages.end as int by {
            if pte_valid(entry_at(m1[rooti], sp)) {
                assert(entry_at(mem@[rooti], sp) == entry_at(m1[rooti], sp));
            } else {
                assert(!ak2.spec_allocated(pte_ppn(entry_at(mem@[rooti], sp)) as int));
            }
        }
        assert forall|q: int| 0 <= q < stack_pages.end as int implies mem@[q] == old(mem)@[q] by {
            assert forall|sp: int|
                0 <= sp < crate::PAGE_TABLE_SIZE as int && pte_valid(
                    #[trigger] entry_at(m1[rooti], sp),
                ) implies pte_ppn(entry_at(m1[rooti], sp)) as int != q by {}
            assert(!crate::page_tables::table_frame(m1, rooti, q));
            assert(ak2.spec_allocated(q));
            assert(mem@[q] == m1[q]);
            assert(m1[q] == old(mem)@[q]);
        }
    }
    if !kspace.map_identity_range(&mut allocator, mem, data_pages, true, true, false) {
        proof {
            if boot_supply_ok(layout, mem_len as int) {
                assert(false);
            }
        }
        return None;
    }
    let ghost m3 = mem@;
    let ghost ak4 = allocator;
    proof {
        if boot_supply_ok(layout, mem_len as int) {
            assert(free_suffix(allocator) && allocator.hint() <= alloc_pages.end + 2 + lt + lr
                + ld && allocator.end_page() == mem_len);
        }
        assert forall|q: int| 0 <= q < alloc_pages.end as int implies #[trigger] allocator.spec_allocated(
            q,
        ) by {
            assert(ak3.spec_allocated(q));
        }
        assert forall|sp: int|
            0 <= sp < crate::PAGE_TABLE_SIZE as int && pte_valid(
                #[trigger] entry_at(mem@[rooti], sp),
            ) implies pte_ppn(entry_at(mem@[rooti], sp)) as int >= alloc_pages.end as int by {
            if pte_valid(entry_at(m2[rooti], sp)) {
                assert(entry_at(mem@[rooti], sp) == entry_at(m2[rooti], sp));
            } else {
                assert(!ak3.spec_allocated(pte_ppn(entry_at(mem@[rooti], sp)) as int));
            }
        }
        assert forall|q: int| 0 <= q < stack_pages.end as int implies mem@[q] == old(mem)@[q] by {
            assert forall|sp: int|
                0 <= sp < crate::PAGE_TABLE_SIZE as int && pte_valid(
                    #[trigger] entry_at(m2[rooti], sp),
                ) implies pte_ppn(entry_at(m2[rooti], sp)) as int != q by {}
            assert(!crate::page_tables::table_frame(m2, rooti, q));
            assert(ak3.spec_allocated(q));
            assert(mem@[q] == m2[q]);
            assert(m2[q] == old(mem)@[q]);
        }
    }
    if !kspace.map_identity_range(&mut allocator, mem, stack_pages, true, true, false) {
        proof {
            if boot_supply_ok(layout, mem_len as int) {
                assert(false);
            }
        }
        return None;
    }
    let ghost m4 = mem@;
    let ghost ak5 = allocator;
    proof {
        if boot_supply_ok(layout, mem_len as int) {
            assert(free_suffix(allocator) && allocator.hint() <= alloc_pages.end + 2 + lt + lr
                + ld + ls && allocator.end_page() == mem_len);
        }
        assert forall|q: int| 0 <= q < alloc_pages.end as int implies #[trigger] allocator.spec_allocated(
            q,
        ) by {
            assert(ak4.spec_allocated(q));
        }
        assert forall|sp: int|
            0 <= sp < crate::PAGE_TABLE_SIZE as int && pte_valid(
                #[trigger] entry_at(mem@[rooti], sp),
            ) implies pte_ppn(entry_at(mem@[rooti], sp)) as int >= alloc_pages.end as int by {
            if pte_valid(entry_at(m3[rooti], sp)) {
                assert(entry_at(mem@[rooti], sp) == entry_at(m3[rooti], sp));
            } else {
                assert(!ak4.spec_allocated(pte_ppn(entry_at(mem@[rooti], sp)) as int));
            }
        }
        assert forall|q: int| 0 <= q < stack_pages.end as int implies mem@[q] == old(mem)@[q] by {
            assert forall|sp: int|
                0 <= sp < crate::PAGE_TABLE_SIZE as int && pte_valid(
                    #[trigger] entry_at(m3[rooti], sp),
                ) implies pte_ppn(entry_at(m3[rooti], sp)) as int != q by {}
            assert(!crate::page_tables::table_frame(m3, rooti, q));
            assert(ak4.spec_allocated(q));
            assert(mem@[q] == m3[q]);
            assert(m3[q] == old(mem)@[q]);
        }
    }
    if !kspace.map_identity_range(&mut allocator, mem, alloc_pages, true, true, false) {
        proof {
            if boot_supply_ok(layout, mem_len as int) {
                assert(false);
            }
        }
        return None;
    }
    let ghost m5 = mem@;
    let ghost ak6 = allocator;
    proof {
        if boot_supply_ok(layout, mem_len as int) {
            assert(free_suffix(allocator) && allocator.hint() <= alloc_pages.end + 2 + lt + lr
                + ld + ls + la && allocator.end_page() == mem_len);
        }
        assert forall|q: int| 0 <= q < alloc_pages.end as int implies #[trigger] allocator.spec_allocated(
            q,
        ) by {
            assert(ak5.spec_allocated(q));
        }
        assert forall|sp: int|
            0 <= sp < crate::PAGE_TABLE_SIZE as int && pte_valid(
                #[trigger] entry_at(mem@[rooti], sp),
            ) implies pte_ppn(entry_at(mem@[rooti], sp)) as int >= alloc_pages.end as int by {
            if pte_valid(entry_at(m4[rooti], sp)) {
                assert(entry_at(mem@[rooti], sp) == entry_at(m4[rooti], sp));
            } else {
                assert(!ak5.spec_allocated(pte_ppn(entry_at(mem@[rooti], sp)) as int));
            }
        }
        assert forall|q: int| 0 <= q < stack_pages.end as int implies mem@[q] == old(mem)@[q] by {
            assert forall|sp: int|
                0 <= sp < crate::PAGE_TABLE_SIZE as int && pte_valid(
                    #[trigger] entry_at(m4[rooti], sp),
                ) implies pte_ppn(entry_at(m4[rooti], sp)) as int != q by {}
            assert(!crate::page_tables::table_frame(m4, rooti, q));
            assert(ak5.spec_allocated(q));
            assert(mem@[q] == m4[q]);
            assert(m4[q] == old(mem)@[q]);
        }
    }
    if !kspace.map_identity_range(
        &mut allocator,
        mem,
        PageRange { start: manager_page, end: manager_page + 1 },
        true,
        true,
        false,
    ) {
        proof {
            if boot_supply_ok(layout, mem_len as int) {
                assert(false);
            }
        }
        return None;
    }

    // Each later mapping call leaves every earlier range's translations
    // untouched: the ranges ascend, so an earlier range lies wholly outside
    // each later one, and its mapping carries through to the final state.
    proof {
        let m6 = mem@;
        assert forall|q: int| 0 <= q < alloc_pages.end as int implies #[trigger] allocator.spec_allocated(
            q,
        ) by {
            assert(ak6.spec_allocated(q));
        }
        assert forall|sp: int|
            0 <= sp < crate::PAGE_TABLE_SIZE as int && pte_valid(
                #[trigger] entry_at(mem@[rooti], sp),
            ) implies pte_ppn(entry_at(mem@[rooti], sp)) as int >= alloc_pages.end as int by {
            if pte_valid(entry_at(m5[rooti], sp)) {
                assert(entry_at(mem@[rooti], sp) == entry_at(m5[rooti], sp));
            } else {
                assert(!ak6.spec_allocated(pte_ppn(entry_at(mem@[rooti], sp)) as int));
            }
        }
        assert forall|q: int| 0 <= q < stack_pages.end as int implies mem@[q] == old(mem)@[q] by {
            assert forall|sp: int|
                0 <= sp < crate::PAGE_TABLE_SIZE as int && pte_valid(
                    #[trigger] entry_at(m5[rooti], sp),
                ) implies pte_ppn(entry_at(m5[rooti], sp)) as int != q by {}
            assert(!crate::page_tables::table_frame(m5, rooti, q));
            assert(ak6.spec_allocated(q));
            assert(mem@[q] == m5[q]);
            assert(m5[q] == old(mem)@[q]);
        }
        assert forall|p: int| text_pages.start <= p < text_pages.end implies mapped_with(
            m6,
            rooti,
            p,
            true,
            false,
            true,
        ) by {
            assert(mapped_with(m1, rooti, p, true, false, true));
            assert(leaf_entry(m2, rooti, p) == leaf_entry(m1, rooti, p));
            assert(leaf_entry(m3, rooti, p) == leaf_entry(m2, rooti, p));
            assert(leaf_entry(m4, rooti, p) == leaf_entry(m3, rooti, p));
            assert(leaf_entry(m5, rooti, p) == leaf_entry(m4, rooti, p));
            assert(leaf_entry(m6, rooti, p) == leaf_entry(m5, rooti, p));
        }
        assert forall|p: int| rodata_pages.start <= p < rodata_pages.end implies mapped_with(
            m6,
            rooti,
            p,
            true,
            false,
            false,
        ) by {
            assert(mapped_with(m2, rooti, p, true, false, false));
            assert(leaf_entry(m3, rooti, p) == leaf_entry(m2, rooti, p));
            assert(leaf_entry(m4, rooti, p) == leaf_entry(m3, rooti, p));
            assert(leaf_entry(m5, rooti, p) == leaf_entry(m4, rooti, p));
            assert(leaf_entry(m6, rooti, p) == leaf_entry(m5, rooti, p));
        }
        assert forall|p: int| data_pages.start <= p < data_pages.end implies mapped_with(
            m6,
            rooti,
            p,
            true,
            true,
            false,
        ) by {
            assert(mapped_with(m3, rooti, p, true, true, false));
            assert(leaf_entry(m4, rooti, p) == leaf_entry(m3, rooti, p));
            assert(leaf_entry(m5, rooti, p) == leaf_entry(m4, rooti, p));
            assert(leaf_entry(m6, rooti, p) == leaf_entry(m5, rooti, p));
        }
        assert forall|p: int| stack_pages.start <= p < stack_pages.end implies mapped_with(
            m6,
            rooti,
            p,
            true,
            true,
            false,
        ) by {
            assert(mapped_with(m4, rooti, p, true, true, false));
            assert(leaf_entry(m5, rooti, p) == leaf_entry(m4, rooti, p));
            assert(leaf_entry(m6, rooti, p) == leaf_entry(m5, rooti, p));
        }
        assert forall|p: int| alloc_pages.start <= p < alloc_pages.end implies mapped_with(
            m6,
            rooti,
            p,
            true,
            true,
            false,
        ) by {
            assert(mapped_with(m5, rooti, p, true, true, false));
            assert(leaf_entry(m6, rooti, p) == leaf_entry(m5, rooti, p));
        }
        assert(identity_mapped_range(mem@, rooti, text_pages, true, false, true));
        assert(identity_mapped_range(mem@, rooti, rodata_pages, true, false, false));
        assert(identity_mapped_range(mem@, rooti, data_pages, true, true, false));
        assert(identity_mapped_range(mem@, rooti, stack_pages, true, true, false));
        assert(identity_mapped_range(mem@, rooti, alloc_pages, true, true, false));
        assert(mapped_with(mem@, rooti, manager_page as int, true, true, false));
    }

    let (satp_asid, satp_root) = manager.enable(kid);
    Some(
        KernelBoot {
            allocator,
            manager,
            kernel_id: kid,
            text_pages,
            rodata_pages,
            data_pages,
            stack_pages,
            alloc_pages,
            manager_page,
            satp_asid,
            satp_root,
        },
    )
}

} // verus!
