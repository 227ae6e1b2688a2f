//! Bitmap-backed physical page allocator: one flag per page counted from
//! `page_base`, a forward-scanning "next open page" hint, and first-fit
//! allocation that zero-fills every page it hands out. The flag table is the
//! allocator's exclusively-owned window over its reserved bitmap frames,
//! whose physical placement is returned at creation so the boot sequence can
//! identity-map them.

use crate::PAGE_SIZE;
use crate::mem::PhysicalMemory;
use crate::mem::zero_page_bytes;
use vstd::prelude::*;

verus! {

/// A half-open range of physical page numbers.
#[derive(Clone, Copy, PartialEq, Eq, Structural, Debug)]
pub struct PageRange {
    pub start: usize,
    pub end: usize,
}

/// Bitmap allocator over the physical pages `[page_base, page_base + total_pages)`.
pub struct PageAllocator {
    total_pages: usize,
    page_base: usize,
    alloc_table: Vec<bool>,
    next_open_page: usize,
}

/// Number of whole pages the allocation bitmap occupies: one bit per page,
/// rounded up to a page of bits.
pub open spec fn spec_bitmap_pages(total_pages: int) -> int {
    total_pages / 8 / (PAGE_SIZE as int) + if total_pages % (8 * (PAGE_SIZE as int)) > 0 {
        1int
    } else {
        0int
    }
}

impl PageAllocator {
    /// First page the allocator tracks.
    pub closed spec fn base(&self) -> int {
        self.page_base as int
    }

    /// Number of pages the allocator tracks.
    pub closed spec fn total(&self) -> int {
        self.total_pages as int
    }

    /// One past the last page the allocator tracks.
    pub open spec fn end_page(&self) -> int {
        self.base() + self.total()
    }

    /// The forward-scan hint: the next page `allocate` will try.
    pub closed spec fn hint(&self) -> int {
        self.next_open_page as int
    }

    /// The allocation flags, one per tracked page.
    pub closed spec fn bits(&self) -> Seq<bool> {
        self.alloc_table@
    }

    /// Whether `page` is allocated; pages outside the tracked range are
    /// reported allocated, the safe default.
    pub open spec fn spec_allocated(&self, page: int) -> bool {
        if page < self.base() || page >= self.end_page() {
            true
        } else {
            self.bits()[page - self.base()]
        }
    }

    /// Structural invariant: one flag per tracked page, and the hint rests
    /// either on a free page or at the end of the range.
    pub open spec fn wf(&self) -> bool {
        &&& self.bits().len() == self.total()
        &&& self.base() <= self.hint() <= self.end_page()
        &&& self.end_page() <= usize::MAX
        &&& (self.hint() < self.end_page() ==> !self.bits()[self.hint() - self.base()])
    }

    /// First page the allocator tracks.
    pub fn base_page(&self) -> (r: usize)
        ensures
            r == self.base(),
    {
        self.page_base
    }

    /// Number of pages the allocator tracks.
    pub fn total_page_count(&self) -> (r: usize)
        ensures
            r == self.total(),
    {
        self.total_pages
    }

    /// Current value of the forward-scan hint.
    pub fn next_open(&self) -> (r: usize)
        ensures
            r == self.hint(),
    {
        self.next_open_page
    }

    /// Builds the allocator for the pages `[base_page, base_page + total_pages)`.
    /// The bitmap is sized from `total_pages` and placed at the pages
    /// immediately after `highest_reserved_page`; every page from `base_page`
    /// up to the end of the bitmap is marked allocated, and the scan hint is
    /// set just past the bitmap. Returns the allocator and the physical range
    /// the bitmap occupies.
    pub fn create(base_page: usize, highest_reserved_page: usize, total_pages: usize) -> (r: (
        PageAllocator,
        PageRange,
    ))
        requires
            base_page <= highest_reserved_page + 1,
            highest_reserved_page + 1 + spec_bitmap_pages(total_pages as int) <= usize::MAX,
            base_page + total_pages <= usize::MAX,
        ensures
            r.0.wf(),
            r.0.base() == base_page,
            r.0.total() == total_pages,
            r.1.start == highest_reserved_page + 1,
            r.1.end == highest_reserved_page + 1 + spec_bitmap_pages(total_pages as int),
            forall|page: int|
                r.0.base() <= page < r.0.end_page() ==> r.0.spec_allocated(page) == (page
                    < r.1.end),
            r.0.hint() == if r.1.end <= r.0.end_page() {
                r.1.end as int
            } else {
                r.0.end_page()
            },
    {
        let table_size: usize = total_pages / 8 / PAGE_SIZE + if total_pages % (8 * PAGE_SIZE)
            > 0 {
            1
        } else {
            0
        };
        let bitmap = PageRange {
            start: highest_reserved_page + 1,
            end: highest_reserved_page + 1 + table_size,
        };
        // Pages below this count (relative to base_page) start out reserved:
        // the boot image and the bitmap's own frames.
        let marked: usize = if bitmap.end - base_page <= total_pages {
            bitmap.end - base_page
        } else {
            total_pages
        };
        let mut table: Vec<bool> = Vec::new();
        let mut i: usize = 0;
        while i < total_pages
            invariant
                i <= total_pages,
                table@.len() == i,
                forall|k: int| 0 <= k < i ==> table@[k] == (k < marked),
            decreases total_pages - i,
        {
            table.push(i < marked);
            i += 1;
        }
        // The scan starts just past the bitmap, or at the end of the range
        // where the bitmap already fills it.
        let hint: usize = if bitmap.end <= base_page + total_pages {
            bitmap.end
        } else {
            base_page + total_pages
        };
        let a = PageAllocator {
            total_pages,
            page_base: base_page,
            alloc_table: table,
            next_open_page: hint,
        };
        proof {
            assert(a.bits().len() == a.total());
            assert(a.hint() < a.end_page() ==> !a.bits()[a.hint() - a.base()]);
        }
        (a, bitmap)
    }

    /// Whether `allocate` can succeed: the hint has not run past the range.
    pub open spec fn allocate_ok(&self) -> bool {
        self.hint() < self.end_page()
    }

    /// How one successful allocation of page `p` relates the allocator state
    /// after the call to the state before it.
    pub open spec fn allocate_post(pre: PageAllocator, post: PageAllocator, p: int) -> bool {
        &&& p == pre.hint()
        &&& pre.base() <= p < pre.end_page()
        &&& !pre.spec_allocated(p)
        &&& post.base() == pre.base()
        &&& post.total() == pre.total()
        &&& post.bits() == pre.bits().update(p - pre.base(), true)
        &&& p < post.hint() <= post.end_page()
        &&& (forall|q: int| p < q < post.hint() ==> post.spec_allocated(q))
    }

    /// Returns the lowest free page at or after the hint, marks it allocated,
    /// zero-fills it, and advances the hint to the next free page. Returns
    /// nothing exactly when the hint has run past the end of the range, and
    /// then changes nothing.
    pub fn allocate(&mut self, mem: &mut PhysicalMemory) -> (r: Option<usize>)
        requires
            old(self).wf(),
            old(mem).wf(),
            old(self).end_page() <= old(mem)@.len(),
        ensures
            final(self).wf(),
            final(mem).wf(),
            final(mem)@.len() == old(mem)@.len(),
            r.is_some() == old(self).allocate_ok(),
            r.is_none() ==> *final(self) == *old(self) && final(mem)@ == old(mem)@,
            r.is_some() ==> PageAllocator::allocate_post(
                *old(self),
                *final(self),
                r.unwrap() as int,
            ) && final(self).spec_allocated(r.unwrap() as int) && final(mem)@ == old(
                mem,
            )@.update(r.unwrap() as int, zero_page_bytes()),
    {
        if self.next_open_page >= self.page_base + self.total_pages {
            return None;
        }
        let page = self.next_open_page;
        // Scan forward for the next free page past this one.
        let mut next: usize = page + 1;
        let end: usize = self.page_base + self.total_pages;
        while next < end && self.alloc_table[next - self.page_base]
            invariant
                *self == *old(self),
                self.wf(),
                end == self.end_page(),
                page == old(self).hint(),
                old(self).base() <= page < old(self).end_page(),
                page + 1 <= next <= end,
                forall|q: int| page < q < next ==> old(self).spec_allocated(q),
            decreases end - next,
        {
            next += 1;
        }
        self.next_open_page = next;
        let idx = page - self.page_base;
        self.alloc_table[idx] = true;
        mem.zero_page(page);
        proof {
            assert(self.bits() =~= old(self).bits().update(page - old(self).base(), true));
            assert forall|q: int| page < q < self.hint() implies self.spec_allocated(q) by {
                assert(old(self).spec_allocated(q));
            }
        }
        Some(page)
    }

    /// How a deallocation of page `p` relates the allocator state after the
    /// call to the state before it.
    pub open spec fn deallocate_post(pre: PageAllocator, post: PageAllocator, p: int) -> bool {
        &&& post.base() == pre.base()
        &&& post.total() == pre.total()
        &&& post.bits() == pre.bits().update(p - pre.base(), false)
        &&& post.hint() == if p < pre.hint() {
            p
        } else {
            pre.hint()
        }
    }

    /// Clears the page's flag; if the page lies below the hint, rewinds the
    /// hint to it so a later allocation can reuse it.
    pub fn deallocate(&mut self, page: usize)
        requires
            old(self).wf(),
            old(self).base() <= page < old(self).end_page(),
        ensures
            final(self).wf(),
            PageAllocator::deallocate_post(*old(self), *final(self), page as int),
            !final(self).spec_allocated(page as int),
    {
        if page < self.next_open_page {
            self.next_open_page = page;
        }
        let idx = page - self.page_base;
        self.alloc_table[idx] = false;
        proof {
            assert(self.bits() =~= old(self).bits().update(page - old(self).base(), false));
        }
    }

    /// Read-only probe of one page's flag; pages outside the tracked range
    /// are reported allocated, so untracked memory is never handed out.
    pub fn is_allocated(&self, page: usize) -> (r: bool)
        requires
            self.wf(),
        ensures
            r == self.spec_allocated(page as int),
    {
        if page < self.page_base {
            true
        } else if page - self.page_base >= self.total_pages {
            true
        } else {
            self.alloc_table[page - self.page_base]
        }
    }
}

/// A successful allocation hands out a page that was free, marks exactly
/// that page, and leaves every other page's allocation state unchanged.
pub proof fn lemma_allocate_fresh(pre: PageAllocator, post: PageAllocator, p: int)
    requires
        pre.wf(),
        PageAllocator::allocate_post(pre, post, p),
    ensures
        !pre.spec_allocated(p),
        post.spec_allocated(p),
        forall|q: int| q != p ==> post.spec_allocated(q) == pre.spec_allocated(q),
{
}

/// No two live allocations return the same page: a second allocation made
/// while the first page is still allocated yields a distinct page, and both
/// remain allocated.
pub proof fn lemma_distinct_live_allocations(
    a0: PageAllocator,
    a1: PageAllocator,
    a2: PageAllocator,
    p: int,
    q: int,
)
    requires
        a0.wf(),
        a1.wf(),
        PageAllocator::allocate_post(a0, a1, p),
        PageAllocator::allocate_post(a1, a2, q),
    ensures
        p != q,
        a2.spec_allocated(p),
        a2.spec_allocated(q),
{
    lemma_allocate_fresh(a0, a1, p);
    lemma_allocate_fresh(a1, a2, q);
}

/// Deallocation clears exactly the given page and no other.
pub proof fn lemma_deallocate_clears(pre: PageAllocator, post: PageAllocator, p: int)
    requires
        pre.wf(),
        pre.base() <= p < pre.end_page(),
        PageAllocator::deallocate_post(pre, post, p),
    ensures
        !post.spec_allocated(p),
        forall|q: int| q != p ==> post.spec_allocated(q) == pre.spec_allocated(q),
{
}

/// One observable step of the allocator: a successful allocation of `page`
/// (`is_alloc` set) or a deallocation of `page`.
pub open spec fn allocator_step(
    pre: PageAllocator,
    post: PageAllocator,
    is_alloc: bool,
    page: int,
) -> bool {
    if is_alloc {
        PageAllocator::allocate_post(pre, post, page)
    } else {
        pre.base() <= page < pre.end_page() && PageAllocator::deallocate_post(pre, post, page)
    }
}

/// A page once allocated stays allocated across any run of steps that
/// contains no deallocation of it.
proof fn lemma_live_until_freed(
    states: Seq<PageAllocator>,
    steps: Seq<(bool, int)>,
    p: int,
    lo: int,
    hi: int,
)
    requires
        states.len() == steps.len() + 1,
        forall|k: int|
            0 <= k < steps.len() ==> allocator_step(
                states[k],
                states[k + 1],
                (#[trigger] steps[k]).0,
                steps[k].1,
            ),
        forall|k: int| 0 <= k < states.len() ==> (#[trigger] states[k]).wf(),
        0 <= lo <= hi <= steps.len(),
        states[lo].base() <= p < states[lo].end_page(),
        states[lo].spec_allocated(p),
        forall|k: int| lo <= k < hi ==> !(!(#[trigger] steps[k]).0 && steps[k].1 == p),
    ensures
        states[hi].spec_allocated(p),
        states[hi].base() == states[lo].base(),
        states[hi].total() == states[lo].total(),
    decreases hi - lo,
{
    if lo < hi {
        assert(allocator_step(states[lo], states[lo + 1], steps[lo].0, steps[lo].1));
        let q = steps[lo].1;
        if steps[lo].0 {
            if q == p {
                assert(states[lo + 1].spec_allocated(p));
            } else {
                assert(states[lo + 1].bits()[p - states[lo + 1].base()] == states[lo].bits()[p
                    - states[lo].base()]);
            }
        } else {
            assert(q != p);
            assert(states[lo + 1].bits()[p - states[lo + 1].base()] == states[lo].bits()[p
                - states[lo].base()]);
        }
        lemma_live_until_freed(states, steps, p, lo + 1, hi);
    }
}

/// Allocator round trip, along any chain of allocate and deallocate steps:
/// a page handed out by one allocation is handed out again only after a
/// deallocation of that page in between. `states[k]` is the allocator
/// before step `k`; `steps[k]` says whether step `k` was an allocation and
/// of which page.
pub proof fn lemma_no_reuse_while_live(
    states: Seq<PageAllocator>,
    steps: Seq<(bool, int)>,
    i: int,
    j: int,
)
    requires
        states.len() == steps.len() + 1,
        forall|k: int|
            0 <= k < steps.len() ==> allocator_step(
                states[k],
                states[k + 1],
                (#[trigger] steps[k]).0,
                steps[k].1,
            ),
        forall|k: int| 0 <= k < states.len() ==> (#[trigger] states[k]).wf(),
        0 <= i < j < steps.len(),
        steps[i].0,
        steps[j].0,
        steps[i].1 == steps[j].1,
    ensures
        exists|k: int| i < k < j && !(#[trigger] steps[k]).0 && steps[k].1 == steps[i].1,
{
    let p = steps[i].1;
    if !(exists|k: int| i < k < j && !(#[trigger] steps[k]).0 && steps[k].1 == p) {
        assert(allocator_step(states[i], states[i + 1], steps[i].0, steps[i].1));
        assert(states[i + 1].spec_allocated(p));
        assert(states[i + 1].base() <= p < states[i + 1].end_page());
        assert(forall|k: int| i + 1 <= k < j ==> !(!(#[trigger] steps[k]).0 && steps[k].1 == p));
        lemma_live_until_freed(states, steps, p, i + 1, j);
        assert(allocator_step(states[j], states[j + 1], steps[j].0, steps[j].1));
        assert(!states[j].spec_allocated(p));
        assert(false);
    }
}

/// Every page from the hint to the end of the range is free.
pub open spec fn free_suffix(a: PageAllocator) -> bool {
    forall|q: int| a.hint() <= q < a.end_page() ==> !a.spec_allocated(q)
}

/// Exhaustion, one step: when all pages from the hint on are free, a
/// successful allocation takes exactly the hint page and moves the hint one
/// page forward, so the count of remaining free pages drops by exactly one.
pub proof fn lemma_exhaustion_step(pre: PageAllocator, post: PageAllocator, p: int)
    requires
        pre.wf(),
        post.wf(),
        free_suffix(pre),
        PageAllocator::allocate_post(pre, post, p),
    ensures
        p == pre.hint(),
        post.hint() == p + 1,
        free_suffix(post),
        post.end_page() - post.hint() == pre.end_page() - pre.hint() - 1,
{
    assert forall|q: int| post.hint() <= q < post.end_page() implies !post.spec_allocated(q) by {
        assert(!pre.spec_allocated(q));
    }
    if post.hint() > p + 1 {
        assert(post.spec_allocated(p + 1));
        assert(!pre.spec_allocated(p + 1));
        assert(post.bits()[p + 1 - post.base()] == pre.bits()[p + 1 - pre.base()]);
    }
}

/// Exhaustion, final step: once the hint has run past the end of the range,
/// allocation can no longer succeed.
pub proof fn lemma_exhausted(a: PageAllocator)
    requires
        a.wf(),
        a.hint() == a.end_page(),
    ensures
        !a.allocate_ok(),
{
}

/// Exhaustion: along any chain of successful allocations from an allocator
/// whose pages from the hint to the end of the range are all free, the
/// steps hand out consecutive distinct pages starting at the hint, at most
/// as many as there are free pages; and once that many have been handed
/// out, allocation refuses. `states[i]` is the allocator before step `i`,
/// which returned `pages[i]`.
pub proof fn lemma_exhaustion(states: Seq<PageAllocator>, pages: Seq<int>)
    requires
        states.len() == pages.len() + 1,
        states[0].wf(),
        free_suffix(states[0]),
        forall|i: int|
            0 <= i < pages.len() ==> PageAllocator::allocate_post(
                states[i],
                states[i + 1],
                #[trigger] pages[i],
            ) && states[i + 1].wf(),
    ensures
        pages.len() <= states[0].end_page() - states[0].hint(),
        forall|i: int| 0 <= i < pages.len() ==> pages[i] == states[0].hint() + i,
        pages.len() == states[0].end_page() - states[0].hint() ==> !states[pages.len()
            as int].allocate_ok(),
    decreases pages.len(),
{
    if pages.len() == 0 {
    } else {
        assert(PageAllocator::allocate_post(states[0], states[1], pages[0]));
        lemma_exhaustion_step(states[0], states[1], pages[0]);
        let tail_states = states.skip(1);
        let tail_pages = pages.skip(1);
        assert forall|i: int|
            0 <= i < tail_pages.len() implies PageAllocator::allocate_post(
            tail_states[i],
            tail_states[i + 1],
            #[trigger] tail_pages[i],
        ) && tail_states[i + 1].wf() by {
            assert(tail_states[i] == states[i + 1]);
            assert(tail_states[i + 1] == states[i + 2]);
            assert(tail_pages[i] == pages[i + 1]);
            assert(PageAllocator::allocate_post(states[i + 1], states[i + 2], pages[i + 1]));
        }
        lemma_exhaustion(tail_states, tail_pages);
        assert forall|i: int| 0 <= i < pages.len() implies pages[i] == states[0].hint() + i by {
            if i > 0 {
                assert(tail_pages[i - 1] == tail_states[0].hint() + (i - 1));
                assert(tail_states[0] == states[1]);
                assert(tail_pages[i - 1] == pages[i]);
            }
        }
        if pages.len() == states[0].end_page() - states[0].hint() {
            assert(tail_states[tail_pages.len() as int] == states[pages.len() as int]);
        }
    }
}

} // verus!
