//! Virtual memory spaces over two-level hardware page tables, and the
//! address-space manager that registers them. A space is anchored by its
//! root table's physical page; mapping one virtual page resolves the root
//! entry for its superpage index, allocates a child table on demand, and
//! writes the leaf entry with the requested physical page and permissions.

use crate::PAGE_TABLE_SIZE;
use crate::mem::PhysicalMemory;
use crate::mem::entry_at;
use crate::mem::lemma_zero_page_entries;
use crate::mem::zero_page_bytes;
use crate::page_allocator::PageAllocator;
use crate::page_allocator::PageRange;
use crate::page_allocator::free_suffix;
use crate::pte::PageTableEntry;
use crate::pte::PteFields;
use crate::pte::lemma_zero_entry_invalid;
use crate::pte::pte_accessed;
use crate::pte::pte_dirty;
use crate::pte::pte_execute;
use crate::pte::pte_global;
use crate::pte::pte_ppn;
use crate::pte::pte_read;
use crate::pte::pte_rsw;
use crate::pte::pte_user;
use crate::pte::pte_valid;
use crate::pte::pte_write;
use vstd::arithmetic::div_mod::lemma_fundamental_div_mod;
use vstd::prelude::*;

verus! {

/// One virtual memory space, anchored by the physical page of its root
/// table; a root page of `0` is the uninitialized sentinel.
pub struct VirtualMemorySpace {
    pub root_page: usize,
}

/// One request to map a source virtual page to a destination physical page
/// with the given permission bits; the atomic unit of the mapping operation.
#[derive(Clone, Copy, PartialEq, Eq, Structural, Debug)]
pub struct PageMapping {
    pub src: usize,
    pub dest: usize,
    pub user: bool,
    pub read: bool,
    pub write: bool,
    pub execute: bool,
}

/// The root-table entry word governing virtual page `vpn` in the space
/// rooted at physical page `root`.
pub open spec fn root_entry(mem: Seq<Seq<u8>>, root: int, vpn: int) -> u32 {
    entry_at(mem[root], vpn / (PAGE_TABLE_SIZE as int))
}

/// The leaf entry word governing virtual page `vpn`: the child-table entry
/// reached through a valid root entry, or zero where no child table exists.
pub open spec fn leaf_entry(mem: Seq<Seq<u8>>, root: int, vpn: int) -> u32 {
    let re = root_entry(mem, root, vpn);
    if pte_valid(re) {
        entry_at(mem[pte_ppn(re) as int], vpn % (PAGE_TABLE_SIZE as int))
    } else {
        0
    }
}

/// Whether `vpn` currently translates in the space rooted at `root`.
pub open spec fn vpn_mapped(mem: Seq<Seq<u8>>, root: int, vpn: int) -> bool {
    pte_valid(leaf_entry(mem, root, vpn))
}

/// How a successful `map_page` of `mapping` relates memory after the call
/// (`m1`) to memory before it (`m0`): the leaf entry for the source page
/// carries exactly the requested physical page and permission bits, the
/// bookkeeping bits of the previous leaf entry are retained, and the
/// translation of every other virtual page is untouched.
pub open spec fn map_post(m0: Seq<Seq<u8>>, m1: Seq<Seq<u8>>, root: int, mapping: PageMapping) -> bool {
    let leaf = leaf_entry(m1, root, mapping.src as int);
    let old_leaf = leaf_entry(m0, root, mapping.src as int);
    &&& pte_valid(leaf)
    &&& pte_ppn(leaf) == mapping.dest
    &&& pte_read(leaf) == mapping.read
    &&& pte_write(leaf) == mapping.write
    &&& pte_execute(leaf) == mapping.execute
    &&& pte_user(leaf) == mapping.user
    &&& pte_global(leaf) == pte_global(old_leaf)
    &&& pte_accessed(leaf) == pte_accessed(old_leaf)
    &&& pte_dirty(leaf) == pte_dirty(old_leaf)
    &&& pte_rsw(leaf) == pte_rsw(old_leaf)
    &&& forall|v: int|
        0 <= v < (PAGE_TABLE_SIZE * PAGE_TABLE_SIZE) as int && v != mapping.src ==> leaf_entry(
            m1,
            root,
            v,
        ) == leaf_entry(m0, root, v)
}

impl VirtualMemorySpace {
    /// A space is usable only once its root page has been assigned.
    pub fn is_initialized(&self) -> (r: bool)
        ensures
            r == (self.root_page != 0),
    {
        self.root_page != 0
    }

    /// Structural soundness of this space's page tables against the
    /// allocator and the physical memory window: the root and every child
    /// table live in distinct frames that the allocator has marked
    /// allocated, so a freshly allocated frame can never alias a table.
    pub open spec fn wf_in(&self, alloc: PageAllocator, mem: Seq<Seq<u8>>) -> bool {
        let root = self.root_page as int;
        &&& self.root_page != 0
        &&& root < mem.len()
        &&& alloc.spec_allocated(root)
        &&& (forall|s: int|
            0 <= s < PAGE_TABLE_SIZE as int ==> {
                let re = #[trigger] entry_at(mem[root], s);
                pte_valid(re) ==> {
                    let c = pte_ppn(re) as int;
                    &&& c < mem.len()
                    &&& c != root
                    &&& alloc.spec_allocated(c)
                }
            })
        &&& (forall|s1: int, s2: int|
            0 <= s1 < PAGE_TABLE_SIZE as int && 0 <= s2 < PAGE_TABLE_SIZE as int && s1 != s2
                && pte_valid(#[trigger] entry_at(mem[root], s1)) && pte_valid(
                #[trigger] entry_at(mem[root], s2),
            ) ==> pte_ppn(entry_at(mem[root], s1)) != pte_ppn(entry_at(mem[root], s2)))
    }

    /// Installs one translation in this space. Resolves the source page's
    /// superpage index in the root table; where no child table exists yet,
    /// allocates one page for it and installs a non-leaf pointer (valid but
    /// neither readable, writable nor executable). Writes the leaf entry
    /// with the requested physical page and permissions, overwriting any
    /// previous mapping of the same source page. Fails, changing nothing,
    /// exactly when a child table is needed but the allocator is exhausted.
    /// Beyond the one child-table frame it writes — and, when it creates
    /// that table, the root entry and the one freshly allocated frame —
    /// no byte of any other frame changes.
    pub fn map_page(
        &self,
        alloc: &mut PageAllocator,
        mem: &mut PhysicalMemory,
        mapping: PageMapping,
    ) -> (ok: bool)
        requires
            old(alloc).wf(),
            old(mem).wf(),
            old(alloc).end_page() <= old(mem)@.len(),
            old(mem)@.len() <= 0x400000,
            self.wf_in(*old(alloc), old(mem)@),
            mapping.src < PAGE_TABLE_SIZE * PAGE_TABLE_SIZE,
            mapping.dest < 0x400000,
        ensures
            final(alloc).wf(),
            final(mem).wf(),
            final(mem)@.len() == old(mem)@.len(),
            final(alloc).base() == old(alloc).base(),
            final(alloc).total() == old(alloc).total(),
            forall|q: int|
                old(alloc).spec_allocated(q) ==> #[trigger] final(alloc).spec_allocated(q),
            self.wf_in(*final(alloc), final(mem)@),
            ok ==> map_post(old(mem)@, final(mem)@, self.root_page as int, mapping),
            !ok ==> *final(alloc) == *old(alloc) && final(mem)@ == old(mem)@,
            !ok ==> !old(alloc).allocate_ok() && !pte_valid(
                root_entry(old(mem)@, self.root_page as int, mapping.src as int),
            ),
            // Where the child table already existed, the allocator is
            // untouched and only that child table's frame changes.
            ok && pte_valid(root_entry(old(mem)@, self.root_page as int, mapping.src as int))
                ==> *final(alloc) == *old(alloc) && (forall|q: int|
                0 <= q < old(mem)@.len() && q != pte_ppn(
                    root_entry(old(mem)@, self.root_page as int, mapping.src as int),
                ) as int ==> final(mem)@[q] == old(mem)@[q]),
            // Where the child table was created, exactly one page came from
            // the allocator: the root entry now points at it as a non-leaf
            // pointer (valid, not readable, writable or executable), and
            // only the root's frame and that fresh frame change.
            ok && !pte_valid(root_entry(old(mem)@, self.root_page as int, mapping.src as int))
                ==> ({
                let re1 = root_entry(final(mem)@, self.root_page as int, mapping.src as int);
                let p = pte_ppn(re1) as int;
                &&& pte_valid(re1)
                &&& !pte_read(re1)
                &&& !pte_write(re1)
                &&& !pte_execute(re1)
                &&& PageAllocator::allocate_post(*old(alloc), *final(alloc), p)
                &&& (forall|q: int|
                    0 <= q < old(mem)@.len() && q != self.root_page as int && q != p
                        ==> final(mem)@[q] == old(mem)@[q])
            }),
            // Root entries of other superpages keep their exact words.
            ok ==> forall|sp: int|
                0 <= sp < PAGE_TABLE_SIZE as int && sp != mapping.src as int / (
                PAGE_TABLE_SIZE as int) ==> #[trigger] entry_at(
                    final(mem)@[self.root_page as int],
                    sp,
                ) == entry_at(old(mem)@[self.root_page as int], sp),
    {
        let src_superpage = mapping.src / PAGE_TABLE_SIZE;
        let src_childpage = mapping.src % PAGE_TABLE_SIZE;
        let root = self.root_page;
        let ghost m0 = old(mem)@;
        let ghost rooti = root as int;
        let ghost s = src_superpage as int;
        let ghost ci = src_childpage as int;
        proof {
            assert(src_superpage < PAGE_TABLE_SIZE && src_childpage < PAGE_TABLE_SIZE)
                by (nonlinear_arith)
                requires
                    mapping.src < PAGE_TABLE_SIZE * PAGE_TABLE_SIZE,
                    src_superpage == mapping.src / PAGE_TABLE_SIZE,
                    src_childpage == mapping.src % PAGE_TABLE_SIZE,
                    PAGE_TABLE_SIZE == 1024usize,
            ;
        }
        let superpage_entry = mem.read_entry(root, src_superpage);
        let ghost re0 = entry_at(m0[rooti], s);

        // Find the child table, creating it where the root entry is invalid.
        let childpage_entry_page: usize;
        if superpage_entry.valid() {
            childpage_entry_page = superpage_entry.ppn() as usize;
            proof {
                assert(childpage_entry_page as int == pte_ppn(re0) as int);
            }
        } else {
            match alloc.allocate(mem) {
                Some(page) => {
                    let pointer = PteFields {
                        ppn: page as u32,
                        rsw: 0,
                        dirty: false,
                        accessed: false,
                        global: false,
                        // Ignored on a non-leaf entry, and child pages may be
                        // user-accessible.
                        user: true,
                        execute: false,
                        write: false,
                        read: false,
                        valid: true,
                    };
                    proof {
                        assert(page != rooti);
                    }
                    let e = pointer.encode();
                    mem.write_entry(root, src_superpage, e);
                    childpage_entry_page = page;
                    proof {
                        assert(forall|q: int|
                            0 <= q < m0.len() && q != rooti && q != page ==> mem@[q] == m0[q]);
                    }
                },
                None => {
                    return false;
                },
            }
        }
        let ghost mA = mem@;
        let ghost c = childpage_entry_page as int;

        proof {
            lemma_zero_entry_invalid();
            if pte_valid(re0) {
                assert(mA == m0 && *alloc == *old(alloc));
                assert(c == pte_ppn(re0) as int);
            } else {
                lemma_zero_page_entries(ci);
                assert(mA[c] == zero_page_bytes());
            }
            // Facts at the merge point, on both paths.
            assert(mA.len() == m0.len());
            assert(pte_valid(entry_at(mA[rooti], s)) && pte_ppn(entry_at(mA[rooti], s)) as int
                == c);
            assert(c < m0.len() && c != rooti && alloc.spec_allocated(c));
            assert(forall|q: int|
                old(alloc).spec_allocated(q) ==> #[trigger] alloc.spec_allocated(q));
            assert(forall|sp: int|
                0 <= sp < PAGE_TABLE_SIZE as int && sp != s ==> #[trigger] entry_at(mA[rooti], sp)
                    == entry_at(m0[rooti], sp));
            assert forall|sp: int|
                0 <= sp < PAGE_TABLE_SIZE as int && sp != s && pte_valid(
                    #[trigger] entry_at(m0[rooti], sp),
                ) implies mA[pte_ppn(entry_at(m0[rooti], sp)) as int] == m0[pte_ppn(
                entry_at(m0[rooti], sp),
            ) as int] && pte_ppn(entry_at(m0[rooti], sp)) as int != c by {
                let cp = pte_ppn(entry_at(m0[rooti], sp)) as int;
                assert(cp != rooti && old(alloc).spec_allocated(cp));
                if pte_valid(re0) {
                    assert(cp != c);
                } else {
                    assert(!old(alloc).spec_allocated(c));
                    assert(cp != c);
                }
            }
            assert(mA[c] == if pte_valid(re0) {
                m0[c]
            } else {
                zero_page_bytes()
            });
            assert(entry_at(mA[c], ci) == leaf_entry(m0, rooti, mapping.src as int));
        }

        // Write the leaf entry, retaining the previous entry's bookkeeping
        // bits and overwriting its target and permissions.
        let old_leaf = mem.read_entry(childpage_entry_page, src_childpage);
        let mut fields = old_leaf.decode();
        fields.ppn = mapping.dest as u32;
        fields.execute = mapping.execute;
        fields.read = mapping.read;
        fields.write = mapping.write;
        fields.user = mapping.user;
        fields.valid = true;
        let leaf = fields.encode();
        mem.write_entry(childpage_entry_page, src_childpage, leaf);

        proof {
            let m1 = mem@;
            let srci = mapping.src as int;
            lemma_zero_entry_invalid();
            assert(m1[rooti] == mA[rooti]);
            assert(entry_at(m1[c], ci) == leaf.bits);
            assert(leaf_entry(m1, rooti, srci) == leaf.bits);
            assert(pte_ppn(leaf.bits) == mapping.dest);
            // Translations of every other virtual page are untouched.
            assert forall|v: int|
                0 <= v < (PAGE_TABLE_SIZE * PAGE_TABLE_SIZE) as int && v != srci implies #[trigger] leaf_entry(
                m1,
                rooti,
                v,
            ) == leaf_entry(m0, rooti, v) by {
                let vs = v / (PAGE_TABLE_SIZE as int);
                let vc = v % (PAGE_TABLE_SIZE as int);
                assert(0 <= vs < PAGE_TABLE_SIZE as int && 0 <= vc < PAGE_TABLE_SIZE as int)
                    by (nonlinear_arith)
                    requires
                        0 <= v < (PAGE_TABLE_SIZE * PAGE_TABLE_SIZE) as int,
                        vs == v / (PAGE_TABLE_SIZE as int),
                        vc == v % (PAGE_TABLE_SIZE as int),
                        PAGE_TABLE_SIZE == 1024usize,
                ;
                if vs == s {
                    if vc == ci {
                        lemma_fundamental_div_mod(v, PAGE_TABLE_SIZE as int);
                        lemma_fundamental_div_mod(srci, PAGE_TABLE_SIZE as int);
                        assert(v == srci);
                    } else {
                        assert(entry_at(m1[c], vc) == entry_at(mA[c], vc));
                        if pte_valid(re0) {
                            assert(leaf_entry(m0, rooti, v) == entry_at(m0[c], vc));
                        } else {
                            lemma_zero_page_entries(vc);
                            assert(leaf_entry(m0, rooti, v) == 0);
                        }
                    }
                } else {
                    assert(entry_at(m1[rooti], vs) == entry_at(m0[rooti], vs));
                    if pte_valid(entry_at(m0[rooti], vs)) {
                        let cp = pte_ppn(entry_at(m0[rooti], vs)) as int;
                        assert(cp != c && mA[cp] == m0[cp]);
                        assert(m1[cp] == mA[cp]);
                    }
                }
            }
            // Which frames changed, and the allocator's exact delta.
            assert(root_entry(m1, rooti, srci) == entry_at(m1[rooti], s));
            assert(root_entry(m0, rooti, srci) == re0);
            if pte_valid(re0) {
                assert forall|q: int|
                    0 <= q < m0.len() && q != pte_ppn(re0) as int implies m1[q] == m0[q] by {
                    assert(m1[q] == mA[q]);
                }
            } else {
                assert(pte_ppn(root_entry(m1, rooti, srci)) as int == c);
                assert(!pte_read(entry_at(m1[rooti], s)) && !pte_write(entry_at(m1[rooti], s))
                    && !pte_execute(entry_at(m1[rooti], s)));
                assert(PageAllocator::allocate_post(*old(alloc), *alloc, c));
                assert forall|q: int|
                    0 <= q < m0.len() && q != rooti && q != c implies m1[q] == m0[q] by {
                    assert(m1[q] == mA[q]);
                    assert(mA[q] == m0[q]);
                }
            }
            assert forall|sp: int|
                0 <= sp < PAGE_TABLE_SIZE as int && sp != s implies #[trigger] entry_at(
                m1[rooti],
                sp,
            ) == entry_at(m0[rooti], sp) by {
                assert(entry_at(m1[rooti], sp) == entry_at(mA[rooti], sp));
            }
            // The space's table structure stays sound.
            assert forall|sp: int| 0 <= sp < PAGE_TABLE_SIZE as int implies {
                let re = #[trigger] entry_at(m1[rooti], sp);
                pte_valid(re) ==> {
                    let cc = pte_ppn(re) as int;
                    &&& cc < m1.len()
                    &&& cc != rooti
                    &&& alloc.spec_allocated(cc)
                }
            } by {
                assert(entry_at(m1[rooti], sp) == entry_at(mA[rooti], sp));
            }
        }
        true
    }
}

/// Whether frame `q` holds one of the space's page tables: its root table
/// or a child table some valid root entry points at.
pub open spec fn table_frame(mem: Seq<Seq<u8>>, root: int, q: int) -> bool {
    q == root || exists|sp: int|
        0 <= sp < PAGE_TABLE_SIZE as int && pte_valid(#[trigger] entry_at(mem[root], sp))
            && pte_ppn(entry_at(mem[root], sp)) == q
}

/// How a partially mapped range relates memory after a failed range
/// mapping (`m1`) to memory before it (`m0`): every page of the range
/// below `k` is identity-mapped with the given permissions, and no
/// translation outside those pages has changed.
pub open spec fn mapped_prefix(
    m0: Seq<Seq<u8>>,
    m1: Seq<Seq<u8>>,
    root: int,
    range: PageRange,
    k: int,
    read: bool,
    write: bool,
    execute: bool,
) -> bool {
    &&& (forall|q: int| range.start <= q < k ==> mapped_with(m1, root, q, read, write, execute))
    &&& (forall|v: int|
        0 <= v < (PAGE_TABLE_SIZE * PAGE_TABLE_SIZE) as int && !(range.start <= v < k)
            ==> leaf_entry(m1, root, v) == leaf_entry(m0, root, v))
}

/// Whether `page` is identity-mapped (source equals destination) in the
/// space rooted at `root`, supervisor-only, with exactly the given
/// permission bits.
pub open spec fn mapped_with(
    mem: Seq<Seq<u8>>,
    root: int,
    page: int,
    read: bool,
    write: bool,
    execute: bool,
) -> bool {
    let leaf = leaf_entry(mem, root, page);
    &&& vpn_mapped(mem, root, page)
    &&& pte_ppn(leaf) == page
    &&& pte_read(leaf) == read
    &&& pte_write(leaf) == write
    &&& pte_execute(leaf) == execute
    &&& !pte_user(leaf)
}

/// Every page of the range is identity-mapped with the given permissions.
pub open spec fn identity_mapped_range(
    mem: Seq<Seq<u8>>,
    root: int,
    r: PageRange,
    read: bool,
    write: bool,
    execute: bool,
) -> bool {
    forall|p: int|
        r.start <= p < r.end ==> mapped_with(mem, root, p, read, write, execute)
}

impl VirtualMemorySpace {
    /// Identity-maps every page of the range into this space, supervisor
    /// only, with the given permission bits. On success the whole range is
    /// mapped and no translation outside it has changed. Fails, leaving the
    /// allocator exhausted, exactly when a child table is needed and the
    /// allocator runs out of pages; the pages mapped before the failure
    /// stay mapped, and no translation beyond them has changed. When every
    /// page from the hint on is free and at least one free page per page of
    /// the range remains, the call must succeed.
    pub fn map_identity_range(
        &self,
        alloc: &mut PageAllocator,
        mem: &mut PhysicalMemory,
        range: PageRange,
        read: bool,
        write: bool,
        execute: bool,
    ) -> (ok: bool)
        requires
            old(alloc).wf(),
            old(mem).wf(),
            old(alloc).end_page() <= old(mem)@.len(),
            old(mem)@.len() <= 0x100000,
            self.wf_in(*old(alloc), old(mem)@),
            range.start <= range.end,
            range.end <= old(mem)@.len(),
        ensures
            final(alloc).wf(),
            final(mem).wf(),
            final(mem)@.len() == old(mem)@.len(),
            final(alloc).base() == old(alloc).base(),
            final(alloc).total() == old(alloc).total(),
            forall|q: int|
                old(alloc).spec_allocated(q) ==> #[trigger] final(alloc).spec_allocated(q),
            self.wf_in(*final(alloc), final(mem)@),
            ok ==> identity_mapped_range(
                final(mem)@,
                self.root_page as int,
                range,
                read,
                write,
                execute,
            ),
            ok ==> forall|v: int|
                0 <= v < (PAGE_TABLE_SIZE * PAGE_TABLE_SIZE) as int && !(range.start <= v
                    < range.end) ==> #[trigger] leaf_entry(final(mem)@, self.root_page as int, v)
                    == leaf_entry(old(mem)@, self.root_page as int, v),
            !ok ==> !final(alloc).allocate_ok(),
            !ok ==> (exists|k: int|
                range.start <= k < range.end && #[trigger] mapped_prefix(
                    old(mem)@,
                    final(mem)@,
                    self.root_page as int,
                    range,
                    k,
                    read,
                    write,
                    execute,
                )),
            free_suffix(*old(alloc)) ==> free_suffix(*final(alloc)) && final(alloc).hint()
                <= old(alloc).hint() + (range.end - range.start),
            free_suffix(*old(alloc)) && old(alloc).end_page() - old(alloc).hint() >= range.end
                - range.start ==> ok,
            // Frames that hold neither this space's tables nor pages the
            // allocator handed out keep their exact bytes: other spaces'
            // tables and the kernel image itself are left intact.
            forall|q: int|
                0 <= q < old(mem)@.len() && old(alloc).spec_allocated(q) && !table_frame(
                    old(mem)@,
                    self.root_page as int,
                    q,
                ) ==> #[trigger] final(mem)@[q] == old(mem)@[q],
            // Valid root entries persist unchanged, and every root entry
            // that became valid points at a page that was free before.
            forall|sp: int|
                0 <= sp < PAGE_TABLE_SIZE as int && pte_valid(
                    #[trigger] entry_at(old(mem)@[self.root_page as int], sp),
                ) ==> entry_at(final(mem)@[self.root_page as int], sp) == entry_at(
                    old(mem)@[self.root_page as int],
                    sp,
                ),
            forall|sp: int|
                0 <= sp < PAGE_TABLE_SIZE as int && pte_valid(
                    #[trigger] entry_at(final(mem)@[self.root_page as int], sp),
                ) && !pte_valid(entry_at(old(mem)@[self.root_page as int], sp)) ==> !old(
                    alloc,
                ).spec_allocated(pte_ppn(entry_at(final(mem)@[self.root_page as int], sp)) as int),
    {
        let rooti = self.root_page;
        let mut p = range.start;
        if p >= range.end {
            return true;
        }
        while p < range.end
            invariant
                range.start <= p <= range.end,
                range.end <= old(mem)@.len(),
                alloc.wf(),
                mem.wf(),
                mem@.len() == old(mem)@.len(),
                mem@.len() <= 0x100000,
                alloc.end_page() <= mem@.len(),
                alloc.base() == old(alloc).base(),
                alloc.total() == old(alloc).total(),
                forall|q: int| old(alloc).spec_allocated(q) ==> #[trigger] alloc.spec_allocated(q),
                self.wf_in(*alloc, mem@),
                rooti == self.root_page,
                forall|q: int|
                    range.start <= q < p ==> mapped_with(
                        mem@,
                        self.root_page as int,
                        q,
                        read,
                        write,
                        execute,
                    ),
                forall|v: int|
                    0 <= v < (PAGE_TABLE_SIZE * PAGE_TABLE_SIZE) as int && !(range.start <= v < p)
                        ==> #[trigger] leaf_entry(mem@, self.root_page as int, v) == leaf_entry(
                        old(mem)@,
                        self.root_page as int,
                        v,
                    ),
                free_suffix(*old(alloc)) ==> free_suffix(*alloc) && alloc.hint() <= old(
                    alloc,
                ).hint() + (p - range.start),
                forall|q: int|
                    0 <= q < old(mem)@.len() && old(alloc).spec_allocated(q) && !table_frame(
                        old(mem)@,
                        self.root_page as int,
                        q,
                    ) ==> #[trigger] mem@[q] == old(mem)@[q],
                forall|sp: int|
                    0 <= sp < PAGE_TABLE_SIZE as int && pte_valid(
                        #[trigger] entry_at(old(mem)@[self.root_page as int], sp),
                    ) ==> entry_at(mem@[self.root_page as int], sp) == entry_at(
                        old(mem)@[self.root_page as int],
                        sp,
                    ),
                forall|sp: int|
                    0 <= sp < PAGE_TABLE_SIZE as int && pte_valid(
                        #[trigger] entry_at(mem@[self.root_page as int], sp),
                    ) && !pte_valid(entry_at(old(mem)@[self.root_page as int], sp)) ==> !old(
                        alloc,
                    ).spec_allocated(
                        pte_ppn(entry_at(mem@[self.root_page as int], sp)) as int,
                    ),
            decreases range.end - p,
        {
            let mapping = PageMapping { src: p, dest: p, user: false, read, write, execute };
            let ghost m_before = mem@;
            let ghost a_before = *alloc;
            let ok = self.map_page(alloc, mem, mapping);
            if !ok {
                proof {
                    // The failure point: everything before `p` is mapped
                    // and nothing else has changed, and the allocator has
                    // run dry; a free page per remaining page would have
                    // carried the call through.
                    assert(!a_before.allocate_ok() && a_before.hint() == a_before.end_page());
                    assert(mapped_prefix(
                        old(mem)@,
                        mem@,
                        self.root_page as int,
                        range,
                        p as int,
                        read,
                        write,
                        execute,
                    ));
                }
                return false;
            }
            proof {
                let ri = self.root_page as int;
                let sp_of_p = p as int / (PAGE_TABLE_SIZE as int);
                if free_suffix(*old(alloc)) {
                    if !pte_valid(root_entry(m_before, ri, p as int)) {
                        let pg = pte_ppn(root_entry(mem@, ri, p as int)) as int;
                        assert(PageAllocator::allocate_post(a_before, *alloc, pg));
                        crate::page_allocator::lemma_exhaustion_step(a_before, *alloc, pg);
                    }
                }
                // The untouched-frames and root-entry bookkeeping carries
                // over this one mapping step.
                if pte_valid(root_entry(m_before, ri, p as int)) {
                    let cb = pte_ppn(root_entry(m_before, ri, p as int)) as int;
                    assert(entry_at(m_before[ri], sp_of_p) == root_entry(m_before, ri, p as int));
                    assert(mem@[ri] == m_before[ri]);
                    assert forall|q: int|
                        0 <= q < old(mem)@.len() && old(alloc).spec_allocated(q) && !table_frame(
                            old(mem)@,
                            ri,
                            q,
                        ) implies #[trigger] mem@[q] == old(mem)@[q] by {
                        if pte_valid(entry_at(old(mem)@[ri], sp_of_p)) {
                            assert(table_frame(old(mem)@, ri, cb));
                        } else {
                            assert(!old(alloc).spec_allocated(cb));
                        }
                        assert(q != cb);
                        assert(mem@[q] == m_before[q]);
                    }
                } else {
                    let pg = pte_ppn(root_entry(mem@, ri, p as int)) as int;
                    assert(!pte_valid(entry_at(old(mem)@[ri], sp_of_p)));
                    assert(!a_before.spec_allocated(pg));
                    assert forall|q: int|
                        0 <= q < old(mem)@.len() && old(alloc).spec_allocated(q) && !table_frame(
                            old(mem)@,
                            ri,
                            q,
                        ) implies #[trigger] mem@[q] == old(mem)@[q] by {
                        assert(q != ri && q != pg);
                        assert(mem@[q] == m_before[q]);
                    }
                    assert forall|sp: int|
                        0 <= sp < PAGE_TABLE_SIZE as int && pte_valid(
                            #[trigger] entry_at(old(mem)@[ri], sp),
                        ) implies entry_at(mem@[ri], sp) == entry_at(old(mem)@[ri], sp) by {
                        assert(sp != sp_of_p);
                        assert(entry_at(mem@[ri], sp) == entry_at(m_before[ri], sp));
                    }
                    assert forall|sp: int|
                        0 <= sp < PAGE_TABLE_SIZE as int && pte_valid(
                            #[trigger] entry_at(mem@[ri], sp),
                        ) && !pte_valid(entry_at(old(mem)@[ri], sp)) implies !old(
                            alloc,
                        ).spec_allocated(pte_ppn(entry_at(mem@[ri], sp)) as int) by {
                        if sp != sp_of_p {
                            assert(entry_at(mem@[ri], sp) == entry_at(m_before[ri], sp));
                        }
                    }
                }
                assert forall|v: int|
                    0 <= v < (PAGE_TABLE_SIZE * PAGE_TABLE_SIZE) as int && !(range.start <= v < p
                        + 1) implies #[trigger] leaf_entry(mem@, self.root_page as int, v)
                    == leaf_entry(old(mem)@, self.root_page as int, v) by {
                    assert(leaf_entry(mem@, self.root_page as int, v) == leaf_entry(
                        m_before,
                        self.root_page as int,
                        v,
                    ));
                }
                assert forall|q: int| range.start <= q <= p implies mapped_with(
                    mem@,
                    self.root_page as int,
                    q,
                    read,
                    write,
                    execute,
                ) by {
                    if q < p {
                        assert(mapped_with(m_before, self.root_page as int, q, read, write, execute));
                        assert(leaf_entry(mem@, self.root_page as int, q) == leaf_entry(
                            m_before,
                            self.root_page as int,
                            q,
                        ));
                    }
                }
            }
            p += 1;
        }
        true
    }
}

/// Size in bytes of one space slot in the manager's backing store: the
/// 32-bit root page number of one virtual memory space.
pub const SPACE_SLOT_BYTES: usize = 4;

/// Fixed-capacity registry of virtual memory spaces: a slot table sized at
/// boot from a caller-supplied backing page range, a monotonically-advancing
/// free-slot cursor, and the kernel space's id once that space exists. The
/// slot index doubles as the hardware address-space identifier.
pub struct MMUManager {
    spaces: Vec<VirtualMemorySpace>,
    kernel_id: Option<usize>,
    next_id: usize,
    max_spaces: usize,
}

impl MMUManager {
    /// The space slots, in slot-id order.
    pub closed spec fn slots(&self) -> Seq<VirtualMemorySpace> {
        self.spaces@
    }

    /// The kernel space's slot id, once the kernel space exists.
    pub closed spec fn kernel(&self) -> Option<usize> {
        self.kernel_id
    }

    /// The free-slot cursor.
    pub closed spec fn cursor(&self) -> int {
        self.next_id as int
    }

    /// Capacity in slots.
    pub closed spec fn max(&self) -> int {
        self.max_spaces as int
    }

    /// Whether slot `i` holds an initialized space.
    pub open spec fn slot_initialized(&self, i: int) -> bool {
        self.slots()[i].root_page != 0
    }

    /// Structural invariant of the registry.
    pub open spec fn wf(&self) -> bool {
        &&& self.slots().len() == self.max()
        &&& 0 <= self.cursor() <= self.max()
        &&& match self.kernel() {
            Some(k) => k < self.max() && self.slot_initialized(k as int),
            None => true,
        }
    }

    /// Builds the registry over the backing page range: computes how many
    /// slots fit, zero-initializes the region (every slot starts as the
    /// uninitialized sentinel), and returns the manager. The capacity is at
    /// least one slot for every non-empty range.
    pub fn create(backing_pages: PageRange, mem: &mut PhysicalMemory) -> (m: MMUManager)
        requires
            old(mem).wf(),
            backing_pages.start < backing_pages.end,
            backing_pages.end <= old(mem)@.len(),
            crate::PAGE_SIZE * (backing_pages.end - backing_pages.start) <= usize::MAX,
        ensures
            final(mem).wf(),
            final(mem)@.len() == old(mem)@.len(),
            forall|p: int|
                backing_pages.start <= p < backing_pages.end ==> final(mem)@[p]
                    == zero_page_bytes(),
            forall|p: int|
                0 <= p < final(mem)@.len() && !(backing_pages.start <= p < backing_pages.end)
                    ==> final(mem)@[p] == old(mem)@[p],
            m.wf(),
            m.max() == (crate::PAGE_SIZE as int) * (backing_pages.end - backing_pages.start) / (
            SPACE_SLOT_BYTES as int),
            m.max() >= 1,
            m.cursor() == 0,
            m.kernel().is_none(),
            forall|i: int| 0 <= i < m.max() ==> !m.slot_initialized(i),
    {
        let npages = backing_pages.end - backing_pages.start;
        let max_spaces = crate::PAGE_SIZE * npages / SPACE_SLOT_BYTES;
        proof {
            assert((crate::PAGE_SIZE as int) * (npages as int) / (SPACE_SLOT_BYTES as int) >= 1)
                by (nonlinear_arith)
                requires
                    npages >= 1,
                    crate::PAGE_SIZE == 4096usize,
                    SPACE_SLOT_BYTES == 4usize,
            ;
        }
        let mut p = backing_pages.start;
        while p < backing_pages.end
            invariant
                backing_pages.start <= p <= backing_pages.end,
                backing_pages.end <= old(mem)@.len(),
                mem.wf(),
                mem@.len() == old(mem)@.len(),
                forall|q: int| backing_pages.start <= q < p ==> mem@[q] == zero_page_bytes(),
                forall|q: int|
                    0 <= q < mem@.len() && !(backing_pages.start <= q < p) ==> mem@[q]
                        == old(mem)@[q],
            decreases backing_pages.end - p,
        {
            mem.zero_page(p);
            p += 1;
        }
        let mut spaces: Vec<VirtualMemorySpace> = Vec::new();
        while spaces.len() < max_spaces
            invariant
                spaces@.len() <= max_spaces,
                forall|i: int| 0 <= i < spaces@.len() ==> spaces@[i].root_page == 0,
            decreases max_spaces - spaces@.len(),
        {
            spaces.push(VirtualMemorySpace { root_page: 0 });
        }
        MMUManager { spaces, kernel_id: None, next_id: 0, max_spaces }
    }

    /// How one successful address-space allocation into slot `id` relates
    /// the manager, allocator and memory states after the call to those
    /// before it: the lowest free slot at or after the cursor is taken, one
    /// freshly allocated, zero-filled page becomes that space's root table,
    /// and the cursor advances past the slot.
    pub open spec fn alloc_space_post(
        pre: MMUManager,
        post: MMUManager,
        pre_alloc: PageAllocator,
        post_alloc: PageAllocator,
        pre_mem: Seq<Seq<u8>>,
        post_mem: Seq<Seq<u8>>,
        id: int,
    ) -> bool {
        let rp = post.slots()[id].root_page;
        &&& pre.cursor() <= id < pre.max()
        &&& !pre.slot_initialized(id)
        &&& (forall|i: int| pre.cursor() <= i < id ==> pre.slot_initialized(i))
        &&& rp != 0
        &&& PageAllocator::allocate_post(pre_alloc, post_alloc, rp as int)
        &&& post_mem == pre_mem.update(rp as int, zero_page_bytes())
        &&& post.slots() == pre.slots().update(id, VirtualMemorySpace { root_page: rp })
        &&& post.cursor() == id + 1
        &&& post.max() == pre.max()
        &&& post.kernel() == pre.kernel()
    }

    /// Reserves the next free slot at or after the cursor, skipping slots
    /// already holding an initialized space, allocates one page for the new
    /// space's root table and returns the slot id. Returns nothing, changing
    /// nothing, exactly when every remaining slot is taken or the page
    /// allocator is exhausted.
    pub fn allocate_address_space(
        &mut self,
        alloc: &mut PageAllocator,
        mem: &mut PhysicalMemory,
    ) -> (r: Option<usize>)
        requires
            old(self).wf(),
            old(alloc).wf(),
            old(mem).wf(),
            old(alloc).end_page() <= old(mem)@.len(),
            old(alloc).spec_allocated(0),
        ensures
            final(self).wf(),
            final(alloc).wf(),
            final(mem).wf(),
            final(mem)@.len() == old(mem)@.len(),
            final(alloc).base() == old(alloc).base(),
            final(alloc).total() == old(alloc).total(),
            r.is_some() == ((exists|i: int|
                old(self).cursor() <= i < old(self).max() && !old(self).slot_initialized(i))
                && old(alloc).allocate_ok()),
            r.is_none() ==> *final(self) == *old(self) && *final(alloc) == *old(alloc)
                && final(mem)@ == old(mem)@,
            r.is_some() ==> MMUManager::alloc_space_post(
                *old(self),
                *final(self),
                *old(alloc),
                *final(alloc),
                old(mem)@,
                final(mem)@,
                r.unwrap() as int,
            ),
            r.is_some() ==> final(self).slots()[r.unwrap() as int].wf_in(
                *final(alloc),
                final(mem)@,
            ),
    {
        let mut id = self.next_id;
        while id < self.max_spaces && self.spaces[id].root_page != 0
            invariant
                *self == *old(self),
                self.wf(),
                old(self).cursor() <= id <= self.max(),
                forall|i: int| old(self).cursor() <= i < id ==> old(self).slot_initialized(i),
            decreases self.max() - id,
        {
            id += 1;
        }
        if id >= self.max_spaces {
            proof {
                assert(forall|i: int|
                    old(self).cursor() <= i < old(self).max() ==> old(self).slot_initialized(i));
            }
            return None;
        }
        proof {
            assert(old(self).cursor() <= id < old(self).max() && !old(self).slot_initialized(
                id as int,
            ));
        }
        match alloc.allocate(mem) {
            Some(page) => {
                proof {
                    assert(page != 0);
                }
                self.spaces[id] = VirtualMemorySpace { root_page: page };
                self.next_id = id + 1;
                proof {
                    let rp = page as int;
                    assert forall|sp: int| 0 <= sp < PAGE_TABLE_SIZE as int implies !pte_valid(
                        #[trigger] entry_at(final(mem)@[rp], sp),
                    ) by {
                        lemma_zero_page_entries(sp);
                        lemma_zero_entry_invalid();
                    }
                }
                Some(id)
            },
            None => None,
        }
    }

    /// Returns the space in slot `id` only where the id is in range and the
    /// space has been initialized; signals absence otherwise.
    pub fn get_space(&self, id: usize) -> (r: Option<&VirtualMemorySpace>)
        requires
            self.wf(),
        ensures
            r.is_some() == (id < self.max() && self.slot_initialized(id as int)),
            r.is_some() ==> *r.unwrap() == self.slots()[id as int],
    {
        if id >= self.max_spaces {
            return None;
        }
        let space = &self.spaces[id];
        if space.root_page != 0 {
            Some(space)
        } else {
            None
        }
    }

    /// Returns the kernel space's slot id, creating the kernel space through
    /// `allocate_address_space` on the first call and remembering its id for
    /// every later call. Returns nothing only where the kernel space does
    /// not exist yet and cannot be created.
    pub fn get_kernel(&mut self, alloc: &mut PageAllocator, mem: &mut PhysicalMemory) -> (r:
        Option<usize>)
        requires
            old(self).wf(),
            old(alloc).wf(),
            old(mem).wf(),
            old(alloc).end_page() <= old(mem)@.len(),
            old(alloc).spec_allocated(0),
        ensures
            final(self).wf(),
            final(alloc).wf(),
            final(mem).wf(),
            final(mem)@.len() == old(mem)@.len(),
            final(alloc).base() == old(alloc).base(),
            final(alloc).total() == old(alloc).total(),
            old(self).kernel().is_some() ==> r == old(self).kernel() && *final(self) == *old(self)
                && *final(alloc) == *old(alloc) && final(mem)@ == old(mem)@,
            r.is_some() ==> final(self).kernel() == Some(r.unwrap()) && (r.unwrap() as int)
                < final(self).max() && final(self).slot_initialized(r.unwrap() as int),
            r.is_none() ==> *final(self) == *old(self) && *final(alloc) == *old(alloc)
                && final(mem)@ == old(mem)@ && old(self).kernel().is_none(),
            old(self).kernel().is_none() ==> (r.is_some() == ((exists|i: int|
                old(self).cursor() <= i < old(self).max() && !old(self).slot_initialized(i))
                && old(alloc).allocate_ok())),
            old(self).kernel().is_none() && r.is_some() ==> ({
                let id = r.unwrap() as int;
                let rp = final(self).slots()[id].root_page;
                &&& old(self).cursor() <= id < old(self).max()
                &&& !old(self).slot_initialized(id)
                &&& (forall|i: int| old(self).cursor() <= i < id ==> old(self).slot_initialized(i))
                &&& rp != 0
                &&& PageAllocator::allocate_post(*old(alloc), *final(alloc), rp as int)
                &&& final(mem)@ == old(mem)@.update(rp as int, zero_page_bytes())
                &&& final(self).slots() == old(self).slots().update(
                    id,
                    VirtualMemorySpace { root_page: rp },
                )
                &&& final(self).cursor() == id + 1
                &&& final(self).max() == old(self).max()
                &&& final(self).slots()[id].wf_in(*final(alloc), final(mem)@)
            }),
    {
        match self.kernel_id {
            Some(kid) => Some(kid),
            None => {
                match self.allocate_address_space(alloc, mem) {
                    Some(kid) => {
                        self.kernel_id = Some(kid);
                        Some(kid)
                    },
                    None => None,
                }
            },
        }
    }

    /// The kernel space's slot id; callable only once the kernel space
    /// exists.
    pub fn kernel_space_id(&self) -> (r: usize)
        requires
            self.kernel().is_some(),
        ensures
            r == self.kernel().unwrap(),
    {
        self.kernel_id.unwrap()
    }

    /// Computes the activation pair for the space in slot `id`: the
    /// address-space identifier and the root table page that the caller must
    /// program into the hardware translation-mode register. The write itself
    /// is the platform layer's; the very next instruction fetch after it is
    /// translated, so the caller's executing code must already be
    /// identity-mapped in that space.
    pub fn enable(&self, id: usize) -> (r: (usize, usize))
        requires
            self.wf(),
            id < self.max(),
            self.slot_initialized(id as int),
        ensures
            r.0 == id,
            r.1 == self.slots()[id as int].root_page,
    {
        let space = self.get_space(id);
        (id, space.unwrap().root_page)
    }
}

/// Address-space identifiers are unique while live: two successful slot
/// allocations, the second made while the first slot is still initialized,
/// yield distinct ids.
pub proof fn lemma_distinct_space_ids(
    m0: MMUManager,
    m1: MMUManager,
    m2: MMUManager,
    a0: PageAllocator,
    a1: PageAllocator,
    a2: PageAllocator,
    s0: Seq<Seq<u8>>,
    s1: Seq<Seq<u8>>,
    s2: Seq<Seq<u8>>,
    id1: int,
    id2: int,
)
    requires
        m0.wf(),
        m1.wf(),
        MMUManager::alloc_space_post(m0, m1, a0, a1, s0, s1, id1),
        MMUManager::alloc_space_post(m1, m2, a1, a2, s1, s2, id2),
    ensures
        id1 != id2,
        m2.slot_initialized(id1),
        m2.slot_initialized(id2),
{
    assert(m1.slot_initialized(id1));
    assert(m2.slots()[id1].root_page == m1.slots()[id1].root_page);
}

/// Address-space capacity: along any chain of successful slot allocations,
/// the steps take consecutive slot ids starting at the first registry's
/// cursor, at most as many as there are slots left; and once every slot is
/// taken, a further allocation must fail, as no free slot remains.
/// `mgrs[i]`, `allocs[i]` and `mems[i]` are the states before step `i`,
/// which returned slot `ids[i]`.
pub proof fn lemma_space_capacity(
    mgrs: Seq<MMUManager>,
    allocs: Seq<PageAllocator>,
    mems: Seq<Seq<Seq<u8>>>,
    ids: Seq<int>,
)
    requires
        mgrs.len() == ids.len() + 1,
        allocs.len() == ids.len() + 1,
        mems.len() == ids.len() + 1,
        mgrs[0].wf(),
        forall|j: int|
            mgrs[0].cursor() <= j < mgrs[0].max() ==> !mgrs[0].slot_initialized(j),
        forall|i: int|
            0 <= i < ids.len() ==> MMUManager::alloc_space_post(
                mgrs[i],
                mgrs[i + 1],
                allocs[i],
                allocs[i + 1],
                mems[i],
                mems[i + 1],
                #[trigger] ids[i],
            ) && mgrs[i + 1].wf(),
    ensures
        ids.len() <= mgrs[0].max() - mgrs[0].cursor(),
        forall|i: int| 0 <= i < ids.len() ==> ids[i] == mgrs[0].cursor() + i,
        mgrs[ids.len() as int].cursor() == mgrs[0].cursor() + ids.len(),
        mgrs[ids.len() as int].max() == mgrs[0].max(),
        forall|j: int|
            mgrs[0].cursor() <= j < mgrs[0].cursor() + ids.len() ==> mgrs[ids.len()
                as int].slot_initialized(j),
        forall|j: int|
            mgrs[0].cursor() + ids.len() <= j < mgrs[0].max() ==> !mgrs[ids.len()
                as int].slot_initialized(j),
        forall|j: int|
            0 <= j < mgrs[0].cursor() ==> mgrs[ids.len() as int].slots()[j]
                == mgrs[0].slots()[j],
    decreases ids.len(),
{
    if ids.len() == 0 {
    } else {
        assert(MMUManager::alloc_space_post(
            mgrs[0],
            mgrs[1],
            allocs[0],
            allocs[1],
            mems[0],
            mems[1],
            ids[0],
        ));
        // The lowest free slot at the cursor is the cursor itself here.
        if ids[0] > mgrs[0].cursor() {
            assert(mgrs[0].slot_initialized(mgrs[0].cursor()));
            assert(!mgrs[0].slot_initialized(mgrs[0].cursor()));
        }
        assert(ids[0] == mgrs[0].cursor());
        let tail_mgrs = mgrs.skip(1);
        let tail_allocs = allocs.skip(1);
        let tail_mems = mems.skip(1);
        let tail_ids = ids.skip(1);
        assert forall|j: int|
            tail_mgrs[0].cursor() <= j < tail_mgrs[0].max() implies !tail_mgrs[0].slot_initialized(
            j,
        ) by {
            assert(tail_mgrs[0] == mgrs[1]);
            assert(mgrs[1].slots()[j] == mgrs[0].slots()[j]);
            assert(!mgrs[0].slot_initialized(j));
        }
        assert forall|i: int|
            0 <= i < tail_ids.len() implies MMUManager::alloc_space_post(
            tail_mgrs[i],
            tail_mgrs[i + 1],
            tail_allocs[i],
            tail_allocs[i + 1],
            tail_mems[i],
            tail_mems[i + 1],
            #[trigger] tail_ids[i],
        ) && tail_mgrs[i + 1].wf() by {
            assert(tail_mgrs[i] == mgrs[i + 1] && tail_mgrs[i + 1] == mgrs[i + 2]);
            assert(tail_allocs[i] == allocs[i + 1] && tail_allocs[i + 1] == allocs[i + 2]);
            assert(tail_mems[i] == mems[i + 1] && tail_mems[i + 1] == mems[i + 2]);
            assert(tail_ids[i] == ids[i + 1]);
            assert(MMUManager::alloc_space_post(
                mgrs[i + 1],
                mgrs[i + 2],
                allocs[i + 1],
                allocs[i + 2],
                mems[i + 1],
                mems[i + 2],
                ids[i + 1],
            ));
        }
        lemma_space_capacity(tail_mgrs, tail_allocs, tail_mems, tail_ids);
        assert(tail_mgrs[0] == mgrs[1]);
        assert(mgrs[1].cursor() == mgrs[0].cursor() + 1);
        assert forall|i: int| 0 <= i < ids.len() implies ids[i] == mgrs[0].cursor() + i by {
            if i > 0 {
                assert(tail_ids[i - 1] == tail_mgrs[0].cursor() + (i - 1));
                assert(tail_ids[i - 1] == ids[i]);
            }
        }
        assert(tail_mgrs[tail_ids.len() as int] == mgrs[ids.len() as int]);
        assert forall|j: int|
            mgrs[0].cursor() <= j < mgrs[0].cursor() + ids.len() implies mgrs[ids.len()
            as int].slot_initialized(j) by {
            if j == mgrs[0].cursor() {
                assert(mgrs[1].slot_initialized(j));
                // The tail never touches slots below its own cursor.
                assert(mgrs[ids.len() as int].slots()[j] == mgrs[1].slots()[j]);
            } else {
                assert(tail_mgrs[tail_ids.len() as int].slot_initialized(j));
            }
        }
        assert forall|j: int|
            mgrs[0].cursor() + ids.len() <= j < mgrs[0].max() implies !mgrs[ids.len()
            as int].slot_initialized(j) by {
            assert(!tail_mgrs[tail_ids.len() as int].slot_initialized(j));
        }
        assert forall|j: int| 0 <= j < mgrs[0].cursor() implies mgrs[ids.len()
            as int].slots()[j] == mgrs[0].slots()[j] by {
            assert(mgrs[ids.len() as int].slots()[j] == mgrs[1].slots()[j]);
            assert(mgrs[1].slots()[j] == mgrs[0].slots()[j]);
        }
    }
}

/// Mapping idempotence: mapping the same source page twice leaves exactly
/// the second mapping's target and permissions in effect, not a merge of
/// both, and disturbs no other virtual page.
pub proof fn lemma_mapping_idempotent(
    m0: Seq<Seq<u8>>,
    m1: Seq<Seq<u8>>,
    m2: Seq<Seq<u8>>,
    root: int,
    first: PageMapping,
    second: PageMapping,
)
    requires
        map_post(m0, m1, root, first),
        map_post(m1, m2, root, second),
        first.src == second.src,
    ensures
        pte_valid(leaf_entry(m2, root, second.src as int)),
        pte_ppn(leaf_entry(m2, root, second.src as int)) == second.dest,
        pte_read(leaf_entry(m2, root, second.src as int)) == second.read,
        pte_write(leaf_entry(m2, root, second.src as int)) == second.write,
        pte_execute(leaf_entry(m2, root, second.src as int)) == second.execute,
        pte_user(leaf_entry(m2, root, second.src as int)) == second.user,
        forall|v: int|
            0 <= v < (PAGE_TABLE_SIZE * PAGE_TABLE_SIZE) as int && v != second.src
                ==> #[trigger] leaf_entry(m2, root, v) == leaf_entry(m0, root, v),
{
}

} // verus!
