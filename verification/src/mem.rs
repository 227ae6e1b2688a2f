//! Typed window over the machine's physical page frames. Raw physical memory
//! is modelled as owned state: one byte vector per 4096-byte frame, indexed
//! by absolute physical page number. Page tables read and write 32-bit
//! little-endian entry words through this window; newly allocated frames are
//! zero-filled through it.

use crate::PAGE_SIZE;
use crate::PAGE_TABLE_SIZE;
use crate::pte::PageTableEntry;
use vstd::prelude::*;

verus! {

/// Owned model of physical memory: `pages[p]` holds the 4096 bytes of
/// physical frame `p`.
pub struct PhysicalMemory {
    pages: Vec<Vec<u8>>,
}

/// The contents of a page whose every byte is zero.
pub open spec fn zero_page_bytes() -> Seq<u8> {
    Seq::new(PAGE_SIZE as nat, |i: int| 0u8)
}

/// The 32-bit little-endian word at entry index `i` of one page's bytes.
pub open spec fn entry_at(pg: Seq<u8>, i: int) -> u32 {
    (pg[4 * i] as u32) | ((pg[4 * i + 1] as u32) << 8) | ((pg[4 * i + 2] as u32) << 16) | ((pg[4 * i
        + 3] as u32) << 24)
}

/// Every entry word of an all-zero page is zero.
pub proof fn lemma_zero_page_entries(i: int)
    requires
        0 <= i < PAGE_TABLE_SIZE,
    ensures
        entry_at(zero_page_bytes(), i) == 0,
{
    assert((0u8 as u32) | ((0u8 as u32) << 8) | ((0u8 as u32) << 16) | ((0u8 as u32) << 24) == 0)
        by (bit_vector);
}

impl View for PhysicalMemory {
    type V = Seq<Seq<u8>>;

    closed spec fn view(&self) -> Seq<Seq<u8>> {
        Seq::new(self.pages@.len(), |i: int| self.pages@[i]@)
    }
}

impl PhysicalMemory {
    /// Every frame in the window holds exactly one page of bytes.
    pub open spec fn wf(&self) -> bool {
        forall|p: int| 0 <= p < self@.len() ==> (#[trigger] self@[p]).len() == PAGE_SIZE
    }

    /// Number of page frames in the window.
    pub fn num_pages(&self) -> (n: usize)
        ensures
            n == self@.len(),
    {
        self.pages.len()
    }

    /// A window of `num_pages` frames, all zero-filled.
    pub fn new(num_pages: usize) -> (m: PhysicalMemory)
        ensures
            m.wf(),
            m@.len() == num_pages,
            forall|p: int| 0 <= p < num_pages ==> m@[p] == zero_page_bytes(),
    {
        let mut pages: Vec<Vec<u8>> = Vec::new();
        while pages.len() < num_pages
            invariant
                pages@.len() <= num_pages,
                forall|p: int| 0 <= p < pages@.len() ==> pages@[p]@ == zero_page_bytes(),
            decreases num_pages - pages@.len(),
        {
            pages.push(Self::zero_frame());
        }
        let m = PhysicalMemory { pages };
        assert(forall|p: int| 0 <= p < num_pages ==> m@[p] == zero_page_bytes());
        m
    }

    /// One page of all-zero bytes.
    fn zero_frame() -> (pg: Vec<u8>)
        ensures
            pg@ == zero_page_bytes(),
    {
        let mut pg: Vec<u8> = Vec::new();
        while pg.len() < PAGE_SIZE
            invariant
                pg@.len() <= PAGE_SIZE,
                forall|i: int| 0 <= i < pg@.len() ==> pg@[i] == 0u8,
            decreases PAGE_SIZE - pg@.len(),
        {
            pg.push(0u8);
        }
        proof {
            assert(pg@ =~= zero_page_bytes());
        }
        pg
    }

    /// Reads one byte of a frame.
    pub fn read_byte(&self, page: usize, offset: usize) -> (r: u8)
        requires
            self.wf(),
            page < self@.len(),
            offset < PAGE_SIZE,
        ensures
            r == self@[page as int][offset as int],
    {
        proof {
            assert(self@[page as int] == self.pages@[page as int]@);
        }
        self.pages[page][offset]
    }

    /// Overwrites a frame with zero bytes.
    pub fn zero_page(&mut self, page: usize)
        requires
            old(self).wf(),
            page < old(self)@.len(),
        ensures
            final(self).wf(),
            final(self)@ == old(self)@.update(page as int, zero_page_bytes()),
    {
        let pg = Self::zero_frame();
        self.pages[page] = pg;
        proof {
            assert(self@ =~= old(self)@.update(page as int, zero_page_bytes()));
        }
    }

    /// Reads the page-table entry word at `index` of the table held in `page`.
    pub fn read_entry(&self, page: usize, index: usize) -> (e: PageTableEntry)
        requires
            self.wf(),
            page < self@.len(),
            index < PAGE_TABLE_SIZE,
        ensures
            e.bits == entry_at(self@[page as int], index as int),
    {
        proof {
            assert(self@[page as int] == self.pages@[page as int]@);
        }
        let b0 = self.pages[page][4 * index];
        let b1 = self.pages[page][4 * index + 1];
        let b2 = self.pages[page][4 * index + 2];
        let b3 = self.pages[page][4 * index + 3];
        PageTableEntry {
            bits: (b0 as u32) | ((b1 as u32) << 8) | ((b2 as u32) << 16) | ((b3 as u32) << 24),
        }
    }

    /// Writes the page-table entry word at `index` of the table held in
    /// `page`, leaving every other entry of that table and every other frame
    /// unchanged.
    pub fn write_entry(&mut self, page: usize, index: usize, e: PageTableEntry)
        requires
            old(self).wf(),
            page < old(self)@.len(),
            index < PAGE_TABLE_SIZE,
        ensures
            final(self).wf(),
            final(self)@.len() == old(self)@.len(),
            forall|q: int|
                0 <= q < final(self)@.len() && q != page ==> final(self)@[q] == old(self)@[q],
            forall|j: int|
                0 <= j < PAGE_TABLE_SIZE && j != index ==> entry_at(final(self)@[page as int], j)
                    == entry_at(old(self)@[page as int], j),
            entry_at(final(self)@[page as int], index as int) == e.bits,
            final(self)@[page as int].len() == PAGE_SIZE,
    {
        proof {
            assert(old(self)@[page as int] == old(self).pages@[page as int]@);
        }
        let x = e.bits;
        let b0 = (x & 0xff) as u8;
        let b1 = ((x >> 8) & 0xff) as u8;
        let b2 = ((x >> 16) & 0xff) as u8;
        let b3 = ((x >> 24) & 0xff) as u8;
        self.pages[page][4 * index] = b0;
        self.pages[page][4 * index + 1] = b1;
        self.pages[page][4 * index + 2] = b2;
        self.pages[page][4 * index + 3] = b3;
        proof {
            let ii = index as int;
            let pg0 = old(self)@[page as int];
            let pg1 = self@[page as int];
            assert(pg1 =~= pg0.update(4 * ii, b0).update(4 * ii + 1, b1).update(4 * ii + 2, b2)
                .update(4 * ii + 3, b3));
            assert(((x & 0xff) as u8 as u32) | ((((x >> 8) & 0xff) as u8 as u32) << 8) | ((((x
                >> 16) & 0xff) as u8 as u32) << 16) | ((((x >> 24) & 0xff) as u8 as u32) << 24)
                == x) by (bit_vector);
            assert(entry_at(pg1, ii) == x);
            assert forall|j: int| 0 <= j < PAGE_TABLE_SIZE && j != ii implies entry_at(pg1, j)
                == entry_at(pg0, j) by {
                assert(pg1[4 * j] == pg0[4 * j]);
                assert(pg1[4 * j + 1] == pg0[4 * j + 1]);
                assert(pg1[4 * j + 2] == pg0[4 * j + 2]);
                assert(pg1[4 * j + 3] == pg0[4 * j + 3]);
            }
            assert(forall|q: int|
                0 <= q < self@.len() && q != page ==> self@[q] == old(self)@[q]);
        }
    }
}

} // verus!
