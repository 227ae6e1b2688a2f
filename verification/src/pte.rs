//! Bit-level codec for one hardware page-table entry: a 32-bit word holding
//! a valid bit, permission flags, two reserved-for-software bits and a
//! 22-bit physical page number, each at an architecture-fixed offset.

use vstd::prelude::*;

verus! {

/// One packed hardware translation record.
#[derive(Clone, Copy, PartialEq, Eq, Structural, Debug)]
pub struct PageTableEntry {
    pub bits: u32,
}

/// The decoded fields of a page-table entry.
#[derive(Clone, Copy, PartialEq, Eq, Structural, Debug)]
pub struct PteFields {
    /// Physical page number, packed at bits 31:10 (22 bits wide).
    pub ppn: u32,
    /// Reserved-for-software bits, packed at bits 9:8.
    pub rsw: u8,
    /// Dirty, bit 7.
    pub dirty: bool,
    /// Accessed, bit 6.
    pub accessed: bool,
    /// Global, bit 5.
    pub global: bool,
    /// User-accessible, bit 4.
    pub user: bool,
    /// Executable, bit 3.
    pub execute: bool,
    /// Writable, bit 2.
    pub write: bool,
    /// Readable, bit 1.
    pub read: bool,
    /// Valid, bit 0.
    pub valid: bool,
}

pub open spec fn pte_valid(b: u32) -> bool {
    b & 0x1 != 0
}

pub open spec fn pte_read(b: u32) -> bool {
    b & 0x2 != 0
}

pub open spec fn pte_write(b: u32) -> bool {
    b & 0x4 != 0
}

pub open spec fn pte_execute(b: u32) -> bool {
    b & 0x8 != 0
}

pub open spec fn pte_user(b: u32) -> bool {
    b & 0x10 != 0
}

pub open spec fn pte_global(b: u32) -> bool {
    b & 0x20 != 0
}

pub open spec fn pte_accessed(b: u32) -> bool {
    b & 0x40 != 0
}

pub open spec fn pte_dirty(b: u32) -> bool {
    b & 0x80 != 0
}

pub open spec fn pte_rsw(b: u32) -> u8 {
    ((b >> 8) & 0x3) as u8
}

pub open spec fn pte_ppn(b: u32) -> u32 {
    (b >> 10) & 0x3fffff
}

/// Low part of the physical page number, bits 19:10.
pub open spec fn pte_ppn0(b: u32) -> u32 {
    (b >> 10) & 0x3ff
}

/// High part of the physical page number, bits 31:20.
pub open spec fn pte_ppn1(b: u32) -> u32 {
    (b >> 20) & 0xfff
}

/// All fields of a raw entry word, decoded.
pub open spec fn spec_decode(b: u32) -> PteFields {
    PteFields {
        ppn: pte_ppn(b),
        rsw: pte_rsw(b),
        dirty: pte_dirty(b),
        accessed: pte_accessed(b),
        global: pte_global(b),
        user: pte_user(b),
        execute: pte_execute(b),
        write: pte_write(b),
        read: pte_read(b),
        valid: pte_valid(b),
    }
}

pub open spec fn bool_bit(b: bool) -> u32 {
    if b {
        1
    } else {
        0
    }
}

/// The packed word a field record encodes to.
pub open spec fn spec_encode(f: PteFields) -> u32 {
    (f.ppn << 10) | ((f.rsw as u32) << 8) | (bool_bit(f.dirty) << 7) | (bool_bit(f.accessed) << 6)
        | (bool_bit(f.global) << 5) | (bool_bit(f.user) << 4) | (bool_bit(f.execute) << 3) | (
    bool_bit(f.write) << 2) | (bool_bit(f.read) << 1) | bool_bit(f.valid)
}

impl PteFields {
    /// A record is encodable when its packed fields fit their bit widths.
    pub open spec fn wf(self) -> bool {
        self.ppn < 0x400000 && self.rsw < 4
    }

    /// All-clear fields: the decoding of an all-zero entry word.
    pub fn zeroed() -> (f: PteFields)
        ensures
            f == spec_decode(0),
            f.wf(),
    {
        let f = PteFields {
            ppn: 0,
            rsw: 0,
            dirty: false,
            accessed: false,
            global: false,
            user: false,
            execute: false,
            write: false,
            read: false,
            valid: false,
        };
        proof {
            lemma_zero_entry_invalid();
        }
        f
    }

    /// Packs the fields into an entry word.
    pub fn encode(self) -> (e: PageTableEntry)
        requires
            self.wf(),
        ensures
            e.bits == spec_encode(self),
            spec_decode(e.bits) == self,
    {
        let d: u32 = if self.dirty {
            1
        } else {
            0
        };
        let a: u32 = if self.accessed {
            1
        } else {
            0
        };
        let g: u32 = if self.global {
            1
        } else {
            0
        };
        let u: u32 = if self.user {
            1
        } else {
            0
        };
        let x: u32 = if self.execute {
            1
        } else {
            0
        };
        let w: u32 = if self.write {
            1
        } else {
            0
        };
        let r: u32 = if self.read {
            1
        } else {
            0
        };
        let v: u32 = if self.valid {
            1
        } else {
            0
        };
        let bits: u32 = (self.ppn << 10) | ((self.rsw as u32) << 8) | (d << 7) | (a << 6) | (g << 5)
            | (u << 4) | (x << 3) | (w << 2) | (r << 1) | v;
        proof {
            lemma_pte_round_trip(self);
        }
        PageTableEntry { bits }
    }
}

impl PageTableEntry {
    /// The entry word with every bit clear: invalid, no permissions.
    pub fn zeroed() -> (e: PageTableEntry)
        ensures
            e.bits == 0,
    {
        PageTableEntry { bits: 0 }
    }

    /// Unpacks every field of the entry word.
    pub fn decode(self) -> (f: PteFields)
        ensures
            f == spec_decode(self.bits),
            f.wf(),
    {
        let b = self.bits;
        proof {
            assert((b >> 10) & 0x3fffff < 0x400000 && (b >> 8) & 0x3 < 4) by (bit_vector);
        }
        PteFields {
            ppn: (b >> 10) & 0x3fffff,
            rsw: ((b >> 8) & 0x3) as u8,
            dirty: b & 0x80 != 0,
            accessed: b & 0x40 != 0,
            global: b & 0x20 != 0,
            user: b & 0x10 != 0,
            execute: b & 0x8 != 0,
            write: b & 0x4 != 0,
            read: b & 0x2 != 0,
            valid: b & 0x1 != 0,
        }
    }

    /// Reads the valid bit alone.
    pub fn valid(self) -> (r: bool)
        ensures
            r == pte_valid(self.bits),
    {
        self.bits & 0x1 != 0
    }

    /// Reads the physical page number field alone.
    pub fn ppn(self) -> (r: u32)
        ensures
            r == pte_ppn(self.bits),
    {
        (self.bits >> 10) & 0x3fffff
    }

    /// Reads the low part of the physical page number, bits 19:10.
    pub fn ppn0(self) -> (r: u32)
        ensures
            r == pte_ppn0(self.bits),
    {
        (self.bits >> 10) & 0x3ff
    }

    /// Reads the high part of the physical page number, bits 31:20.
    pub fn ppn1(self) -> (r: u32)
        ensures
            r == pte_ppn1(self.bits),
    {
        (self.bits >> 20) & 0xfff
    }
}

/// Round trip: decoding an encoded record reproduces every field exactly,
/// for every field combination whose packed fields fit their widths.
pub proof fn lemma_pte_round_trip(f: PteFields)
    requires
        f.wf(),
    ensures
        spec_decode(spec_encode(f)) == f,
{
    let p = f.ppn;
    let s = f.rsw as u32;
    let d = bool_bit(f.dirty);
    let a = bool_bit(f.accessed);
    let g = bool_bit(f.global);
    let u = bool_bit(f.user);
    let x = bool_bit(f.execute);
    let w = bool_bit(f.write);
    let r = bool_bit(f.read);
    let v = bool_bit(f.valid);
    let b = spec_encode(f);
    assert(b == (p << 10) | (s << 8) | (d << 7) | (a << 6) | (g << 5) | (u << 4) | (x << 3) | (w
        << 2) | (r << 1) | v);
    assert({
        let b = (p << 10) | (s << 8) | (d << 7) | (a << 6) | (g << 5) | (u << 4) | (x << 3) | (w
            << 2) | (r << 1) | v;
        &&& (b >> 10) & 0x3fffff == p
        &&& (b >> 8) & 0x3 == s
        &&& (b & 0x80 != 0) == (d == 1)
        &&& (b & 0x40 != 0) == (a == 1)
        &&& (b & 0x20 != 0) == (g == 1)
        &&& (b & 0x10 != 0) == (u == 1)
        &&& (b & 0x8 != 0) == (x == 1)
        &&& (b & 0x4 != 0) == (w == 1)
        &&& (b & 0x2 != 0) == (r == 1)
        &&& (b & 0x1 != 0) == (v == 1)
    }) by (bit_vector)
        requires
            p < 0x400000,
            s < 4,
            d < 2,
            a < 2,
            g < 2,
            u < 2,
            x < 2,
            w < 2,
            r < 2,
            v < 2,
    ;
}

/// An all-zero entry word decodes as invalid with every flag clear.
pub proof fn lemma_zero_entry_invalid()
    ensures
        !pte_valid(0),
        spec_decode(0) == (PteFields {
            ppn: 0,
            rsw: 0,
            dirty: false,
            accessed: false,
            global: false,
            user: false,
            execute: false,
            write: false,
            read: false,
            valid: false,
        }),
{
    assert(0u32 >> 10 == 0 && 0u32 >> 8 == 0 && 0u32 & 0x1 == 0 && 0u32 & 0x2 == 0 && 0u32 & 0x4
        == 0 && 0u32 & 0x8 == 0 && 0u32 & 0x10 == 0 && 0u32 & 0x20 == 0 && 0u32 & 0x40 == 0
        && 0u32 & 0x80 == 0 && (0u32 >> 10) & 0x3fffff == 0 && (0u32 >> 8) & 0x3 == 0)
        by (bit_vector);
}

} // verus!
