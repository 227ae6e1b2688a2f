//! Byte-stream interfaces at the peripheral boundary: a sink that accepts
//! bytes and a source that yields them, with multi-byte reads and writes in
//! little-endian order derived from the single-byte operations. The
//! single-byte operations are the implementer's; everything else is proved
//! against their contracts.

use vstd::prelude::*;

verus! {

/// The two little-endian bytes of a 16-bit value.
pub open spec fn le_bytes16(v: u16) -> Seq<u8> {
    seq![(v & 0xff) as u8, ((v >> 8) & 0xff) as u8]
}

/// The four little-endian bytes of a 32-bit value.
pub open spec fn le_bytes32(v: u32) -> Seq<u8> {
    seq![
        (v & 0xff) as u8,
        ((v >> 8) & 0xff) as u8,
        ((v >> 16) & 0xff) as u8,
        ((v >> 24) & 0xff) as u8,
    ]
}

/// The eight little-endian bytes of a 64-bit value.
pub open spec fn le_bytes64(v: u64) -> Seq<u8> {
    seq![
        (v & 0xff) as u8,
        ((v >> 8) & 0xff) as u8,
        ((v >> 16) & 0xff) as u8,
        ((v >> 24) & 0xff) as u8,
        ((v >> 32) & 0xff) as u8,
        ((v >> 40) & 0xff) as u8,
        ((v >> 48) & 0xff) as u8,
        ((v >> 56) & 0xff) as u8,
    ]
}

/// The sixteen little-endian bytes of a 128-bit value.
pub open spec fn le_bytes128(v: u128) -> Seq<u8> {
    seq![
        (v & 0xff) as u8,
        ((v >> 8) & 0xff) as u8,
        ((v >> 16) & 0xff) as u8,
        ((v >> 24) & 0xff) as u8,
        ((v >> 32) & 0xff) as u8,
        ((v >> 40) & 0xff) as u8,
        ((v >> 48) & 0xff) as u8,
        ((v >> 56) & 0xff) as u8,
        ((v >> 64) & 0xff) as u8,
        ((v >> 72) & 0xff) as u8,
        ((v >> 80) & 0xff) as u8,
        ((v >> 88) & 0xff) as u8,
        ((v >> 96) & 0xff) as u8,
        ((v >> 104) & 0xff) as u8,
        ((v >> 112) & 0xff) as u8,
        ((v >> 120) & 0xff) as u8,
    ]
}

/// The 16-bit value whose little-endian bytes open a sequence.
pub open spec fn u16_from_le(s: Seq<u8>) -> u16
    recommends
        s.len() >= 2,
{
    (s[0] as u16) | ((s[1] as u16) << 8)
}

/// The 32-bit value whose little-endian bytes open a sequence.
pub open spec fn u32_from_le(s: Seq<u8>) -> u32
    recommends
        s.len() >= 4,
{
    (s[0] as u32) | ((s[1] as u32) << 8) | ((s[2] as u32) << 16) | ((s[3] as u32) << 24)
}

/// The 64-bit value whose little-endian bytes open a sequence.
pub open spec fn u64_from_le(s: Seq<u8>) -> u64
    recommends
        s.len() >= 8,
{
    (s[0] as u64) | ((s[1] as u64) << 8) | ((s[2] as u64) << 16) | ((s[3] as u64) << 24) | ((
    s[4] as u64) << 32) | ((s[5] as u64) << 40) | ((s[6] as u64) << 48) | ((s[7] as u64) << 56)
}

/// The 128-bit value whose little-endian bytes open a sequence.
pub open spec fn u128_from_le(s: Seq<u8>) -> u128
    recommends
        s.len() >= 16,
{
    (s[0] as u128) | ((s[1] as u128) << 8) | ((s[2] as u128) << 16) | ((s[3] as u128) << 24) | ((
    s[4] as u128) << 32) | ((s[5] as u128) << 40) | ((s[6] as u128) << 48) | ((s[7] as u128) << 56)
        | ((s[8] as u128) << 64) | ((s[9] as u128) << 72) | ((s[10] as u128) << 80) | ((
    s[11] as u128) << 88) | ((s[12] as u128) << 96) | ((s[13] as u128) << 104) | ((s[14] as u128)
        << 112) | ((s[15] as u128) << 120)
}

/// A byte sink. Implementers provide `write`; the little-endian multi-byte
/// writers are derived from it and verified against its contract.
pub trait OutStream {
    /// The bytes this sink has accepted so far.
    spec fn out(&self) -> Seq<u8>;

    /// Accepts one byte.
    fn write(&mut self, v: u8)
        ensures
            final(self).out() == old(self).out().push(v),
    ;

    /// Accepts one byte.
    fn write8(&mut self, v: u8)
        ensures
            final(self).out() == old(self).out().push(v),
    {
        self.write(v)
    }

    /// Accepts a 16-bit value, low byte first.
    fn write16(&mut self, v: u16)
        ensures
            final(self).out() == old(self).out() + le_bytes16(v),
    {
        self.write((v & 0xff) as u8);
        self.write(((v >> 8) & 0xff) as u8);
        proof {
            assert(self.out() =~= old(self).out() + le_bytes16(v));
        }
    }

    /// Accepts a 32-bit value, low byte first.
    fn write32(&mut self, v: u32)
        ensures
            final(self).out() == old(self).out() + le_bytes32(v),
    {
        self.write((v & 0xff) as u8);
        self.write(((v >> 8) & 0xff) as u8);
        self.write(((v >> 16) & 0xff) as u8);
        self.write(((v >> 24) & 0xff) as u8);
        proof {
            assert(self.out() =~= old(self).out() + le_bytes32(v));
        }
    }

    /// Accepts a 64-bit value, low byte first.
    fn write64(&mut self, v: u64)
        ensures
            final(self).out() == old(self).out() + le_bytes64(v),
    {
        self.write((v & 0xff) as u8);
        self.write(((v >> 8) & 0xff) as u8);
        self.write(((v >> 16) & 0xff) as u8);
        self.write(((v >> 24) & 0xff) as u8);
        self.write(((v >> 32) & 0xff) as u8);
        self.write(((v >> 40) & 0xff) as u8);
        self.write(((v >> 48) & 0xff) as u8);
        self.write(((v >> 56) & 0xff) as u8);
        proof {
            assert(self.out() =~= old(self).out() + le_bytes64(v));
        }
    }

    /// Accepts a 128-bit value, low byte first.
    fn write128(&mut self, v: u128)
        ensures
            final(self).out() == old(self).out() + le_bytes128(v),
    {
        self.write((v & 0xff) as u8);
        self.write(((v >> 8) & 0xff) as u8);
        self.write(((v >> 16) & 0xff) as u8);
        self.write(((v >> 24) & 0xff) as u8);
        self.write(((v >> 32) & 0xff) as u8);
        self.write(((v >> 40) & 0xff) as u8);
        self.write(((v >> 48) & 0xff) as u8);
        self.write(((v >> 56) & 0xff) as u8);
        self.write(((v >> 64) & 0xff) as u8);
        self.write(((v >> 72) & 0xff) as u8);
        self.write(((v >> 80) & 0xff) as u8);
        self.write(((v >> 88) & 0xff) as u8);
        self.write(((v >> 96) & 0xff) as u8);
        self.write(((v >> 104) & 0xff) as u8);
        self.write(((v >> 112) & 0xff) as u8);
        self.write(((v >> 120) & 0xff) as u8);
        proof {
            assert(self.out() =~= old(self).out() + le_bytes128(v));
        }
    }

    /// Accepts every byte of the slice, in order.
    fn write_bytes(&mut self, arr: &[u8])
        ensures
            final(self).out() == old(self).out() + arr@,
    {
        let mut i: usize = 0;
        while i < arr.len()
            invariant
                i <= arr@.len(),
                self.out() == old(self).out() + arr@.take(i as int),
            decreases arr@.len() - i,
        {
            self.write(arr[i]);
            proof {
                assert(self.out() =~= old(self).out() + arr@.take(i + 1 as int));
            }
            i += 1;
        }
        proof {
            assert(self.out() =~= old(self).out() + arr@);
        }
    }
}

/// A byte source. Implementers provide `read`; the little-endian multi-byte
/// readers are derived from it and verified against its contract.
pub trait InStream {
    /// The bytes still to be read, in order.
    spec fn inp(&self) -> Seq<u8>;

    /// Yields the next byte.
    fn read(&mut self) -> (r: u8)
        requires
            old(self).inp().len() >= 1,
        ensures
            r == old(self).inp()[0],
            final(self).inp() == old(self).inp().skip(1),
    ;

    /// Yields the next byte.
    fn read8(&mut self) -> (r: u8)
        requires
            old(self).inp().len() >= 1,
        ensures
            r == old(self).inp()[0],
            final(self).inp() == old(self).inp().skip(1),
    {
        self.read()
    }

    /// Yields the next two bytes as a 16-bit value, low byte first.
    fn read16(&mut self) -> (r: u16)
        requires
            old(self).inp().len() >= 2,
        ensures
            r == u16_from_le(old(self).inp()),
            final(self).inp() == old(self).inp().skip(2),
    {
        let b0 = self.read();
        let b1 = self.read();
        proof {
            assert(self.inp() =~= old(self).inp().skip(2));
        }
        (b0 as u16) | ((b1 as u16) << 8)
    }

    /// Yields the next four bytes as a 32-bit value, low byte first.
    fn read32(&mut self) -> (r: u32)
        requires
            old(self).inp().len() >= 4,
        ensures
            r == u32_from_le(old(self).inp()),
            final(self).inp() == old(self).inp().skip(4),
    {
        let b0 = self.read();
        let b1 = self.read();
        let b2 = self.read();
        let b3 = self.read();
        proof {
            assert(self.inp() =~= old(self).inp().skip(4));
        }
        (b0 as u32) | ((b1 as u32) << 8) | ((b2 as u32) << 16) | ((b3 as u32) << 24)
    }

    /// Yields the next eight bytes as a 64-bit value, low byte first.
    fn read64(&mut self) -> (r: u64)
        requires
            old(self).inp().len() >= 8,
        ensures
            r == u64_from_le(old(self).inp()),
            final(self).inp() == old(self).inp().skip(8),
    {
        let b0 = self.read();
        let b1 = self.read();
        let b2 = self.read();
        let b3 = self.read();
        let b4 = self.read();
        let b5 = self.read();
        let b6 = self.read();
        let b7 = self.read();
        proof {
            assert(self.inp() =~= old(self).inp().skip(8));
        }
        (b0 as u64) | ((b1 as u64) << 8) | ((b2 as u64) << 16) | ((b3 as u64) << 24) | ((
        b4 as u64) << 32) | ((b5 as u64) << 40) | ((b6 as u64) << 48) | ((b7 as u64) << 56)
    }

    /// Yields the next sixteen bytes as a 128-bit value, low byte first.
    fn read128(&mut self) -> (r: u128)
        requires
            old(self).inp().len() >= 16,
        ensures
            r == u128_from_le(old(self).inp()),
            final(self).inp() == old(self).inp().skip(16),
    {
        let b0 = self.read();
        let b1 = self.read();
        let b2 = self.read();
        let b3 = self.read();
        let b4 = self.read();
        let b5 = self.read();
        let b6 = self.read();
        let b7 = self.read();
        let b8 = self.read();
        let b9 = self.read();
        let b10 = self.read();
        let b11 = self.read();
        let b12 = self.read();
        let b13 = self.read();
        let b14 = self.read();
        let b15 = self.read();
        proof {
            assert(self.inp() =~= old(self).inp().skip(16));
        }
        (b0 as u128) | ((b1 as u128) << 8) | ((b2 as u128) << 16) | ((b3 as u128) << 24) | ((
        b4 as u128) << 32) | ((b5 as u128) << 40) | ((b6 as u128) << 48) | ((b7 as u128) << 56) | ((
        b8 as u128) << 64) | ((b9 as u128) << 72) | ((b10 as u128) << 80) | ((b11 as u128) << 88)
            | ((b12 as u128) << 96) | ((b13 as u128) << 104) | ((b14 as u128) << 112) | ((
        b15 as u128) << 120)
    }

    /// Consumes exactly `len` bytes: the first ones fill the buffer's
    /// prefix, any beyond the buffer's length are read and dropped, and any
    /// buffer tail beyond `len` is left as it was.
    fn read_bytes(&mut self, len: usize, arr: &mut [u8])
        requires
            old(self).inp().len() >= len,
        ensures
            final(self).inp() == old(self).inp().skip(len as int),
            final(arr)@.len() == old(arr)@.len(),
            forall|i: int|
                0 <= i < len && i < old(arr)@.len() ==> final(arr)@[i] == old(self).inp()[i],
            forall|i: int|
                len <= i < old(arr)@.len() ==> final(arr)@[i] == old(arr)@[i],
    {
        let count = if len < arr.len() {
            len
        } else {
            arr.len()
        };
        let mut i: usize = 0;
        while i < count
            invariant
                i <= count,
                count <= len,
                count <= arr@.len(),
                arr@.len() == old(arr)@.len(),
                old(self).inp().len() >= len,
                self.inp() == old(self).inp().skip(i as int),
                forall|k: int| 0 <= k < i ==> arr@[k] == old(self).inp()[k],
                forall|k: int| i <= k < arr@.len() ==> arr@[k] == old(arr)@[k],
            decreases count - i,
        {
            let b = self.read();
            arr[i] = b;
            proof {
                assert(self.inp() =~= old(self).inp().skip(i + 1 as int));
            }
            i += 1;
        }
        // Always consume `len` bytes; drop any past the buffer.
        while i < len
            invariant
                count <= i <= len,
                old(self).inp().len() >= len,
                self.inp() == old(self).inp().skip(i as int),
                arr@.len() == old(arr)@.len(),
                forall|k: int| 0 <= k < count ==> arr@[k] == old(self).inp()[k],
                forall|k: int| count <= k < arr@.len() ==> arr@[k] == old(arr)@[k],
            decreases len - i,
        {
            let _ = self.read();
            proof {
                assert(self.inp() =~= old(self).inp().skip(i + 1 as int));
            }
            i += 1;
        }
    }
}

/// An owned, in-memory byte stream: the software-simulated peripheral.
/// Reading consumes from the front of `data`; writing appends to its back.
pub struct BufferStream {
    data: Vec<u8>,
    cursor: usize,
}

impl BufferStream {
    /// An empty stream.
    pub fn new() -> (s: BufferStream)
        ensures
            s.out() == Seq::<u8>::empty(),
            s.inp() == Seq::<u8>::empty(),
    {
        BufferStream { data: Vec::new(), cursor: 0 }
    }

    /// A stream preloaded with bytes to be read.
    pub fn with_data(data: Vec<u8>) -> (s: BufferStream)
        ensures
            s.inp() == data@,
    {
        BufferStream { data, cursor: 0 }
    }

    /// The whole underlying buffer.
    pub closed spec fn buffered(&self) -> Seq<u8> {
        self.data@
    }

    /// How many buffered bytes have been consumed; never past the buffer.
    pub closed spec fn cursor_at(&self) -> int {
        if self.cursor as int <= self.data@.len() {
            self.cursor as int
        } else {
            self.data@.len() as int
        }
    }

    /// The bytes written, as a vector.
    pub fn into_bytes(self) -> (r: Vec<u8>)
        ensures
            r@ == self.buffered(),
    {
        self.data
    }
}

impl OutStream for BufferStream {
    open spec fn out(&self) -> Seq<u8> {
        self.buffered()
    }

    fn write(&mut self, v: u8) {
        self.data.push(v);
    }
}

impl InStream for BufferStream {
    open spec fn inp(&self) -> Seq<u8> {
        self.buffered().skip(self.cursor_at())
    }

    fn read(&mut self) -> (r: u8) {
        proof {
            assert(self.cursor < self.data@.len());
            vstd::std_specs::vec::axiom_spec_len(&self.data);
            assert(self.data@.len() <= usize::MAX);
        }
        let b = self.data[self.cursor];
        self.cursor = self.cursor + 1;
        proof {
            assert(self.inp() =~= old(self).inp().skip(1));
        }
        b
    }
}

} // verus!
