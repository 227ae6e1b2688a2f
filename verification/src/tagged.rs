//! Tagged-length-value binary records for peripheral payloads: one tag byte
//! selecting the variant, followed by the value's little-endian bytes; byte
//! strings carry a 32-bit length before their data. Writing emits exactly
//! the record's encoding; reading consumes exactly one record from the head
//! of the stream.

use crate::stream::InStream;
use crate::stream::OutStream;
use crate::stream::le_bytes128;
use crate::stream::le_bytes16;
use crate::stream::le_bytes32;
use crate::stream::le_bytes64;
use crate::stream::u128_from_le;
use crate::stream::u16_from_le;
use crate::stream::u32_from_le;
use crate::stream::u64_from_le;
use vstd::array::ref_mut_array_unsizing_coercion;
use vstd::pervasive::unreached;
use vstd::prelude::*;

verus! {

/// One tagged binary record.
#[derive(Clone, Copy, PartialEq, Eq, Debug)]
#[allow(non_camel_case_types)]
pub enum TaggedBinary {
    NULL,
    Int8(u8),
    Int16(u16),
    Int32(u32),
    Int64(u64),
    Int128(u128),
    BytesStatic([u8; 256]),
    Value(u32),
    END,
}

/// The byte sequence a record encodes to: its tag byte, then its value.
/// A byte string is written whole, with its full buffer length up front.
pub open spec fn spec_encoding(t: TaggedBinary) -> Seq<u8> {
    match t {
        TaggedBinary::NULL => seq![0x00u8],
        TaggedBinary::Int8(v) => seq![0x01u8, v],
        TaggedBinary::Int16(v) => seq![0x02u8] + le_bytes16(v),
        TaggedBinary::Int32(v) => seq![0x03u8] + le_bytes32(v),
        TaggedBinary::Int64(v) => seq![0x04u8] + le_bytes64(v),
        TaggedBinary::Int128(v) => seq![0x05u8] + le_bytes128(v),
        TaggedBinary::BytesStatic(a) => seq![0x06u8] + le_bytes32(256) + a@,
        TaggedBinary::Value(v) => seq![0x08u8] + le_bytes32(v),
        TaggedBinary::END => seq![0xffu8],
    }
}

/// Whether the byte is one of the defined record tags.
pub open spec fn valid_tag(b: u8) -> bool {
    b == 0x00 || b == 0x01 || b == 0x02 || b == 0x03 || b == 0x04 || b == 0x05 || b == 0x06 || b
        == 0x08 || b == 0xff
}

/// How many bytes the record at the head of the sequence occupies, judged
/// from its tag and, for a byte string, its length field.
pub open spec fn head_len(s: Seq<u8>) -> int
    recommends
        s.len() >= 1,
{
    let t = s[0];
    if t == 0x00 || t == 0xff {
        1
    } else if t == 0x01 {
        2
    } else if t == 0x02 {
        3
    } else if t == 0x03 || t == 0x08 {
        5
    } else if t == 0x04 {
        9
    } else if t == 0x05 {
        17
    } else if t == 0x06 {
        5 + u32_from_le(s.skip(1)) as int
    } else {
        0
    }
}

/// Whether the sequence opens with one whole, well-formed record.
pub open spec fn head_ok(s: Seq<u8>) -> bool {
    &&& s.len() >= 1
    &&& valid_tag(s[0])
    &&& (s[0] == 0x06 ==> s.len() >= 5)
    &&& s.len() >= head_len(s)
}

/// Whether the record is exactly what the head of the sequence decodes to.
/// The tag pins the variant and the value bytes pin the value; a byte
/// string takes the first bytes up to its length field into its buffer and
/// leaves the rest of the buffer zero.
pub open spec fn parses_to(s: Seq<u8>, t: TaggedBinary) -> bool {
    match t {
        TaggedBinary::NULL => s[0] == 0x00,
        TaggedBinary::Int8(v) => s[0] == 0x01 && v == s[1],
        TaggedBinary::Int16(v) => s[0] == 0x02 && v == u16_from_le(s.skip(1)),
        TaggedBinary::Int32(v) => s[0] == 0x03 && v == u32_from_le(s.skip(1)),
        TaggedBinary::Int64(v) => s[0] == 0x04 && v == u64_from_le(s.skip(1)),
        TaggedBinary::Int128(v) => s[0] == 0x05 && v == u128_from_le(s.skip(1)),
        TaggedBinary::BytesStatic(a) => {
            let len = u32_from_le(s.skip(1)) as int;
            let filled = if len < 256 {
                len
            } else {
                256int
            };
            &&& s[0] == 0x06
            &&& (forall|i: int| 0 <= i < filled ==> a@[i] == s[5 + i])
            &&& (forall|i: int| filled <= i < 256 ==> a@[i] == 0)
        },
        TaggedBinary::Value(v) => s[0] == 0x08 && v == u32_from_le(s.skip(1)),
        TaggedBinary::END => s[0] == 0xff,
    }
}

impl TaggedBinary {
    /// Reads exactly one record from the head of the stream.
    pub fn read_from<S: InStream>(input: &mut S) -> (r: TaggedBinary)
        requires
            head_ok(old(input).inp()),
        ensures
            parses_to(old(input).inp(), r),
            final(input).inp() == old(input).inp().skip(head_len(old(input).inp())),
    {
        let ghost s = old(input).inp();
        let t = input.read();
        if t == 0x00 {
            TaggedBinary::NULL
        } else if t == 0x01 {
            let r = TaggedBinary::Int8(input.read8());
            proof {
                assert(input.inp() =~= s.skip(2));
            }
            r
        } else if t == 0x02 {
            let r = TaggedBinary::Int16(input.read16());
            proof {
                assert(input.inp() =~= s.skip(3));
            }
            r
        } else if t == 0x03 {
            let r = TaggedBinary::Int32(input.read32());
            proof {
                assert(input.inp() =~= s.skip(5));
            }
            r
        } else if t == 0x04 {
            let r = TaggedBinary::Int64(input.read64());
            proof {
                assert(input.inp() =~= s.skip(9));
            }
            r
        } else if t == 0x05 {
            let r = TaggedBinary::Int128(input.read128());
            proof {
                assert(input.inp() =~= s.skip(17));
            }
            r
        } else if t == 0x06 {
            let len = input.read32();
            let mut arr: [u8; 256] = [0;256];
            proof {
                assert(input.inp() =~= s.skip(5));
                assert(input.inp().len() >= len);
            }
            input.read_bytes(len as usize, ref_mut_array_unsizing_coercion(&mut arr));
            proof {
                assert(input.inp() =~= s.skip(5 + u32_from_le(s.skip(1)) as int));
            }
            TaggedBinary::BytesStatic(arr)
        } else if t == 0x08 {
            let r = TaggedBinary::Value(input.read32());
            proof {
                assert(input.inp() =~= s.skip(5));
            }
            r
        } else if t == 0xff {
            TaggedBinary::END
        } else {
            proof {
                assert(false);
            }
            unreached()
        }
    }

    /// Writes this record's encoding to the sink, in order.
    pub fn write_to<S: OutStream>(&self, output: &mut S)
        ensures
            final(output).out() == old(output).out() + spec_encoding(*self),
    {
        match self {
            TaggedBinary::NULL => {
                output.write8(0x00);
                proof {
                    assert(output.out() =~= old(output).out() + spec_encoding(*self));
                }
            },
            TaggedBinary::Int8(v) => {
                output.write8(0x01);
                output.write8(*v);
                proof {
                    assert(output.out() =~= old(output).out() + spec_encoding(*self));
                }
            },
            TaggedBinary::Int16(v) => {
                output.write8(0x02);
                output.write16(*v);
                proof {
                    assert(output.out() =~= old(output).out() + spec_encoding(*self));
                }
            },
            TaggedBinary::Int32(v) => {
                output.write8(0x03);
                output.write32(*v);
                proof {
                    assert(output.out() =~= old(output).out() + spec_encoding(*self));
                }
            },
            TaggedBinary::Int64(v) => {
                output.write8(0x04);
                output.write64(*v);
                proof {
                    assert(output.out() =~= old(output).out() + spec_encoding(*self));
                }
            },
            TaggedBinary::Int128(v) => {
                output.write8(0x05);
                output.write128(*v);
                proof {
                    assert(output.out() =~= old(output).out() + spec_encoding(*self));
                }
            },
            TaggedBinary::BytesStatic(v) => {
                output.write8(0x06);
                output.write32(256);
                output.write_bytes(v.as_slice());
                proof {
                    assert(output.out() =~= old(output).out() + spec_encoding(*self));
                }
            },
            TaggedBinary::Value(v) => {
                output.write8(0x08);
                output.write32(*v);
                proof {
                    assert(output.out() =~= old(output).out() + spec_encoding(*self));
                }
            },
            TaggedBinary::END => {
                output.write8(0xff);
                proof {
                    assert(output.out() =~= old(output).out() + spec_encoding(*self));
                }
            },
        }
    }
}

/// Round trip: whatever record is written, the bytes it produced — with
/// anything at all following them — open a well-formed stream that decodes
/// to exactly the record written, consuming exactly its encoding.
pub proof fn lemma_tagged_round_trip(t: TaggedBinary, rest: Seq<u8>)
    ensures
        head_ok(spec_encoding(t) + rest),
        head_len(spec_encoding(t) + rest) == spec_encoding(t).len(),
        parses_to(spec_encoding(t) + rest, t),
{
    let s = spec_encoding(t) + rest;
    match t {
        TaggedBinary::NULL => {},
        TaggedBinary::Int8(v) => {
            assert(s[1] == v);
        },
        TaggedBinary::Int16(v) => {
            assert(s.skip(1)[0] == (v & 0xff) as u8 && s.skip(1)[1] == ((v >> 8) & 0xff) as u8);
            assert((((v & 0xff) as u8) as u16) | ((((v >> 8) & 0xff) as u8) as u16) << 8 == v)
                by (bit_vector);
        },
        TaggedBinary::Int32(v) => {
            let p = s.skip(1);
            assert(p[0] == (v & 0xff) as u8 && p[1] == ((v >> 8) & 0xff) as u8 && p[2] == ((v
                >> 16) & 0xff) as u8 && p[3] == ((v >> 24) & 0xff) as u8);
            assert((((v & 0xff) as u8) as u32) | ((((v >> 8) & 0xff) as u8) as u32) << 8 | ((((v
                >> 16) & 0xff) as u8) as u32) << 16 | ((((v >> 24) & 0xff) as u8) as u32) << 24
                == v) by (bit_vector);
        },
        TaggedBinary::Int64(v) => {
            let p = s.skip(1);
            assert(p[0] == (v & 0xff) as u8 && p[1] == ((v >> 8) & 0xff) as u8 && p[2] == ((v
                >> 16) & 0xff) as u8 && p[3] == ((v >> 24) & 0xff) as u8 && p[4] == ((v >> 32)
                & 0xff) as u8 && p[5] == ((v >> 40) & 0xff) as u8 && p[6] == ((v >> 48)
                & 0xff) as u8 && p[7] == ((v >> 56) & 0xff) as u8);
            assert((((v & 0xff) as u8) as u64) | ((((v >> 8) & 0xff) as u8) as u64) << 8 | ((((v
                >> 16) & 0xff) as u8) as u64) << 16 | ((((v >> 24) & 0xff) as u8) as u64) << 24 | ((
            ((v >> 32) & 0xff) as u8) as u64) << 32 | ((((v >> 40) & 0xff) as u8) as u64) << 40 | ((
            ((v >> 48) & 0xff) as u8) as u64) << 48 | ((((v >> 56) & 0xff) as u8) as u64) << 56
                == v) by (bit_vector);
        },
        TaggedBinary::Int128(v) => {
            let p = s.skip(1);
            assert(p[0] == (v & 0xff) as u8 && p[1] == ((v >> 8) & 0xff) as u8 && p[2] == ((v
                >> 16) & 0xff) as u8 && p[3] == ((v >> 24) & 0xff) as u8 && p[4] == ((v >> 32)
                & 0xff) as u8 && p[5] == ((v >> 40) & 0xff) as u8 && p[6] == ((v >> 48)
                & 0xff) as u8 && p[7] == ((v >> 56) & 0xff) as u8 && p[8] == ((v >> 64)
                & 0xff) as u8 && p[9] == ((v >> 72) & 0xff) as u8 && p[10] == ((v >> 80)
                & 0xff) as u8 && p[11] == ((v >> 88) & 0xff) as u8 && p[12] == ((v >> 96)
                & 0xff) as u8 && p[13] == ((v >> 104) & 0xff) as u8 && p[14] == ((v >> 112)
                & 0xff) as u8 && p[15] == ((v >> 120) & 0xff) as u8);
            assert((((v & 0xff) as u8) as u128) | ((((v >> 8) & 0xff) as u8) as u128) << 8 | ((((v
                >> 16) & 0xff) as u8) as u128) << 16 | ((((v >> 24) & 0xff) as u8) as u128) << 24
                | ((((v >> 32) & 0xff) as u8) as u128) << 32 | ((((v >> 40)
                & 0xff) as u8) as u128) << 40 | ((((v >> 48) & 0xff) as u8) as u128) << 48 | ((((v
                >> 56) & 0xff) as u8) as u128) << 56 | ((((v >> 64) & 0xff) as u8) as u128) << 64
                | ((((v >> 72) & 0xff) as u8) as u128) << 72 | ((((v >> 80)
                & 0xff) as u8) as u128) << 80 | ((((v >> 88) & 0xff) as u8) as u128) << 88 | ((((v
                >> 96) & 0xff) as u8) as u128) << 96 | ((((v >> 104) & 0xff) as u8) as u128) << 104
                | ((((v >> 112) & 0xff) as u8) as u128) << 112 | ((((v >> 120)
                & 0xff) as u8) as u128) << 120 == v) by (bit_vector);
        },
        TaggedBinary::BytesStatic(a) => {
            let p = s.skip(1);
            assert(p[0] == (256u32 & 0xff) as u8 && p[1] == ((256u32 >> 8) & 0xff) as u8 && p[2]
                == ((256u32 >> 16) & 0xff) as u8 && p[3] == ((256u32 >> 24) & 0xff) as u8);
            assert((((256u32 & 0xff) as u8) as u32) | ((((256u32 >> 8) & 0xff) as u8) as u32) << 8
                | ((((256u32 >> 16) & 0xff) as u8) as u32) << 16 | ((((256u32 >> 24)
                & 0xff) as u8) as u32) << 24 == 256) by (bit_vector);
            assert(u32_from_le(s.skip(1)) == 256);
            assert(forall|i: int| 0 <= i < 256 ==> a@[i] == s[5 + i]);
        },
        TaggedBinary::Value(v) => {
            let p = s.skip(1);
            assert(p[0] == (v & 0xff) as u8 && p[1] == ((v >> 8) & 0xff) as u8 && p[2] == ((v
                >> 16) & 0xff) as u8 && p[3] == ((v >> 24) & 0xff) as u8);
            assert((((v & 0xff) as u8) as u32) | ((((v >> 8) & 0xff) as u8) as u32) << 8 | ((((v
                >> 16) & 0xff) as u8) as u32) << 16 | ((((v >> 24) & 0xff) as u8) as u32) << 24
                == v) by (bit_vector);
        },
        TaggedBinary::END => {},
    }
}

} // verus!
