use vmboot::stream::{BufferStream, InStream, OutStream};
use vmboot::tagged::TaggedBinary;

#[test]
fn multi_byte_writes_are_little_endian() {
    let mut s = BufferStream::new();
    s.write16(0x1234);
    s.write32(0xdeadbeef);
    s.write64(0x0102030405060708);
    let bytes = s.into_bytes();
    assert_eq!(
        bytes,
        vec![
            0x34, 0x12, 0xef, 0xbe, 0xad, 0xde, 0x08, 0x07, 0x06, 0x05, 0x04, 0x03, 0x02, 0x01,
        ]
    );
}

#[test]
fn reads_invert_writes() {
    let mut s = BufferStream::new();
    s.write8(0xab);
    s.write16(0xbeef);
    s.write32(0xcafebabe);
    s.write64(0x1122334455667788);
    s.write128(0x000102030405060708090a0b0c0d0e0f);
    let mut s = BufferStream::with_data(s.into_bytes());
    assert_eq!(s.read8(), 0xab);
    assert_eq!(s.read16(), 0xbeef);
    assert_eq!(s.read32(), 0xcafebabe);
    assert_eq!(s.read64(), 0x1122334455667788);
    assert_eq!(s.read128(), 0x000102030405060708090a0b0c0d0e0f);
}

#[test]
fn write_bytes_appends_in_order() {
    let mut s = BufferStream::new();
    s.write_bytes(&[1, 2, 3]);
    s.write_bytes(&[]);
    s.write_bytes(&[4]);
    assert_eq!(s.into_bytes(), vec![1, 2, 3, 4]);
}

#[test]
fn read_bytes_fills_prefix_and_drops_overflow() {
    let mut s = BufferStream::with_data(vec![10, 11, 12, 13, 14, 99]);
    let mut buf = [0u8; 4];
    // Five bytes are consumed, only four fit the buffer.
    s.read_bytes(5, &mut buf);
    assert_eq!(buf, [10, 11, 12, 13]);
    assert_eq!(s.read8(), 99);
}

#[test]
fn read_bytes_leaves_buffer_tail_untouched() {
    let mut s = BufferStream::with_data(vec![7, 8]);
    let mut buf = [0xffu8; 4];
    s.read_bytes(2, &mut buf);
    assert_eq!(buf, [7, 8, 0xff, 0xff]);
}

fn round_trip(t: TaggedBinary) -> TaggedBinary {
    let mut out = BufferStream::new();
    t.write_to(&mut out);
    let mut input = BufferStream::with_data(out.into_bytes());
    TaggedBinary::read_from(&mut input)
}

#[test]
fn tagged_round_trips_every_variant() {
    assert_eq!(round_trip(TaggedBinary::NULL), TaggedBinary::NULL);
    assert_eq!(round_trip(TaggedBinary::Int8(0x7f)), TaggedBinary::Int8(0x7f));
    assert_eq!(round_trip(TaggedBinary::Int16(0xbeef)), TaggedBinary::Int16(0xbeef));
    assert_eq!(round_trip(TaggedBinary::Int32(0xdeadbeef)), TaggedBinary::Int32(0xdeadbeef));
    assert_eq!(
        round_trip(TaggedBinary::Int64(u64::MAX - 5)),
        TaggedBinary::Int64(u64::MAX - 5)
    );
    assert_eq!(
        round_trip(TaggedBinary::Int128(u128::MAX / 3)),
        TaggedBinary::Int128(u128::MAX / 3)
    );
    assert_eq!(round_trip(TaggedBinary::Value(42)), TaggedBinary::Value(42));
    assert_eq!(round_trip(TaggedBinary::END), TaggedBinary::END);

    let mut arr = [0u8; 256];
    for (i, b) in arr.iter_mut().enumerate() {
        *b = i as u8;
    }
    assert_eq!(round_trip(TaggedBinary::BytesStatic(arr)), TaggedBinary::BytesStatic(arr));
}

#[test]
fn tagged_encodings_are_exact() {
    let mut out = BufferStream::new();
    TaggedBinary::NULL.write_to(&mut out);
    TaggedBinary::Int16(0x1234).write_to(&mut out);
    TaggedBinary::Value(0x01020304).write_to(&mut out);
    TaggedBinary::END.write_to(&mut out);
    assert_eq!(
        out.into_bytes(),
        vec![0x00, 0x02, 0x34, 0x12, 0x08, 0x04, 0x03, 0x02, 0x01, 0xff]
    );
}

#[test]
fn bytes_record_with_short_length_pads_with_zeros() {
    // Tag 6, length 3, three data bytes, then a trailing record.
    let mut data = vec![0x06, 3, 0, 0, 0, 0xaa, 0xbb, 0xcc];
    data.push(0xff);
    let mut s = BufferStream::with_data(data);
    match TaggedBinary::read_from(&mut s) {
        TaggedBinary::BytesStatic(arr) => {
            assert_eq!(&arr[..3], &[0xaa, 0xbb, 0xcc]);
            assert!(arr[3..].iter().all(|&b| b == 0));
        }
        other => panic!("wrong variant: {:?}", other),
    }
    assert_eq!(TaggedBinary::read_from(&mut s), TaggedBinary::END);
}

#[test]
fn bytes_record_with_long_length_drops_the_excess() {
    // Length 300: 256 bytes fit the buffer, 44 are read and dropped.
    let mut data = vec![0x06, 0x2c, 0x01, 0, 0];
    for i in 0..300 {
        data.push((i % 251) as u8);
    }
    data.push(0xff);
    let mut s = BufferStream::with_data(data);
    match TaggedBinary::read_from(&mut s) {
        TaggedBinary::BytesStatic(arr) => {
            for i in 0..256 {
                assert_eq!(arr[i], (i % 251) as u8);
            }
        }
        other => panic!("wrong variant: {:?}", other),
    }
    assert_eq!(TaggedBinary::read_from(&mut s), TaggedBinary::END);
}

#[test]
fn reading_stops_at_record_boundaries() {
    let mut out = BufferStream::new();
    TaggedBinary::Int8(1).write_to(&mut out);
    TaggedBinary::Int16(2).write_to(&mut out);
    TaggedBinary::END.write_to(&mut out);
    let mut s = BufferStream::with_data(out.into_bytes());
    assert_eq!(TaggedBinary::read_from(&mut s), TaggedBinary::Int8(1));
    assert_eq!(TaggedBinary::read_from(&mut s), TaggedBinary::Int16(2));
    assert_eq!(TaggedBinary::read_from(&mut s), TaggedBinary::END);
}
