use mcserver::buffer::BufferReader;
use mcserver::data_types::{
    create_long, create_string, create_unsigned_short, create_varint, read_long, read_string,
    read_unsigned_short, read_varint, try_read_varint, DataError,
};

#[test]
fn varint_known_encodings() {
    assert_eq!(create_varint(0), vec![0x00]);
    assert_eq!(create_varint(1), vec![0x01]);
    assert_eq!(create_varint(127), vec![0x7f]);
    assert_eq!(create_varint(128), vec![0x80, 0x01]);
    assert_eq!(create_varint(255), vec![0xff, 0x01]);
    assert_eq!(create_varint(25565), vec![0xdd, 0xc7, 0x01]);
    assert_eq!(create_varint(2097151), vec![0xff, 0xff, 0x7f]);
    assert_eq!(create_varint(2147483647), vec![0xff, 0xff, 0xff, 0xff, 0x07]);
    assert_eq!(create_varint(-1), vec![0xff, 0xff, 0xff, 0xff, 0x0f]);
    assert_eq!(create_varint(-2147483648), vec![0x80, 0x80, 0x80, 0x80, 0x08]);
}

#[test]
fn varint_round_trip_values() {
    for v in [0, 1, 2, 127, 128, 255, 300, 25565, 2097151, 2147483647, -1, -2147483648, -42] {
        let mut bytes = create_varint(v);
        bytes.extend_from_slice(&[9, 8, 7]);
        assert_eq!(read_varint(&mut bytes), Ok(v));
        assert_eq!(bytes, vec![9, 8, 7]);
    }
}

#[test]
fn read_varint_errors_leave_bytes() {
    let mut short = vec![0x80, 0x80];
    assert_eq!(read_varint(&mut short), Err(DataError::NotEnoughBytes));
    assert_eq!(short, vec![0x80, 0x80]);
    let mut empty: Vec<u8> = vec![];
    assert_eq!(read_varint(&mut empty), Err(DataError::NotEnoughBytes));
    let mut long = vec![0xff, 0xff, 0xff, 0xff, 0xff, 0x01];
    assert_eq!(read_varint(&mut long), Err(DataError::VarIntTooBig));
    assert_eq!(long.len(), 6);
}

#[test]
fn read_varint_non_canonical_and_high_bits() {
    // A padded zero still reads as zero and takes both bytes.
    let mut padded = vec![0x80, 0x00, 0x05];
    assert_eq!(read_varint(&mut padded), Ok(0));
    assert_eq!(padded, vec![0x05]);
    // Bits beyond the 32nd in the fifth byte are dropped.
    let mut wide = vec![0xff, 0xff, 0xff, 0xff, 0x7f];
    assert_eq!(read_varint(&mut wide), Ok(-1));
    assert!(wide.is_empty());
}

#[test]
fn long_encoding_and_round_trip() {
    assert_eq!(create_long(1), vec![1, 0, 0, 0, 0, 0, 0, 0]);
    assert_eq!(create_long(0x0102030405060708), vec![8, 7, 6, 5, 4, 3, 2, 1]);
    assert_eq!(create_long(u64::MAX), vec![0xff; 8]);
    for v in [0u64, 1, 255, 256, 0xdead_beef, u64::MAX, 1 << 63] {
        let mut bytes = create_long(v);
        bytes.push(42);
        assert_eq!(read_long(&mut bytes), Ok(v));
        assert_eq!(bytes, vec![42]);
    }
}

#[test]
fn read_long_not_enough_bytes() {
    let mut bytes = vec![1, 2, 3, 4, 5, 6, 7];
    assert_eq!(read_long(&mut bytes), Err(DataError::NotEnoughBytes));
    assert_eq!(bytes, vec![1, 2, 3, 4, 5, 6, 7]);
}

#[test]
fn unsigned_short_encoding_and_round_trip() {
    assert_eq!(create_unsigned_short(25565), vec![0x63, 0xdd]);
    assert_eq!(create_unsigned_short(1), vec![0x00, 0x01]);
    let mut bytes = vec![0x63, 0xdd, 0x01];
    assert_eq!(read_unsigned_short(&mut bytes), Ok(25565));
    assert_eq!(bytes, vec![0x01]);
    for v in [0u16, 1, 255, 256, 65535] {
        let mut b = create_unsigned_short(v);
        assert_eq!(read_unsigned_short(&mut b), Ok(v));
        assert!(b.is_empty());
    }
    let mut one = vec![7];
    assert_eq!(read_unsigned_short(&mut one), Err(DataError::NotEnoughBytes));
    assert_eq!(one, vec![7]);
}

#[test]
fn string_encoding_and_round_trip() {
    assert_eq!(create_string("hello"), vec![5, b'h', b'e', b'l', b'l', b'o']);
    assert_eq!(create_string(""), vec![0]);
    assert_eq!(create_string("é"), vec![2, 0xc3, 0xa9]);
    for text in ["", "localhost", "héllo wörld ✓", "a longer text that is still short"] {
        let mut bytes = create_string(text);
        bytes.push(0xaa);
        assert_eq!(read_string(&mut bytes), Ok(text.to_string()));
        assert_eq!(bytes, vec![0xaa]);
    }
    let long = "x".repeat(300);
    let mut bytes = create_string(&long);
    assert_eq!(&bytes[..2], &[0xac, 0x02]);
    assert_eq!(read_string(&mut bytes), Ok(long));
}

#[test]
fn read_string_decodes_invalid_utf8_lossily() {
    let mut bytes = vec![3, 0xff, b'a', 0xfe, 1];
    assert_eq!(read_string(&mut bytes), Ok("\u{FFFD}a\u{FFFD}".to_string()));
    assert_eq!(bytes, vec![1]);
}

#[test]
fn read_string_short_body_is_an_error() {
    let mut bytes = vec![0x05, 0x61, 0x62];
    assert_eq!(read_string(&mut bytes), Err(DataError::NotEnoughBytes));
    assert_eq!(bytes, vec![0x05, 0x61, 0x62]);
    let mut negative = create_varint(-1);
    negative.extend_from_slice(&[0x61]);
    assert_eq!(read_string(&mut negative), Err(DataError::NotEnoughBytes));
    assert_eq!(negative.len(), 6);
}

#[test]
fn read_string_prefix_errors() {
    let mut bytes = vec![0x80];
    assert_eq!(read_string(&mut bytes), Err(DataError::NotEnoughBytes));
    assert_eq!(bytes, vec![0x80]);
    let mut bytes = vec![0xff, 0xff, 0xff, 0xff, 0xff, 0x01];
    assert_eq!(read_string(&mut bytes), Err(DataError::VarIntTooBig));
}

fn buffer_of(bytes: &[u8]) -> BufferReader {
    let mut a = [0u8; 2048];
    a[..bytes.len()].copy_from_slice(bytes);
    BufferReader::from_list(a, bytes.len())
}

#[test]
fn try_read_varint_single_byte_prefix() {
    let mut buf = buffer_of(&[5, 9]);
    assert_eq!(try_read_varint(&mut buf), Ok(Some(5)));
    assert_eq!(buf.unread(), &[9]);
}

#[test]
fn try_read_varint_multi_byte_prefix() {
    let mut buf = buffer_of(&[0xac, 0x02, 0x07]);
    assert_eq!(try_read_varint(&mut buf), Ok(Some(300)));
    assert_eq!(buf.unread(), &[0x07]);
}

#[test]
fn try_read_varint_incomplete_consumes_nothing() {
    let mut buf = BufferReader::new();
    assert_eq!(try_read_varint(&mut buf), Ok(None));
    let mut buf = buffer_of(&[0xac]);
    assert_eq!(try_read_varint(&mut buf), Ok(None));
    assert_eq!(buf.unread(), &[0xac]);
}

#[test]
fn try_read_varint_too_big_consumes_nothing() {
    let mut buf = buffer_of(&[0xff, 0xff, 0xff, 0xff, 0xff, 0x01]);
    assert_eq!(try_read_varint(&mut buf), Err(DataError::VarIntTooBig));
    assert_eq!(buf.unread().len(), 6);
}

#[test]
fn try_read_varint_reads_back_created_varints() {
    for v in [0, 1, 127, 128, 300, 25565, 2147483647, -1, -2147483648] {
        let mut bytes = create_varint(v);
        bytes.push(0x42);
        let mut buf = buffer_of(&bytes);
        assert_eq!(try_read_varint(&mut buf), Ok(Some(v)));
        assert_eq!(buf.unread(), &[0x42]);
    }
}
