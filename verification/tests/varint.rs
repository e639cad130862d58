//! The varint encodings at their byte boundaries.

use vadeen_osm::osm_io::o5m::varint::{svarint_bytes, uvarint_bytes, VarInt};
use vadeen_osm::osm_io::o5m::ByteReader;

#[test]
fn varint_max_one_byte_uvarint() {
    let varint = VarInt::new(vec![0x7F]);
    assert_eq!(varint.into_u64(), 127);
    assert_eq!(uvarint_bytes(127), vec![0x7F]);
}

#[test]
fn read_two_bytes_uvarint() {
    let data = vec![0xC3, 0x02];
    let mut reader = ByteReader::new(data);
    let varint = reader.read_varint().unwrap();
    assert_eq!(varint.into_u64(), 323);
}

#[test]
fn varint_three_byte_uvarint() {
    let varint = VarInt::new(vec![0x80, 0x80, 0x01]);
    assert_eq!(varint.into_u64(), 16384);
    assert_eq!(uvarint_bytes(16384), vec![0x80, 0x80, 0x01]);
}

#[test]
fn read_one_byte_positive_varint() {
    let data = vec![0x08];
    let mut reader = ByteReader::new(data);
    let varint = reader.read_varint().unwrap();
    assert_eq!(varint.into_i64(), 4);
}

#[test]
fn varint_one_byte_negative_varint() {
    let varint = VarInt::new(vec![0x03]);
    assert_eq!(varint.into_i64(), -2);
    assert_eq!(svarint_bytes(-3), vec![0x05]);
}

#[test]
fn read_four_byte_positive_varint() {
    let data = vec![0x94, 0xfe, 0xd2, 0x05];
    let mut reader = ByteReader::new(data);
    let varint = reader.read_varint().unwrap();
    assert_eq!(varint.into_i64(), 5922698);
}

#[test]
fn varint_two_byte_negative_varint() {
    let varint = VarInt::new(vec![0x81, 0x01]);
    assert_eq!(varint.into_i64(), -65);
    assert_eq!(svarint_bytes(-65), vec![0x81, 0x01]);
}

#[test]
fn too_many_bytes() {
    let data = vec![0xFF, 0xFF, 0xFF, 0xFF, 0xFF, 0xFF, 0xFF, 0xFF, 0xFF, 0xFF];
    let mut reader = ByteReader::new(data);
    let error = reader.read_varint().unwrap_err();
    assert_eq!(error.describe(), "Varint overflow, read 9 bytes.");
}

#[test]
fn one_byte_uvarint() {
    assert_eq!(uvarint_bytes(5), vec![0x05]);
}

#[test]
fn two_byte_uvarint() {
    assert_eq!(uvarint_bytes(323), vec![0xC3, 0x02]);
}

#[test]
fn one_byte_positive_varint() {
    assert_eq!(svarint_bytes(4), vec![0x08]);
}

#[test]
fn two_byte_positive_varint() {
    assert_eq!(svarint_bytes(64), vec![0x80, 0x01]);
}

#[test]
fn signed_zero_one_byte() {
    assert_eq!(svarint_bytes(0), vec![0x00]);
    assert_eq!(VarInt::new(vec![0x00]).into_i64(), 0);
    assert_eq!(VarInt::new(vec![0x01]).into_i64(), -1);
}

#[test]
fn uvarint_zero_is_one_byte() {
    assert_eq!(uvarint_bytes(0), vec![0x00]);
    assert_eq!(VarInt::new(vec![0x00]).into_u64(), 0);
}

#[test]
fn round_trips_on_mixed_values() {
    for v in [0u64, 1, 127, 128, 300, 16384, 5922698, u32::MAX as u64, (1u64 << 62)] {
        let bytes = uvarint_bytes(v);
        assert_eq!(VarInt::new(bytes).into_u64(), v);
    }
    for v in [0i64, 1, -1, -2, 63, 64, -64, -65, 5922698, -5922698, 1 << 61, -(1 << 61)] {
        let bytes = svarint_bytes(v);
        assert_eq!(VarInt::new(bytes).into_i64(), v);
    }
}
