//! Cursor and primitive-codec behaviour: integer round trips in both byte
//! orders, string reads and writes, alignment, and the error conditions of
//! the in-memory reader.

use vivibin::codec::{decode_u16, decode_u32, decode_u64, encode_u16, encode_u32, encode_u64};
use vivibin::cursor::{align_to, ByteReader, ByteWriter, Reader, Writer};
use vivibin::default_impls::{
    read_u16_endian, read_u32_endian, read_u64_endian, read_u8_endian, write_u32_endian,
};
use vivibin::util::SeekGuard;
use vivibin::{BinError, Endianness};

#[test]
fn u32_little_endian_exact_bytes() {
    let v = encode_u32(Endianness::Little, 0xDEAD_BEEF);
    assert_eq!(v, vec![0xEF, 0xBE, 0xAD, 0xDE]);
    assert_eq!(decode_u32(Endianness::Little, &v), 0xDEAD_BEEF);
}

#[test]
fn u32_big_endian_exact_bytes() {
    let v = encode_u32(Endianness::Big, 0xDEAD_BEEF);
    assert_eq!(v, vec![0xDE, 0xAD, 0xBE, 0xEF]);
    assert_eq!(decode_u32(Endianness::Big, &v), 0xDEAD_BEEF);
}

#[test]
fn u16_round_trip_both_orders() {
    let le = encode_u16(Endianness::Little, 0x1234);
    assert_eq!(le, vec![0x34, 0x12]);
    assert_eq!(decode_u16(Endianness::Little, &le), 0x1234);
    let be = encode_u16(Endianness::Big, 0x1234);
    assert_eq!(be, vec![0x12, 0x34]);
    assert_eq!(decode_u16(Endianness::Big, &be), 0x1234);
}

#[test]
fn u64_round_trip_both_orders() {
    let x = 0x0102_0304_0506_0708u64;
    let le = encode_u64(Endianness::Little, x);
    assert_eq!(le, vec![8, 7, 6, 5, 4, 3, 2, 1]);
    assert_eq!(decode_u64(Endianness::Little, &le), x);
    let be = encode_u64(Endianness::Big, x);
    assert_eq!(be, vec![1, 2, 3, 4, 5, 6, 7, 8]);
    assert_eq!(decode_u64(Endianness::Big, &be), x);
}

#[test]
fn reader_primitives() {
    let mut r = ByteReader::new(vec![0x2A, 0x34, 0x12, 0xEF, 0xBE, 0xAD, 0xDE]);
    assert_eq!(read_u8_endian(&mut r), Ok(0x2A));
    assert_eq!(read_u16_endian(&mut r, Endianness::Little), Ok(0x1234));
    assert_eq!(read_u32_endian(&mut r, Endianness::Little), Ok(0xDEAD_BEEF));
    assert_eq!(r.position(), 7);
    assert_eq!(read_u8_endian(&mut r), Err(BinError::IoError));
    assert_eq!(r.position(), 7);
}

#[test]
fn reader_read_exact_past_end_is_io_error() {
    let mut r = ByteReader::new(vec![1, 2, 3]);
    assert_eq!(read_u64_endian(&mut r, Endianness::Little), Err(BinError::IoError));
    r.set_position(10);
    assert!(matches!(r.read_exact(1), Err(BinError::IoError)));
}

#[test]
fn read_str_decodes_utf8() {
    // "héllo" in UTF-8: the accented letter takes two bytes, so the decoded
    // string is not the byte sequence handed back unchanged.
    let bytes = vec![0x68, 0xC3, 0xA9, 0x6C, 0x6C, 0x6F];
    let mut r = ByteReader::new(bytes);
    let s = r.read_str(6).unwrap();
    assert_eq!(s, "h\u{e9}llo");
    assert_eq!(s.chars().count(), 5);
    assert_eq!(r.position(), 6);
}

#[test]
fn read_str_invalid_utf8() {
    let mut r = ByteReader::new(vec![0xFF, 0xFE]);
    assert_eq!(r.read_str(2), Err(BinError::InvalidEncoding));
}

#[test]
fn read_c_str_stops_at_nul() {
    let mut r = ByteReader::new(vec![b'H', b'i', 0, b'X']);
    assert_eq!(r.read_c_str().unwrap(), "Hi");
    // The terminator is consumed but not returned.
    assert_eq!(r.position(), 3);
}

#[test]
fn read_c_str_without_terminator_is_io_error() {
    let mut r = ByteReader::new(vec![b'H', b'i']);
    assert_eq!(r.read_c_str(), Err(BinError::IoError));
    assert_eq!(r.position(), 0);
}

#[test]
fn read_c_str_invalid_utf8() {
    let mut r = ByteReader::new(vec![0xFF, 0]);
    assert_eq!(r.read_c_str(), Err(BinError::InvalidEncoding));
}

#[test]
fn writer_overwrites_and_extends() {
    let mut w = ByteWriter::new_empty();
    w.write_all(&[1, 2, 3, 4]);
    w.set_position(2);
    w.write_all(&[9, 9, 9]);
    assert_eq!(w.position(), 5);
    assert_eq!(w.into_inner(), vec![1, 2, 9, 9, 9]);
}

#[test]
fn writer_zero_fills_a_seek_gap() {
    let mut w = ByteWriter::new_empty();
    w.set_position(3);
    w.write_all(&[7]);
    assert_eq!(w.into_inner(), vec![0, 0, 0, 7]);
}

#[test]
fn write_c_str_appends_terminator() {
    let mut w = ByteWriter::new_empty();
    w.write_c_str("Hi");
    assert_eq!(w.into_inner(), vec![b'H', b'i', 0]);
}

#[test]
fn align_to_pads_to_boundary() {
    let mut w = ByteWriter::new_empty();
    w.write_all(&[1, 2, 3, 4, 5]);
    align_to(&mut w, 4);
    assert_eq!(w.position(), 8);
    assert_eq!(w.into_inner(), vec![1, 2, 3, 4, 5, 0, 0, 0]);
}

#[test]
fn align_to_zero_is_a_no_op() {
    let mut w = ByteWriter::new_empty();
    w.write_all(&[1, 2, 3]);
    align_to(&mut w, 0);
    assert_eq!(w.position(), 3);
    assert_eq!(w.into_inner(), vec![1, 2, 3]);
}

#[test]
fn align_to_already_aligned_is_unchanged() {
    let mut w = ByteWriter::new_empty();
    w.write_all(&[1, 2, 3, 4]);
    align_to(&mut w, 4);
    assert_eq!(w.position(), 4);
    assert_eq!(w.into_inner(), vec![1, 2, 3, 4]);
}

#[test]
fn seek_guard_restores_position() {
    let mut r = ByteReader::new(vec![0; 16]);
    r.set_position(5);
    let guard = SeekGuard::new(&r);
    r.set_position(12);
    let _ = r.read_exact(2);
    guard.restore(&mut r);
    assert_eq!(r.position(), 5);
}

#[test]
fn write_then_read_u32_round_trip_in_stream() {
    let mut w = ByteWriter::new_empty();
    write_u32_endian(&mut w, Endianness::Big, 77_000_001);
    let mut r = ByteReader::new(w.into_inner());
    assert_eq!(read_u32_endian(&mut r, Endianness::Big), Ok(77_000_001));
}
