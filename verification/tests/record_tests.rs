//! The readable/writable protocol on primitives: booleans at each width,
//! signed integers, float bit patterns, and the generic record entry points.

use vivibin::cgfx::FormatCgfx;
use vivibin::ctx::{WriteCtx, WriteCtxImpl};
use vivibin::cursor::{ByteReader, ByteWriter, Reader, Writer};
use vivibin::default_impls::{BoolSize, F32Bits, F64Bits};
use vivibin::domain::{
    AnyReadable, CanRead, CanReadVec, CanWrite, CanWriteBox, CanWriteSlice, ReadableWithArgs,
    Readable, SimpleWritable, Writable,
};
use vivibin::BinError;

#[test]
fn bool_reads_at_each_width() {
    let mut r = ByteReader::new(vec![1, 0, 0, 1, 0, 0, 0, 0, 0, 0, 0, 0, 0, 0]);
    assert_eq!(bool::from_reader_args(&mut r, FormatCgfx, BoolSize::U8), Ok(true));
    assert_eq!(bool::from_reader_args(&mut r, FormatCgfx, BoolSize::U16), Ok(false));
    assert_eq!(bool::from_reader_args(&mut r, FormatCgfx, BoolSize::U32), Ok(true));
    assert_eq!(
        bool::from_reader_args(&mut r, FormatCgfx, BoolSize::U64),
        Err(BinError::IoError)
    );
}

#[test]
fn bool_any_nonzero_word_is_true() {
    // Zero means false; any nonzero word, not only one, means true.
    let mut r = ByteReader::new(vec![0x02, 0, 0, 0]);
    assert_eq!(bool::from_reader_args(&mut r, FormatCgfx, BoolSize::U32), Ok(true));
    assert_eq!(r.position(), 4);
}

#[test]
fn bool_defaults_to_four_bytes() {
    let mut r = ByteReader::new(vec![0, 0, 0, 0, 7, 0, 0, 0]);
    assert_eq!(bool::from_reader_any(&mut r, FormatCgfx), Ok(false));
    assert_eq!(bool::from_reader_any(&mut r, FormatCgfx), Ok(true));
    let mut w = ByteWriter::new_empty();
    true.to_writer_simple(&mut w, &FormatCgfx).unwrap();
    false.to_writer_simple(&mut w, &FormatCgfx).unwrap();
    assert_eq!(w.into_inner(), vec![1, 0, 0, 0, 0, 0, 0, 0]);
}

#[test]
fn signed_integers_round_trip() {
    let mut w = ByteWriter::new_empty();
    (-2i32).to_writer_simple(&mut w, &FormatCgfx).unwrap();
    (-1i8).to_writer_simple(&mut w, &FormatCgfx).unwrap();
    (-3i16).to_writer_simple(&mut w, &FormatCgfx).unwrap();
    (-4i64).to_writer_simple(&mut w, &FormatCgfx).unwrap();
    let mut r = ByteReader::new(w.into_inner());
    assert_eq!(i32::from_reader_any(&mut r, FormatCgfx), Ok(-2));
    assert_eq!(i8::from_reader_any(&mut r, FormatCgfx), Ok(-1));
    assert_eq!(i16::from_reader_any(&mut r, FormatCgfx), Ok(-3));
    assert_eq!(i64::from_reader_any(&mut r, FormatCgfx), Ok(-4));
}

#[test]
fn unsigned_integers_round_trip() {
    let mut w = ByteWriter::new_empty();
    0xABu8.to_writer_simple(&mut w, &FormatCgfx).unwrap();
    0xBEEFu16.to_writer_simple(&mut w, &FormatCgfx).unwrap();
    0xFEED_BEEFu32.to_writer_simple(&mut w, &FormatCgfx).unwrap();
    0x0102_0304_0506_0708u64.to_writer_simple(&mut w, &FormatCgfx).unwrap();
    let mut r = ByteReader::new(w.into_inner());
    assert_eq!(u8::from_reader_any(&mut r, FormatCgfx), Ok(0xAB));
    assert_eq!(u16::from_reader_any(&mut r, FormatCgfx), Ok(0xBEEF));
    assert_eq!(u32::from_reader_any(&mut r, FormatCgfx), Ok(0xFEED_BEEF));
    assert_eq!(u64::from_reader_any(&mut r, FormatCgfx), Ok(0x0102_0304_0506_0708));
}

#[test]
fn float_bits_round_trip() {
    let mut w = ByteWriter::new_empty();
    let x = F32Bits { bits: 1.5f32.to_bits() };
    let y = F64Bits { bits: 2.25f64.to_bits() };
    x.to_writer_simple(&mut w, &FormatCgfx).unwrap();
    y.to_writer_simple(&mut w, &FormatCgfx).unwrap();
    let mut r = ByteReader::new(w.into_inner());
    let x2 = F32Bits::from_reader_any(&mut r, FormatCgfx).unwrap();
    let y2 = F64Bits::from_reader_any(&mut r, FormatCgfx).unwrap();
    assert_eq!(f32::from_bits(x2.bits), 1.5);
    assert_eq!(f64::from_bits(y2.bits), 2.25);
}

#[test]
fn capability_reads_dispatch_to_the_driver() {
    // The string pointer is relative: stored 4, read at offset 4, so the
    // name sits at offset 8.
    let mut r = ByteReader::new(vec![0x2A, 0, 0, 0, 4, 0, 0, 0, b'O', b'k', 0]);
    let n: u32 = FormatCgfx.read(&mut r).unwrap();
    assert_eq!(n, 0x2A);
    let s: String = FormatCgfx.read(&mut r).unwrap();
    assert_eq!(s, "Ok");
    assert_eq!(r.position(), 8);
}

#[test]
fn writable_primitives_go_through_the_context() {
    let mut ctx: WriteCtxImpl<FormatCgfx> = WriteCtxImpl::new();
    0x1234_5678u32.to_writer_unboxed(&mut ctx, &FormatCgfx).unwrap();
    true.to_writer_unboxed(&mut ctx, &FormatCgfx).unwrap();
    let (bytes, _, _) = ctx.to_buffer(&FormatCgfx).unwrap();
    assert_eq!(bytes, vec![0x78, 0x56, 0x34, 0x12, 1, 0, 0, 0]);
}

#[test]
fn slice_writes_count_pointer_and_elements() {
    let mut ctx: WriteCtxImpl<FormatCgfx> = WriteCtxImpl::new();
    let vals = [0x11u32, 0x22, 0x33];
    FormatCgfx.write_slice(&mut ctx, &vals).unwrap();
    let (bytes, _, _) = ctx.to_buffer(&FormatCgfx).unwrap();
    // Count at offset 0; the pointer word at 4 stores 4, pointing at the
    // element block at offset 8.
    assert_eq!(
        bytes,
        vec![3, 0, 0, 0, 4, 0, 0, 0, 0x11, 0, 0, 0, 0x22, 0, 0, 0, 0x33, 0, 0, 0]
    );
    let mut r = ByteReader::new(bytes);
    let back: Vec<u32> = FormatCgfx.read_std_vec(&mut r).unwrap();
    assert_eq!(back, vec![0x11, 0x22, 0x33]);
    assert_eq!(r.position(), 8);
}

#[test]
fn boxed_write_leaves_a_pointer_to_the_new_block() {
    let mut ctx: WriteCtxImpl<FormatCgfx> = WriteCtxImpl::new();
    FormatCgfx.write_box(&mut ctx, &0x77u32).unwrap();
    let (bytes, _, _) = ctx.to_buffer(&FormatCgfx).unwrap();
    assert_eq!(bytes, vec![4, 0, 0, 0, 0x77, 0, 0, 0]);
}

#[test]
fn capability_write_dispatches_to_the_driver() {
    let mut ctx: WriteCtxImpl<FormatCgfx> = WriteCtxImpl::new();
    FormatCgfx.write(&mut ctx, &0xAB_u32).unwrap();
    FormatCgfx.write(&mut ctx, &String::from("Hi")).unwrap();
    let (bytes, _, _) = ctx.to_buffer(&FormatCgfx).unwrap();
    assert_eq!(bytes, vec![0xAB, 0, 0, 0, 4, 0, 0, 0, b'H', b'i', 0]);
}

#[test]
fn readable_default_is_the_unboxed_read() {
    let mut r = ByteReader::new(vec![0x11, 0x22, 0x33, 0x44]);
    let v = <u32 as Readable<FormatCgfx>>::from_reader(&mut r, FormatCgfx).unwrap();
    assert_eq!(v, 0x4433_2211);
}
