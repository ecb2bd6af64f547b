//! End-to-end behaviour: the assembly pass, pointer patching and
//! resolution, category ordering, the example records, and the error
//! conditions of the boxed-read path.

use vivibin::cgfx::{FormatCgfx, Npc, Vec3};
use vivibin::ctx::{WriteCtx, WriteCtxImpl};
use vivibin::cursor::{ByteReader, Reader, Writer};
use vivibin::default_impls::F32Bits;
use vivibin::domain::{
    read_box, read_box_nullable, read_box_with, read_std_box, CanRead, CanReadVec, CanWriteBox,
    CanWriteSlice, ReadDomain, Readable, Writable,
};
use vivibin::default_impls::read_u32_endian;
use vivibin::heap::HeapToken;
use vivibin::pointers::{PointerNonZero32, PointerZero32};
use vivibin::{BinError, EndianSpecific, Endianness};

/// The demonstration stream: a relative name pointer, a vector, a flag, and
/// the NUL-terminated name itself.
const NPC_BYTES: [u8; 32] = [
    0x14, 0, 0, 0, // name pointer, relative: points at offset 0x14
    0, 0, 0x80, 0x3F, 0, 0, 0, 0x40, 0, 0, 0, 0x3F, // position {1.0, 2.0, 0.5}
    1, 0, 0, 0, // visible
    0x48, 0x65, 0x6C, 0x6C, 0x6F, 0x20, 0x57, 0x6F, 0x72, 0x6C, 0x64, 0, // "Hello World"
];

#[test]
fn empty_context_assembles_to_nothing() {
    let ctx: WriteCtxImpl<FormatCgfx> = WriteCtxImpl::new();
    let (bytes, offsets, heap_starts) = ctx.to_buffer(&FormatCgfx).unwrap();
    // A context that never received a write yields a zero-length output and
    // an empty block-offsets list; no relocation is left pending.
    assert_eq!(bytes, Vec::<u8>::new());
    assert_eq!(offsets, Vec::<usize>::new());
    assert_eq!(heap_starts, vec![0]);
}

#[test]
fn category_heaps_assemble_in_key_order() {
    // Writes tagged with category 2 happen before writes tagged with
    // category 1; assembly still emits them in category order.
    let mut ctx: WriteCtxImpl<FormatCgfx> = WriteCtxImpl::new();
    ctx.heap_mut(2).cur_writer().write_all(&[0xB0, 0xB1]);
    ctx.heap_mut(1).cur_writer().write_all(&[0xA0, 0xA1, 0xA2]);
    let (bytes, offsets, _) = ctx.to_buffer(&FormatCgfx).unwrap();
    assert_eq!(bytes, vec![0xA0, 0xA1, 0xA2, 0xB0, 0xB1]);
    // Default heap's empty block first, then the category blocks.
    assert_eq!(offsets, vec![0, 0, 3]);
}

#[test]
fn same_writes_give_the_same_offsets() {
    let build = || {
        let mut ctx: WriteCtxImpl<FormatCgfx> = WriteCtxImpl::new();
        ctx.cur_writer().write_all(&[1, 2, 3]);
        ctx.heap_mut(4).cur_writer().write_all(&[4, 5]);
        ctx.to_buffer(&FormatCgfx).unwrap()
    };
    let (b1, o1, h1) = build();
    let (b2, o2, h2) = build();
    assert_eq!(b1, b2);
    assert_eq!(o1, o2);
    assert_eq!(h1, h2);
}

#[test]
fn token_resolves_to_first_byte_written_in_callback() {
    let mut ctx: WriteCtxImpl<FormatCgfx> = WriteCtxImpl::new();
    ctx.cur_writer().write_all(&[1, 2, 3, 4]);
    let (ctx, res) = ctx.allocate_next_block(|mut c: WriteCtxImpl<FormatCgfx>| {
        c.cur_writer().write_all(&[0xAA, 0xBB]);
        (c, Ok(()))
    });
    let mut ctx = ctx;
    let tok = res.unwrap();
    ctx.write_token::<4>(tok);
    let (bytes, offsets, heap_starts) = ctx.to_buffer(&FormatCgfx).unwrap();
    let resolved = tok.resolve(&offsets, &heap_starts);
    assert_eq!(resolved, 8);
    assert_eq!(bytes[resolved], 0xAA);
    // The placeholder at offset 4 was patched with the relative encoding.
    assert_eq!(&bytes[4..8], &[4, 0, 0, 0]);
}

#[test]
fn backward_reference_is_unresolved() {
    // A token pointing at the block it is recorded in can never be patched:
    // the pending entry outlives the pass.
    let mut ctx: WriteCtxImpl<FormatCgfx> = WriteCtxImpl::new();
    ctx.cur_writer().write_all(&[1, 2, 3, 4]);
    let tok = ctx.heap_token_at_current_pos();
    ctx.write_token::<4>(tok);
    let err = ctx.to_buffer(&FormatCgfx).unwrap_err();
    assert_eq!(err, BinError::UnresolvedRelocation { token: tok });
}

#[test]
fn dangling_token_is_unresolved() {
    let mut ctx: WriteCtxImpl<FormatCgfx> = WriteCtxImpl::new();
    let tok = HeapToken { heap_id: 9, block_id: 0, offset: 0 };
    ctx.write_token::<4>(tok);
    let err = ctx.to_buffer(&FormatCgfx).unwrap_err();
    assert_eq!(err, BinError::UnresolvedRelocation { token: tok });
}

#[test]
fn npc_reads_from_the_demonstration_stream() {
    let mut r = ByteReader::new(NPC_BYTES.to_vec());
    let npc = Npc::parse(&mut r, FormatCgfx).unwrap();
    assert_eq!(npc.name, "Hello World");
    assert_eq!(f32::from_bits(npc.position.x.bits), 1.0);
    assert_eq!(f32::from_bits(npc.position.y.bits), 2.0);
    assert_eq!(f32::from_bits(npc.position.z.bits), 0.5);
    assert!(npc.is_visible);
    // The cursor sits after the fixed part; the name was chased and the
    // position restored.
    assert_eq!(r.position(), 20);
}

#[test]
fn npc_writes_back_the_identical_bytes() {
    let mut r = ByteReader::new(NPC_BYTES.to_vec());
    let npc = Npc::parse(&mut r, FormatCgfx).unwrap();
    let mut ctx: WriteCtxImpl<FormatCgfx> = WriteCtxImpl::new();
    npc.emit(&mut ctx).unwrap();
    let (bytes, offsets, _) = ctx.to_buffer(&FormatCgfx).unwrap();
    assert_eq!(bytes, NPC_BYTES.to_vec());
    assert_eq!(offsets, vec![0, 0x14]);
}

#[test]
fn vec3_round_trips_through_twelve_bytes() {
    let input = vec![0, 0, 0x80, 0x3F, 0, 0, 0, 0x40, 0, 0, 0, 0x3F];
    let mut r = ByteReader::new(input.clone());
    let v = Vec3::parse(&mut r, FormatCgfx).unwrap();
    assert_eq!(v, Vec3::new(
        F32Bits { bits: 1.0f32.to_bits() },
        F32Bits { bits: 2.0f32.to_bits() },
        F32Bits { bits: 0.5f32.to_bits() },
    ));
    let mut w = vivibin::cursor::ByteWriter::new_empty();
    v.emit(&mut w, &FormatCgfx);
    assert_eq!(w.into_inner(), input);
}

#[test]
fn null_pointer_where_value_required_reports_the_offset() {
    // Two pointer words: the second is null.  Reading a boxed value at the
    // second must fail with UnexpectedNull naming offset 4.
    let mut r = ByteReader::new(vec![8, 0, 0, 0, 0, 0, 0, 0, 0x2A, 0, 0, 0]);
    r.set_position(4);
    let res: Result<u32, BinError> = read_box(FormatCgfx, &mut r);
    assert_eq!(res, Err(BinError::UnexpectedNull { offset: 4 }));
    assert_eq!(r.position(), 8);
}

#[test]
fn boxed_read_chases_and_restores() {
    let mut r = ByteReader::new(vec![4, 0, 0, 0, 0x2A, 0, 0, 0]);
    let v: u32 = read_box(FormatCgfx, &mut r).unwrap();
    assert_eq!(v, 0x2A);
    assert_eq!(r.position(), 4);
}

#[test]
fn boxed_read_of_null_is_none() {
    let mut r = ByteReader::new(vec![0, 0, 0, 0]);
    let v: Option<u32> = read_box_nullable(FormatCgfx, &mut r).unwrap();
    assert_eq!(v, None);
    assert_eq!(r.position(), 4);
}

#[test]
fn failed_nested_read_still_restores_the_cursor() {
    // The pointer leads past the end of the stream; the nested read fails,
    // and the cursor still comes back to just after the pointer word.
    let mut r = ByteReader::new(vec![0x40, 0, 0, 0, 9, 9, 9, 9]);
    let res: Result<u32, BinError> = read_box(FormatCgfx, &mut r);
    assert_eq!(res, Err(BinError::IoError));
    assert_eq!(r.position(), 4);
}

#[test]
fn string_read_failure_restores_the_cursor() {
    // The name pointer leads to bytes that are not UTF-8.
    let mut r = ByteReader::new(vec![4, 0, 0, 0, 0xFF, 0]);
    assert_eq!(FormatCgfx::read_str(&mut r), Err(BinError::InvalidEncoding));
    assert_eq!(r.position(), 4);
}

#[test]
fn relative_pointer_reads_from_its_own_position() {
    let mut r = ByteReader::new(vec![0, 0, 0, 0, 0x10, 0, 0, 0]);
    r.set_position(4);
    let p = FormatCgfx::read_relative_ptr(&mut r).unwrap();
    assert_eq!(p.value(), 0x14);
}

#[test]
fn pointer_zero32_codec() {
    let mut r = ByteReader::new(vec![0x2A, 0, 0, 0, 0, 0, 0, 0]);
    assert_eq!(PointerZero32::read(&mut r).unwrap(), Some(PointerZero32::new(0x2A)));
    assert_eq!(PointerZero32::read(&mut r).unwrap(), None);
    let mut w = vivibin::cursor::ByteWriter::new_empty();
    PointerZero32::new(0x0102_0304).write(&mut w).unwrap();
    PointerZero32::write_option(Some(PointerZero32::new(5)), &mut w).unwrap();
    PointerZero32::write_option(None, &mut w).unwrap();
    assert_eq!(w.into_inner(), vec![4, 3, 2, 1, 5, 0, 0, 0]);
}

#[test]
fn pointer_non_zero32_codec() {
    let mut r = ByteReader::new(vec![0x2A, 0, 0, 0, 0, 0, 0, 0]);
    let p = PointerNonZero32::read(&mut r).unwrap().unwrap();
    assert_eq!(p.value(), 0x2A);
    assert_eq!(p.value_non_zero(), 0x2A);
    assert_eq!(PointerNonZero32::read(&mut r).unwrap(), None);
    // The readable protocol treats a zero word as a hard error, reporting
    // the offset of the pointer word itself.
    let mut r2 = ByteReader::new(vec![0, 0, 0, 0]);
    let res = PointerNonZero32::from_reader_unboxed(&mut r2, FormatCgfx);
    assert_eq!(res, Err(BinError::UnexpectedNull { offset: 0 }));
}

#[test]
fn callback_boxed_read_hands_the_parser_the_target() {
    let r = ByteReader::new(vec![4, 0, 0, 0, 0x2A, 0, 0, 0]);
    let (r, res) = read_box_with(FormatCgfx, r, |mut rd: ByteReader, _d: FormatCgfx| {
        let v = read_u32_endian(&mut rd, Endianness::Little);
        (rd, v)
    });
    assert_eq!(res, Ok(0x2A));
    assert_eq!(r.position(), 4);
    // A null word never reaches the parser.
    let r2 = ByteReader::new(vec![0, 0, 0, 0]);
    let (r2, res2) = read_box_with(FormatCgfx, r2, |rd: ByteReader, _d: FormatCgfx| {
        (rd, Ok(0u32))
    });
    assert_eq!(res2, Err(BinError::UnexpectedNull { offset: 0 }));
    assert_eq!(r2.position(), 4);
}

#[test]
fn boxed_read_onto_the_heap() {
    let mut r = ByteReader::new(vec![4, 0, 0, 0, 0x2A, 0, 0, 0]);
    let b: Box<u32> = read_std_box(FormatCgfx, &mut r).unwrap();
    assert_eq!(*b, 0x2A);
    assert_eq!(r.position(), 4);
}

#[test]
fn record_with_sequence_and_boxed_child_round_trips() {
    // A record in the shape of the richer demonstration stream: a boxed
    // name, a vector, a flag, a length-prefixed id list, and a boxed child
    // word — written through the context, assembled, and read back.
    let position = Vec3::new(
        F32Bits { bits: 1.0f32.to_bits() },
        F32Bits { bits: 2.0f32.to_bits() },
        F32Bits { bits: 0.5f32.to_bits() },
    );
    let mut ctx: WriteCtxImpl<FormatCgfx> = WriteCtxImpl::new();
    FormatCgfx::write_str(&mut ctx, "Npc").unwrap();
    position.to_writer_unboxed(&mut ctx, &FormatCgfx).unwrap();
    true.to_writer_unboxed(&mut ctx, &FormatCgfx).unwrap();
    FormatCgfx.write_slice(&mut ctx, &[1u32, 4, 8]).unwrap();
    FormatCgfx.write_box(&mut ctx, &0x18u32).unwrap();
    let (bytes, offsets, _) = ctx.to_buffer(&FormatCgfx).unwrap();
    assert_eq!(offsets, vec![0, 32]);
    let mut expected = vec![
        0x20, 0, 0, 0, // name pointer: relative 0x20 stored at 0
        0, 0, 0x80, 0x3F, 0, 0, 0, 0x40, 0, 0, 0, 0x3F, // position
        1, 0, 0, 0, // visible
        3, 0, 0, 0, // id count
        0x0C, 0, 0, 0, // id list pointer: 36 - 24
        0x14, 0, 0, 0, // child pointer: 48 - 28
    ];
    expected.extend_from_slice(&[b'N', b'p', b'c', 0]);
    expected.extend_from_slice(&[1, 0, 0, 0, 4, 0, 0, 0, 8, 0, 0, 0]);
    expected.extend_from_slice(&[0x18, 0, 0, 0]);
    assert_eq!(bytes, expected);

    // Read the record back field by field.
    let mut r = ByteReader::new(bytes);
    let name: String = FormatCgfx.read(&mut r).unwrap();
    assert_eq!(name, "Npc");
    let pos2 = Vec3::parse(&mut r, FormatCgfx).unwrap();
    assert_eq!(pos2, position);
    assert_eq!(read_u32_endian(&mut r, Endianness::Little).unwrap(), 1);
    let ids: Vec<u32> = FormatCgfx.read_std_vec(&mut r).unwrap();
    assert_eq!(ids, vec![1, 4, 8]);
    let child: u32 = read_box(FormatCgfx, &mut r).unwrap();
    assert_eq!(child, 0x18);
    assert_eq!(r.position(), 32);
}

#[test]
fn driver_reports_little_endian() {
    assert_eq!(FormatCgfx.endianness(), Endianness::Little);
    let p = FormatCgfx.read_ptr(&mut ByteReader::new(vec![0x10, 0, 0, 0])).unwrap();
    assert_eq!(p, Some(0x10));
}
