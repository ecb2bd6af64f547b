//! Primitive codecs: the integers, booleans, and raw float bit patterns,
//! implemented once against the generic driver interface.  Each reader takes
//! exactly the type's width in bytes and decodes in the driver's byte order;
//! each writer emits the mirror image.  The trait impls carry the same exact
//! contracts as the free functions they delegate to.

use vstd::prelude::*;
use crate::{BinError, Endianness, EndianSpecific};
use crate::codec::{
    splice_at, u16_bytes, u16_of_bytes, u32_bytes, u32_of_bytes, u64_bytes, u64_of_bytes,
    decode_u16, decode_u32, decode_u64, encode_u16, encode_u32, encode_u64,
};
use crate::ctx::{WriteCtx, WriteCtxImpl};
use crate::cursor::{Reader, Writer};
use crate::domain::{
    AnyReadable, ReadDomain, ReadableWithArgs, SimpleWritable, Writable, WriteDomain,
};

verus! {

/// The four byte widths a boolean field may occupy on the wire.
pub enum BoolSize {
    U8,
    U16,
    U32,
    U64,
}

// ---------------------------------------------------------------------------
// Free readers and writers with exact contracts; the trait impls below
// delegate to them and restate the same contracts.
// ---------------------------------------------------------------------------

/// Read one byte.
pub fn read_u8_endian<R: Reader>(reader: &mut R) -> (r: Result<u8, BinError>)
        ensures
            final(reader).data() == old(reader).data(),
            match r {
                Ok(x) => {
                    &&& 0 <= old(reader).pos()
                    &&& old(reader).pos() + 1 <= old(reader).data().len()
                    &&& x == old(reader).data()[old(reader).pos()]
                    &&& final(reader).pos() == old(reader).pos() + 1
                },
                Err(e) => {
                    &&& e == BinError::IoError
                    &&& !(0 <= old(reader).pos() && old(reader).pos() + 1 <= old(
                        reader,
                    ).data().len())
                    &&& final(reader).pos() == old(reader).pos()
                },
            },
{
    let b = match reader.read_exact(1) {
        Ok(b) => b,
        Err(e) => {
            return Err(e);
        },
    };
    Ok(b[0])
}

/// Read two bytes in the given byte order.
pub fn read_u16_endian<R: Reader>(reader: &mut R, e: Endianness) -> (r: Result<u16, BinError>)
        ensures
            final(reader).data() == old(reader).data(),
            match r {
                Ok(x) => {
                    &&& 0 <= old(reader).pos()
                    &&& old(reader).pos() + 2 <= old(reader).data().len()
                    &&& x == u16_of_bytes(
                        e,
                        old(reader).data().subrange(old(reader).pos(), old(reader).pos() + 2),
                    )
                    &&& final(reader).pos() == old(reader).pos() + 2
                },
                Err(e) => {
                    &&& e == BinError::IoError
                    &&& !(0 <= old(reader).pos() && old(reader).pos() + 2 <= old(
                        reader,
                    ).data().len())
                    &&& final(reader).pos() == old(reader).pos()
                },
            },
{
    let b = match reader.read_exact(2) {
        Ok(b) => b,
        Err(err) => {
            return Err(err);
        },
    };
    Ok(decode_u16(e, b.as_slice()))
}

/// Read four bytes in the given byte order.
pub fn read_u32_endian<R: Reader>(reader: &mut R, e: Endianness) -> (r: Result<u32, BinError>)
        ensures
            final(reader).data() == old(reader).data(),
            match r {
                Ok(x) => {
                    &&& 0 <= old(reader).pos()
                    &&& old(reader).pos() + 4 <= old(reader).data().len()
                    &&& x == u32_of_bytes(
                        e,
                        old(reader).data().subrange(old(reader).pos(), old(reader).pos() + 4),
                    )
                    &&& final(reader).pos() == old(reader).pos() + 4
                },
                Err(e) => {
                    &&& e == BinError::IoError
                    &&& !(0 <= old(reader).pos() && old(reader).pos() + 4 <= old(
                        reader,
                    ).data().len())
                    &&& final(reader).pos() == old(reader).pos()
                },
            },
{
    let b = match reader.read_exact(4) {
        Ok(b) => b,
        Err(err) => {
            return Err(err);
        },
    };
    Ok(decode_u32(e, b.as_slice()))
}

/// Read eight bytes in the given byte order.
pub fn read_u64_endian<R: Reader>(reader: &mut R, e: Endianness) -> (r: Result<u64, BinError>)
        ensures
            final(reader).data() == old(reader).data(),
            match r {
                Ok(x) => {
                    &&& 0 <= old(reader).pos()
                    &&& old(reader).pos() + 8 <= old(reader).data().len()
                    &&& x == u64_of_bytes(
                        e,
                        old(reader).data().subrange(old(reader).pos(), old(reader).pos() + 8),
                    )
                    &&& final(reader).pos() == old(reader).pos() + 8
                },
                Err(e) => {
                    &&& e == BinError::IoError
                    &&& !(0 <= old(reader).pos() && old(reader).pos() + 8 <= old(
                        reader,
                    ).data().len())
                    &&& final(reader).pos() == old(reader).pos()
                },
            },
{
    let b = match reader.read_exact(8) {
        Ok(b) => b,
        Err(err) => {
            return Err(err);
        },
    };
    Ok(decode_u64(e, b.as_slice()))
}

/// Write one byte.
pub fn write_u8_endian<W: Writer>(writer: &mut W, x: u8)
    requires
        0 <= old(writer).pos(),
        old(writer).pos() + 1 <= usize::MAX,
    ensures
        final(writer).data() == splice_at(old(writer).data(), old(writer).pos(), seq![x]),
        final(writer).pos() == old(writer).pos() + 1,
{
    let v = vec![x];
    proof {
        assert(v@ =~= seq![x]);
    }
    writer.write_all(v.as_slice());
}

/// Write two bytes in the given byte order.
pub fn write_u16_endian<W: Writer>(writer: &mut W, e: Endianness, x: u16)
    requires
        0 <= old(writer).pos(),
        old(writer).pos() + 2 <= usize::MAX,
    ensures
        final(writer).data() == splice_at(old(writer).data(), old(writer).pos(), u16_bytes(e, x)),
        final(writer).pos() == old(writer).pos() + 2,
{
    let v = encode_u16(e, x);
    proof {
        crate::codec::lemma_u16_round_trip(e, x);
    }
    writer.write_all(v.as_slice());
}

/// Write four bytes in the given byte order.
pub fn write_u32_endian<W: Writer>(writer: &mut W, e: Endianness, x: u32)
    requires
        0 <= old(writer).pos(),
        old(writer).pos() + 4 <= usize::MAX,
    ensures
        final(writer).data() == splice_at(old(writer).data(), old(writer).pos(), u32_bytes(e, x)),
        final(writer).pos() == old(writer).pos() + 4,
{
    let v = encode_u32(e, x);
    proof {
        crate::codec::lemma_u32_round_trip(e, x);
    }
    writer.write_all(v.as_slice());
}

/// Write eight bytes in the given byte order.
pub fn write_u64_endian<W: Writer>(writer: &mut W, e: Endianness, x: u64)
    requires
        0 <= old(writer).pos(),
        old(writer).pos() + 8 <= usize::MAX,
    ensures
        final(writer).data() == splice_at(old(writer).data(), old(writer).pos(), u64_bytes(e, x)),
        final(writer).pos() == old(writer).pos() + 8,
{
    let v = encode_u64(e, x);
    proof {
        crate::codec::lemma_u64_round_trip(e, x);
    }
    writer.write_all(v.as_slice());
}

/// True when a writer has room for `margin` more bytes; the trait impls
/// below check this instead of asking it of their callers.
fn has_room<W: Writer>(writer: &W, margin: u64) -> (r: bool)
    requires
        margin <= usize::MAX,
    ensures
        r <==> writer.pos() + margin <= usize::MAX,
{
    let p = writer.position();
    p <= usize::MAX as u64 - margin
}

// ---------------------------------------------------------------------------
// The raw bit patterns of floating-point fields.  The core carries them as
// plain integers; turning them into numbers is the caller's business.
// ---------------------------------------------------------------------------

/// The 32 raw bits of a single-precision float field.
#[derive(Clone, Copy, Debug, PartialEq, Eq, Structural)]
pub struct F32Bits {
    pub bits: u32,
}

/// The 64 raw bits of a double-precision float field.
#[derive(Clone, Copy, Debug, PartialEq, Eq, Structural)]
pub struct F64Bits {
    pub bits: u64,
}

impl AnyReadable for u8 {
    fn from_reader_any<R: Reader, D: ReadDomain>(reader: &mut R, domain: D) -> (r: Result<
        Self,
        BinError,
    >)
        ensures
            final(reader).data() == old(reader).data(),
            match r {
                Ok(x) => {
                    &&& 0 <= old(reader).pos()
                    &&& old(reader).pos() + 1 <= old(reader).data().len()
                    &&& x == old(reader).data()[old(reader).pos()]
                    &&& final(reader).pos() == old(reader).pos() + 1
                },
                Err(e) => {
                    &&& e == BinError::IoError
                    &&& !(0 <= old(reader).pos() && old(reader).pos() + 1 <= old(
                        reader,
                    ).data().len())
                    &&& final(reader).pos() == old(reader).pos()
                },
            },
    {
        read_u8_endian(reader)
    }
}

impl AnyReadable for u16 {
    fn from_reader_any<R: Reader, D: ReadDomain>(reader: &mut R, domain: D) -> (r: Result<
        Self,
        BinError,
    >)
        ensures
            final(reader).data() == old(reader).data(),
            match r {
                Ok(x) => {
                    &&& 0 <= old(reader).pos()
                    &&& old(reader).pos() + 2 <= old(reader).data().len()
                    &&& x == u16_of_bytes(
                        domain.spec_endianness(),
                        old(reader).data().subrange(old(reader).pos(), old(reader).pos() + 2),
                    )
                    &&& final(reader).pos() == old(reader).pos() + 2
                },
                Err(e) => {
                    &&& e == BinError::IoError
                    &&& !(0 <= old(reader).pos() && old(reader).pos() + 2 <= old(
                        reader,
                    ).data().len())
                    &&& final(reader).pos() == old(reader).pos()
                },
            },
    {
        read_u16_endian(reader, domain.endianness())
    }
}

impl AnyReadable for u32 {
    fn from_reader_any<R: Reader, D: ReadDomain>(reader: &mut R, domain: D) -> (r: Result<
        Self,
        BinError,
    >)
        ensures
            final(reader).data() == old(reader).data(),
            match r {
                Ok(x) => {
                    &&& 0 <= old(reader).pos()
                    &&& old(reader).pos() + 4 <= old(reader).data().len()
                    &&& x == u32_of_bytes(
                        domain.spec_endianness(),
                        old(reader).data().subrange(old(reader).pos(), old(reader).pos() + 4),
                    )
                    &&& final(reader).pos() == old(reader).pos() + 4
                },
                Err(e) => {
                    &&& e == BinError::IoError
                    &&& !(0 <= old(reader).pos() && old(reader).pos() + 4 <= old(
                        reader,
                    ).data().len())
                    &&& final(reader).pos() == old(reader).pos()
                },
            },
    {
        read_u32_endian(reader, domain.endianness())
    }
}

impl AnyReadable for u64 {
    fn from_reader_any<R: Reader, D: ReadDomain>(reader: &mut R, domain: D) -> (r: Result<
        Self,
        BinError,
    >)
        ensures
            final(reader).data() == old(reader).data(),
            match r {
                Ok(x) => {
                    &&& 0 <= old(reader).pos()
                    &&& old(reader).pos() + 8 <= old(reader).data().len()
                    &&& x == u64_of_bytes(
                        domain.spec_endianness(),
                        old(reader).data().subrange(old(reader).pos(), old(reader).pos() + 8),
                    )
                    &&& final(reader).pos() == old(reader).pos() + 8
                },
                Err(e) => {
                    &&& e == BinError::IoError
                    &&& !(0 <= old(reader).pos() && old(reader).pos() + 8 <= old(
                        reader,
                    ).data().len())
                    &&& final(reader).pos() == old(reader).pos()
                },
            },
    {
        read_u64_endian(reader, domain.endianness())
    }
}

impl AnyReadable for i8 {
    fn from_reader_any<R: Reader, D: ReadDomain>(reader: &mut R, domain: D) -> (r: Result<
        Self,
        BinError,
    >)
        ensures
            final(reader).data() == old(reader).data(),
            match r {
                Ok(x) => {
                    &&& 0 <= old(reader).pos()
                    &&& old(reader).pos() + 1 <= old(reader).data().len()
                    &&& x == old(reader).data()[old(reader).pos()] as i8
                    &&& final(reader).pos() == old(reader).pos() + 1
                },
                Err(e) => {
                    &&& e == BinError::IoError
                    &&& !(0 <= old(reader).pos() && old(reader).pos() + 1 <= old(
                        reader,
                    ).data().len())
                    &&& final(reader).pos() == old(reader).pos()
                },
            },
    {
        match read_u8_endian(reader) {
            Ok(x) => Ok(x as i8),
            Err(e) => Err(e),
        }
    }
}

impl AnyReadable for i16 {
    fn from_reader_any<R: Reader, D: ReadDomain>(reader: &mut R, domain: D) -> (r: Result<
        Self,
        BinError,
    >)
        ensures
            final(reader).data() == old(reader).data(),
            match r {
                Ok(x) => {
                    &&& 0 <= old(reader).pos()
                    &&& old(reader).pos() + 2 <= old(reader).data().len()
                    &&& x == u16_of_bytes(
                        domain.spec_endianness(),
                        old(reader).data().subrange(old(reader).pos(), old(reader).pos() + 2),
                    ) as i16
                    &&& final(reader).pos() == old(reader).pos() + 2
                },
                Err(e) => {
                    &&& e == BinError::IoError
                    &&& !(0 <= old(reader).pos() && old(reader).pos() + 2 <= old(
                        reader,
                    ).data().len())
                    &&& final(reader).pos() == old(reader).pos()
                },
            },
    {
        match read_u16_endian(reader, domain.endianness()) {
            Ok(x) => Ok(x as i16),
            Err(e) => Err(e),
        }
    }
}

impl AnyReadable for i32 {
    fn from_reader_any<R: Reader, D: ReadDomain>(reader: &mut R, domain: D) -> (r: Result<
        Self,
        BinError,
    >)
        ensures
            final(reader).data() == old(reader).data(),
            match r {
                Ok(x) => {
                    &&& 0 <= old(reader).pos()
                    &&& old(reader).pos() + 4 <= old(reader).data().len()
                    &&& x == u32_of_bytes(
                        domain.spec_endianness(),
                        old(reader).data().subrange(old(reader).pos(), old(reader).pos() + 4),
                    ) as i32
                    &&& final(reader).pos() == old(reader).pos() + 4
                },
                Err(e) => {
                    &&& e == BinError::IoError
                    &&& !(0 <= old(reader).pos() && old(reader).pos() + 4 <= old(
                        reader,
                    ).data().len())
                    &&& final(reader).pos() == old(reader).pos()
                },
            },
    {
        match read_u32_endian(reader, domain.endianness()) {
            Ok(x) => Ok(x as i32),
            Err(e) => Err(e),
        }
    }
}

impl AnyReadable for i64 {
    fn from_reader_any<R: Reader, D: ReadDomain>(reader: &mut R, domain: D) -> (r: Result<
        Self,
        BinError,
    >)
        ensures
            final(reader).data() == old(reader).data(),
            match r {
                Ok(x) => {
                    &&& 0 <= old(reader).pos()
                    &&& old(reader).pos() + 8 <= old(reader).data().len()
                    &&& x == u64_of_bytes(
                        domain.spec_endianness(),
                        old(reader).data().subrange(old(reader).pos(), old(reader).pos() + 8),
                    ) as i64
                    &&& final(reader).pos() == old(reader).pos() + 8
                },
                Err(e) => {
                    &&& e == BinError::IoError
                    &&& !(0 <= old(reader).pos() && old(reader).pos() + 8 <= old(
                        reader,
                    ).data().len())
                    &&& final(reader).pos() == old(reader).pos()
                },
            },
    {
        match read_u64_endian(reader, domain.endianness()) {
            Ok(x) => Ok(x as i64),
            Err(e) => Err(e),
        }
    }
}

impl AnyReadable for F32Bits {
    fn from_reader_any<R: Reader, D: ReadDomain>(reader: &mut R, domain: D) -> (r: Result<
        Self,
        BinError,
    >)
        ensures
            final(reader).data() == old(reader).data(),
            match r {
                Ok(x) => {
                    &&& 0 <= old(reader).pos()
                    &&& old(reader).pos() + 4 <= old(reader).data().len()
                    &&& x == (F32Bits { bits: u32_of_bytes(
                        domain.spec_endianness(),
                        old(reader).data().subrange(old(reader).pos(), old(reader).pos() + 4),
                    ) })
                    &&& final(reader).pos() == old(reader).pos() + 4
                },
                Err(e) => {
                    &&& e == BinError::IoError
                    &&& !(0 <= old(reader).pos() && old(reader).pos() + 4 <= old(
                        reader,
                    ).data().len())
                    &&& final(reader).pos() == old(reader).pos()
                },
            },
    {
        let bits = match read_u32_endian(reader, domain.endianness()) {
            Ok(x) => x,
            Err(e) => {
                return Err(e);
            },
        };
        Ok(F32Bits { bits })
    }
}

impl AnyReadable for F64Bits {
    fn from_reader_any<R: Reader, D: ReadDomain>(reader: &mut R, domain: D) -> (r: Result<
        Self,
        BinError,
    >)
        ensures
            final(reader).data() == old(reader).data(),
            match r {
                Ok(x) => {
                    &&& 0 <= old(reader).pos()
                    &&& old(reader).pos() + 8 <= old(reader).data().len()
                    &&& x == (F64Bits { bits: u64_of_bytes(
                        domain.spec_endianness(),
                        old(reader).data().subrange(old(reader).pos(), old(reader).pos() + 8),
                    ) })
                    &&& final(reader).pos() == old(reader).pos() + 8
                },
                Err(e) => {
                    &&& e == BinError::IoError
                    &&& !(0 <= old(reader).pos() && old(reader).pos() + 8 <= old(
                        reader,
                    ).data().len())
                    &&& final(reader).pos() == old(reader).pos()
                },
            },
    {
        let bits = match read_u64_endian(reader, domain.endianness()) {
            Ok(x) => x,
            Err(e) => {
                return Err(e);
            },
        };
        Ok(F64Bits { bits })
    }
}

impl<D: WriteDomain> SimpleWritable<D> for u8 {
    fn to_writer_simple<W: Writer>(&self, writer: &mut W, domain: &D) -> (r: Result<
        (),
        BinError,
    >)
        ensures
            r is Ok <==> old(writer).pos() + 1 <= usize::MAX,
            match r {
                Ok(_) => final(writer).data() == splice_at(
                    old(writer).data(),
                    old(writer).pos(),
                    seq![*self],
                ) && final(writer).pos() == old(writer).pos() + 1,
                Err(e) => e == BinError::IoError && *final(writer) == *old(writer),
            },
    {
        if !has_room(writer, 1) {
            return Err(BinError::IoError);
        }
        write_u8_endian(writer, *self);
        Ok(())
    }
}

impl<D: WriteDomain> SimpleWritable<D> for u16 {
    fn to_writer_simple<W: Writer>(&self, writer: &mut W, domain: &D) -> (r: Result<
        (),
        BinError,
    >)
        ensures
            r is Ok <==> old(writer).pos() + 2 <= usize::MAX,
            match r {
                Ok(_) => final(writer).data() == splice_at(
                    old(writer).data(),
                    old(writer).pos(),
                    u16_bytes(domain.spec_endianness(), *self),
                ) && final(writer).pos() == old(writer).pos() + 2,
                Err(e) => e == BinError::IoError && *final(writer) == *old(writer),
            },
    {
        if !has_room(writer, 2) {
            return Err(BinError::IoError);
        }
        write_u16_endian(writer, domain.endianness(), *self);
        Ok(())
    }
}

impl<D: WriteDomain> SimpleWritable<D> for u32 {
    fn to_writer_simple<W: Writer>(&self, writer: &mut W, domain: &D) -> (r: Result<
        (),
        BinError,
    >)
        ensures
            r is Ok <==> old(writer).pos() + 4 <= usize::MAX,
            match r {
                Ok(_) => final(writer).data() == splice_at(
                    old(writer).data(),
                    old(writer).pos(),
                    u32_bytes(domain.spec_endianness(), *self),
                ) && final(writer).pos() == old(writer).pos() + 4,
                Err(e) => e == BinError::IoError && *final(writer) == *old(writer),
            },
    {
        if !has_room(writer, 4) {
            return Err(BinError::IoError);
        }
        write_u32_endian(writer, domain.endianness(), *self);
        Ok(())
    }
}

impl<D: WriteDomain> SimpleWritable<D> for u64 {
    fn to_writer_simple<W: Writer>(&self, writer: &mut W, domain: &D) -> (r: Result<
        (),
        BinError,
    >)
        ensures
            r is Ok <==> old(writer).pos() + 8 <= usize::MAX,
            match r {
                Ok(_) => final(writer).data() == splice_at(
                    old(writer).data(),
                    old(writer).pos(),
                    u64_bytes(domain.spec_endianness(), *self),
                ) && final(writer).pos() == old(writer).pos() + 8,
                Err(e) => e == BinError::IoError && *final(writer) == *old(writer),
            },
    {
        if !has_room(writer, 8) {
            return Err(BinError::IoError);
        }
        write_u64_endian(writer, domain.endianness(), *self);
        Ok(())
    }
}

impl<D: WriteDomain> SimpleWritable<D> for i8 {
    fn to_writer_simple<W: Writer>(&self, writer: &mut W, domain: &D) -> (r: Result<
        (),
        BinError,
    >)
        ensures
            r is Ok <==> old(writer).pos() + 1 <= usize::MAX,
            match r {
                Ok(_) => final(writer).data() == splice_at(
                    old(writer).data(),
                    old(writer).pos(),
                    seq![*self as u8],
                ) && final(writer).pos() == old(writer).pos() + 1,
                Err(e) => e == BinError::IoError && *final(writer) == *old(writer),
            },
    {
        if !has_room(writer, 1) {
            return Err(BinError::IoError);
        }
        write_u8_endian(writer, *self as u8);
        Ok(())
    }
}

impl<D: WriteDomain> SimpleWritable<D> for i16 {
    fn to_writer_simple<W: Writer>(&self, writer: &mut W, domain: &D) -> (r: Result<
        (),
        BinError,
    >)
        ensures
            r is Ok <==> old(writer).pos() + 2 <= usize::MAX,
            match r {
                Ok(_) => final(writer).data() == splice_at(
                    old(writer).data(),
                    old(writer).pos(),
                    u16_bytes(domain.spec_endianness(), *self as u16),
                ) && final(writer).pos() == old(writer).pos() + 2,
                Err(e) => e == BinError::IoError && *final(writer) == *old(writer),
            },
    {
        if !has_room(writer, 2) {
            return Err(BinError::IoError);
        }
        write_u16_endian(writer, domain.endianness(), *self as u16);
        Ok(())
    }
}

impl<D: WriteDomain> SimpleWritable<D> for i32 {
    fn to_writer_simple<W: Writer>(&self, writer: &mut W, domain: &D) -> (r: Result<
        (),
        BinError,
    >)
        ensures
            r is Ok <==> old(writer).pos() + 4 <= usize::MAX,
            match r {
                Ok(_) => final(writer).data() == splice_at(
                    old(writer).data(),
                    old(writer).pos(),
                    u32_bytes(domain.spec_endianness(), *self as u32),
                ) && final(writer).pos() == old(writer).pos() + 4,
                Err(e) => e == BinError::IoError && *final(writer) == *old(writer),
            },
    {
        if !has_room(writer, 4) {
            return Err(BinError::IoError);
        }
        write_u32_endian(writer, domain.endianness(), *self as u32);
        Ok(())
    }
}

impl<D: WriteDomain> SimpleWritable<D> for i64 {
    fn to_writer_simple<W: Writer>(&self, writer: &mut W, domain: &D) -> (r: Result<
        (),
        BinError,
    >)
        ensures
            r is Ok <==> old(writer).pos() + 8 <= usize::MAX,
            match r {
                Ok(_) => final(writer).data() == splice_at(
                    old(writer).data(),
                    old(writer).pos(),
                    u64_bytes(domain.spec_endianness(), *self as u64),
                ) && final(writer).pos() == old(writer).pos() + 8,
                Err(e) => e == BinError::IoError && *final(writer) == *old(writer),
            },
    {
        if !has_room(writer, 8) {
            return Err(BinError::IoError);
        }
        write_u64_endian(writer, domain.endianness(), *self as u64);
        Ok(())
    }
}

impl<D: WriteDomain> SimpleWritable<D> for F32Bits {
    fn to_writer_simple<W: Writer>(&self, writer: &mut W, domain: &D) -> (r: Result<
        (),
        BinError,
    >)
        ensures
            r is Ok <==> old(writer).pos() + 4 <= usize::MAX,
            match r {
                Ok(_) => final(writer).data() == splice_at(
                    old(writer).data(),
                    old(writer).pos(),
                    u32_bytes(domain.spec_endianness(), self.bits),
                ) && final(writer).pos() == old(writer).pos() + 4,
                Err(e) => e == BinError::IoError && *final(writer) == *old(writer),
            },
    {
        if !has_room(writer, 4) {
            return Err(BinError::IoError);
        }
        write_u32_endian(writer, domain.endianness(), self.bits);
        Ok(())
    }
}

impl<D: WriteDomain> SimpleWritable<D> for F64Bits {
    fn to_writer_simple<W: Writer>(&self, writer: &mut W, domain: &D) -> (r: Result<
        (),
        BinError,
    >)
        ensures
            r is Ok <==> old(writer).pos() + 8 <= usize::MAX,
            match r {
                Ok(_) => final(writer).data() == splice_at(
                    old(writer).data(),
                    old(writer).pos(),
                    u64_bytes(domain.spec_endianness(), self.bits),
                ) && final(writer).pos() == old(writer).pos() + 8,
                Err(e) => e == BinError::IoError && *final(writer) == *old(writer),
            },
    {
        if !has_room(writer, 8) {
            return Err(BinError::IoError);
        }
        write_u64_endian(writer, domain.endianness(), self.bits);
        Ok(())
    }
}

impl<D: WriteDomain> Writable<D> for u8 {
    fn to_writer_unboxed(&self, ctx: &mut WriteCtxImpl<D>, domain: &D) -> (r: Result<
        (),
        BinError,
    >)
        ensures
            final(ctx).spec_heaps() == old(ctx).spec_heaps(),
            final(ctx).spec_next_id() == old(ctx).spec_next_id(),
            ({
                let dh0 = old(ctx).spec_default_heap();
                let dh1 = final(ctx).spec_default_heap();
                let p = dh0.cur_block().writer.pos();
                &&& dh1.heap_id == dh0.heap_id
                &&& dh1.current_block == dh0.current_block
                &&& dh1.blocks@.len() == dh0.blocks@.len()
                &&& (forall|k: int|
                    0 <= k < dh0.blocks@.len() && k != dh0.current_block as int
                        ==> dh1.blocks@[k] == dh0.blocks@[k])
                &&& dh1.cur_block().relocations == dh0.cur_block().relocations
                &&& (r is Ok <==> p + 1 <= usize::MAX)
                &&& match r {
                    Ok(_) => dh1.cur_block().writer.data() == splice_at(
                        dh0.cur_block().writer.data(),
                        p,
                        seq![*self],
                    ) && dh1.cur_block().writer.pos() == p + 1,
                    Err(e) => e == BinError::IoError && dh1.cur_block().writer
                        == dh0.cur_block().writer,
                }
            }),
    {
        self.to_writer_simple(ctx.cur_writer(), domain)
    }
}

impl<D: WriteDomain> Writable<D> for u16 {
    fn to_writer_unboxed(&self, ctx: &mut WriteCtxImpl<D>, domain: &D) -> (r: Result<
        (),
        BinError,
    >)
        ensures
            final(ctx).spec_heaps() == old(ctx).spec_heaps(),
            final(ctx).spec_next_id() == old(ctx).spec_next_id(),
            ({
                let dh0 = old(ctx).spec_default_heap();
                let dh1 = final(ctx).spec_default_heap();
                let p = dh0.cur_block().writer.pos();
                &&& dh1.heap_id == dh0.heap_id
                &&& dh1.current_block == dh0.current_block
                &&& dh1.blocks@.len() == dh0.blocks@.len()
                &&& (forall|k: int|
                    0 <= k < dh0.blocks@.len() && k != dh0.current_block as int
                        ==> dh1.blocks@[k] == dh0.blocks@[k])
                &&& dh1.cur_block().relocations == dh0.cur_block().relocations
                &&& (r is Ok <==> p + 2 <= usize::MAX)
                &&& match r {
                    Ok(_) => dh1.cur_block().writer.data() == splice_at(
                        dh0.cur_block().writer.data(),
                        p,
                        u16_bytes(domain.spec_endianness(), *self),
                    ) && dh1.cur_block().writer.pos() == p + 2,
                    Err(e) => e == BinError::IoError && dh1.cur_block().writer
                        == dh0.cur_block().writer,
                }
            }),
    {
        self.to_writer_simple(ctx.cur_writer(), domain)
    }
}

impl<D: WriteDomain> Writable<D> for u32 {
    fn to_writer_unboxed(&self, ctx: &mut WriteCtxImpl<D>, domain: &D) -> (r: Result<
        (),
        BinError,
    >)
        ensures
            final(ctx).spec_heaps() == old(ctx).spec_heaps(),
            final(ctx).spec_next_id() == old(ctx).spec_next_id(),
            ({
                let dh0 = old(ctx).spec_default_heap();
                let dh1 = final(ctx).spec_default_heap();
                let p = dh0.cur_block().writer.pos();
                &&& dh1.heap_id == dh0.heap_id
                &&& dh1.current_block == dh0.current_block
                &&& dh1.blocks@.len() == dh0.blocks@.len()
                &&& (forall|k: int|
                    0 <= k < dh0.blocks@.len() && k != dh0.current_block as int
                        ==> dh1.blocks@[k] == dh0.blocks@[k])
                &&& dh1.cur_block().relocations == dh0.cur_block().relocations
                &&& (r is Ok <==> p + 4 <= usize::MAX)
                &&& match r {
                    Ok(_) => dh1.cur_block().writer.data() == splice_at(
                        dh0.cur_block().writer.data(),
                        p,
                        u32_bytes(domain.spec_endianness(), *self),
                    ) && dh1.cur_block().writer.pos() == p + 4,
                    Err(e) => e == BinError::IoError && dh1.cur_block().writer
                        == dh0.cur_block().writer,
                }
            }),
    {
        self.to_writer_simple(ctx.cur_writer(), domain)
    }
}

impl<D: WriteDomain> Writable<D> for u64 {
    fn to_writer_unboxed(&self, ctx: &mut WriteCtxImpl<D>, domain: &D) -> (r: Result<
        (),
        BinError,
    >)
        ensures
            final(ctx).spec_heaps() == old(ctx).spec_heaps(),
            final(ctx).spec_next_id() == old(ctx).spec_next_id(),
            ({
                let dh0 = old(ctx).spec_default_heap();
                let dh1 = final(ctx).spec_default_heap();
                let p = dh0.cur_block().writer.pos();
                &&& dh1.heap_id == dh0.heap_id
                &&& dh1.current_block == dh0.current_block
                &&& dh1.blocks@.len() == dh0.blocks@.len()
                &&& (forall|k: int|
                    0 <= k < dh0.blocks@.len() && k != dh0.current_block as int
                        ==> dh1.blocks@[k] == dh0.blocks@[k])
                &&& dh1.cur_block().relocations == dh0.cur_block().relocations
                &&& (r is Ok <==> p + 8 <= usize::MAX)
                &&& match r {
                    Ok(_) => dh1.cur_block().writer.data() == splice_at(
                        dh0.cur_block().writer.data(),
                        p,
                        u64_bytes(domain.spec_endianness(), *self),
                    ) && dh1.cur_block().writer.pos() == p + 8,
                    Err(e) => e == BinError::IoError && dh1.cur_block().writer
                        == dh0.cur_block().writer,
                }
            }),
    {
        self.to_writer_simple(ctx.cur_writer(), domain)
    }
}

impl<D: WriteDomain> Writable<D> for i8 {
    fn to_writer_unboxed(&self, ctx: &mut WriteCtxImpl<D>, domain: &D) -> (r: Result<
        (),
        BinError,
    >)
        ensures
            final(ctx).spec_heaps() == old(ctx).spec_heaps(),
            final(ctx).spec_next_id() == old(ctx).spec_next_id(),
            ({
                let dh0 = old(ctx).spec_default_heap();
                let dh1 = final(ctx).spec_default_heap();
                let p = dh0.cur_block().writer.pos();
                &&& dh1.heap_id == dh0.heap_id
                &&& dh1.current_block == dh0.current_block
                &&& dh1.blocks@.len() == dh0.blocks@.len()
                &&& (forall|k: int|
                    0 <= k < dh0.blocks@.len() && k != dh0.current_block as int
                        ==> dh1.blocks@[k] == dh0.blocks@[k])
                &&& dh1.cur_block().relocations == dh0.cur_block().relocations
                &&& (r is Ok <==> p + 1 <= usize::MAX)
                &&& match r {
                    Ok(_) => dh1.cur_block().writer.data() == splice_at(
                        dh0.cur_block().writer.data(),
                        p,
                        seq![*self as u8],
                    ) && dh1.cur_block().writer.pos() == p + 1,
                    Err(e) => e == BinError::IoError && dh1.cur_block().writer
                        == dh0.cur_block().writer,
                }
            }),
    {
        self.to_writer_simple(ctx.cur_writer(), domain)
    }
}

impl<D: WriteDomain> Writable<D> for i16 {
    fn to_writer_unboxed(&self, ctx: &mut WriteCtxImpl<D>, domain: &D) -> (r: Result<
        (),
        BinError,
    >)
        ensures
            final(ctx).spec_heaps() == old(ctx).spec_heaps(),
            final(ctx).spec_next_id() == old(ctx).spec_next_id(),
            ({
                let dh0 = old(ctx).spec_default_heap();
                let dh1 = final(ctx).spec_default_heap();
                let p = dh0.cur_block().writer.pos();
                &&& dh1.heap_id == dh0.heap_id
                &&& dh1.current_block == dh0.current_block
                &&& dh1.blocks@.len() == dh0.blocks@.len()
                &&& (forall|k: int|
                    0 <= k < dh0.blocks@.len() && k != dh0.current_block as int
                        ==> dh1.blocks@[k] == dh0.blocks@[k])
                &&& dh1.cur_block().relocations == dh0.cur_block().relocations
                &&& (r is Ok <==> p + 2 <= usize::MAX)
                &&& match r {
                    Ok(_) => dh1.cur_block().writer.data() == splice_at(
                        dh0.cur_block().writer.data(),
                        p,
                        u16_bytes(domain.spec_endianness(), *self as u16),
                    ) && dh1.cur_block().writer.pos() == p + 2,
                    Err(e) => e == BinError::IoError && dh1.cur_block().writer
                        == dh0.cur_block().writer,
                }
            }),
    {
        self.to_writer_simple(ctx.cur_writer(), domain)
    }
}

impl<D: WriteDomain> Writable<D> for i32 {
    fn to_writer_unboxed(&self, ctx: &mut WriteCtxImpl<D>, domain: &D) -> (r: Result<
        (),
        BinError,
    >)
        ensures
            final(ctx).spec_heaps() == old(ctx).spec_heaps(),
            final(ctx).spec_next_id() == old(ctx).spec_next_id(),
            ({
                let dh0 = old(ctx).spec_default_heap();
                let dh1 = final(ctx).spec_default_heap();
                let p = dh0.cur_block().writer.pos();
                &&& dh1.heap_id == dh0.heap_id
                &&& dh1.current_block == dh0.current_block
                &&& dh1.blocks@.len() == dh0.blocks@.len()
                &&& (forall|k: int|
                    0 <= k < dh0.blocks@.len() && k != dh0.current_block as int
                        ==> dh1.blocks@[k] == dh0.blocks@[k])
                &&& dh1.cur_block().relocations == dh0.cur_block().relocations
                &&& (r is Ok <==> p + 4 <= usize::MAX)
                &&& match r {
                    Ok(_) => dh1.cur_block().writer.data() == splice_at(
                        dh0.cur_block().writer.data(),
                        p,
                        u32_bytes(domain.spec_endianness(), *self as u32),
                    ) && dh1.cur_block().writer.pos() == p + 4,
                    Err(e) => e == BinError::IoError && dh1.cur_block().writer
                        == dh0.cur_block().writer,
                }
            }),
    {
        self.to_writer_simple(ctx.cur_writer(), domain)
    }
}

impl<D: WriteDomain> Writable<D> for i64 {
    fn to_writer_unboxed(&self, ctx: &mut WriteCtxImpl<D>, domain: &D) -> (r: Result<
        (),
        BinError,
    >)
        ensures
            final(ctx).spec_heaps() == old(ctx).spec_heaps(),
            final(ctx).spec_next_id() == old(ctx).spec_next_id(),
            ({
                let dh0 = old(ctx).spec_default_heap();
                let dh1 = final(ctx).spec_default_heap();
                let p = dh0.cur_block().writer.pos();
                &&& dh1.heap_id == dh0.heap_id
                &&& dh1.current_block == dh0.current_block
                &&& dh1.blocks@.len() == dh0.blocks@.len()
                &&& (forall|k: int|
                    0 <= k < dh0.blocks@.len() && k != dh0.current_block as int
                        ==> dh1.blocks@[k] == dh0.blocks@[k])
                &&& dh1.cur_block().relocations == dh0.cur_block().relocations
                &&& (r is Ok <==> p + 8 <= usize::MAX)
                &&& match r {
                    Ok(_) => dh1.cur_block().writer.data() == splice_at(
                        dh0.cur_block().writer.data(),
                        p,
                        u64_bytes(domain.spec_endianness(), *self as u64),
                    ) && dh1.cur_block().writer.pos() == p + 8,
                    Err(e) => e == BinError::IoError && dh1.cur_block().writer
                        == dh0.cur_block().writer,
                }
            }),
    {
        self.to_writer_simple(ctx.cur_writer(), domain)
    }
}

impl<D: WriteDomain> Writable<D> for F32Bits {
    fn to_writer_unboxed(&self, ctx: &mut WriteCtxImpl<D>, domain: &D) -> (r: Result<
        (),
        BinError,
    >)
        ensures
            final(ctx).spec_heaps() == old(ctx).spec_heaps(),
            final(ctx).spec_next_id() == old(ctx).spec_next_id(),
            ({
                let dh0 = old(ctx).spec_default_heap();
                let dh1 = final(ctx).spec_default_heap();
                let p = dh0.cur_block().writer.pos();
                &&& dh1.heap_id == dh0.heap_id
                &&& dh1.current_block == dh0.current_block
                &&& dh1.blocks@.len() == dh0.blocks@.len()
                &&& (forall|k: int|
                    0 <= k < dh0.blocks@.len() && k != dh0.current_block as int
                        ==> dh1.blocks@[k] == dh0.blocks@[k])
                &&& dh1.cur_block().relocations == dh0.cur_block().relocations
                &&& (r is Ok <==> p + 4 <= usize::MAX)
                &&& match r {
                    Ok(_) => dh1.cur_block().writer.data() == splice_at(
                        dh0.cur_block().writer.data(),
                        p,
                        u32_bytes(domain.spec_endianness(), self.bits),
                    ) && dh1.cur_block().writer.pos() == p + 4,
                    Err(e) => e == BinError::IoError && dh1.cur_block().writer
                        == dh0.cur_block().writer,
                }
            }),
    {
        self.to_writer_simple(ctx.cur_writer(), domain)
    }
}

impl<D: WriteDomain> Writable<D> for F64Bits {
    fn to_writer_unboxed(&self, ctx: &mut WriteCtxImpl<D>, domain: &D) -> (r: Result<
        (),
        BinError,
    >)
        ensures
            final(ctx).spec_heaps() == old(ctx).spec_heaps(),
            final(ctx).spec_next_id() == old(ctx).spec_next_id(),
            ({
                let dh0 = old(ctx).spec_default_heap();
                let dh1 = final(ctx).spec_default_heap();
                let p = dh0.cur_block().writer.pos();
                &&& dh1.heap_id == dh0.heap_id
                &&& dh1.current_block == dh0.current_block
                &&& dh1.blocks@.len() == dh0.blocks@.len()
                &&& (forall|k: int|
                    0 <= k < dh0.blocks@.len() && k != dh0.current_block as int
                        ==> dh1.blocks@[k] == dh0.blocks@[k])
                &&& dh1.cur_block().relocations == dh0.cur_block().relocations
                &&& (r is Ok <==> p + 8 <= usize::MAX)
                &&& match r {
                    Ok(_) => dh1.cur_block().writer.data() == splice_at(
                        dh0.cur_block().writer.data(),
                        p,
                        u64_bytes(domain.spec_endianness(), self.bits),
                    ) && dh1.cur_block().writer.pos() == p + 8,
                    Err(e) => e == BinError::IoError && dh1.cur_block().writer
                        == dh0.cur_block().writer,
                }
            }),
    {
        self.to_writer_simple(ctx.cur_writer(), domain)
    }
}

impl<D: WriteDomain> Writable<D> for bool {
    fn to_writer_unboxed(&self, ctx: &mut WriteCtxImpl<D>, domain: &D) -> (r: Result<
        (),
        BinError,
    >)
        ensures
            final(ctx).spec_heaps() == old(ctx).spec_heaps(),
            final(ctx).spec_next_id() == old(ctx).spec_next_id(),
            ({
                let dh0 = old(ctx).spec_default_heap();
                let dh1 = final(ctx).spec_default_heap();
                let p = dh0.cur_block().writer.pos();
                &&& dh1.heap_id == dh0.heap_id
                &&& dh1.current_block == dh0.current_block
                &&& dh1.blocks@.len() == dh0.blocks@.len()
                &&& (forall|k: int|
                    0 <= k < dh0.blocks@.len() && k != dh0.current_block as int
                        ==> dh1.blocks@[k] == dh0.blocks@[k])
                &&& dh1.cur_block().relocations == dh0.cur_block().relocations
                &&& (r is Ok <==> p + 4 <= usize::MAX)
                &&& match r {
                    Ok(_) => dh1.cur_block().writer.data() == splice_at(
                        dh0.cur_block().writer.data(),
                        p,
                        u32_bytes(
                            domain.spec_endianness(),
                            if *self {
                                1u32
                            } else {
                                0u32
                            },
                        ),
                    ) && dh1.cur_block().writer.pos() == p + 4,
                    Err(e) => e == BinError::IoError && dh1.cur_block().writer
                        == dh0.cur_block().writer,
                }
            }),
    {
        self.to_writer_simple(ctx.cur_writer(), domain)
    }
}

// ---------------------------------------------------------------------------
// Booleans: zero is false, anything else is true; the width on the wire is
// a field configuration, four bytes by default.
// ---------------------------------------------------------------------------

impl AnyReadable for bool {
    fn from_reader_any<R: Reader, D: ReadDomain>(reader: &mut R, domain: D) -> (r: Result<
        Self,
        BinError,
    >)
        ensures
            final(reader).data() == old(reader).data(),
            match r {
                Ok(x) => {
                    &&& 0 <= old(reader).pos()
                    &&& old(reader).pos() + 4 <= old(reader).data().len()
                    &&& x == (u32_of_bytes(
                        domain.spec_endianness(),
                        old(reader).data().subrange(old(reader).pos(), old(reader).pos() + 4),
                    ) != 0)
                    &&& final(reader).pos() == old(reader).pos() + 4
                },
                Err(e) => {
                    &&& e == BinError::IoError
                    &&& !(0 <= old(reader).pos() && old(reader).pos() + 4 <= old(
                        reader,
                    ).data().len())
                    &&& final(reader).pos() == old(reader).pos()
                },
            },
    {
        bool::from_reader_args(reader, domain, BoolSize::U32)
    }
}

impl ReadableWithArgs<BoolSize> for bool {
    fn from_reader_args<R: Reader, D: ReadDomain>(reader: &mut R, domain: D, args: BoolSize) -> (r:
        Result<Self, BinError>)
        ensures
            final(reader).data() == old(reader).data(),
            ({
                let w: int = match args {
                    BoolSize::U8 => 1,
                    BoolSize::U16 => 2,
                    BoolSize::U32 => 4,
                    BoolSize::U64 => 8,
                };
                let word: int = match args {
                    BoolSize::U8 => old(reader).data()[old(reader).pos()] as int,
                    BoolSize::U16 => u16_of_bytes(
                        domain.spec_endianness(),
                        old(reader).data().subrange(old(reader).pos(), old(reader).pos() + 2),
                    ) as int,
                    BoolSize::U32 => u32_of_bytes(
                        domain.spec_endianness(),
                        old(reader).data().subrange(old(reader).pos(), old(reader).pos() + 4),
                    ) as int,
                    BoolSize::U64 => u64_of_bytes(
                        domain.spec_endianness(),
                        old(reader).data().subrange(old(reader).pos(), old(reader).pos() + 8),
                    ) as int,
                };
                match r {
                    Ok(b) => {
                        &&& 0 <= old(reader).pos()
                        &&& old(reader).pos() + w <= old(reader).data().len()
                        &&& b == (word != 0)
                        &&& final(reader).pos() == old(reader).pos() + w
                    },
                    Err(e) => {
                        &&& e == BinError::IoError
                        &&& !(0 <= old(reader).pos() && old(reader).pos() + w <= old(
                            reader,
                        ).data().len())
                        &&& final(reader).pos() == old(reader).pos()
                    },
                }
            }),
    {
        match args {
            BoolSize::U8 => match read_u8_endian(reader) {
                Ok(x) => Ok(x != 0),
                Err(e) => Err(e),
            },
            BoolSize::U16 => match read_u16_endian(reader, domain.endianness()) {
                Ok(x) => Ok(x != 0),
                Err(e) => Err(e),
            },
            BoolSize::U32 => match read_u32_endian(reader, domain.endianness()) {
                Ok(x) => Ok(x != 0),
                Err(e) => Err(e),
            },
            BoolSize::U64 => match read_u64_endian(reader, domain.endianness()) {
                Ok(x) => Ok(x != 0),
                Err(e) => Err(e),
            },
        }
    }
}

impl<D: WriteDomain> SimpleWritable<D> for bool {
    fn to_writer_simple<W: Writer>(&self, writer: &mut W, domain: &D) -> (r: Result<
        (),
        BinError,
    >)
        ensures
            r is Ok <==> old(writer).pos() + 4 <= usize::MAX,
            match r {
                Ok(_) => final(writer).data() == splice_at(
                    old(writer).data(),
                    old(writer).pos(),
                    u32_bytes(
                        domain.spec_endianness(),
                        if *self {
                            1u32
                        } else {
                            0u32
                        },
                    ),
                ) && final(writer).pos() == old(writer).pos() + 4,
                Err(e) => e == BinError::IoError && *final(writer) == *old(writer),
            },
    {
        if !has_room(writer, 4) {
            return Err(BinError::IoError);
        }
        write_u32_endian(writer, domain.endianness(), if *self {
            1
        } else {
            0
        });
        Ok(())
    }
}

} // verus!
