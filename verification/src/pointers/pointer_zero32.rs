//! A 32-bit pointer word where a stored zero is a legal value, read and
//! written little-endian; relative reads add the word's own position.

use vstd::prelude::*;
use crate::BinError;
use crate::codec::{splice_at, u32_bytes, u32_of_bytes};
use crate::cursor::{Reader, Writer};
use crate::default_impls::{read_u32_endian, write_u32_endian};
use crate::domain::{AnyReadable, ReadDomain};
use crate::Endianness;

verus! {

/// An opaque typed wrapper over an unsigned 32-bit pointer word.
#[derive(Clone, Copy, Debug, Default, PartialEq, Eq, PartialOrd, Ord, Hash, Structural)]
pub struct PointerZero32(pub u32);

impl PointerZero32 {
    /// Wrap a raw pointer word.
    pub fn new(value: u32) -> (p: PointerZero32)
        ensures
            p.0 == value,
    {
        PointerZero32(value)
    }

    /// Read a little-endian pointer word; a stored zero is `None`.
    pub fn read<R: Reader>(reader: &mut R) -> (r: Result<Option<PointerZero32>, BinError>)
        ensures
            final(reader).data() == old(reader).data(),
            match r {
                Ok(p) => {
                    &&& 0 <= old(reader).pos()
                    &&& old(reader).pos() + 4 <= old(reader).data().len()
                    &&& final(reader).pos() == old(reader).pos() + 4
                    &&& ({
                        let w = u32_of_bytes(
                            Endianness::Little,
                            old(reader).data().subrange(old(reader).pos(), old(reader).pos() + 4),
                        );
                        if w == 0 {
                            p is None
                        } else {
                            p == Some(PointerZero32(w))
                        }
                    })
                },
                Err(e) => {
                    &&& e == BinError::IoError
                    &&& !(0 <= old(reader).pos() && old(reader).pos() + 4 <= old(
                        reader,
                    ).data().len())
                    &&& final(reader).pos() == old(reader).pos()
                },
            },
    {
        let value = match read_u32_endian(reader, Endianness::Little) {
            Ok(x) => x,
            Err(e) => {
                return Err(e);
            },
        };
        if value != 0 {
            Ok(Some(PointerZero32(value)))
        } else {
            Ok(None)
        }
    }

    /// Read a little-endian relative pointer word: a nonzero stored value is
    /// an offset from the word's own position; zero is `None`.
    pub fn read_relative<R: Reader>(reader: &mut R) -> (r: Result<
        Option<PointerZero32>,
        BinError,
    >)
        requires
            old(reader).pos() <= u32::MAX,
        ensures
            final(reader).data() == old(reader).data(),
            match r {
                Ok(p) => {
                    &&& 0 <= old(reader).pos()
                    &&& old(reader).pos() + 4 <= old(reader).data().len()
                    &&& final(reader).pos() == old(reader).pos() + 4
                    &&& ({
                        let w = u32_of_bytes(
                            Endianness::Little,
                            old(reader).data().subrange(old(reader).pos(), old(reader).pos() + 4),
                        );
                        if w == 0 {
                            p is None
                        } else {
                            p matches Some(q) && q.0 as int == (old(reader).pos() + w) % 0x1_0000_0000
                        }
                    })
                },
                Err(e) => {
                    &&& (e == BinError::IoError && !(0 <= old(reader).pos() && old(reader).pos()
                        + 4 <= old(reader).data().len()) && final(reader).pos() == old(
                        reader,
                    ).pos())
                },
            },
    {
        let reader_pos = reader.position();
        let value = match read_u32_endian(reader, Endianness::Little) {
            Ok(x) => x,
            Err(e) => {
                return Err(e);
            },
        };
        if value != 0 {
            let sum = (reader_pos as u32).wrapping_add(value);
            proof {
                let ghost p0 = old(reader).pos();
                let w32 = reader_pos as u32;
                assert(w32 == p0);
                assert(sum == (p0 + value) % 0x1_0000_0000) by (nonlinear_arith)
                    requires
                        0 <= p0 <= u32::MAX,
                        w32 == p0,
                        value <= u32::MAX,
                        sum as int == if w32 + value > u32::MAX {
                            w32 + value - 0x1_0000_0000
                        } else {
                            w32 + value
                        },
                ;
            }
            Ok(Some(PointerZero32(sum)))
        } else {
            Ok(None)
        }
    }

    /// Write the pointer word, little-endian.
    pub fn write<W: Writer>(&self, writer: &mut W) -> (r: Result<(), BinError>)
        requires
            0 <= old(writer).pos(),
            old(writer).pos() + 4 <= usize::MAX,
        ensures
            r == Ok::<(), BinError>(()),
            final(writer).data() == splice_at(
                old(writer).data(),
                old(writer).pos(),
                u32_bytes(Endianness::Little, self.0),
            ),
            final(writer).pos() == old(writer).pos() + 4,
    {
        write_u32_endian(writer, Endianness::Little, self.0);
        Ok(())
    }

    /// Write the pointer word when there is one; a null writes nothing, the
    /// caller having emitted its placeholder already.
    pub fn write_option<W: Writer>(pointer: Option<Self>, writer: &mut W) -> (r: Result<
        (),
        BinError,
    >)
        requires
            0 <= old(writer).pos(),
            old(writer).pos() + 4 <= usize::MAX,
        ensures
            r == Ok::<(), BinError>(()),
            match pointer {
                Some(p) => final(writer).data() == splice_at(
                    old(writer).data(),
                    old(writer).pos(),
                    u32_bytes(Endianness::Little, p.0),
                ) && final(writer).pos() == old(writer).pos() + 4,
                None => *final(writer) == *old(writer),
            },
    {
        if let Some(p) = pointer {
            let r = p.write(writer);
            return r;
        }
        Ok(())
    }

    /// The raw pointer word.
    pub fn value(&self) -> (v: u32)
        ensures
            v == self.0,
    {
        self.0
    }
}

impl AnyReadable for PointerZero32 {
    fn from_reader_any<R: Reader, D: ReadDomain>(reader: &mut R, domain: D) -> (r: Result<
        Self,
        BinError,
    >)
        ensures
            match r {
                Ok(p) => {
                    &&& 0 <= old(reader).pos()
                    &&& old(reader).pos() + 4 <= old(reader).data().len()
                    &&& p == (PointerZero32(
                        u32_of_bytes(
                            domain.spec_endianness(),
                            old(reader).data().subrange(old(reader).pos(), old(reader).pos() + 4),
                        ),
                    ))
                    &&& final(reader).pos() == old(reader).pos() + 4
                },
                Err(e) => {
                    &&& e == BinError::IoError
                    &&& !(0 <= old(reader).pos() && old(reader).pos() + 4 <= old(
                        reader,
                    ).data().len())
                    &&& final(reader).pos() == old(reader).pos()
                },
            },
    {
        let value = match crate::default_impls::read_u32_endian(reader, domain.endianness()) {
            Ok(x) => x,
            Err(e) => {
                return Err(e);
            },
        };
        Ok(PointerZero32(value))
    }
}

} // verus!
