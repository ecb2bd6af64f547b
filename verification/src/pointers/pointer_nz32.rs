//! A 32-bit pointer word where a stored zero means null, so a value of this
//! type is always nonzero.

use vstd::prelude::*;
use crate::BinError;
use crate::codec::{splice_at, u32_bytes, u32_of_bytes};
use crate::cursor::{Reader, Writer};
use crate::default_impls::{read_u32_endian, write_u32_endian};
use crate::domain::{ReadDomain, Readable};
use crate::Endianness;

verus! {

/// An opaque typed wrapper over a nonzero unsigned 32-bit pointer word.
#[derive(Clone, Copy, Debug, PartialEq, Eq, PartialOrd, Ord, Hash, Structural)]
pub struct PointerNonZero32 {
    pub word: u32,
}

impl PointerNonZero32 {
    /// The word is never zero; every constructor establishes this and every
    /// method may rely on it.
    pub open spec fn wf(&self) -> bool {
        self.word != 0
    }

    /// Read a little-endian pointer word; a stored zero is `None`.
    pub fn read<R: Reader>(reader: &mut R) -> (r: Result<Option<PointerNonZero32>, BinError>)
        ensures
            final(reader).data() == old(reader).data(),
            match r {
                Ok(p) => {
                    &&& 0 <= old(reader).pos()
                    &&& old(reader).pos() + 4 <= old(reader).data().len()
                    &&& final(reader).pos() == old(reader).pos() + 4
                    &&& ({
                        let w = u32_of_bytes(
                            Endianness::Little,
                            old(reader).data().subrange(old(reader).pos(), old(reader).pos() + 4),
                        );
                        if w == 0 {
                            p is None
                        } else {
                            p == Some(PointerNonZero32 { word: w })
                        }
                    })
                },
                Err(e) => {
                    &&& e == BinError::IoError
                    &&& !(0 <= old(reader).pos() && old(reader).pos() + 4 <= old(
                        reader,
                    ).data().len())
                    &&& final(reader).pos() == old(reader).pos()
                },
            },
    {
        let value = match read_u32_endian(reader, Endianness::Little) {
            Ok(x) => x,
            Err(e) => {
                return Err(e);
            },
        };
        if value != 0 {
            Ok(Some(PointerNonZero32 { word: value }))
        } else {
            Ok(None)
        }
    }

    /// Write the pointer word, little-endian.
    pub fn write<W: Writer>(&self, writer: &mut W) -> (r: Result<(), BinError>)
        requires
            0 <= old(writer).pos(),
            old(writer).pos() + 4 <= usize::MAX,
        ensures
            r == Ok::<(), BinError>(()),
            final(writer).data() == splice_at(
                old(writer).data(),
                old(writer).pos(),
                u32_bytes(Endianness::Little, self.word),
            ),
            final(writer).pos() == old(writer).pos() + 4,
    {
        write_u32_endian(writer, Endianness::Little, self.word);
        Ok(())
    }

    /// Write the pointer word when there is one; a null writes nothing, the
    /// caller having emitted its placeholder already.
    pub fn write_option<W: Writer>(pointer: Option<Self>, writer: &mut W) -> (r: Result<
        (),
        BinError,
    >)
        requires
            0 <= old(writer).pos(),
            old(writer).pos() + 4 <= usize::MAX,
        ensures
            r == Ok::<(), BinError>(()),
            match pointer {
                Some(p) => final(writer).data() == splice_at(
                    old(writer).data(),
                    old(writer).pos(),
                    u32_bytes(Endianness::Little, p.word),
                ) && final(writer).pos() == old(writer).pos() + 4,
                None => *final(writer) == *old(writer),
            },
    {
        if let Some(p) = pointer {
            let r = p.write(writer);
            return r;
        }
        Ok(())
    }

    /// The raw pointer word.
    pub fn value(&self) -> (v: u32)
        ensures
            v == self.word,
    {
        self.word
    }

    /// The raw pointer word, which for this type is known to be nonzero.
    pub fn value_non_zero(&self) -> (v: u32)
        requires
            self.wf(),
        ensures
            v == self.word,
            v != 0,
    {
        self.word
    }
}

impl<D: ReadDomain> Readable<D> for PointerNonZero32 {
    fn from_reader_unboxed<R: Reader>(reader: &mut R, domain: D) -> (r: Result<Self, BinError>)
        ensures
            ({
                let inb = 0 <= old(reader).pos() && old(reader).pos() + 4 <= old(
                    reader,
                ).data().len();
                let w = u32_of_bytes(
                    domain.spec_endianness(),
                    old(reader).data().subrange(old(reader).pos(), old(reader).pos() + 4),
                );
                match r {
                    Ok(p) => {
                        &&& inb
                        &&& w != 0
                        &&& p == (PointerNonZero32 { word: w })
                        &&& final(reader).pos() == old(reader).pos() + 4
                    },
                    Err(e) => if inb {
                        &&& w == 0
                        &&& e == (BinError::UnexpectedNull { offset: old(reader).pos() as u64 })
                        &&& final(reader).pos() == old(reader).pos() + 4
                    } else {
                        &&& e == BinError::IoError
                        &&& final(reader).pos() == old(reader).pos()
                    },
                }
            }),
    {
        let offset = reader.position();
        let value = match crate::default_impls::read_u32_endian(reader, domain.endianness()) {
            Ok(x) => x,
            Err(e) => {
                return Err(e);
            },
        };
        if value == 0 {
            Err(BinError::UnexpectedNull { offset })
        } else {
            Ok(PointerNonZero32 { word: value })
        }
    }
}

} // verus!
