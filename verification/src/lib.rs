//! Core of a binary serialization framework for formats whose files are a root
//! record plus a graph of heap-allocated sub-records linked by on-disk pointers.
//!
//! The write side builds a [`ctx::WriteCtxImpl`]: a set of categorised heaps of
//! byte blocks.  Nested records are placed in later blocks and referenced
//! through [`heap::HeapToken`] values; each block records where tokens were
//! written so that the assembly pass can patch the placeholders once every
//! block has a final position.  The read side pairs a cursor ([`cursor::Reader`])
//! with a scoped seek guard ([`util::SeekGuard`]) so a parser can chase a
//! pointer, read the target record, and come back.

use vstd::prelude::*;

pub mod codec;
pub mod cursor;
pub mod util;
pub mod heap;
pub mod category;
pub mod domain;
pub mod ctx;
pub mod assemble;
pub mod default_impls;
pub mod pointers;
pub mod cgfx;

use crate::heap::HeapToken;

verus! {

/// Byte order that a format driver reports; the library never assumes the
/// platform's own order.
#[derive(Clone, Copy, Debug, PartialEq, Eq, Structural)]
pub enum Endianness {
    Little,
    Big,
}

/// The one error kind of the library.
#[derive(Clone, Copy, Debug, PartialEq, Eq, Structural)]
pub enum BinError {
    /// The underlying byte cursor failed: a short read, or a seek past the end.
    IoError,
    /// A string field did not decode as UTF-8.
    InvalidEncoding,
    /// A pointer read decoded a null value where the record required a value;
    /// carries the stream offset of the pointer word.
    UnexpectedNull { offset: u64 },
    /// Assembly found a relocation whose target block never materialised;
    /// carries the offending token.
    UnresolvedRelocation { token: HeapToken },
    /// A driver declined to handle a type at a site that required it.  With
    /// the capability traits of this library that binding error surfaces in
    /// the type system, so the condition is kept only for drivers that refuse
    /// dynamically.
    DriverRefused,
}

/// Capability facet: a format driver reports one byte order.
pub trait EndianSpecific: Sized {
    /// The byte order the driver reports, as a specification-level value.
    spec fn spec_endianness(&self) -> Endianness;

    /// The byte order the driver reports.
    fn endianness(&self) -> (e: Endianness)
        ensures
            e == self.spec_endianness(),
    ;
}

} // verus!
