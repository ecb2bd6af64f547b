//! The capability set a format driver implements.  The core consumes these
//! traits to resolve pointers on the read side and to apply relocations on
//! the write side; records opt in through the readable/writable protocol.

use vstd::prelude::*;
use crate::{BinError, EndianSpecific};
use crate::category::HeapCategory;
use crate::codec::splice_at;
use crate::ctx::{WriteCtx, WriteCtxImpl};
use crate::cursor::{Reader, Writer};
use crate::util::SeekGuard;

verus! {

/// The read-side capability set of a format driver: its byte order and its
/// pointer encoding.  The provided methods implement the "decode a pointer,
/// jump, read the target, come back" idiom once, over any driver.
pub trait ReadDomain: Sized + Copy + EndianSpecific {
    /// The pointer type of this format; the core treats it opaquely.
    type Pointer;

    /// Byte width of the on-wire pointer encoding.
    spec fn ptr_width(&self) -> int;

    /// What a pointer word decodes to, given its bytes and the absolute
    /// position it was read from: the absolute target, or nothing for null.
    spec fn decoded_ptr(&self, bytes: Seq<u8>, at: int) -> Option<int>;

    /// Decode one pointer at the cursor; `Ok(None)` is a null pointer.
    fn read_ptr<R: Reader>(self, reader: &mut R) -> (r: Result<Option<u64>, BinError>)
        ensures
            final(reader).data() == old(reader).data(),
            match r {
                Ok(p) => {
                    &&& 0 <= old(reader).pos()
                    &&& old(reader).pos() + self.ptr_width() <= old(reader).data().len()
                    &&& final(reader).pos() == old(reader).pos() + self.ptr_width()
                    &&& ({
                        let dec = self.decoded_ptr(
                            old(reader).data().subrange(
                                old(reader).pos(),
                                old(reader).pos() + self.ptr_width(),
                            ),
                            old(reader).pos(),
                        );
                        match p {
                            Some(x) => dec == Some(x as int),
                            None => dec is None,
                        }
                    })
                },
                Err(e) => {
                    &&& e == BinError::IoError
                    &&& !(0 <= old(reader).pos() && old(reader).pos() + self.ptr_width() <= old(
                        reader,
                    ).data().len())
                    &&& final(reader).pos() == old(reader).pos()
                },
            },
    ;

}

/// Decode a pointer; on null return `None`, otherwise jump to its target
/// under a seek guard, read a `T` there, and restore the cursor to just
/// after the pointer word — also when the nested read fails.
pub fn read_box_nullable<D: ReadDomain, T: Readable<D>, R: Reader>(domain: D, reader: &mut R) -> (r: Result<
    Option<T>,
    BinError,
>)
    ensures
        final(reader).data() == old(reader).data(),
        ({
            let w = domain.ptr_width();
            let inb = 0 <= old(reader).pos() && old(reader).pos() + w <= old(
                reader,
            ).data().len();
            let dec = domain.decoded_ptr(
                old(reader).data().subrange(old(reader).pos(), old(reader).pos() + w),
                old(reader).pos(),
            );
            match r {
                Ok(v) => {
                    &&& inb
                    &&& final(reader).pos() == old(reader).pos() + w
                    &&& (v is None <==> dec is None)
                },
                Err(e) => (e == BinError::IoError && !inb && final(reader).pos() == old(
                    reader,
                ).pos()) || (inb && dec is Some && final(reader).pos() == old(reader).pos()
                    + w),
            }
        }),
{
    let p = match domain.read_ptr(reader) {
        Ok(p) => p,
        Err(e) => {
            return Err(e);
        },
    };
    match p {
        None => Ok(None),
        Some(target) => {
            let guard = SeekGuard::new(reader);
            reader.set_position(target);
            let v = T::from_reader_unboxed(reader, domain);
            guard.restore(reader);
            match v {
                Ok(x) => Ok(Some(x)),
                Err(e) => Err(e),
            }
        },
    }
}

/// As `read_box_nullable`, but a null pointer is an error: the record
/// required a value, so decoding a zero word fails with `UnexpectedNull`
/// naming the stream offset of the pointer word.
pub fn read_box<D: ReadDomain, T: Readable<D>, R: Reader>(domain: D, reader: &mut R) -> (r: Result<T, BinError>)
    ensures
        final(reader).data() == old(reader).data(),
        ({
            let w = domain.ptr_width();
            let inb = 0 <= old(reader).pos() && old(reader).pos() + w <= old(
                reader,
            ).data().len();
            let dec = domain.decoded_ptr(
                old(reader).data().subrange(old(reader).pos(), old(reader).pos() + w),
                old(reader).pos(),
            );
            match r {
                Ok(_) => {
                    &&& inb
                    &&& dec is Some
                    &&& final(reader).pos() == old(reader).pos() + w
                },
                Err(e) => (e == BinError::IoError && !inb && final(reader).pos() == old(
                    reader,
                ).pos()) || (inb && dec is None && e == (BinError::UnexpectedNull {
                    offset: old(reader).pos() as u64,
                }) && final(reader).pos() == old(reader).pos() + w) || (inb && dec is Some
                    && final(reader).pos() == old(reader).pos() + w),
            }
        }),
{
    let offset = reader.position();
    match read_box_nullable::<D, T, R>(domain, reader) {
        Ok(Some(x)) => Ok(x),
        Ok(None) => Err(BinError::UnexpectedNull { offset }),
        Err(e) => Err(e),
    }
}

/// Ties a boxed read's outcome to the nested parser: some reader holding
/// the bytes `d0`, positioned at `target`, was handed to `f`, which returned
/// `inner` and left a reader whose bytes are `out_data`.
pub open spec fn boxed_read_tie<
    D: ReadDomain,
    T,
    R: Reader,
    F: FnOnce(R, D) -> (R, Result<T, BinError>),
>(f: F, domain: D, d0: Seq<u8>, target: int, out_data: Seq<u8>, inner: Result<T, BinError>) -> bool {
    exists|r1: R, r2: R|
        {
            &&& r1.data() == d0
            &&& r1.pos() == target
            &&& #[trigger] call_ensures(f, (r1, domain), (r2, inner))
            &&& out_data == r2.data()
        }
}

/// As `read_box_nullable`, but with the nested read as an explicit callback
/// over an owned reader, the way a format driver hands a parser in: the
/// contract ties the result to what the callback returned for a reader
/// holding the same bytes, positioned at the pointer's decoded target.
pub fn read_box_nullable_with<
    D: ReadDomain,
    T,
    R: Reader,
    F: FnOnce(R, D) -> (R, Result<T, BinError>),
>(domain: D, reader: R, read_content: F) -> (r: (R, Result<Option<T>, BinError>))
    requires
        forall|r1: R|
            r1.data() == reader.data() ==> #[trigger] call_requires(read_content, (r1, domain)),
    ensures
        ({
            let w = domain.ptr_width();
            let inb = 0 <= reader.pos() && reader.pos() + w <= reader.data().len();
            let dec = domain.decoded_ptr(
                reader.data().subrange(reader.pos(), reader.pos() + w),
                reader.pos(),
            );
            match r.1 {
                Ok(v) => {
                    &&& inb
                    &&& r.0.pos() == reader.pos() + w
                    &&& match v {
                        None => dec is None && r.0.data() == reader.data(),
                        Some(x) => dec is Some && boxed_read_tie(
                            read_content,
                            domain,
                            reader.data(),
                            dec.unwrap(),
                            r.0.data(),
                            Ok::<T, BinError>(x),
                        ),
                    }
                },
                Err(e) => (e == BinError::IoError && !inb && r.0.data() == reader.data()
                    && r.0.pos() == reader.pos()) || (inb && dec is Some && r.0.pos()
                    == reader.pos() + w && boxed_read_tie(
                    read_content,
                    domain,
                    reader.data(),
                    dec.unwrap(),
                    r.0.data(),
                    Err::<T, BinError>(e),
                )),
            }
        }),
{
    let ghost rd0 = reader;
    let mut rd = reader;
    let p = match domain.read_ptr(&mut rd) {
        Ok(p) => p,
        Err(e) => {
            return (rd, Err(e));
        },
    };
    match p {
        None => (rd, Ok(None)),
        Some(target) => {
            let guard = SeekGuard::new(&rd);
            rd.set_position(target);
            let ghost r1s = rd;
            let (rd2, res) = read_content(rd, domain);
            let ghost r2s = rd2;
            let mut rd2 = rd2;
            guard.restore(&mut rd2);
            let ghost dec = domain.decoded_ptr(
                rd0.data().subrange(rd0.pos(), rd0.pos() + domain.ptr_width()),
                rd0.pos(),
            );
            match res {
                Ok(x) => {
                    proof {
                        assert(boxed_read_tie(
                            read_content,
                            domain,
                            rd0.data(),
                            dec.unwrap(),
                            rd2.data(),
                            Ok::<T, BinError>(x),
                        )) by {
                            assert(r1s.data() == rd0.data());
                            assert(r1s.pos() == dec.unwrap());
                            assert(call_ensures(
                                read_content,
                                (r1s, domain),
                                (r2s, Ok::<T, BinError>(x)),
                            ));
                            assert(rd2.data() == r2s.data());
                        }
                    }
                    (rd2, Ok(Some(x)))
                },
                Err(e) => {
                    proof {
                        assert(boxed_read_tie(
                            read_content,
                            domain,
                            rd0.data(),
                            dec.unwrap(),
                            rd2.data(),
                            Err::<T, BinError>(e),
                        )) by {
                            assert(call_ensures(
                                read_content,
                                (r1s, domain),
                                (r2s, Err::<T, BinError>(e)),
                            ));
                        }
                    }
                    (rd2, Err(e))
                },
            }
        },
    }
}

/// As `read_box_nullable_with`, but a null pointer is an error naming the
/// stream offset of the pointer word.
pub fn read_box_with<
    D: ReadDomain,
    T,
    R: Reader,
    F: FnOnce(R, D) -> (R, Result<T, BinError>),
>(domain: D, reader: R, read_content: F) -> (r: (R, Result<T, BinError>))
    requires
        forall|r1: R|
            r1.data() == reader.data() ==> #[trigger] call_requires(read_content, (r1, domain)),
    ensures
        ({
            let w = domain.ptr_width();
            let inb = 0 <= reader.pos() && reader.pos() + w <= reader.data().len();
            let dec = domain.decoded_ptr(
                reader.data().subrange(reader.pos(), reader.pos() + w),
                reader.pos(),
            );
            match r.1 {
                Ok(x) => {
                    &&& inb
                    &&& dec is Some
                    &&& r.0.pos() == reader.pos() + w
                    &&& boxed_read_tie(
                        read_content,
                        domain,
                        reader.data(),
                        dec.unwrap(),
                        r.0.data(),
                        Ok::<T, BinError>(x),
                    )
                },
                Err(e) => (e == BinError::IoError && !inb && r.0.data() == reader.data()
                    && r.0.pos() == reader.pos()) || (inb && dec is None && e
                    == (BinError::UnexpectedNull { offset: reader.pos() as u64 }) && r.0.data()
                    == reader.data() && r.0.pos() == reader.pos() + w) || (inb && dec is Some
                    && r.0.pos() == reader.pos() + w && boxed_read_tie(
                    read_content,
                    domain,
                    reader.data(),
                    dec.unwrap(),
                    r.0.data(),
                    Err::<T, BinError>(e),
                )),
            }
        }),
{
    let offset = reader.position();
    let (rd, res) = read_box_nullable_with::<D, T, R, F>(domain, reader, read_content);
    match res {
        Ok(Some(x)) => (rd, Ok(x)),
        Ok(None) => (rd, Err(BinError::UnexpectedNull { offset })),
        Err(e) => (rd, Err(e)),
    }
}

/// As `read_box`, but the value is kept on the heap, the way record fields
/// of boxed types are held.
pub fn read_std_box<D: ReadDomain, T: Readable<D>, R: Reader>(domain: D, reader: &mut R) -> (r:
    Result<Box<T>, BinError>)
    ensures
        final(reader).data() == old(reader).data(),
        ({
            let w = domain.ptr_width();
            let inb = 0 <= old(reader).pos() && old(reader).pos() + w <= old(
                reader,
            ).data().len();
            let dec = domain.decoded_ptr(
                old(reader).data().subrange(old(reader).pos(), old(reader).pos() + w),
                old(reader).pos(),
            );
            match r {
                Ok(_) => {
                    &&& inb
                    &&& dec is Some
                    &&& final(reader).pos() == old(reader).pos() + w
                },
                Err(e) => (e == BinError::IoError && !inb && final(reader).pos() == old(
                    reader,
                ).pos()) || (inb && dec is None && e == (BinError::UnexpectedNull {
                    offset: old(reader).pos() as u64,
                }) && final(reader).pos() == old(reader).pos() + w) || (inb && dec is Some
                    && final(reader).pos() == old(reader).pos() + w),
            }
        }),
{
    match read_box::<D, T, R>(domain, reader) {
        Ok(x) => Ok(Box::new(x)),
        Err(e) => Err(e),
    }
}

/// Per-type read capability a driver can offer; a record that names it binds
/// to the driver's own reader for `T`.
pub trait CanRead<T>: ReadDomain {
    /// Read one `T` at the cursor, the driver's way.
    fn read<R: Reader>(self, reader: &mut R) -> (r: Result<T, BinError>)
        ensures
            final(reader).data() == old(reader).data(),
    ;
}

/// Capability for length-prefixed sequences.
pub trait CanReadVec: ReadDomain {
    /// Read a length-prefixed sequence of `T` through the driver's sequence
    /// encoding.
    fn read_std_vec<T: Readable<Self>, R: Reader>(self, reader: &mut R) -> (r: Result<
        Vec<T>,
        BinError,
    >)
        ensures
            final(reader).data() == old(reader).data(),
    ;
}

/// A record type that can be read from a stream under a driver.
pub trait Readable<D: ReadDomain>: Sized {
    /// Read the record's fields inline at the cursor.
    fn from_reader_unboxed<R: Reader>(reader: &mut R, domain: D) -> (r: Result<Self, BinError>)
        ensures
            final(reader).data() == old(reader).data(),
    ;

    /// Read the record as it appears in a stream; a record that is stored
    /// behind a pointer by default overrides this with a boxed read.
    fn from_reader<R: Reader>(reader: &mut R, domain: D) -> (r: Result<Self, BinError>)
        ensures
            final(reader).data() == old(reader).data(),
    {
        Self::from_reader_unboxed(reader, domain)
    }
}

/// A record type readable the same way under every driver.
pub trait AnyReadable: Sized {
    /// Read one value at the cursor; only the driver's byte order matters.
    fn from_reader_any<R: Reader, D: ReadDomain>(reader: &mut R, domain: D) -> (r: Result<
        Self,
        BinError,
    >)
        ensures
            final(reader).data() == old(reader).data(),
    ;
}

impl<A: AnyReadable, D: ReadDomain> Readable<D> for A {
    fn from_reader_unboxed<R: Reader>(reader: &mut R, domain: D) -> (r: Result<Self, BinError>) {
        A::from_reader_any(reader, domain)
    }
}

/// A record type whose reading is steered by an argument, such as a boolean
/// width.
pub trait ReadableWithArgs<T>: Sized {
    /// Read one value at the cursor, steered by `args`.
    fn from_reader_args<R: Reader, D: ReadDomain>(reader: &mut R, domain: D, args: T) -> (r:
        Result<Self, BinError>)
        ensures
            final(reader).data() == old(reader).data(),
    ;
}

/// The write-side capability set of a format driver: its heap-category type
/// and its pointer encoding, used by the assembly pass to patch relocation
/// placeholders.
pub trait WriteDomain: Sized + EndianSpecific {
    /// The category labels this driver groups its heaps by.
    type Cat: HeapCategory;

    /// Byte width of the on-wire pointer encoding.
    spec fn ref_width(&self) -> int;

    /// The bytes `apply_reference` writes over a placeholder at absolute
    /// offset `source_pos` whose target's final absolute offset is `target`.
    spec fn encoded_ref(&self, source_pos: int, target: int) -> Seq<u8>;

    /// The pointer encoding always occupies exactly `ref_width` bytes.
    proof fn lemma_encoded_ref_len(&self, source_pos: int, target: int)
        ensures
            0 < self.encoded_ref(source_pos, target).len(),
            self.encoded_ref(source_pos, target).len() == self.ref_width(),
    ;

    /// With the writer's cursor on a placeholder, write the pointer encoding
    /// of the target's final absolute offset `heap_offset` there.
    fn apply_reference<W: Writer>(&self, writer: &mut W, heap_offset: usize) -> (r: Result<
        (),
        BinError,
    >)
        requires
            0 <= old(writer).pos(),
            old(writer).pos() + self.ref_width() <= usize::MAX,
        ensures
            r == Ok::<(), BinError>(()),
            final(writer).data() == splice_at(
                old(writer).data(),
                old(writer).pos(),
                self.encoded_ref(old(writer).pos(), heap_offset as int),
            ),
            final(writer).pos() == old(writer).pos() + self.ref_width(),
    ;
}

/// A record type that can be written into a context under a driver.  Every
/// writer keeps the context well formed, so field writes chain.
pub trait Writable<D: WriteDomain>: Sized {
    /// Write the record's fields inline into the context's current block.
    /// Whatever the record does, blocks are never removed from the default
    /// heap: later allocations stay valid.
    fn to_writer_unboxed(&self, ctx: &mut WriteCtxImpl<D>, domain: &D) -> (r: Result<
        (),
        BinError,
    >)
        requires
            old(ctx).ctx_wf(),
        ensures
            final(ctx).ctx_wf(),
            final(ctx).spec_default_heap().blocks@.len() >= old(
                ctx,
            ).spec_default_heap().blocks@.len(),
    ;

    /// Write the record as it appears in a stream; a record that is stored
    /// behind a pointer by default overrides this with a boxed write.
    fn to_writer(&self, ctx: &mut WriteCtxImpl<D>, domain: &D) -> (r: Result<(), BinError>)
        requires
            old(ctx).ctx_wf(),
        ensures
            final(ctx).ctx_wf(),
            final(ctx).spec_default_heap().blocks@.len() >= old(
                ctx,
            ).spec_default_heap().blocks@.len(),
    {
        self.to_writer_unboxed(ctx, domain)
    }
}

/// A record type writable to a bare byte sink, without heap allocation.
pub trait SimpleWritable<D: WriteDomain>: Sized {
    /// Write the value's bytes at the writer's cursor.
    fn to_writer_simple<W: Writer>(&self, writer: &mut W, domain: &D) -> (r: Result<
        (),
        BinError,
    >)
        requires
            0 <= old(writer).pos(),
        ensures
            final(writer).pos() >= old(writer).pos(),
    ;
}

/// Per-type write capability a driver can offer.
pub trait CanWrite<T>: WriteDomain {
    /// Write one `T` into the context, the driver's way.
    fn write(&self, ctx: &mut WriteCtxImpl<Self>, value: &T) -> (r: Result<(), BinError>)
        requires
            old(ctx).ctx_wf(),
        ensures
            final(ctx).ctx_wf(),
    ;
}

/// Capability to write a value behind a pointer: a nested block holding the
/// value, and a relocation where the pointer word stands.
pub trait CanWriteBox: WriteDomain {
    /// Allocate a block for `value`, write it there, and leave a pointer
    /// placeholder (with its relocation) at the current position.
    fn write_box<T: Writable<Self>>(&self, ctx: &mut WriteCtxImpl<Self>, value: &T) -> (r:
        Result<(), BinError>)
        requires
            old(ctx).ctx_wf(),
        ensures
            final(ctx).ctx_wf(),
    ;
}

/// Capability to write a length-prefixed sequence: a count, then a pointer
/// to a nested block holding the elements contiguously.
pub trait CanWriteSlice: WriteDomain {
    /// Write the sequence's count and a pointer to a block of its elements.
    fn write_slice<T: Writable<Self>>(&self, ctx: &mut WriteCtxImpl<Self>, values: &[T]) -> (r:
        Result<(), BinError>)
        requires
            old(ctx).ctx_wf(),
        ensures
            final(ctx).ctx_wf(),
    ;
}

} // verus!
