//! An example format driver in the style of 3DS container formats: little
//! endian throughout, 32-bit pointers stored relative to their own position
//! with zero meaning null, strings NUL-terminated behind a pointer.  Two
//! small records, a fixed-layout vector and a named entity, demonstrate the
//! readable/writable protocol end to end.

use vstd::prelude::*;
use vstd::utf8::{decode_utf8, encode_utf8, valid_utf8};
use crate::{BinError, Endianness, EndianSpecific};
use crate::codec::{splice_at, u32_bytes, u32_of_bytes, zeros};
use crate::cursor::{nul_scan, ByteWriter, Reader, Writer};
use crate::ctx::{WriteCtx, WriteCtxImpl};
use crate::default_impls::{read_u32_endian, write_u32_endian, F32Bits};
use crate::domain::{
    AnyReadable, CanRead, CanReadVec, CanWrite, CanWriteBox, CanWriteSlice, ReadDomain, Readable,
    Writable, WriteDomain,
};
use crate::heap::HeapToken;
use crate::pointers::PointerZero32;
use crate::util::SeekGuard;

verus! {

/// The modulus of 32-bit pointer arithmetic.
pub open spec fn ptr_mod() -> int {
    0x1_0000_0000
}

/// The word stored at `src` for a pointer whose target sits at `target`:
/// the difference, in 32-bit arithmetic.
pub open spec fn rel_word(src: int, target: int) -> u32 {
    (((target - src) % ptr_mod()) as u32)
}

/// The absolute target a relative pointer word denotes when read at `at`;
/// a zero word denotes the file origin here, since this driver leaves null
/// handling to the boxed-read path.
pub open spec fn rel_target(at: int, w: u32) -> int {
    if w == 0 {
        0
    } else {
        (at + w) % ptr_mod()
    }
}

/// In 32-bit arithmetic, the wrapped difference of the truncated operands is
/// the wrapped difference of the operands.
proof fn lemma_rel_word_trunc(t: int, s: int)
    requires
        0 <= t,
        0 <= s,
    ensures
        rel_word(s, t) == vstd::wrapping::u32_specs::wrapping_sub(
            (t % ptr_mod()) as u32,
            (s % ptr_mod()) as u32,
        ),
{
    let m = ptr_mod();
    vstd::arithmetic::div_mod::lemma_sub_mod_noop(t, s, m);
    vstd::arithmetic::div_mod::lemma_mod_bound(t, m);
    vstd::arithmetic::div_mod::lemma_mod_bound(s, m);
    let d = t % m - s % m;
    if d < 0 {
        vstd::arithmetic::div_mod::lemma_mod_add_multiples_vanish(d, m);
        vstd::arithmetic::div_mod::lemma_small_mod((d + m) as nat, m as nat);
    } else {
        vstd::arithmetic::div_mod::lemma_small_mod(d as nat, m as nat);
    }
}

/// The mirror fact for addition: the wrapped sum of the truncated operands
/// is the wrapped sum of the operands.
proof fn lemma_rel_add_trunc(at: int, w: u32)
    requires
        0 <= at,
    ensures
        ((at + w) % ptr_mod()) as u32 == vstd::wrapping::u32_specs::wrapping_add(
            (at % ptr_mod()) as u32,
            w,
        ),
{
    let m = ptr_mod();
    vstd::arithmetic::div_mod::lemma_add_mod_noop(at, w as int, m);
    vstd::arithmetic::div_mod::lemma_mod_bound(at, m);
    vstd::arithmetic::div_mod::lemma_small_mod(w as nat, m as nat);
    let d = at % m + w;
    if d >= m {
        vstd::arithmetic::div_mod::lemma_mod_sub_multiples_vanish(d, m);
        vstd::arithmetic::div_mod::lemma_small_mod((d - m) as nat, m as nat);
    } else {
        vstd::arithmetic::div_mod::lemma_small_mod(d as nat, m as nat);
    }
}

/// A relative pointer written for a later target reads back as that target:
/// encode then decode is the identity on forward references within the
/// 32-bit range.
pub proof fn lemma_rel_ptr_round_trip(src: int, target: int)
    requires
        0 <= src < target,
        target < src + ptr_mod(),
        target < ptr_mod(),
    ensures
        rel_word(src, target) != 0,
        rel_target(src, rel_word(src, target)) == target,
{
    let m = ptr_mod();
    vstd::arithmetic::div_mod::lemma_small_mod((target - src) as nat, m as nat);
    let w = rel_word(src, target);
    assert(w == target - src);
    vstd::arithmetic::div_mod::lemma_small_mod(target as nat, m as nat);
}

/// Pointer round trip through assembly: when placeholders do not overlap,
/// the four bytes the assembly pass patched in for a relocation decode, at
/// the placeholder's own position, to exactly the token's resolved absolute
/// offset — every pointer field of the output points where its token says.
pub proof fn lemma_assembled_pointer_decodes(
    hs: Seq<crate::heap::WriteHeap<ByteWriter>>,
    d: FormatCgfx,
    g: int,
    r: int,
)
    requires
        crate::assemble::relocs_in_bounds(hs, d.ref_width()),
        crate::assemble::relocs_disjoint(hs, d.ref_width()),
        0 <= g < crate::assemble::all_blocks(hs).len(),
        0 <= r < crate::assemble::all_blocks(hs)[g].2.relocations@.len(),
        crate::assemble::reloc_src(hs, g, r) < crate::assemble::resolve_target(
            hs,
            crate::assemble::reloc_token(hs, g, r),
        ),
        crate::assemble::resolve_target(hs, crate::assemble::reloc_token(hs, g, r)) < ptr_mod(),
    ensures
        d.decoded_ptr(
            crate::assemble::assembled(hs, d).subrange(
                crate::assemble::reloc_src(hs, g, r),
                crate::assemble::reloc_src(hs, g, r) + 4,
            ),
            crate::assemble::reloc_src(hs, g, r),
        ) == Some(
            crate::assemble::resolve_target(hs, crate::assemble::reloc_token(hs, g, r)),
        ),
{
    let src = crate::assemble::reloc_src(hs, g, r);
    let tgt = crate::assemble::resolve_target(hs, crate::assemble::reloc_token(hs, g, r));
    crate::assemble::lemma_assembled_disjoint(hs, d);
    assert(crate::assemble::assembled(hs, d).subrange(src, src + 4) == u32_bytes(
        Endianness::Little,
        rel_word(src, tgt),
    ));
    crate::codec::lemma_u32_round_trip(Endianness::Little, rel_word(src, tgt));
    // The source offset is nonnegative: it lies inside the flat output.
    let bs = crate::assemble::all_blocks(hs);
    assert(0 <= bs[g].2.relocations@[r].0);
    crate::assemble::lemma_start_of_mono(bs, 0, g);
    lemma_rel_ptr_round_trip(src, tgt);
}

/// The size bounds under which `FormatCgfx::write_str` must succeed: room
/// for one more block, the write target's position within the 32-bit pointer
/// range, room in the target for the string and its terminator, and room in
/// the current block for the four placeholder bytes.
pub open spec fn write_str_fits(dh: crate::heap::WriteHeap<ByteWriter>, s: Seq<char>) -> bool {
    let cur = dh.current_block as int;
    let p = dh.cur_block().writer.pos();
    let t0 = if cur + 1 == dh.blocks@.len() {
        0int
    } else {
        dh.blocks@[cur + 1].writer.pos()
    };
    &&& dh.blocks@.len() < u32::MAX - 1
    &&& t0 <= u32::MAX
    &&& t0 + encode_utf8(s).len() + 2 <= usize::MAX
    &&& p <= u32::MAX
    &&& p + 4 <= usize::MAX
}

/// The size bounds under which `Npc::emit` must succeed: the name write
/// fits, and the current block has room for the twenty record bytes.
pub open spec fn npc_emit_fits(dh: crate::heap::WriteHeap<ByteWriter>, name: Seq<char>) -> bool {
    &&& write_str_fits(dh, name)
    &&& dh.cur_block().writer.pos() + 20 <= usize::MAX
}

/// What `CanRead<u32>::read` promises for this driver, over the reader's
/// bytes, its old and new positions, and the result.
pub open spec fn cgfx_read_u32_post(d: Seq<u8>, at: int, p1: int, r: Result<u32, BinError>) -> bool {
    match r {
        Ok(x) => {
            &&& 0 <= at
            &&& at + 4 <= d.len()
            &&& x == u32_of_bytes(Endianness::Little, d.subrange(at, at + 4))
            &&& p1 == at + 4
        },
        Err(e) => {
            &&& e == BinError::IoError
            &&& !(0 <= at && at + 4 <= d.len())
            &&& p1 == at
        },
    }
}

/// What `CanRead<i32>::read` promises for this driver.
pub open spec fn cgfx_read_i32_post(d: Seq<u8>, at: int, p1: int, r: Result<i32, BinError>) -> bool {
    match r {
        Ok(x) => {
            &&& 0 <= at
            &&& at + 4 <= d.len()
            &&& x == u32_of_bytes(Endianness::Little, d.subrange(at, at + 4)) as i32
            &&& p1 == at + 4
        },
        Err(e) => {
            &&& e == BinError::IoError
            &&& !(0 <= at && at + 4 <= d.len())
            &&& p1 == at
        },
    }
}

/// What `CanRead<String>::read` promises for this driver: the boxed string
/// behind the relative pointer at the cursor.
pub open spec fn cgfx_read_string_post(d: Seq<u8>, at: int, p1: int, r: Result<String, BinError>) -> bool {
    let inb = 0 <= at && at + 4 <= d.len();
    let tgt = rel_target(at, u32_of_bytes(Endianness::Little, d.subrange(at, at + 4)));
    match r {
        Ok(s) => {
            &&& at <= u32::MAX
            &&& inb
            &&& nul_scan(d, tgt) < d.len()
            &&& valid_utf8(d.subrange(tgt, nul_scan(d, tgt)))
            &&& s@ == decode_utf8(d.subrange(tgt, nul_scan(d, tgt)))
            &&& p1 == at + 4
        },
        Err(BinError::IoError) => (at > u32::MAX && p1 == at) || (!inb && p1 == at) || (inb
            && nul_scan(d, tgt) == d.len() && p1 == at + 4),
        Err(BinError::InvalidEncoding) => {
            &&& inb
            &&& nul_scan(d, tgt) < d.len()
            &&& !valid_utf8(d.subrange(tgt, nul_scan(d, tgt)))
            &&& p1 == at + 4
        },
        Err(_) => false,
    }
}

/// What `CanRead<PointerZero32>::read` promises for this driver: the
/// relative pointer decoded at the cursor.
pub open spec fn cgfx_read_ptr_post(d: Seq<u8>, at: int, p1: int, r: Result<PointerZero32, BinError>) -> bool {
    match r {
        Ok(p) => {
            &&& at <= u32::MAX
            &&& 0 <= at
            &&& at + 4 <= d.len()
            &&& p1 == at + 4
            &&& p.0 as int == rel_target(at, u32_of_bytes(Endianness::Little, d.subrange(at, at + 4)))
        },
        Err(e) => {
            &&& e == BinError::IoError
            &&& (at > u32::MAX || !(0 <= at && at + 4 <= d.len()))
            &&& p1 == at
        },
    }
}

/// The example driver: a little-endian format with relative 32-bit pointers.
#[derive(Clone, Copy)]
pub struct FormatCgfx;

impl EndianSpecific for FormatCgfx {
    open spec fn spec_endianness(&self) -> Endianness {
        Endianness::Little
    }

    fn endianness(&self) -> Endianness {
        Endianness::Little
    }
}

impl FormatCgfx {
    /// Read a little-endian `u32`.
    pub fn read_u32<R: Reader>(reader: &mut R) -> (r: Result<u32, BinError>)
        ensures
            final(reader).data() == old(reader).data(),
            match r {
                Ok(x) => {
                    &&& 0 <= old(reader).pos()
                    &&& old(reader).pos() + 4 <= old(reader).data().len()
                    &&& x == u32_of_bytes(
                        Endianness::Little,
                        old(reader).data().subrange(old(reader).pos(), old(reader).pos() + 4),
                    )
                    &&& final(reader).pos() == old(reader).pos() + 4
                },
                Err(e) => {
                    &&& e == BinError::IoError
                    &&& !(0 <= old(reader).pos() && old(reader).pos() + 4 <= old(
                        reader,
                    ).data().len())
                    &&& final(reader).pos() == old(reader).pos()
                },
            },
    {
        read_u32_endian(reader, Endianness::Little)
    }

    /// Write a little-endian `u32`.
    pub fn write_u32<W: Writer>(writer: &mut W, value: u32) -> (r: Result<(), BinError>)
        requires
            0 <= old(writer).pos(),
            old(writer).pos() + 4 <= usize::MAX,
        ensures
            r == Ok::<(), BinError>(()),
            final(writer).data() == splice_at(
                old(writer).data(),
                old(writer).pos(),
                u32_bytes(Endianness::Little, value),
            ),
            final(writer).pos() == old(writer).pos() + 4,
    {
        write_u32_endian(writer, Endianness::Little, value);
        Ok(())
    }

    /// Read a little-endian `i32`.
    pub fn read_i32<R: Reader>(reader: &mut R) -> (r: Result<i32, BinError>)
        ensures
            final(reader).data() == old(reader).data(),
            match r {
                Ok(x) => {
                    &&& 0 <= old(reader).pos()
                    &&& old(reader).pos() + 4 <= old(reader).data().len()
                    &&& x == u32_of_bytes(
                        Endianness::Little,
                        old(reader).data().subrange(old(reader).pos(), old(reader).pos() + 4),
                    ) as i32
                    &&& final(reader).pos() == old(reader).pos() + 4
                },
                Err(e) => {
                    &&& e == BinError::IoError
                    &&& !(0 <= old(reader).pos() && old(reader).pos() + 4 <= old(
                        reader,
                    ).data().len())
                    &&& final(reader).pos() == old(reader).pos()
                },
            },
    {
        match read_u32_endian(reader, Endianness::Little) {
            Ok(x) => Ok(x as i32),
            Err(e) => Err(e),
        }
    }

    /// Write a little-endian `i32`.
    pub fn write_i32<W: Writer>(writer: &mut W, value: i32) -> (r: Result<(), BinError>)
        requires
            0 <= old(writer).pos(),
            old(writer).pos() + 4 <= usize::MAX,
        ensures
            r == Ok::<(), BinError>(()),
            final(writer).data() == splice_at(
                old(writer).data(),
                old(writer).pos(),
                u32_bytes(Endianness::Little, value as u32),
            ),
            final(writer).pos() == old(writer).pos() + 4,
    {
        write_u32_endian(writer, Endianness::Little, value as u32);
        Ok(())
    }

    /// Read a relative pointer: a zero word yields the null pointer value.
    pub fn read_relative_ptr<R: Reader>(reader: &mut R) -> (r: Result<PointerZero32, BinError>)
        requires
            old(reader).pos() <= u32::MAX,
        ensures
            final(reader).data() == old(reader).data(),
            match r {
                Ok(p) => {
                    &&& 0 <= old(reader).pos()
                    &&& old(reader).pos() + 4 <= old(reader).data().len()
                    &&& final(reader).pos() == old(reader).pos() + 4
                    &&& p.0 as int == rel_target(
                        old(reader).pos(),
                        u32_of_bytes(
                            Endianness::Little,
                            old(reader).data().subrange(old(reader).pos(), old(reader).pos() + 4),
                        ),
                    )
                },
                Err(e) => {
                    &&& e == BinError::IoError
                    &&& !(0 <= old(reader).pos() && old(reader).pos() + 4 <= old(
                        reader,
                    ).data().len())
                    &&& final(reader).pos() == old(reader).pos()
                },
            },
    {
        match PointerZero32::read_relative(reader) {
            Ok(Some(p)) => Ok(p),
            Ok(None) => Ok(PointerZero32::new(0)),
            Err(e) => Err(e),
        }
    }

    /// Write a relative pointer word for the given absolute target.
    pub fn write_relative_ptr<W: Writer>(writer: &mut W, value: PointerZero32) -> (r: Result<
        (),
        BinError,
    >)
        requires
            0 <= old(writer).pos(),
            old(writer).pos() + 4 <= usize::MAX,
        ensures
            r == Ok::<(), BinError>(()),
            final(writer).data() == splice_at(
                old(writer).data(),
                old(writer).pos(),
                u32_bytes(Endianness::Little, rel_word(old(writer).pos(), value.0 as int)),
            ),
            final(writer).pos() == old(writer).pos() + 4,
    {
        let p = writer.position();
        let rel = value.value().wrapping_sub(p as u32);
        proof {
            lemma_rel_word_trunc(value.0 as int, p as int);
            vstd::arithmetic::div_mod::lemma_small_mod(value.0 as nat, ptr_mod() as nat);
            assert((p as int) % ptr_mod() == (p as u32) as int) by {
                assert((p as u32) as int == (p as int) % ptr_mod()) by (bit_vector);
            }
        }
        write_u32_endian(writer, Endianness::Little, rel);
        Ok(())
    }

    /// Read a boxed NUL-terminated string: decode a relative pointer, jump
    /// there under a seek guard, read the string, and come back to just
    /// after the pointer word.
    pub fn read_str<R: Reader>(reader: &mut R) -> (r: Result<String, BinError>)
        requires
            old(reader).pos() <= u32::MAX,
        ensures
            final(reader).data() == old(reader).data(),
            ({
                let at = old(reader).pos();
                let d = old(reader).data();
                let inb = 0 <= at && at + 4 <= d.len();
                let tgt = rel_target(
                    at,
                    u32_of_bytes(Endianness::Little, d.subrange(at, at + 4)),
                );
                match r {
                    Ok(s) => {
                        &&& inb
                        &&& nul_scan(d, tgt) < d.len()
                        &&& valid_utf8(d.subrange(tgt, nul_scan(d, tgt)))
                        &&& s@ == decode_utf8(d.subrange(tgt, nul_scan(d, tgt)))
                        &&& final(reader).pos() == at + 4
                    },
                    Err(BinError::IoError) => (!inb && final(reader).pos() == at) || (inb
                        && nul_scan(d, tgt) == d.len() && final(reader).pos() == at + 4),
                    Err(BinError::InvalidEncoding) => {
                        &&& inb
                        &&& nul_scan(d, tgt) < d.len()
                        &&& !valid_utf8(d.subrange(tgt, nul_scan(d, tgt)))
                        &&& final(reader).pos() == at + 4
                    },
                    Err(_) => false,
                }
            }),
    {
        let ptr = match Self::read_relative_ptr(reader) {
            Ok(p) => p,
            Err(e) => {
                return Err(e);
            },
        };
        let guard = SeekGuard::new(reader);
        reader.set_position(ptr.value() as u64);
        let s = reader.read_c_str();
        guard.restore(reader);
        s
    }

    /// Write a boxed NUL-terminated string: allocate the next block of the
    /// default heap, write the string there, come back, and leave a pointer
    /// placeholder with its relocation at the current position.  Returns the
    /// token the placeholder will be patched from.
    ///
    /// Succeeds whenever the sizes fit (see `write_str_fits`); the cursor
    /// comes back to the original block on every path, and blocks are never
    /// removed.
    pub fn write_str(ctx: &mut WriteCtxImpl<FormatCgfx>, value: &str) -> (r: Result<
        HeapToken,
        BinError,
    >)
        requires
            old(ctx).ctx_wf(),
        ensures
            final(ctx).ctx_wf(),
            final(ctx).spec_heaps() == old(ctx).spec_heaps(),
            final(ctx).spec_next_id() == old(ctx).spec_next_id(),
            final(ctx).spec_default_heap().heap_id == old(ctx).spec_default_heap().heap_id,
            final(ctx).spec_default_heap().current_block == old(
                ctx,
            ).spec_default_heap().current_block,
            final(ctx).spec_default_heap().blocks@.len() >= old(
                ctx,
            ).spec_default_heap().blocks@.len(),
            write_str_fits(old(ctx).spec_default_heap(), value@) ==> r is Ok,
            match r {
                Ok(tok) => {
                    let dh0 = old(ctx).spec_default_heap();
                    let dh1 = final(ctx).spec_default_heap();
                    let cur = dh0.current_block as int;
                    let p = dh0.cur_block().writer.pos();
                    let sbytes = encode_utf8(value@) + seq![0u8];
                    &&& dh1.heap_id == dh0.heap_id
                    &&& dh1.current_block == dh0.current_block
                    &&& dh1.blocks@.len() >= dh0.blocks@.len()
                    &&& dh1.cur_block().relocations@ == dh0.cur_block().relocations@.push(
                        (p as usize, tok),
                    )
                    &&& dh1.cur_block().writer.data() == splice_at(
                        dh0.cur_block().writer.data(),
                        p,
                        zeros(4),
                    )
                    &&& dh1.cur_block().writer.pos() == p + 4
                    &&& tok.heap_id == dh0.heap_id
                    &&& (tok.block_id as int) < dh1.blocks@.len()
                    &&& tok.block_id as int != cur
                    &&& dh1.blocks@[tok.block_id as int]@.bytes.subrange(
                        tok.offset as int,
                        tok.offset + sbytes.len(),
                    ) == sbytes
                },
                Err(_) => true,
            },
    {
        let nblocks = ctx.default_heap.blocks.len();
        if nblocks >= (u32::MAX - 1) as usize {
            return Err(BinError::IoError);
        }
        let cur = ctx.default_heap.current_block;
        if cur + 1 < nblocks {
            let nxt = ctx.default_heap.blocks[cur + 1].writer.position();
            if nxt > u32::MAX as u64 {
                return Err(BinError::IoError);
            }
        }
        let ghost dh0 = ctx.default_heap;
        let (saved, tok) = ctx.begin_next_block(0);
        let sb = value.as_bytes();
        let slen = sb.len();
        proof {
            vstd::slice::axiom_spec_len(sb);
        }
        let w = ctx.cur_writer();
        let wpos = w.position();
        if wpos > (usize::MAX as u64 - 2) || slen as u64 > usize::MAX as u64 - 2 - wpos {
            ctx.end_block(saved);
            return Err(BinError::IoError);
        }
        let ghost predata = w.data();
        let ghost strpos = w.pos();
        w.write_c_str(value);
        let ghost sbytes = encode_utf8(value@) + seq![0u8];
        proof {
            crate::codec::lemma_splice_at(predata, strpos, sbytes);
            assert(splice_at(predata, strpos, sbytes).subrange(strpos, strpos + sbytes.len())
                =~= sbytes);
            assert(strpos == tok.offset as int);
        }
        ctx.end_block(saved);
        let rw = ctx.cur_writer();
        let rpos = rw.position();
        if rpos > u32::MAX as u64 || rpos > (usize::MAX - 4) as u64 {
            return Err(BinError::IoError);
        }
        ctx.write_token::<4>(tok);
        proof {
            assert(ctx.spec_default_heap().blocks@[tok.block_id as int]@.bytes.subrange(
                tok.offset as int,
                tok.offset + sbytes.len(),
            ) == sbytes);
        }
        Ok(tok)
    }
}

impl ReadDomain for FormatCgfx {
    type Pointer = PointerZero32;

    open spec fn ptr_width(&self) -> int {
        4
    }

    open spec fn decoded_ptr(&self, bytes: Seq<u8>, at: int) -> Option<int> {
        let w = u32_of_bytes(Endianness::Little, bytes);
        if w == 0 {
            None
        } else {
            Some((at + w) % ptr_mod())
        }
    }

    fn read_ptr<R: Reader>(self, reader: &mut R) -> (r: Result<Option<u64>, BinError>) {
        let at = reader.position();
        let w = match read_u32_endian(reader, Endianness::Little) {
            Ok(x) => x,
            Err(e) => {
                return Err(e);
            },
        };
        if w == 0 {
            Ok(None)
        } else {
            let target = (at as u32).wrapping_add(w);
            proof {
                lemma_rel_add_trunc(at as int, w);
                assert((at as u32) as int == (at as int) % ptr_mod()) by (bit_vector);
            }
            Ok(Some(target as u64))
        }
    }
}

impl WriteDomain for FormatCgfx {
    type Cat = u32;

    open spec fn ref_width(&self) -> int {
        4
    }

    open spec fn encoded_ref(&self, source_pos: int, target: int) -> Seq<u8> {
        u32_bytes(Endianness::Little, rel_word(source_pos, target))
    }

    proof fn lemma_encoded_ref_len(&self, source_pos: int, target: int) {
        crate::codec::lemma_u32_round_trip(
            Endianness::Little,
            rel_word(source_pos, target),
        );
    }

    fn apply_reference<W: Writer>(&self, writer: &mut W, heap_offset: usize) -> (r: Result<
        (),
        BinError,
    >) {
        let p = writer.position();
        let rel = (heap_offset as u32).wrapping_sub(p as u32);
        proof {
            lemma_rel_word_trunc(heap_offset as int, p as int);
            assert((p as u32) as int == (p as int) % ptr_mod()) by (bit_vector);
            assert((heap_offset as u32) as int == (heap_offset as int) % ptr_mod()) by {
                assert(((heap_offset as u64) as u32) as int == ((heap_offset as u64) as int)
                    % ptr_mod()) by (bit_vector);
            }
        }
        write_u32_endian(writer, Endianness::Little, rel);
        Ok(())
    }
}

impl CanWriteBox for FormatCgfx {
    fn write_box<T: Writable<Self>>(&self, ctx: &mut WriteCtxImpl<Self>, value: &T) -> (r:
        Result<(), BinError>)
        ensures
            final(ctx).spec_default_heap().current_block == old(
                ctx,
            ).spec_default_heap().current_block,
            final(ctx).spec_default_heap().blocks@.len() >= old(
                ctx,
            ).spec_default_heap().blocks@.len(),
            match r {
                Ok(_) => ({
                    let dh1 = final(ctx).spec_default_heap();
                    let q = dh1.cur_block().writer.pos() - 4;
                    &&& 0 <= q
                    &&& dh1.cur_block().relocations@.len() >= 1
                    &&& ({
                        let last = dh1.cur_block().relocations@.last();
                        &&& last.0 as int == q
                        &&& last.1.heap_id == dh1.heap_id
                        &&& last.1.block_id as int != dh1.current_block as int
                        &&& (last.1.block_id as int) < dh1.blocks@.len()
                    })
                    &&& dh1.cur_block().writer.data().subrange(q, q + 4) == zeros(4)
                }),
                Err(_) => true,
            },
    {
        let nblocks = ctx.default_heap.blocks.len();
        if nblocks >= (u32::MAX - 1) as usize {
            return Err(BinError::IoError);
        }
        let cur = ctx.default_heap.current_block;
        if cur + 1 < nblocks {
            let nxt = ctx.default_heap.blocks[cur + 1].writer.position();
            if nxt > u32::MAX as u64 {
                return Err(BinError::IoError);
            }
        }
        let (saved, tok) = ctx.begin_next_block(0);
        let res = value.to_writer_unboxed(ctx, self);
        proof {
            assert(saved < ctx.spec_default_heap().blocks@.len());
        }
        if saved < ctx.default_heap.blocks.len() {
            ctx.end_block(saved);
        }
        match res {
            Ok(_) => {},
            Err(e) => {
                return Err(e);
            },
        }
        let rw = ctx.cur_writer();
        let rpos = rw.position();
        if rpos > (usize::MAX - 4) as u64 {
            return Err(BinError::IoError);
        }
        let ghost pre = ctx.spec_default_heap().cur_block().writer.data();
        let ghost pq = ctx.spec_default_heap().cur_block().writer.pos();
        ctx.write_token::<4>(tok);
        proof {
            crate::codec::lemma_splice_at(pre, pq, zeros(4));
            assert(ctx.spec_default_heap().cur_block().writer.data().subrange(pq, pq + 4)
                =~= zeros(4));
        }
        Ok(())
    }
}

impl CanWriteSlice for FormatCgfx {
    fn write_slice<T: Writable<Self>>(&self, ctx: &mut WriteCtxImpl<Self>, values: &[T]) -> (r:
        Result<(), BinError>)
        ensures
            final(ctx).spec_default_heap().current_block == old(
                ctx,
            ).spec_default_heap().current_block,
            final(ctx).spec_default_heap().blocks@.len() >= old(
                ctx,
            ).spec_default_heap().blocks@.len(),
            match r {
                Ok(_) => ({
                    let dh0 = old(ctx).spec_default_heap();
                    let dh1 = final(ctx).spec_default_heap();
                    let p = dh0.cur_block().writer.pos();
                    let q = dh1.cur_block().writer.pos() - 4;
                    &&& 0 <= q
                    &&& dh1.cur_block().relocations@.len() >= 1
                    &&& ({
                        let last = dh1.cur_block().relocations@.last();
                        &&& last.0 as int == q
                        &&& last.1.heap_id == dh1.heap_id
                        &&& last.1.block_id as int != dh1.current_block as int
                        &&& (last.1.block_id as int) < dh1.blocks@.len()
                    })
                    &&& dh1.cur_block().writer.data().subrange(q, q + 4) == zeros(4)
                }),
                Err(_) => true,
            },
    {
        let n = values.len();
        if n > u32::MAX as usize {
            return Err(BinError::IoError);
        }
        let w = ctx.cur_writer();
        let p = w.position();
        if p > (usize::MAX - 4) as u64 {
            return Err(BinError::IoError);
        }
        write_u32_endian(w, Endianness::Little, n as u32);
        let nblocks = ctx.default_heap.blocks.len();
        if nblocks >= (u32::MAX - 1) as usize {
            return Err(BinError::IoError);
        }
        let cur = ctx.default_heap.current_block;
        if cur + 1 < nblocks {
            let nxt = ctx.default_heap.blocks[cur + 1].writer.position();
            if nxt > u32::MAX as u64 {
                return Err(BinError::IoError);
            }
        }
        let (saved, tok) = ctx.begin_next_block(0);
        let ghost l1 = ctx.spec_default_heap().blocks@.len();
        let mut i: usize = 0;
        while i < n
            invariant
                ctx.ctx_wf(),
                i <= n,
                n == values@.len(),
                saved < l1 <= ctx.spec_default_heap().blocks@.len(),
                saved == old(ctx).spec_default_heap().current_block,
                old(ctx).spec_default_heap().blocks@.len() <= l1,
            decreases n - i,
        {
            match values[i].to_writer_unboxed(ctx, self) {
                Ok(_) => {},
                Err(e) => {
                    if saved < ctx.default_heap.blocks.len() {
                        ctx.end_block(saved);
                    }
                    return Err(e);
                },
            }
            i = i + 1;
        }
        if saved < ctx.default_heap.blocks.len() {
            ctx.end_block(saved);
        }
        let rw = ctx.cur_writer();
        let rpos = rw.position();
        if rpos > (usize::MAX - 4) as u64 {
            return Err(BinError::IoError);
        }
        let ghost pre = ctx.spec_default_heap().cur_block().writer.data();
        let ghost pq = ctx.spec_default_heap().cur_block().writer.pos();
        ctx.write_token::<4>(tok);
        proof {
            crate::codec::lemma_splice_at(pre, pq, zeros(4));
            assert(ctx.spec_default_heap().cur_block().writer.data().subrange(pq, pq + 4)
                =~= zeros(4));
        }
        Ok(())
    }
}

impl CanReadVec for FormatCgfx {
    fn read_std_vec<T: Readable<Self>, R: Reader>(self, reader: &mut R) -> (r: Result<
        Vec<T>,
        BinError,
    >)
        ensures
            ({
                let d = old(reader).data();
                let p0 = old(reader).pos();
                match r {
                    Ok(v) => {
                        &&& 0 <= p0
                        &&& p0 + 8 <= d.len()
                        &&& v@.len() == u32_of_bytes(
                            Endianness::Little,
                            d.subrange(p0, p0 + 4),
                        ) as int
                        &&& final(reader).pos() == p0 + 8
                    },
                    Err(_) => final(reader).pos() == p0 || final(reader).pos() == p0 + 4
                        || final(reader).pos() == p0 + 8,
                }
            }),
    {
        let count = match read_u32_endian(reader, Endianness::Little) {
            Ok(c) => c,
            Err(e) => {
                return Err(e);
            },
        };
        let p = reader.position();
        if p > u32::MAX as u64 {
            return Err(BinError::IoError);
        }
        let ptr = match FormatCgfx::read_relative_ptr(reader) {
            Ok(p) => p,
            Err(e) => {
                return Err(e);
            },
        };
        let guard = SeekGuard::new(reader);
        reader.set_position(ptr.value() as u64);
        let mut out: Vec<T> = Vec::new();
        let mut i: u32 = 0;
        while i < count
            invariant
                i <= count,
                out@.len() == i as int,
                reader.data() == old(reader).data(),
                guard.start_pos as int == old(reader).pos() + 8,
                count == u32_of_bytes(
                    Endianness::Little,
                    old(reader).data().subrange(old(reader).pos(), old(reader).pos() + 4),
                ),
                0 <= old(reader).pos(),
                old(reader).pos() + 8 <= old(reader).data().len(),
            decreases count - i,
        {
            match T::from_reader_unboxed(reader, self) {
                Ok(v) => out.push(v),
                Err(e) => {
                    guard.restore(reader);
                    return Err(e);
                },
            }
            i = i + 1;
        }
        guard.restore(reader);
        Ok(out)
    }
}

// ---------------------------------------------------------------------------
// Two example records.
// ---------------------------------------------------------------------------

/// A fixed-layout three-component vector; the components are raw float
/// bits, since the core never interprets them as numbers.
#[derive(Clone, Copy, Debug, PartialEq, Eq, Structural)]
pub struct Vec3 {
    pub x: F32Bits,
    pub y: F32Bits,
    pub z: F32Bits,
}

/// The twelve bytes of a `Vec3` in the given byte order.
pub open spec fn vec3_bytes(e: Endianness, v: Vec3) -> Seq<u8> {
    u32_bytes(e, v.x.bits) + u32_bytes(e, v.y.bits) + u32_bytes(e, v.z.bits)
}

/// The `Vec3` read from twelve bytes in the given byte order.
pub open spec fn vec3_of_bytes(e: Endianness, s: Seq<u8>) -> Vec3
    recommends
        s.len() == 12,
{
    Vec3 {
        x: F32Bits { bits: u32_of_bytes(e, s.subrange(0, 4)) },
        y: F32Bits { bits: u32_of_bytes(e, s.subrange(4, 8)) },
        z: F32Bits { bits: u32_of_bytes(e, s.subrange(8, 12)) },
    }
}

/// Round trip for the fixed-layout record: reading back the bytes of a
/// `Vec3` reproduces the value, and re-encoding a parse reproduces the
/// bytes, in either byte order.
pub proof fn lemma_vec3_round_trip(e: Endianness, v: Vec3, s: Seq<u8>)
    requires
        s.len() == 12,
    ensures
        vec3_bytes(e, v).len() == 12,
        vec3_of_bytes(e, vec3_bytes(e, v)) == v,
        vec3_bytes(e, vec3_of_bytes(e, s)) == s,
{
    crate::codec::lemma_u32_round_trip(e, v.x.bits);
    crate::codec::lemma_u32_round_trip(e, v.y.bits);
    crate::codec::lemma_u32_round_trip(e, v.z.bits);
    let b = vec3_bytes(e, v);
    assert(b.subrange(0, 4) =~= u32_bytes(e, v.x.bits));
    assert(b.subrange(4, 8) =~= u32_bytes(e, v.y.bits));
    assert(b.subrange(8, 12) =~= u32_bytes(e, v.z.bits));
    crate::codec::lemma_u32_bytes_inverse(e, s.subrange(0, 4));
    crate::codec::lemma_u32_bytes_inverse(e, s.subrange(4, 8));
    crate::codec::lemma_u32_bytes_inverse(e, s.subrange(8, 12));
    assert(vec3_bytes(e, vec3_of_bytes(e, s)) =~= s);
}

impl Vec3 {
    /// Build a vector from its three components.
    pub fn new(x: F32Bits, y: F32Bits, z: F32Bits) -> (v: Vec3)
        ensures
            v == (Vec3 { x, y, z }),
    {
        Vec3 { x, y, z }
    }

    /// Read the three components at the cursor, in the driver's byte order.
    pub fn parse<R: Reader, D: ReadDomain>(reader: &mut R, domain: D) -> (r: Result<
        Vec3,
        BinError,
    >)
        ensures
            final(reader).data() == old(reader).data(),
            match r {
                Ok(v) => {
                    &&& 0 <= old(reader).pos()
                    &&& old(reader).pos() + 12 <= old(reader).data().len()
                    &&& v == vec3_of_bytes(
                        domain.spec_endianness(),
                        old(reader).data().subrange(old(reader).pos(), old(reader).pos() + 12),
                    )
                    &&& final(reader).pos() == old(reader).pos() + 12
                },
                Err(e) => {
                    &&& e == BinError::IoError
                    &&& !(0 <= old(reader).pos() && old(reader).pos() + 12 <= old(
                        reader,
                    ).data().len())
                    &&& old(reader).pos() <= final(reader).pos() <= old(reader).pos() + 8
                },
            },
    {
        let ghost at = reader.pos();
        let ghost d = reader.data();
        let e = domain.endianness();
        let x = match read_u32_endian(reader, e) {
            Ok(x) => x,
            Err(err) => {
                return Err(err);
            },
        };
        let y = match read_u32_endian(reader, e) {
            Ok(y) => y,
            Err(err) => {
                return Err(err);
            },
        };
        let z = match read_u32_endian(reader, e) {
            Ok(z) => z,
            Err(err) => {
                return Err(err);
            },
        };
        proof {
            let s = d.subrange(at, at + 12);
            assert(s.subrange(0, 4) =~= d.subrange(at, at + 4));
            assert(s.subrange(4, 8) =~= d.subrange(at + 4, at + 8));
            assert(s.subrange(8, 12) =~= d.subrange(at + 8, at + 12));
        }
        Ok(Vec3 { x: F32Bits { bits: x }, y: F32Bits { bits: y }, z: F32Bits { bits: z } })
    }

    /// Write the three components at the cursor, in the driver's byte order.
    pub fn emit<W: Writer, D: WriteDomain>(&self, writer: &mut W, domain: &D)
        requires
            0 <= old(writer).pos(),
            old(writer).pos() + 12 <= usize::MAX,
        ensures
            final(writer).data() == splice_at(
                old(writer).data(),
                old(writer).pos(),
                vec3_bytes(domain.spec_endianness(), *self),
            ),
            final(writer).pos() == old(writer).pos() + 12,
    {
        let ghost d0 = writer.data();
        let ghost p0 = writer.pos();
        let e = domain.endianness();
        write_u32_endian(writer, e, self.x.bits);
        write_u32_endian(writer, e, self.y.bits);
        write_u32_endian(writer, e, self.z.bits);
        proof {
            crate::codec::lemma_u32_round_trip(e, self.x.bits);
            crate::codec::lemma_u32_round_trip(e, self.y.bits);
            crate::codec::lemma_u32_round_trip(e, self.z.bits);
            crate::codec::lemma_splice_compose(d0, p0, u32_bytes(e, self.x.bits), u32_bytes(e, self.y.bits));
            crate::codec::lemma_splice_compose(
                d0,
                p0,
                u32_bytes(e, self.x.bits) + u32_bytes(e, self.y.bits),
                u32_bytes(e, self.z.bits),
            );
            assert(u32_bytes(e, self.x.bits) + u32_bytes(e, self.y.bits) + u32_bytes(
                e,
                self.z.bits,
            ) =~= vec3_bytes(e, *self));
        }
    }
}

impl AnyReadable for Vec3 {
    fn from_reader_any<R: Reader, D: ReadDomain>(reader: &mut R, domain: D) -> (r: Result<
        Self,
        BinError,
    >) {
        Vec3::parse(reader, domain)
    }
}

impl<D: WriteDomain> Writable<D> for Vec3 {
    fn to_writer_unboxed(&self, ctx: &mut WriteCtxImpl<D>, domain: &D) -> (r: Result<
        (),
        BinError,
    >)
        ensures
            final(ctx).spec_heaps() == old(ctx).spec_heaps(),
            final(ctx).spec_next_id() == old(ctx).spec_next_id(),
            ({
                let dh0 = old(ctx).spec_default_heap();
                let dh1 = final(ctx).spec_default_heap();
                let p = dh0.cur_block().writer.pos();
                &&& dh1.heap_id == dh0.heap_id
                &&& dh1.current_block == dh0.current_block
                &&& dh1.blocks@.len() == dh0.blocks@.len()
                &&& (forall|k: int|
                    0 <= k < dh0.blocks@.len() && k != dh0.current_block as int
                        ==> dh1.blocks@[k] == dh0.blocks@[k])
                &&& dh1.cur_block().relocations == dh0.cur_block().relocations
                &&& (r is Ok <==> p + 12 <= usize::MAX)
                &&& match r {
                    Ok(_) => dh1.cur_block().writer.data() == splice_at(
                        dh0.cur_block().writer.data(),
                        p,
                        vec3_bytes(domain.spec_endianness(), *self),
                    ) && dh1.cur_block().writer.pos() == p + 12,
                    Err(e) => e == BinError::IoError && dh1.cur_block().writer
                        == dh0.cur_block().writer,
                }
            }),
    {
        let w = ctx.cur_writer();
        let p = w.position();
        if p > (usize::MAX - 12) as u64 {
            return Err(BinError::IoError);
        }
        self.emit(w, domain);
        Ok(())
    }
}

/// A named entity: a name string stored behind a relative pointer, a
/// position, and a four-byte visibility flag.
#[derive(Debug)]
pub struct Npc {
    pub name: String,
    pub position: Vec3,
    pub is_visible: bool,
}

impl Npc {
    /// Read the record at the cursor: the pointer-indirect name, the
    /// position, then the flag.  Succeeds exactly when twenty bytes are
    /// available, the name pointer's target has a terminator, and the name
    /// decodes as UTF-8.
    pub fn parse<R: Reader>(reader: &mut R, domain: FormatCgfx) -> (r: Result<Npc, BinError>)
        requires
            old(reader).pos() + 20 <= u32::MAX,
        ensures
            final(reader).data() == old(reader).data(),
            ({
                let at = old(reader).pos();
                let d = old(reader).data();
                let tgt = rel_target(
                    at,
                    u32_of_bytes(Endianness::Little, d.subrange(at, at + 4)),
                );
                let name_ok = nul_scan(d, tgt) < d.len() && valid_utf8(
                    d.subrange(tgt, nul_scan(d, tgt)),
                );
                &&& match r {
                    Ok(n) => {
                        &&& 0 <= at
                        &&& at + 20 <= d.len()
                        &&& name_ok
                        &&& n.name@ == decode_utf8(d.subrange(tgt, nul_scan(d, tgt)))
                        &&& n.position == vec3_of_bytes(
                            Endianness::Little,
                            d.subrange(at + 4, at + 16),
                        )
                        &&& n.is_visible == (u32_of_bytes(
                            Endianness::Little,
                            d.subrange(at + 16, at + 20),
                        ) != 0)
                        &&& final(reader).pos() == at + 20
                    },
                    Err(_) => true,
                }
                &&& (0 <= at && at + 20 <= d.len() && name_ok) ==> r is Ok
            }),
    {
        let name = match FormatCgfx::read_str(reader) {
            Ok(s) => s,
            Err(e) => {
                return Err(e);
            },
        };
        let position = match Vec3::parse(reader, domain) {
            Ok(v) => v,
            Err(e) => {
                return Err(e);
            },
        };
        let is_visible = match read_u32_endian(reader, Endianness::Little) {
            Ok(x) => x != 0,
            Err(e) => {
                return Err(e);
            },
        };
        Ok(Npc { name, position, is_visible })
    }

    /// Write the record: the name behind a pointer into the next block, the
    /// position inline, then the flag.  On success the current block gained
    /// a relocation and twenty bytes — four placeholder bytes for the name
    /// pointer, the position, the flag — and the name itself, terminated,
    /// stands in the block the relocation's token names.  Succeeds whenever
    /// the sizes fit (see `npc_emit_fits`).
    pub fn emit(&self, ctx: &mut WriteCtxImpl<FormatCgfx>) -> (r: Result<(), BinError>)
        requires
            old(ctx).ctx_wf(),
        ensures
            final(ctx).ctx_wf(),
            final(ctx).spec_heaps() == old(ctx).spec_heaps(),
            final(ctx).spec_next_id() == old(ctx).spec_next_id(),
            final(ctx).spec_default_heap().heap_id == old(ctx).spec_default_heap().heap_id,
            final(ctx).spec_default_heap().current_block == old(
                ctx,
            ).spec_default_heap().current_block,
            final(ctx).spec_default_heap().blocks@.len() >= old(
                ctx,
            ).spec_default_heap().blocks@.len(),
            npc_emit_fits(old(ctx).spec_default_heap(), self.name@) ==> r is Ok,
            match r {
                Ok(_) => ({
                    let dh0 = old(ctx).spec_default_heap();
                    let dh1 = final(ctx).spec_default_heap();
                    let p = dh0.cur_block().writer.pos();
                    let body = zeros(4) + vec3_bytes(Endianness::Little, self.position)
                        + u32_bytes(
                        Endianness::Little,
                        if self.is_visible {
                            1u32
                        } else {
                            0u32
                        },
                    );
                    let sbytes = encode_utf8(self.name@) + seq![0u8];
                    &&& dh1.heap_id == dh0.heap_id
                    &&& dh1.current_block == dh0.current_block
                    &&& dh1.cur_block().relocations@.len() == dh0.cur_block().relocations@.len()
                        + 1
                    &&& ({
                        let tok = dh1.cur_block().relocations@.last().1;
                        &&& dh1.cur_block().relocations@ == dh0.cur_block().relocations@.push(
                            (p as usize, tok),
                        )
                        &&& tok.heap_id == dh0.heap_id
                        &&& tok.block_id as int != dh0.current_block as int
                        &&& (tok.block_id as int) < dh1.blocks@.len()
                        &&& dh1.blocks@[tok.block_id as int]@.bytes.subrange(
                            tok.offset as int,
                            tok.offset + sbytes.len(),
                        ) == sbytes
                    })
                    &&& dh1.cur_block().writer.data() == splice_at(
                        dh0.cur_block().writer.data(),
                        p,
                        body,
                    )
                    &&& dh1.cur_block().writer.pos() == p + 20
                }),
                Err(_) => true,
            },
    {
        let ghost dh0 = ctx.spec_default_heap();
        let ghost p0 = dh0.cur_block().writer.pos();
        let tok = match FormatCgfx::write_str(ctx, self.name.as_str()) {
            Ok(t) => t,
            Err(e) => {
                return Err(e);
            },
        };
        let ghost dh_mid = ctx.spec_default_heap();
        let w = ctx.cur_writer();
        let p = w.position();
        if p > (usize::MAX - 16) as u64 {
            return Err(BinError::IoError);
        }
        let d = FormatCgfx;
        self.position.emit(w, &d);
        write_u32_endian(w, Endianness::Little, if self.is_visible {
            1
        } else {
            0
        });
        proof {
            let e = Endianness::Little;
            let flag = u32_bytes(
                e,
                if self.is_visible {
                    1u32
                } else {
                    0u32
                },
            );
            crate::codec::lemma_u32_round_trip(
                e,
                if self.is_visible {
                    1u32
                } else {
                    0u32
                },
            );
            crate::codec::lemma_u32_round_trip(e, self.position.x.bits);
            crate::codec::lemma_u32_round_trip(e, self.position.y.bits);
            crate::codec::lemma_u32_round_trip(e, self.position.z.bits);
            crate::codec::lemma_splice_compose(
                dh_mid.cur_block().writer.data(),
                p0 + 4,
                vec3_bytes(e, self.position),
                flag,
            );
            crate::codec::lemma_splice_compose(
                dh0.cur_block().writer.data(),
                p0,
                zeros(4),
                vec3_bytes(e, self.position) + flag,
            );
            assert(zeros(4) + (vec3_bytes(e, self.position) + flag) =~= zeros(4) + vec3_bytes(
                e,
                self.position,
            ) + flag);
        }
        Ok(())
    }
}

impl Readable<FormatCgfx> for Npc {
    fn from_reader_unboxed<R: Reader>(reader: &mut R, domain: FormatCgfx) -> (r: Result<
        Self,
        BinError,
    >) {
        let p = reader.position();
        if p > (u32::MAX - 20) as u64 {
            return Err(BinError::IoError);
        }
        Npc::parse(reader, domain)
    }
}

impl Writable<FormatCgfx> for Npc {
    fn to_writer_unboxed(&self, ctx: &mut WriteCtxImpl<FormatCgfx>, domain: &FormatCgfx) -> (r:
        Result<(), BinError>)
        ensures
            final(ctx).spec_heaps() == old(ctx).spec_heaps(),
            final(ctx).spec_next_id() == old(ctx).spec_next_id(),
            final(ctx).spec_default_heap().current_block == old(
                ctx,
            ).spec_default_heap().current_block,
            npc_emit_fits(old(ctx).spec_default_heap(), self.name@) ==> r is Ok,
    {
        self.emit(ctx)
    }

    fn to_writer(&self, ctx: &mut WriteCtxImpl<FormatCgfx>, domain: &FormatCgfx) -> (r: Result<
        (),
        BinError,
    >)
        ensures
            final(ctx).spec_heaps() == old(ctx).spec_heaps(),
            final(ctx).spec_next_id() == old(ctx).spec_next_id(),
            final(ctx).spec_default_heap().current_block == old(
                ctx,
            ).spec_default_heap().current_block,
            npc_emit_fits(old(ctx).spec_default_heap(), self.name@) ==> r is Ok,
    {
        self.emit(ctx)
    }
}

impl CanRead<u32> for FormatCgfx {
    fn read<R: Reader>(self, reader: &mut R) -> (r: Result<u32, BinError>)
        ensures
            final(reader).data() == old(reader).data(),
            cgfx_read_u32_post(old(reader).data(), old(reader).pos(), final(reader).pos(), r),
    {
        FormatCgfx::read_u32(reader)
    }
}

impl CanRead<i32> for FormatCgfx {
    fn read<R: Reader>(self, reader: &mut R) -> (r: Result<i32, BinError>)
        ensures
            final(reader).data() == old(reader).data(),
            cgfx_read_i32_post(old(reader).data(), old(reader).pos(), final(reader).pos(), r),
    {
        FormatCgfx::read_i32(reader)
    }
}

impl CanWrite<u32> for FormatCgfx {
    fn write(&self, ctx: &mut WriteCtxImpl<Self>, value: &u32) -> (r: Result<(), BinError>)
        ensures
            final(ctx).spec_heaps() == old(ctx).spec_heaps(),
            final(ctx).spec_next_id() == old(ctx).spec_next_id(),
            ({
                let dh0 = old(ctx).spec_default_heap();
                let dh1 = final(ctx).spec_default_heap();
                let p = dh0.cur_block().writer.pos();
                &&& dh1.current_block == dh0.current_block
                &&& dh1.cur_block().relocations == dh0.cur_block().relocations
                &&& (r is Ok <==> p + 4 <= usize::MAX)
                &&& (r is Ok ==> dh1.cur_block().writer.data() == splice_at(
                    dh0.cur_block().writer.data(),
                    p,
                    u32_bytes(Endianness::Little, *value),
                ) && dh1.cur_block().writer.pos() == p + 4)
            }),
    {
        value.to_writer_unboxed(ctx, self)
    }
}

impl CanWrite<String> for FormatCgfx {
    fn write(&self, ctx: &mut WriteCtxImpl<Self>, value: &String) -> (r: Result<(), BinError>)
        ensures
            final(ctx).spec_heaps() == old(ctx).spec_heaps(),
            final(ctx).spec_next_id() == old(ctx).spec_next_id(),
            final(ctx).spec_default_heap().current_block == old(
                ctx,
            ).spec_default_heap().current_block,
            final(ctx).spec_default_heap().blocks@.len() >= old(
                ctx,
            ).spec_default_heap().blocks@.len(),
            write_str_fits(old(ctx).spec_default_heap(), value@) ==> r is Ok,
            match r {
                Ok(_) => ({
                    let dh0 = old(ctx).spec_default_heap();
                    let dh1 = final(ctx).spec_default_heap();
                    let p = dh0.cur_block().writer.pos();
                    let sbytes = encode_utf8(value@) + seq![0u8];
                    &&& dh1.cur_block().relocations@.len() == dh0.cur_block().relocations@.len()
                        + 1
                    &&& ({
                        let tok = dh1.cur_block().relocations@.last().1;
                        &&& dh1.cur_block().relocations@ == dh0.cur_block().relocations@.push(
                            (p as usize, tok),
                        )
                        &&& tok.heap_id == dh0.heap_id
                        &&& tok.block_id as int != dh0.current_block as int
                        &&& (tok.block_id as int) < dh1.blocks@.len()
                        &&& dh1.blocks@[tok.block_id as int]@.bytes.subrange(
                            tok.offset as int,
                            tok.offset + sbytes.len(),
                        ) == sbytes
                    })
                    &&& dh1.cur_block().writer.data() == splice_at(
                        dh0.cur_block().writer.data(),
                        p,
                        zeros(4),
                    )
                    &&& dh1.cur_block().writer.pos() == p + 4
                }),
                Err(_) => true,
            },
    {
        match FormatCgfx::write_str(ctx, value.as_str()) {
            Ok(_) => Ok(()),
            Err(e) => Err(e),
        }
    }
}

impl CanRead<String> for FormatCgfx {
    fn read<R: Reader>(self, reader: &mut R) -> (r: Result<String, BinError>)
        ensures
            final(reader).data() == old(reader).data(),
            cgfx_read_string_post(
                old(reader).data(),
                old(reader).pos(),
                final(reader).pos(),
                r,
            ),
    {
        let p = reader.position();
        if p > u32::MAX as u64 {
            return Err(BinError::IoError);
        }
        FormatCgfx::read_str(reader)
    }
}

impl CanRead<PointerZero32> for FormatCgfx {
    fn read<R: Reader>(self, reader: &mut R) -> (r: Result<PointerZero32, BinError>)
        ensures
            final(reader).data() == old(reader).data(),
            cgfx_read_ptr_post(old(reader).data(), old(reader).pos(), final(reader).pos(), r),
    {
        let p = reader.position();
        if p > u32::MAX as u64 {
            return Err(BinError::IoError);
        }
        FormatCgfx::read_relative_ptr(reader)
    }
}

impl CanWrite<i32> for FormatCgfx {
    fn write(&self, ctx: &mut WriteCtxImpl<Self>, value: &i32) -> (r: Result<(), BinError>)
        ensures
            final(ctx).spec_heaps() == old(ctx).spec_heaps(),
            final(ctx).spec_next_id() == old(ctx).spec_next_id(),
            ({
                let dh0 = old(ctx).spec_default_heap();
                let dh1 = final(ctx).spec_default_heap();
                let p = dh0.cur_block().writer.pos();
                &&& dh1.current_block == dh0.current_block
                &&& dh1.cur_block().relocations == dh0.cur_block().relocations
                &&& (r is Ok <==> p + 4 <= usize::MAX)
                &&& (r is Ok ==> dh1.cur_block().writer.data() == splice_at(
                    dh0.cur_block().writer.data(),
                    p,
                    u32_bytes(Endianness::Little, *value as u32),
                ) && dh1.cur_block().writer.pos() == p + 4)
            }),
    {
        value.to_writer_unboxed(ctx, self)
    }
}

impl CanWrite<PointerZero32> for FormatCgfx {
    fn write(&self, ctx: &mut WriteCtxImpl<Self>, value: &PointerZero32) -> (r: Result<
        (),
        BinError,
    >)
        ensures
            final(ctx).spec_heaps() == old(ctx).spec_heaps(),
            final(ctx).spec_next_id() == old(ctx).spec_next_id(),
            ({
                let dh0 = old(ctx).spec_default_heap();
                let dh1 = final(ctx).spec_default_heap();
                let p = dh0.cur_block().writer.pos();
                &&& dh1.current_block == dh0.current_block
                &&& dh1.cur_block().relocations == dh0.cur_block().relocations
                &&& (r is Ok <==> p + 4 <= usize::MAX)
                &&& (r is Ok ==> dh1.cur_block().writer.data() == splice_at(
                    dh0.cur_block().writer.data(),
                    p,
                    u32_bytes(Endianness::Little, rel_word(p, value.0 as int)),
                ) && dh1.cur_block().writer.pos() == p + 4)
            }),
    {
        let w = ctx.cur_writer();
        let p = w.position();
        if p > (usize::MAX - 4) as u64 {
            return Err(BinError::IoError);
        }
        FormatCgfx::write_relative_ptr(w, *value)
    }
}

} // verus!
