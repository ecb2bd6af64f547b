//! Byte-level specification functions shared by the whole library: splicing
//! bytes into a stream at a cursor, and the integer codecs for both byte
//! orders, with their round-trip laws.

use vstd::prelude::*;
use vstd::bytes::*;
use crate::Endianness;

verus! {

/// An all-zero byte sequence of the given length.
pub open spec fn zeros(n: int) -> Seq<u8> {
    Seq::new(n as nat, |i: int| 0u8)
}

/// `data` extended with zero bytes up to length `n`; unchanged when already
/// at least that long.
pub open spec fn zero_pad_to(data: Seq<u8>, n: int) -> Seq<u8> {
    if n <= data.len() {
        data
    } else {
        data + zeros(n - data.len())
    }
}

/// `data` with `patch` overwriting the bytes starting at `pos`.  A gap between
/// the end of `data` and `pos` is zero-filled, and the result grows when the
/// patch runs past the end; writing an empty patch changes nothing.  This is
/// how a seekable in-memory writer behaves.
pub open spec fn splice_at(data: Seq<u8>, pos: int, patch: Seq<u8>) -> Seq<u8>
    recommends
        0 <= pos,
{
    if patch.len() == 0 {
        data
    } else {
        let base = zero_pad_to(data, pos + patch.len());
        base.subrange(0, pos) + patch + base.subrange(pos + patch.len(), base.len() as int)
    }
}

/// Pointwise reading of `splice_at`: the patched range shows the patch, the
/// gap (if any) shows zeros, and everything else shows `data`.
pub proof fn lemma_splice_at(data: Seq<u8>, pos: int, patch: Seq<u8>)
    requires
        0 <= pos,
    ensures
        splice_at(data, pos, patch).len() == if patch.len() == 0 {
            data.len() as int
        } else if pos + patch.len() >= data.len() {
            pos + patch.len()
        } else {
            data.len() as int
        },
        forall|j: int|
            0 <= j < data.len() && (j < pos || j >= pos + patch.len())
                ==> splice_at(data, pos, patch)[j] == data[j],
        forall|j: int|
            patch.len() > 0 && data.len() <= j < pos ==> splice_at(data, pos, patch)[j] == 0u8,
        forall|j: int|
            pos <= j < pos + patch.len() ==> splice_at(data, pos, patch)[j] == patch[j - pos],
{
}

/// Two consecutive writes compose into one write of the concatenation.
pub proof fn lemma_splice_compose(data: Seq<u8>, pos: int, a: Seq<u8>, b: Seq<u8>)
    requires
        0 <= pos,
    ensures
        splice_at(splice_at(data, pos, a), pos + a.len(), b) == splice_at(data, pos, a + b),
{
    lemma_splice_at(data, pos, a);
    lemma_splice_at(splice_at(data, pos, a), pos + a.len(), b);
    lemma_splice_at(data, pos, a + b);
    assert(splice_at(splice_at(data, pos, a), pos + a.len(), b) =~= splice_at(
        data,
        pos,
        a + b,
    ));
}

/// Appending at the end of the stream is plain concatenation.
pub proof fn lemma_splice_append(data: Seq<u8>, patch: Seq<u8>)
    ensures
        splice_at(data, data.len() as int, patch) == data + patch,
{
    lemma_splice_at(data, data.len() as int, patch);
    assert(splice_at(data, data.len() as int, patch) =~= data + patch);
}

// ---------------------------------------------------------------------------
// Integer codecs.  Little-endian layouts come from vstd; the big-endian
// layout is the little-endian one reversed.
// ---------------------------------------------------------------------------

/// The two bytes of `x` in the given byte order.
pub open spec fn u16_bytes(e: Endianness, x: u16) -> Seq<u8> {
    match e {
        Endianness::Little => spec_u16_to_le_bytes(x),
        Endianness::Big => spec_u16_to_le_bytes(x).reverse(),
    }
}

/// The `u16` read from two bytes in the given byte order.
pub open spec fn u16_of_bytes(e: Endianness, s: Seq<u8>) -> u16
    recommends
        s.len() == 2,
{
    match e {
        Endianness::Little => spec_u16_from_le_bytes(s),
        Endianness::Big => spec_u16_from_le_bytes(s.reverse()),
    }
}

/// The four bytes of `x` in the given byte order.
pub open spec fn u32_bytes(e: Endianness, x: u32) -> Seq<u8> {
    match e {
        Endianness::Little => spec_u32_to_le_bytes(x),
        Endianness::Big => spec_u32_to_le_bytes(x).reverse(),
    }
}

/// The `u32` read from four bytes in the given byte order.
pub open spec fn u32_of_bytes(e: Endianness, s: Seq<u8>) -> u32
    recommends
        s.len() == 4,
{
    match e {
        Endianness::Little => spec_u32_from_le_bytes(s),
        Endianness::Big => spec_u32_from_le_bytes(s.reverse()),
    }
}

/// The eight bytes of `x` in the given byte order.
pub open spec fn u64_bytes(e: Endianness, x: u64) -> Seq<u8> {
    match e {
        Endianness::Little => spec_u64_to_le_bytes(x),
        Endianness::Big => spec_u64_to_le_bytes(x).reverse(),
    }
}

/// The `u64` read from eight bytes in the given byte order.
pub open spec fn u64_of_bytes(e: Endianness, s: Seq<u8>) -> u64
    recommends
        s.len() == 8,
{
    match e {
        Endianness::Little => spec_u64_from_le_bytes(s),
        Endianness::Big => spec_u64_from_le_bytes(s.reverse()),
    }
}

/// Reading back the bytes of `x` gives `x`, in either byte order.
pub proof fn lemma_u16_round_trip(e: Endianness, x: u16)
    ensures
        u16_bytes(e, x).len() == 2,
        u16_of_bytes(e, u16_bytes(e, x)) == x,
{
    lemma_auto_spec_u16_to_from_le_bytes();
    assert(spec_u16_to_le_bytes(x).reverse().reverse() =~= spec_u16_to_le_bytes(x));
}

/// Re-encoding the value read from two bytes gives the same bytes.
pub proof fn lemma_u16_bytes_inverse(e: Endianness, s: Seq<u8>)
    requires
        s.len() == 2,
    ensures
        u16_bytes(e, u16_of_bytes(e, s)) == s,
{
    lemma_auto_spec_u16_to_from_le_bytes();
    assert(s.reverse().len() == 2);
    assert(spec_u16_to_le_bytes(spec_u16_from_le_bytes(s.reverse())).reverse() =~= s);
}

/// Reading back the bytes of `x` gives `x`, in either byte order.
pub proof fn lemma_u32_round_trip(e: Endianness, x: u32)
    ensures
        u32_bytes(e, x).len() == 4,
        u32_of_bytes(e, u32_bytes(e, x)) == x,
{
    lemma_auto_spec_u32_to_from_le_bytes();
    assert(spec_u32_to_le_bytes(x).reverse().reverse() =~= spec_u32_to_le_bytes(x));
}

/// Re-encoding the value read from four bytes gives the same bytes.
pub proof fn lemma_u32_bytes_inverse(e: Endianness, s: Seq<u8>)
    requires
        s.len() == 4,
    ensures
        u32_bytes(e, u32_of_bytes(e, s)) == s,
{
    lemma_auto_spec_u32_to_from_le_bytes();
    assert(s.reverse().len() == 4);
    assert(spec_u32_to_le_bytes(spec_u32_from_le_bytes(s.reverse())).reverse() =~= s);
}

/// Reading back the bytes of `x` gives `x`, in either byte order.
pub proof fn lemma_u64_round_trip(e: Endianness, x: u64)
    ensures
        u64_bytes(e, x).len() == 8,
        u64_of_bytes(e, u64_bytes(e, x)) == x,
{
    lemma_auto_spec_u64_to_from_le_bytes();
    assert(spec_u64_to_le_bytes(x).reverse().reverse() =~= spec_u64_to_le_bytes(x));
}

/// Re-encoding the value read from eight bytes gives the same bytes.
pub proof fn lemma_u64_bytes_inverse(e: Endianness, s: Seq<u8>)
    requires
        s.len() == 8,
    ensures
        u64_bytes(e, u64_of_bytes(e, s)) == s,
{
    lemma_auto_spec_u64_to_from_le_bytes();
    assert(s.reverse().len() == 8);
    assert(spec_u64_to_le_bytes(spec_u64_from_le_bytes(s.reverse())).reverse() =~= s);
}

// ---------------------------------------------------------------------------
// Executable converters.
// ---------------------------------------------------------------------------

/// Encode `x` as two bytes in the given byte order.
pub fn encode_u16(e: Endianness, x: u16) -> (v: Vec<u8>)
    ensures
        v@ == u16_bytes(e, x),
{
    let le = u16_to_le_bytes(x);
    match e {
        Endianness::Little => le,
        Endianness::Big => {
            let v = vec![le[1], le[0]];
            proof {
                assert(v@ =~= le@.reverse());
            }
            v
        },
    }
}

/// Decode two bytes in the given byte order.
pub fn decode_u16(e: Endianness, s: &[u8]) -> (x: u16)
    requires
        s@.len() == 2,
    ensures
        x == u16_of_bytes(e, s@),
{
    match e {
        Endianness::Little => u16_from_le_bytes(s),
        Endianness::Big => {
            let rev = vec![s[1], s[0]];
            proof {
                assert(rev@ =~= s@.reverse());
            }
            u16_from_le_bytes(rev.as_slice())
        },
    }
}

/// Encode `x` as four bytes in the given byte order.
pub fn encode_u32(e: Endianness, x: u32) -> (v: Vec<u8>)
    ensures
        v@ == u32_bytes(e, x),
{
    let le = u32_to_le_bytes(x);
    match e {
        Endianness::Little => le,
        Endianness::Big => {
            let v = vec![le[3], le[2], le[1], le[0]];
            proof {
                assert(v@ =~= le@.reverse());
            }
            v
        },
    }
}

/// Decode four bytes in the given byte order.
pub fn decode_u32(e: Endianness, s: &[u8]) -> (x: u32)
    requires
        s@.len() == 4,
    ensures
        x == u32_of_bytes(e, s@),
{
    match e {
        Endianness::Little => u32_from_le_bytes(s),
        Endianness::Big => {
            let rev = vec![s[3], s[2], s[1], s[0]];
            proof {
                assert(rev@ =~= s@.reverse());
            }
            u32_from_le_bytes(rev.as_slice())
        },
    }
}

/// Encode `x` as eight bytes in the given byte order.
pub fn encode_u64(e: Endianness, x: u64) -> (v: Vec<u8>)
    ensures
        v@ == u64_bytes(e, x),
{
    let le = u64_to_le_bytes(x);
    match e {
        Endianness::Little => le,
        Endianness::Big => {
            let v = vec![le[7], le[6], le[5], le[4], le[3], le[2], le[1], le[0]];
            proof {
                assert(v@ =~= le@.reverse());
            }
            v
        },
    }
}

/// Decode eight bytes in the given byte order.
pub fn decode_u64(e: Endianness, s: &[u8]) -> (x: u64)
    requires
        s@.len() == 8,
    ensures
        x == u64_of_bytes(e, s@),
{
    match e {
        Endianness::Little => u64_from_le_bytes(s),
        Endianness::Big => {
            let rev = vec![s[7], s[6], s[5], s[4], s[3], s[2], s[1], s[0]];
            proof {
                assert(rev@ =~= s@.reverse());
            }
            u64_from_le_bytes(rev.as_slice())
        },
    }
}

/// A vector of `n` zero bytes.
pub fn zero_vec(n: usize) -> (v: Vec<u8>)
    ensures
        v@ == zeros(n as int),
{
    let v = vec![0u8; n];
    proof {
        assert(v@ =~= zeros(n as int));
    }
    v
}

} // verus!
