//! Cursor abstractions over a byte stream: a `Reader` with seek and string
//! helpers, a `Writer` with seek and string helpers, and the canonical
//! in-memory implementations of both.

use vstd::prelude::*;
use vstd::utf8::*;
use crate::BinError;
use crate::codec::{splice_at, zeros, zero_vec, lemma_splice_at, lemma_splice_compose};

verus! {

/// First index at or after `from` holding a zero byte; `data.len()` when none.
pub open spec fn nul_scan(data: Seq<u8>, from: int) -> int
    decreases data.len() - from,
{
    if from < 0 || from >= data.len() {
        data.len() as int
    } else if data[from] == 0 {
        from
    } else {
        nul_scan(data, from + 1)
    }
}

/// Basic facts about `nul_scan`: it lands on the first zero byte at or after
/// `from`, or on the end when there is none.
pub proof fn lemma_nul_scan(data: Seq<u8>, from: int)
    requires
        0 <= from,
    ensures
        nul_scan(data, from) <= data.len(),
        from <= data.len() ==> from <= nul_scan(data, from),
        nul_scan(data, from) < data.len() ==> data[nul_scan(data, from)] == 0,
        forall|j: int| from <= j < nul_scan(data, from) ==> data[j] != 0,
    decreases data.len() - from,
{
    if from < data.len() && data[from] != 0 {
        lemma_nul_scan(data, from + 1);
    }
}

/// A byte source with an explicit cursor.  The model is the underlying bytes
/// (`data`) plus the cursor position (`pos`); reads never change the bytes.
pub trait Reader: Sized {
    /// The bytes behind this reader.
    spec fn data(&self) -> Seq<u8>;

    /// The cursor position.
    spec fn pos(&self) -> int;

    /// The current cursor position.
    fn position(&self) -> (p: u64)
        ensures
            p as int == self.pos(),
    ;

    /// Move the cursor to `p`; the bytes are untouched.  Positions past the
    /// end are allowed, and reads there fail.
    fn set_position(&mut self, p: u64)
        ensures
            final(self).data() == old(self).data(),
            final(self).pos() == p as int,
    ;

    /// Read exactly `n` bytes at the cursor.  Succeeds if and only if `n`
    /// bytes are available; on failure the reader is unchanged.
    fn read_exact(&mut self, n: usize) -> (r: Result<Vec<u8>, BinError>)
        ensures
            final(self).data() == old(self).data(),
            match r {
                Ok(v) => {
                    &&& 0 <= old(self).pos()
                    &&& old(self).pos() + n <= old(self).data().len()
                    &&& v@ == old(self).data().subrange(old(self).pos(), old(self).pos() + n)
                    &&& final(self).pos() == old(self).pos() + n
                },
                Err(e) => {
                    &&& e == BinError::IoError
                    &&& !(0 <= old(self).pos() && old(self).pos() + n <= old(
                        self,
                    ).data().len())
                    &&& final(self).pos() == old(self).pos()
                },
            },
    ;

    /// Read exactly `n` bytes and decode them as UTF-8.
    fn read_str(&mut self, n: usize) -> (r: Result<String, BinError>)
        ensures
            final(self).data() == old(self).data(),
            match r {
                Ok(s) => {
                    &&& 0 <= old(self).pos()
                    &&& old(self).pos() + n <= old(self).data().len()
                    &&& valid_utf8(
                        old(self).data().subrange(old(self).pos(), old(self).pos() + n),
                    )
                    &&& s@ == decode_utf8(
                        old(self).data().subrange(old(self).pos(), old(self).pos() + n),
                    )
                    &&& final(self).pos() == old(self).pos() + n
                },
                Err(BinError::IoError) => {
                    &&& !(0 <= old(self).pos() && old(self).pos() + n <= old(
                        self,
                    ).data().len())
                    &&& final(self).pos() == old(self).pos()
                },
                Err(BinError::InvalidEncoding) => {
                    &&& 0 <= old(self).pos()
                    &&& old(self).pos() + n <= old(self).data().len()
                    &&& !valid_utf8(
                        old(self).data().subrange(old(self).pos(), old(self).pos() + n),
                    )
                    &&& final(self).pos() == old(self).pos() + n
                },
                Err(_) => false,
            },
    ;

    /// Read bytes up to (and consuming) the next zero byte and decode them as
    /// UTF-8; the terminator is not part of the result.
    fn read_c_str(&mut self) -> (r: Result<String, BinError>)
        ensures
            final(self).data() == old(self).data(),
            match r {
                Ok(s) => {
                    &&& 0 <= old(self).pos()
                    &&& nul_scan(old(self).data(), old(self).pos()) < old(self).data().len()
                    &&& valid_utf8(
                        old(self).data().subrange(
                            old(self).pos(),
                            nul_scan(old(self).data(), old(self).pos()),
                        ),
                    )
                    &&& s@ == decode_utf8(
                        old(self).data().subrange(
                            old(self).pos(),
                            nul_scan(old(self).data(), old(self).pos()),
                        ),
                    )
                    &&& final(self).pos() == nul_scan(old(self).data(), old(self).pos()) + 1
                },
                Err(BinError::IoError) => {
                    &&& (old(self).pos() < 0 || nul_scan(old(self).data(), old(self).pos())
                        == old(self).data().len())
                    &&& final(self).pos() == old(self).pos()
                },
                Err(BinError::InvalidEncoding) => {
                    &&& 0 <= old(self).pos()
                    &&& nul_scan(old(self).data(), old(self).pos()) < old(self).data().len()
                    &&& !valid_utf8(
                        old(self).data().subrange(
                            old(self).pos(),
                            nul_scan(old(self).data(), old(self).pos()),
                        ),
                    )
                    &&& final(self).pos() == nul_scan(old(self).data(), old(self).pos()) + 1
                },
                Err(_) => false,
            },
    ;
}

/// A byte sink with an explicit cursor.  The model is the bytes written so
/// far (`data`) plus the cursor position (`pos`); writing overwrites in the
/// middle, extends at the end, and zero-fills a gap left by a seek past the
/// end, as an in-memory cursor does.
pub trait Writer: Sized {
    /// The bytes written so far.
    spec fn data(&self) -> Seq<u8>;

    /// The cursor position.
    spec fn pos(&self) -> int;

    /// An empty writer with the cursor at the start.
    fn new_empty() -> (w: Self)
        ensures
            w.data() == Seq::<u8>::empty(),
            w.pos() == 0,
    ;

    /// The current cursor position.
    fn position(&self) -> (p: u64)
        ensures
            p as int == self.pos(),
    ;

    /// Move the cursor to `p`; the bytes are untouched.
    fn set_position(&mut self, p: u64)
        ensures
            final(self).data() == old(self).data(),
            final(self).pos() == p as int,
    ;

    /// Write all of `bytes` at the cursor.
    fn write_all(&mut self, bytes: &[u8])
        requires
            0 <= old(self).pos(),
            old(self).pos() + bytes@.len() <= usize::MAX,
        ensures
            final(self).data() == splice_at(old(self).data(), old(self).pos(), bytes@),
            final(self).pos() == old(self).pos() + bytes@.len(),
    ;

    /// Write the UTF-8 bytes of `s`, with no terminator.
    fn write_str(&mut self, s: &str)
        requires
            0 <= old(self).pos(),
            old(self).pos() + encode_utf8(s@).len() <= usize::MAX,
        ensures
            final(self).data() == splice_at(old(self).data(), old(self).pos(), encode_utf8(s@)),
            final(self).pos() == old(self).pos() + encode_utf8(s@).len(),
    ;

    /// Write the UTF-8 bytes of `s` followed by one zero byte.
    fn write_c_str(&mut self, s: &str)
        requires
            0 <= old(self).pos(),
            old(self).pos() + encode_utf8(s@).len() + 1 <= usize::MAX,
        ensures
            final(self).data() == splice_at(
                old(self).data(),
                old(self).pos(),
                encode_utf8(s@) + seq![0u8],
            ),
            final(self).pos() == old(self).pos() + encode_utf8(s@).len() + 1,
    ;
}

/// Number of zero bytes needed to bring position `pos` up to a multiple of
/// `alignment`.
pub open spec fn pad_len(pos: int, alignment: int) -> int
    recommends
        0 <= pos,
        0 < alignment,
{
    if pos % alignment == 0 {
        0
    } else {
        alignment - pos % alignment
    }
}

/// Position reached from `pos` after aligning to `alignment`; `alignment`
/// zero (or negative, which no caller produces) means no alignment.
pub open spec fn aligned_pos(pos: int, alignment: int) -> int {
    if alignment <= 0 {
        pos
    } else {
        pos + pad_len(pos, alignment)
    }
}

/// Emit zero bytes until the writer's position is a multiple of `alignment`;
/// `alignment == 0` means no alignment and changes nothing.
pub fn align_to<W: Writer>(writer: &mut W, alignment: usize)
    requires
        0 <= old(writer).pos(),
        old(writer).pos() + alignment <= usize::MAX,
    ensures
        alignment == 0 ==> *final(writer) == *old(writer),
        alignment > 0 ==> {
            &&& final(writer).pos() == old(writer).pos() + pad_len(
                old(writer).pos(),
                alignment as int,
            )
            &&& final(writer).pos() % (alignment as int) == 0
            &&& final(writer).data() == splice_at(
                old(writer).data(),
                old(writer).pos(),
                zeros(pad_len(old(writer).pos(), alignment as int)),
            )
        },
{
    if alignment == 0 {
        return ;
    }
    let p = writer.position();
    let rem = (p % alignment as u64) as usize;
    proof {
        assert(rem == p as int % (alignment as int));
    }
    if rem == 0 {
        proof {
            assert(splice_at(writer.data(), writer.pos(), zeros(0)) == writer.data());
        }
        return ;
    }
    let pad = alignment - rem;
    let z = zero_vec(pad);
    writer.write_all(z.as_slice());
    proof {
        let a = alignment as int;
        let q = p as int;
        assert((q + (a - q % a)) % a == 0) by (nonlinear_arith)
            requires
                a > 0,
                q >= 0,
                q % a != 0,
        ;
    }
}

// ---------------------------------------------------------------------------
// In-memory implementations.
// ---------------------------------------------------------------------------

/// Relies on `core::str::from_utf8`: it succeeds exactly on bytes that are
/// valid UTF-8 and yields their decoding.
#[verifier::external_body]
fn utf8_to_string(bytes: &Vec<u8>) -> (r: Option<String>)
    ensures
        match r {
            Some(s) => valid_utf8(bytes@) && s@ == decode_utf8(bytes@),
            None => !valid_utf8(bytes@),
        },
{
    match core::str::from_utf8(bytes.as_slice()) {
        Ok(s) => Some(s.to_owned()),
        Err(_) => None,
    }
}

/// The canonical in-memory `Reader`: a byte vector and a cursor.
pub struct ByteReader {
    pub data: Vec<u8>,
    pub pos: u64,
}

impl ByteReader {
    /// A reader over the given bytes, with the cursor at the start.
    pub fn new(data: Vec<u8>) -> (r: ByteReader)
        ensures
            r.data() == data@,
            r.pos() == 0,
    {
        ByteReader { data, pos: 0 }
    }
}

impl Reader for ByteReader {
    open spec fn data(&self) -> Seq<u8> {
        self.data@
    }

    open spec fn pos(&self) -> int {
        self.pos as int
    }

    fn position(&self) -> u64 {
        self.pos
    }

    fn set_position(&mut self, p: u64) {
        self.pos = p;
    }

    fn read_exact(&mut self, n: usize) -> (r: Result<Vec<u8>, BinError>) {
        let len = self.data.len();
        if self.pos > len as u64 {
            return Err(BinError::IoError);
        }
        let start = self.pos as usize;
        if n > len - start {
            return Err(BinError::IoError);
        }
        let mut out: Vec<u8> = Vec::new();
        let mut i: usize = 0;
        while i < n
            invariant
                len == self.data@.len(),
                start + n <= len,
                i <= n,
                out@ == self.data@.subrange(start as int, start + i),
            decreases n - i,
        {
            out.push(self.data[start + i]);
            proof {
                assert(out@ =~= self.data@.subrange(start as int, start + i + 1));
            }
            i = i + 1;
        }
        self.pos = self.pos + n as u64;
        Ok(out)
    }

    fn read_str(&mut self, n: usize) -> (r: Result<String, BinError>) {
        let bytes = match self.read_exact(n) {
            Ok(b) => b,
            Err(e) => {
                return Err(e);
            },
        };
        match utf8_to_string(&bytes) {
            Some(s) => Ok(s),
            None => Err(BinError::InvalidEncoding),
        }
    }

    fn read_c_str(&mut self) -> (r: Result<String, BinError>) {
        let len = self.data.len();
        proof {
            lemma_nul_scan(self.data@, self.pos as int);
        }
        if self.pos >= len as u64 {
            return Err(BinError::IoError);
        }
        let start = self.pos as usize;
        let mut k: usize = start;
        while k < len && self.data[k] != 0
            invariant
                start <= k <= len,
                len == self.data@.len(),
                nul_scan(self.data@, start as int) == nul_scan(self.data@, k as int),
            decreases len - k,
        {
            proof {
                assert(nul_scan(self.data@, k as int) == nul_scan(self.data@, k + 1));
            }
            k = k + 1;
        }
        if k == len {
            return Err(BinError::IoError);
        }
        proof {
            assert(nul_scan(self.data@, start as int) == k);
        }
        let mut sub: Vec<u8> = Vec::new();
        let mut i: usize = start;
        while i < k
            invariant
                start <= i <= k <= self.data@.len(),
                sub@ == self.data@.subrange(start as int, i as int),
            decreases k - i,
        {
            sub.push(self.data[i]);
            proof {
                assert(sub@ =~= self.data@.subrange(start as int, i + 1));
            }
            i = i + 1;
        }
        self.pos = k as u64 + 1;
        match utf8_to_string(&sub) {
            Some(s) => Ok(s),
            None => Err(BinError::InvalidEncoding),
        }
    }
}

/// The canonical in-memory `Writer`: a byte vector and a cursor.
pub struct ByteWriter {
    pub data: Vec<u8>,
    pub pos: u64,
}

impl ByteWriter {
    /// Give up the writer and keep its bytes.
    pub fn into_inner(self) -> (r: Vec<u8>)
        ensures
            r@ == self.data(),
    {
        self.data
    }

    /// Borrow the bytes written so far.
    pub fn as_vec(&self) -> (r: &Vec<u8>)
        ensures
            r@ == self.data(),
    {
        &self.data
    }
}

impl Writer for ByteWriter {
    open spec fn data(&self) -> Seq<u8> {
        self.data@
    }

    open spec fn pos(&self) -> int {
        self.pos as int
    }

    fn new_empty() -> (w: Self) {
        ByteWriter { data: Vec::new(), pos: 0 }
    }

    fn position(&self) -> u64 {
        self.pos
    }

    fn set_position(&mut self, p: u64) {
        self.pos = p;
    }

    fn write_all(&mut self, bytes: &[u8]) {
        let n = bytes.len();
        if n == 0 {
            return ;
        }
        let ghost d0 = self.data@;
        let ghost p0 = self.pos as int;
        proof {
            lemma_splice_at(d0, p0, bytes@);
        }
        // Zero-fill any gap between the end of the data and the cursor.
        while (self.data.len() as u64) < self.pos
            invariant
                self.pos == p0,
                self.pos <= usize::MAX,
                d0.len() <= self.data@.len(),
                self.data@.len() <= p0 || self.data@.len() == d0.len(),
                forall|j: int| 0 <= j < d0.len() ==> self.data@[j] == d0[j],
                forall|j: int| d0.len() <= j < self.data@.len() ==> self.data@[j] == 0u8,
            decreases self.pos - self.data@.len(),
        {
            self.data.push(0u8);
        }
        // Write the bytes, overwriting then extending.
        let mut c: usize = self.pos as usize;
        let mut i: usize = 0;
        while i < n
            invariant
                0 <= p0,
                n == bytes@.len(),
                i <= n,
                c == p0 + i,
                c <= self.data@.len(),
                p0 + n <= usize::MAX,
                self.data@.len() == if p0 + i >= d0.len() { p0 + i } else { d0.len() as int },
                forall|j: int| 0 <= j < d0.len() && (j < p0 || j >= p0 + i) ==> self.data@[j]
                    == d0[j],
                forall|j: int| d0.len() <= j < p0 ==> self.data@[j] == 0u8,
                forall|j: int| p0 <= j < p0 + i ==> self.data@[j] == bytes@[j - p0],
            decreases n - i,
        {
            let ghost before = self.data@;
            if c < self.data.len() {
                self.data[c] = bytes[i];
                proof {
                    assert(self.data@ == before.update(p0 + i, bytes@[i as int]));
                    assert forall|j: int| p0 <= j < p0 + i + 1 implies self.data@[j] == bytes@[j
                        - p0] by {
                        if j < p0 + i {
                            assert(0 <= j < before.len());
                            assert(before.update(p0 + i, bytes@[i as int])[j] == before[j]);
                            assert(before[j] == bytes@[j - p0]);
                        } else {
                            let b = bytes@[i as int];
                            assert(before.update(p0 + i, b)[j] == b);
                        }
                    }
                }
            } else {
                self.data.push(bytes[i]);
                proof {
                    assert(before.len() == p0 + i);
                    assert(self.data@ == before.push(bytes@[i as int]));
                    assert forall|j: int| p0 <= j < p0 + i + 1 implies self.data@[j] == bytes@[j
                        - p0] by {
                        if j < p0 + i {
                            assert(0 <= j < before.len());
                            assert(before.push(bytes@[i as int])[j] == before[j]);
                            assert(before[j] == bytes@[j - p0]);
                        } else {
                            assert(before.push(bytes@[i as int])[j] == bytes@[i as int]);
                        }
                    }
                }
            }
            c = c + 1;
            i = i + 1;
        }
        self.pos = c as u64;
        proof {
            assert(self.data@ =~= splice_at(d0, p0, bytes@));
        }
    }

    fn write_str(&mut self, s: &str) {
        self.write_all(s.as_bytes());
    }

    fn write_c_str(&mut self, s: &str) {
        let ghost d0 = self.data@;
        let ghost p0 = self.pos as int;
        self.write_all(s.as_bytes());
        let z = vec![0u8];
        self.write_all(z.as_slice());
        proof {
            lemma_splice_compose(d0, p0, encode_utf8(s@), z@);
            assert(encode_utf8(s@) + z@ =~= encode_utf8(s@) + seq![0u8]);
        }
    }
}

} // verus!
