//! The write context: a stack-like owner of categorised heaps of blocks.
//!
//! A context owns one default heap plus a mapping from category to heap,
//! kept sorted by category key so that assembly order is deterministic.
//! Each heap carries a stable integer id assigned in order of first use
//! (the default heap has id 0); tokens name heaps by that id, so ids never
//! change once given out.

use vstd::prelude::*;
use crate::BinError;
use crate::category::HeapCategory;
use crate::codec::{splice_at, zeros};
use crate::cursor::{aligned_pos, pad_len, ByteWriter, Writer};
use crate::domain::WriteDomain;
use crate::heap::{HeapBlock, HeapToken, WriteHeap};

verus! {

/// Index of the entry whose category key is `k`, or -1 when absent.
pub open spec fn key_pos<C: HeapCategory>(s: Seq<(C, WriteHeap<ByteWriter>)>, k: int) -> int
    decreases s.len(),
{
    if s.len() == 0 {
        -1
    } else if s[0].0.key() == k {
        0
    } else {
        let r = key_pos(s.drop_first(), k);
        if r == -1 {
            -1
        } else {
            r + 1
        }
    }
}

/// Number of entries whose category key is below `k`.
pub open spec fn count_keys_lt<C: HeapCategory>(
    s: Seq<(C, WriteHeap<ByteWriter>)>,
    k: int,
) -> int
    decreases s.len(),
{
    if s.len() == 0 {
        0
    } else {
        count_keys_lt(s.drop_last(), k) + if s.last().0.key() < k {
            1int
        } else {
            0int
        }
    }
}

/// The entries are sorted strictly by category key.
pub open spec fn heaps_sorted<C: HeapCategory>(s: Seq<(C, WriteHeap<ByteWriter>)>) -> bool {
    forall|i: int, j: int|
        #![trigger s[i], s[j]]
        0 <= i < j < s.len() ==> s[i].0.key() < s[j].0.key()
}

/// What `key_pos` finds in a sorted sequence: the unique entry with key `k`,
/// or nothing when no entry has that key.
pub proof fn lemma_key_pos<C: HeapCategory>(s: Seq<(C, WriteHeap<ByteWriter>)>, k: int)
    requires
        heaps_sorted(s),
    ensures
        key_pos(s, k) == -1 || (0 <= key_pos(s, k) < s.len() && s[key_pos(s, k)].0.key() == k),
        key_pos(s, k) == -1 ==> forall|i: int|
            0 <= i < s.len() ==> (#[trigger] s[i]).0.key() != k,
        forall|i: int| 0 <= i < s.len() && (#[trigger] s[i]).0.key() == k ==> key_pos(s, k) == i,
    decreases s.len(),
{
    if s.len() > 0 && s[0].0.key() != k {
        let t = s.drop_first();
        assert forall|i: int, j: int|
            #![trigger t[i], t[j]]
            0 <= i < j < t.len() implies t[i].0.key() < t[j].0.key() by {
            assert(t[i] == s[i + 1]);
            assert(t[j] == s[j + 1]);
        }
        lemma_key_pos(t, k);
        assert forall|i: int| 0 <= i < s.len() && (#[trigger] s[i]).0.key() == k implies key_pos(
            s,
            k,
        ) == i by {
            assert(i > 0);
            assert(t[i - 1] == s[i]);
        }
        if key_pos(s, k) == -1 {
            assert forall|i: int| 0 <= i < s.len() implies (#[trigger] s[i]).0.key() != k by {
                if i > 0 {
                    assert(t[i - 1] == s[i]);
                }
            }
        } else {
            assert(t[key_pos(t, k)] == s[key_pos(s, k)]);
        }
    }
}

/// What `count_keys_lt` counts in a sorted sequence: the length of the
/// prefix of entries below `k`.
pub proof fn lemma_count_keys_lt<C: HeapCategory>(s: Seq<(C, WriteHeap<ByteWriter>)>, k: int)
    requires
        heaps_sorted(s),
    ensures
        0 <= count_keys_lt(s, k) <= s.len(),
        forall|i: int| 0 <= i < count_keys_lt(s, k) ==> (#[trigger] s[i]).0.key() < k,
        forall|i: int| count_keys_lt(s, k) <= i < s.len() ==> (#[trigger] s[i]).0.key() >= k,
    decreases s.len(),
{
    if s.len() > 0 {
        let t = s.drop_last();
        assert forall|i: int, j: int|
            #![trigger t[i], t[j]]
            0 <= i < j < t.len() implies t[i].0.key() < t[j].0.key() by {
            assert(t[i] == s[i]);
            assert(t[j] == s[j]);
        }
        lemma_count_keys_lt(t, k);
        let c = count_keys_lt(s, k);
        let ct = count_keys_lt(t, k);
        if s.last().0.key() < k {
            assert(ct == t.len()) by {
                if ct < t.len() {
                    assert(t[ct].0.key() >= k);
                    assert(t[ct] == s[ct]);
                    assert(s[ct].0.key() < s[s.len() - 1].0.key());
                }
            }
            assert(c == s.len());
            assert forall|i: int| 0 <= i < c implies (#[trigger] s[i]).0.key() < k by {
                if i < s.len() - 1 {
                    assert(s[i].0.key() < s[s.len() - 1].0.key());
                }
            }
        } else {
            assert(c == ct);
            assert forall|i: int| 0 <= i < c implies (#[trigger] s[i]).0.key() < k by {
                assert(t[i] == s[i]);
                assert(t[i].0.key() < k);
            }
            assert forall|i: int| c <= i < s.len() implies (#[trigger] s[i]).0.key() >= k by {
                if i < s.len() - 1 {
                    assert(t[i] == s[i]);
                    assert(t[i].0.key() >= k);
                }
            }
        }
    }
}

/// The well-formedness of a context's parts: the default heap has id 0, the
/// category heaps are sorted with keys distinct from the default key, every
/// heap is well formed, and the stable ids are distinct and below `next_id`.
pub open spec fn ctx_wf_parts<C: HeapCategory>(
    dh: WriteHeap<ByteWriter>,
    hs: Seq<(C, WriteHeap<ByteWriter>)>,
    next_id: int,
) -> bool {
    &&& dh.wf()
    &&& dh.heap_id == 0
    &&& heaps_sorted(hs)
    &&& forall|i: int| 0 <= i < hs.len() ==> (#[trigger] hs[i]).1.wf()
    &&& forall|i: int| 0 <= i < hs.len() ==> (#[trigger] hs[i]).0.key() != C::default_key()
    &&& forall|i: int| 0 <= i < hs.len() ==> 1 <= (#[trigger] hs[i]).1.heap_id < next_id
    &&& forall|i: int, j: int|
        #![trigger hs[i], hs[j]]
        0 <= i < j < hs.len() ==> hs[i].1.heap_id != hs[j].1.heap_id
    &&& 1 <= next_id <= u32::MAX
}

/// Whether `seek_to_new_block` may run on `h0` with this alignment.
pub open spec fn heap_can_begin(h0: WriteHeap<ByteWriter>, alignment: int) -> bool {
    &&& h0.wf()
    &&& h0.blocks@.len() < u32::MAX
    &&& (h0.current_block + 1 < h0.blocks@.len() ==> {
        let p = h0.blocks@[h0.current_block + 1].writer.pos();
        &&& 0 <= p
        &&& p + alignment <= usize::MAX
        &&& aligned_pos(p, alignment) <= u32::MAX
    })
}

/// Relates a heap before and after `seek_to_new_block`, together with the
/// token it returned: either a fresh empty block was appended and made
/// current, or the cursor advanced to the already-present next block, which
/// was aligned.
pub open spec fn heap_begun(
    h0: WriteHeap<ByteWriter>,
    alignment: int,
    h1: WriteHeap<ByteWriter>,
    t: HeapToken,
) -> bool {
    &&& h1.wf()
    &&& h1.heap_id == h0.heap_id
    &&& t.heap_id == h0.heap_id
    &&& t.block_id as int == h1.current_block as int
    &&& if h0.current_block + 1 == h0.blocks@.len() {
        &&& h1.current_block as int == h0.blocks@.len()
        &&& h1.blocks@.len() == h0.blocks@.len() + 1
        &&& (forall|k: int| 0 <= k < h0.blocks@.len() ==> h1.blocks@[k] == h0.blocks@[k])
        &&& h1.cur_block()@.bytes == Seq::<u8>::empty()
        &&& h1.cur_block()@.relocs == Seq::<(int, HeapToken)>::empty()
        &&& h1.cur_block().writer.pos() == 0
        &&& t.offset == 0
    } else {
        &&& h1.current_block == h0.current_block + 1
        &&& h1.blocks@.len() == h0.blocks@.len()
        &&& (forall|k: int|
            0 <= k < h0.blocks@.len() && k != h0.current_block + 1 ==> h1.blocks@[k]
                == h0.blocks@[k])
        &&& ({
            let p = h0.blocks@[h0.current_block + 1].writer.pos();
            let cur = h1.cur_block();
            &&& cur.relocations == h0.blocks@[h0.current_block + 1].relocations
            &&& cur.writer.pos() == aligned_pos(p, alignment)
            &&& cur.writer.data() == if alignment == 0 {
                h0.blocks@[h0.current_block + 1].writer.data()
            } else {
                splice_at(
                    h0.blocks@[h0.current_block + 1].writer.data(),
                    p,
                    zeros(pad_len(p, alignment)),
                )
            }
            &&& t.offset as int == aligned_pos(p, alignment)
        })
    }
}

/// Relates a context's parts before and after `begin_next_block`: the
/// default heap moved to a fresh write target, everything else untouched and
/// the whole still well formed.
pub open spec fn ctx_begun_parts<Cat: HeapCategory>(
    dh0: WriteHeap<ByteWriter>,
    hs0: Seq<(Cat, WriteHeap<ByteWriter>)>,
    nid0: int,
    alignment: int,
    dh1: WriteHeap<ByteWriter>,
    hs1: Seq<(Cat, WriteHeap<ByteWriter>)>,
    nid1: int,
    t: HeapToken,
) -> bool {
    &&& heap_begun(dh0, alignment, dh1, t)
    &&& hs1 == hs0
    &&& nid1 == nid0
    &&& ctx_wf_parts(dh1, hs1, nid1)
}

/// The default heap `dh1` is `dh0` with the cursor put back on block `saved`
/// (left alone when `saved` no longer names a block).
pub open spec fn heap_block_restored(
    dh0: WriteHeap<ByteWriter>,
    saved: int,
    dh1: WriteHeap<ByteWriter>,
) -> bool {
    &&& dh1.heap_id == dh0.heap_id
    &&& dh1.blocks == dh0.blocks
    &&& dh1.current_block as int == if 0 <= saved < dh0.blocks@.len() {
        saved
    } else {
        dh0.current_block as int
    }
}

/// A stack-like owner of categorised heaps.  The default heap is always
/// present; a heap for another category is created on first use.  The
/// operations below are the whole interface through which records write.
pub trait WriteCtx: Sized {
    /// The category labels of the format this context serves.
    type Cat: HeapCategory;

    /// The default heap.
    spec fn spec_default_heap(&self) -> WriteHeap<ByteWriter>;

    /// The category heaps `(category, heap)`, sorted by key.
    spec fn spec_heaps(&self) -> Seq<(Self::Cat, WriteHeap<ByteWriter>)>;

    /// The next stable id to hand out.
    spec fn spec_next_id(&self) -> int;

    /// The context's well-formedness.
    spec fn ctx_wf(&self) -> bool;

    /// Well-formedness means exactly what `ctx_wf_parts` says of the parts.
    proof fn lemma_ctx_wf(&self)
        ensures
            self.ctx_wf() <==> ctx_wf_parts(
                self.spec_default_heap(),
                self.spec_heaps(),
                self.spec_next_id(),
            ),
    ;

    /// The heap of the given category: the default heap for the default
    /// category, the mapped heap when present, nothing otherwise.
    fn heap(&self, category: &Self::Cat) -> (r: Option<&WriteHeap<ByteWriter>>)
        requires
            self.ctx_wf(),
        ensures
            category.key() == <Self::Cat as HeapCategory>::default_key() ==> (r matches Some(h)
                && *h == self.spec_default_heap()),
            category.key() != <Self::Cat as HeapCategory>::default_key() ==> {
                let p = key_pos(self.spec_heaps(), category.key());
                if p >= 0 {
                    r matches Some(h) && *h == self.spec_heaps()[p].1
                } else {
                    r is None
                }
            },
    ;

    /// The stable integer id of the category's heap: 0 for the default
    /// category, the mapped heap's id when present, nothing otherwise.  Ids
    /// follow order of first use and never change afterwards.
    fn heap_id_of(&self, category: &Self::Cat) -> (r: Option<u32>)
        requires
            self.ctx_wf(),
        ensures
            category.key() == <Self::Cat as HeapCategory>::default_key() ==> r == Some(0u32),
            category.key() != <Self::Cat as HeapCategory>::default_key() ==> {
                let p = key_pos(self.spec_heaps(), category.key());
                if p >= 0 {
                    r == Some(self.spec_heaps()[p].1.heap_id)
                } else {
                    r is None
                }
            },
    ;

    /// The heap of the given category, created (with the next stable id) when
    /// absent.
    fn heap_mut(&mut self, category: Self::Cat) -> (h: &mut WriteHeap<ByteWriter>)
        requires
            old(self).ctx_wf(),
            old(self).spec_next_id() < u32::MAX,
        ensures
            final(self).spec_next_id() >= old(self).spec_next_id(),
            if category.key() == <Self::Cat as HeapCategory>::default_key() {
                &&& *h == old(self).spec_default_heap()
                &&& final(self).spec_default_heap() == *final(h)
                &&& final(self).spec_heaps() == old(self).spec_heaps()
                &&& final(self).spec_next_id() == old(self).spec_next_id()
            } else {
                let p = key_pos(old(self).spec_heaps(), category.key());
                if p >= 0 {
                    &&& *h == old(self).spec_heaps()[p].1
                    &&& final(self).spec_heaps() == old(self).spec_heaps().update(
                        p,
                        (old(self).spec_heaps()[p].0, *final(h)),
                    )
                    &&& final(self).spec_default_heap() == old(self).spec_default_heap()
                    &&& final(self).spec_next_id() == old(self).spec_next_id()
                } else {
                    let q = count_keys_lt(old(self).spec_heaps(), category.key());
                    &&& h.wf()
                    &&& h.heap_id as int == old(self).spec_next_id()
                    &&& h.current_block == 0
                    &&& h.blocks@.len() == 1
                    &&& h@.blocks[0].bytes == Seq::<u8>::empty()
                    &&& h@.blocks[0].relocs == Seq::<(int, HeapToken)>::empty()
                    &&& h.blocks@[0].writer.pos() == 0
                    &&& final(self).spec_heaps() == old(self).spec_heaps().insert(
                        q,
                        (category, *final(h)),
                    )
                    &&& final(self).spec_default_heap() == old(self).spec_default_heap()
                    &&& final(self).spec_next_id() == old(self).spec_next_id() + 1
                }
            },
    ;

    /// Install `heap` as the heap of the given category; used by inner
    /// contexts to reattach a borrowed heap.  A heap installed under a new
    /// category must carry a stable id no other heap uses.
    fn set_heap(&mut self, category: Self::Cat, heap: WriteHeap<ByteWriter>)
        requires
            old(self).ctx_wf(),
            heap.wf(),
            category.key() == <Self::Cat as HeapCategory>::default_key() ==> heap.heap_id == 0,
            category.key() != <Self::Cat as HeapCategory>::default_key() ==> {
                let p = key_pos(old(self).spec_heaps(), category.key());
                if p >= 0 {
                    heap.heap_id == old(self).spec_heaps()[p].1.heap_id
                } else {
                    &&& 1 <= heap.heap_id
                    &&& (heap.heap_id as int) < u32::MAX
                    &&& forall|i: int|
                        0 <= i < old(self).spec_heaps().len() ==> (#[trigger] old(
                            self,
                        ).spec_heaps()[i]).1.heap_id != heap.heap_id
                }
            },
        ensures
            final(self).ctx_wf(),
            if category.key() == <Self::Cat as HeapCategory>::default_key() {
                &&& final(self).spec_default_heap() == heap
                &&& final(self).spec_heaps() == old(self).spec_heaps()
                &&& final(self).spec_next_id() == old(self).spec_next_id()
            } else {
                let p = key_pos(old(self).spec_heaps(), category.key());
                &&& final(self).spec_default_heap() == old(self).spec_default_heap()
                &&& if p >= 0 {
                    &&& final(self).spec_heaps() == old(self).spec_heaps().update(
                        p,
                        (old(self).spec_heaps()[p].0, heap),
                    )
                    &&& final(self).spec_next_id() == old(self).spec_next_id()
                } else {
                    &&& final(self).spec_heaps() == old(self).spec_heaps().insert(
                        count_keys_lt(old(self).spec_heaps(), category.key()),
                        (category, heap),
                    )
                    &&& final(self).spec_next_id() == if heap.heap_id as int >= old(
                        self,
                    ).spec_next_id() {
                        heap.heap_id as int + 1
                    } else {
                        old(self).spec_next_id()
                    }
                }
            },
    ;

    /// Detach and return the heap of the given category.  The default heap is
    /// replaced by a fresh one; an absent category yields a fresh heap under
    /// the next stable id (which stays reserved for it).
    fn remove_heap(&mut self, category: &Self::Cat) -> (h: WriteHeap<ByteWriter>)
        requires
            old(self).ctx_wf(),
            old(self).spec_next_id() < u32::MAX,
        ensures
            final(self).ctx_wf(),
            h.wf(),
            final(self).spec_next_id() == old(self).spec_next_id(),
            if category.key() == <Self::Cat as HeapCategory>::default_key() {
                &&& h == old(self).spec_default_heap()
                &&& final(self).spec_heaps() == old(self).spec_heaps()
                &&& final(self).spec_default_heap().heap_id == 0
                &&& final(self).spec_default_heap().current_block == 0
                &&& final(self).spec_default_heap().blocks@.len() == 1
                &&& final(self).spec_default_heap()@.blocks[0].bytes == Seq::<u8>::empty()
                &&& final(self).spec_default_heap()@.blocks[0].relocs == Seq::<
                    (int, HeapToken),
                >::empty()
            } else {
                let p = key_pos(old(self).spec_heaps(), category.key());
                &&& final(self).spec_default_heap() == old(self).spec_default_heap()
                &&& if p >= 0 {
                    &&& h == old(self).spec_heaps()[p].1
                    &&& final(self).spec_heaps() == old(self).spec_heaps().remove(p)
                } else {
                    &&& final(self).spec_heaps() == old(self).spec_heaps()
                    &&& h.heap_id as int == old(self).spec_next_id()
                    &&& h.current_block == 0
                    &&& h.blocks@.len() == 1
                    &&& h@.blocks[0].bytes == Seq::<u8>::empty()
                    &&& h@.blocks[0].relocs == Seq::<(int, HeapToken)>::empty()
                }
            },
    ;

    /// Save the default heap's current block and move it to a fresh write
    /// target (see `WriteHeap::seek_to_new_block`).  Returns the saved block
    /// index and a token for the new target's position.
    fn begin_next_block(&mut self, alignment: usize) -> (r: (usize, HeapToken))
        requires
            old(self).ctx_wf(),
            heap_can_begin(old(self).spec_default_heap(), alignment as int),
        ensures
            final(self).ctx_wf(),
            r.0 == old(self).spec_default_heap().current_block,
            heap_begun(
                old(self).spec_default_heap(),
                alignment as int,
                final(self).spec_default_heap(),
                r.1,
            ),
            final(self).spec_heaps() == old(self).spec_heaps(),
            final(self).spec_next_id() == old(self).spec_next_id(),
    ;

    /// Return to the block saved by `begin_next_block`; the heap's contents
    /// are untouched.
    fn end_block(&mut self, saved: usize)
        requires
            old(self).ctx_wf(),
            saved < old(self).spec_default_heap().blocks@.len(),
        ensures
            final(self).ctx_wf(),
            final(self).spec_default_heap().heap_id == old(self).spec_default_heap().heap_id,
            final(self).spec_default_heap().blocks == old(self).spec_default_heap().blocks,
            final(self).spec_default_heap().current_block == saved,
            final(self).spec_heaps() == old(self).spec_heaps(),
            final(self).spec_next_id() == old(self).spec_next_id(),
    ;

    /// A writable handle into the default heap's current block.
    fn cur_writer(&mut self) -> (w: &mut ByteWriter)
        requires
            old(self).ctx_wf(),
        ensures
            *w == old(self).spec_default_heap().cur_block().writer,
            final(self).spec_heaps() == old(self).spec_heaps(),
            final(self).spec_next_id() == old(self).spec_next_id(),
            final(self).spec_default_heap().heap_id == old(self).spec_default_heap().heap_id,
            final(self).spec_default_heap().current_block == old(
                self,
            ).spec_default_heap().current_block,
            final(self).spec_default_heap().blocks@ == old(
                self,
            ).spec_default_heap().blocks@.update(
                old(self).spec_default_heap().current_block as int,
                (HeapBlock {
                    relocations: old(self).spec_default_heap().cur_block().relocations,
                    writer: *final(w),
                }),
            ),
    ;

    /// Record a relocation for `token` at the default heap's position and
    /// emit `N` zero bytes as the placeholder.
    fn write_token<const N: usize>(&mut self, token: HeapToken)
        requires
            old(self).ctx_wf(),
            old(self).spec_default_heap().cur_block().writer.pos() + N <= usize::MAX,
        ensures
            final(self).ctx_wf(),
            final(self).spec_heaps() == old(self).spec_heaps(),
            final(self).spec_next_id() == old(self).spec_next_id(),
            ({
                let dh0 = old(self).spec_default_heap();
                let dh1 = final(self).spec_default_heap();
                let p = dh0.cur_block().writer.pos();
                &&& dh1.heap_id == dh0.heap_id
                &&& dh1.current_block == dh0.current_block
                &&& dh1.blocks@.len() == dh0.blocks@.len()
                &&& (forall|k: int|
                    0 <= k < dh0.blocks@.len() && k != dh0.current_block as int
                        ==> dh1.blocks@[k] == dh0.blocks@[k])
                &&& dh1.cur_block().relocations@ == dh0.cur_block().relocations@.push(
                    (p as usize, token),
                )
                &&& dh1.cur_block().writer.data() == splice_at(
                    dh0.cur_block().writer.data(),
                    p,
                    zeros(N as int),
                )
                &&& dh1.cur_block().writer.pos() == p + N
            }),
    ;

    /// Align the default heap's current block to `alignment`.
    fn align_to(&mut self, alignment: usize)
        requires
            old(self).ctx_wf(),
            0 <= old(self).spec_default_heap().cur_block().writer.pos(),
            old(self).spec_default_heap().cur_block().writer.pos() + alignment <= usize::MAX,
        ensures
            final(self).ctx_wf(),
            final(self).spec_heaps() == old(self).spec_heaps(),
            final(self).spec_next_id() == old(self).spec_next_id(),
            ({
                let dh0 = old(self).spec_default_heap();
                let dh1 = final(self).spec_default_heap();
                let p = dh0.cur_block().writer.pos();
                &&& dh1.heap_id == dh0.heap_id
                &&& dh1.current_block == dh0.current_block
                &&& dh1.blocks@.len() == dh0.blocks@.len()
                &&& (forall|k: int|
                    0 <= k < dh0.blocks@.len() && k != dh0.current_block as int
                        ==> dh1.blocks@[k] == dh0.blocks@[k])
                &&& dh1.cur_block().relocations == dh0.cur_block().relocations
                &&& dh1.cur_block().writer.pos() == aligned_pos(p, alignment as int)
                &&& dh1.cur_block().writer.data() == if alignment == 0 {
                    dh0.cur_block().writer.data()
                } else {
                    splice_at(
                        dh0.cur_block().writer.data(),
                        p,
                        zeros(pad_len(p, alignment as int)),
                    )
                }
            }),
    ;

    /// Allocate the next block of the default heap, run `content` on the
    /// context to fill it, then put the cursor back on the block it was on,
    /// whether or not the content callback succeeded.  Returns a token for
    /// the start of the new block.
    fn allocate_next_block<F: FnOnce(Self) -> (Self, Result<(), BinError>)>(self, content: F) -> (r: (
        Self,
        Result<HeapToken, BinError>,
    ))
        requires
            self.ctx_wf(),
            heap_can_begin(self.spec_default_heap(), 0),
            forall|c1: Self, t: HeapToken|
                #![trigger call_requires(content, (c1,)), ctx_begun_parts(
                    self.spec_default_heap(),
                    self.spec_heaps(),
                    self.spec_next_id(),
                    0,
                    c1.spec_default_heap(),
                    c1.spec_heaps(),
                    c1.spec_next_id(),
                    t,
                )]
                ctx_begun_parts(
                    self.spec_default_heap(),
                    self.spec_heaps(),
                    self.spec_next_id(),
                    0,
                    c1.spec_default_heap(),
                    c1.spec_heaps(),
                    c1.spec_next_id(),
                    t,
                ) ==> call_requires(content, (c1,)),
        ensures
            exists|c1: Self, t0: HeapToken, mid: Self, fres: Result<(), BinError>|
                #![trigger call_ensures(content, (c1,), (mid, fres)), ctx_begun_parts(
                    self.spec_default_heap(),
                    self.spec_heaps(),
                    self.spec_next_id(),
                    0,
                    c1.spec_default_heap(),
                    c1.spec_heaps(),
                    c1.spec_next_id(),
                    t0,
                )]
                {
                    &&& call_ensures(content, (c1,), (mid, fres))
                    &&& ctx_begun_parts(
                        self.spec_default_heap(),
                        self.spec_heaps(),
                        self.spec_next_id(),
                        0,
                        c1.spec_default_heap(),
                        c1.spec_heaps(),
                        c1.spec_next_id(),
                        t0,
                    )
                    &&& heap_block_restored(
                        mid.spec_default_heap(),
                        self.spec_default_heap().current_block as int,
                        r.0.spec_default_heap(),
                    )
                    &&& r.0.spec_heaps() == mid.spec_heaps()
                    &&& r.0.spec_next_id() == mid.spec_next_id()
                    &&& match r.1 {
                        Ok(t) => t == t0 && fres is Ok,
                        Err(e) => fres == Err::<(), BinError>(e),
                    }
                },
    ;

    /// As `allocate_next_block`, but align the new write target first.
    fn allocate_next_block_aligned<F: FnOnce(Self) -> (Self, Result<(), BinError>)>(
        self,
        alignment: usize,
        content: F,
    ) -> (r: (Self, Result<HeapToken, BinError>))
        requires
            self.ctx_wf(),
            heap_can_begin(self.spec_default_heap(), alignment as int),
            forall|c1: Self, t: HeapToken|
                #![trigger call_requires(content, (c1,)), ctx_begun_parts(
                    self.spec_default_heap(),
                    self.spec_heaps(),
                    self.spec_next_id(),
                    alignment as int,
                    c1.spec_default_heap(),
                    c1.spec_heaps(),
                    c1.spec_next_id(),
                    t,
                )]
                ctx_begun_parts(
                    self.spec_default_heap(),
                    self.spec_heaps(),
                    self.spec_next_id(),
                    alignment as int,
                    c1.spec_default_heap(),
                    c1.spec_heaps(),
                    c1.spec_next_id(),
                    t,
                ) ==> call_requires(content, (c1,)),
        ensures
            exists|c1: Self, t0: HeapToken, mid: Self, fres: Result<(), BinError>|
                #![trigger call_ensures(content, (c1,), (mid, fres)), ctx_begun_parts(
                    self.spec_default_heap(),
                    self.spec_heaps(),
                    self.spec_next_id(),
                    alignment as int,
                    c1.spec_default_heap(),
                    c1.spec_heaps(),
                    c1.spec_next_id(),
                    t0,
                )]
                {
                    &&& call_ensures(content, (c1,), (mid, fres))
                    &&& ctx_begun_parts(
                        self.spec_default_heap(),
                        self.spec_heaps(),
                        self.spec_next_id(),
                        alignment as int,
                        c1.spec_default_heap(),
                        c1.spec_heaps(),
                        c1.spec_next_id(),
                        t0,
                    )
                    &&& heap_block_restored(
                        mid.spec_default_heap(),
                        self.spec_default_heap().current_block as int,
                        r.0.spec_default_heap(),
                    )
                    &&& r.0.spec_heaps() == mid.spec_heaps()
                    &&& r.0.spec_next_id() == mid.spec_next_id()
                    &&& match r.1 {
                        Ok(t) => t == t0 && fres is Ok,
                        Err(e) => fres == Err::<(), BinError>(e),
                    }
                },
    ;

    /// Mint a token for the default heap's current position.
    fn heap_token_at_current_pos(&self) -> (t: HeapToken)
        requires
            self.ctx_wf(),
            self.spec_default_heap().current_block <= u32::MAX,
            0 <= self.spec_default_heap().cur_block().writer.pos() <= u32::MAX,
        ensures
            t.heap_id == self.spec_default_heap().heap_id,
            t.block_id as int == self.spec_default_heap().current_block as int,
            t.offset as int == self.spec_default_heap().cur_block().writer.pos(),
    ;
}

/// The standard write context: a default heap plus category heaps kept
/// sorted by key, and the next stable id to assign.
pub struct WriteCtxImpl<D: WriteDomain> {
    pub default_heap: WriteHeap<ByteWriter>,
    pub heaps: Vec<(D::Cat, WriteHeap<ByteWriter>)>,
    pub next_id: u32,
}

impl<D: WriteDomain> WriteCtxImpl<D> {
    /// A fresh context: an empty default heap and no category heaps.
    pub fn new() -> (c: Self)
        ensures
            c.ctx_wf(),
            c.heaps@.len() == 0,
            c.next_id == 1,
            c.default_heap.heap_id == 0,
            c.default_heap.current_block == 0,
            c.default_heap.blocks@.len() == 1,
            c.default_heap@.blocks[0].bytes == Seq::<u8>::empty(),
            c.default_heap@.blocks[0].relocs == Seq::<(int, HeapToken)>::empty(),
            c.default_heap.blocks@[0].writer.pos() == 0,
    {
        WriteCtxImpl { default_heap: WriteHeap::new(), heaps: Vec::new(), next_id: 1 }
    }

    /// First index whose key is not below `category`'s; `len` when all are.
    pub(crate) fn find_at_or_after(&self, category: &D::Cat) -> (r: usize)
        ensures
            r <= self.heaps@.len(),
            forall|i: int| 0 <= i < r ==> (#[trigger] self.heaps@[i]).0.key() < category.key(),
            r < self.heaps@.len() ==> self.heaps@[r as int].0.key() >= category.key(),
    {
        let n = self.heaps.len();
        let mut i: usize = 0;
        while i < n
            invariant
                i <= n,
                n == self.heaps@.len(),
                forall|j: int| 0 <= j < i ==> (#[trigger] self.heaps@[j]).0.key()
                    < category.key(),
            decreases n - i,
        {
            if !self.heaps[i].0.cat_lt(category) {
                return i;
            }
            i = i + 1;
        }
        i
    }
}

impl<D: WriteDomain> Default for WriteCtxImpl<D> {
    /// The same fresh context `new` builds.
    fn default() -> (c: Self)
        ensures
            c.ctx_wf(),
            c.heaps@.len() == 0,
            c.next_id == 1,
            c.default_heap.heap_id == 0,
            c.default_heap.current_block == 0,
            c.default_heap.blocks@.len() == 1,
    {
        Self::new()
    }
}

impl<D: WriteDomain> WriteCtx for WriteCtxImpl<D> {
    type Cat = D::Cat;

    open spec fn spec_default_heap(&self) -> WriteHeap<ByteWriter> {
        self.default_heap
    }

    open spec fn spec_heaps(&self) -> Seq<(D::Cat, WriteHeap<ByteWriter>)> {
        self.heaps@
    }

    open spec fn spec_next_id(&self) -> int {
        self.next_id as int
    }

    open spec fn ctx_wf(&self) -> bool {
        ctx_wf_parts(self.default_heap, self.heaps@, self.next_id as int)
    }

    proof fn lemma_ctx_wf(&self) {
    }

    fn heap(&self, category: &D::Cat) -> (r: Option<&WriteHeap<ByteWriter>>) {
        proof {
            lemma_key_pos(self.heaps@, category.key());
        }
        let d = D::Cat::default_cat();
        if category.cat_eq(&d) {
            return Some(&self.default_heap);
        }
        let i = self.find_at_or_after(category);
        if i < self.heaps.len() && self.heaps[i].0.cat_eq(category) {
            Some(&self.heaps[i].1)
        } else {
            proof {
                let p = key_pos(self.heaps@, category.key());
                if p >= 0 {
                    if (p as int) < i as int {
                        assert(self.heaps@[p].0.key() < category.key());
                    }
                }
            }
            None
        }
    }

    fn heap_id_of(&self, category: &D::Cat) -> (r: Option<u32>) {
        match self.heap(category) {
            Some(h) => Some(h.heap_id),
            None => None,
        }
    }

    fn heap_mut(&mut self, category: D::Cat) -> (h: &mut WriteHeap<ByteWriter>) {
        proof {
            lemma_key_pos(self.heaps@, category.key());
            lemma_count_keys_lt(self.heaps@, category.key());
        }
        let d = D::Cat::default_cat();
        if category.cat_eq(&d) {
            return &mut self.default_heap;
        }
        let i = self.find_at_or_after(&category);
        if i < self.heaps.len() && self.heaps[i].0.cat_eq(&category) {
            proof {
                assert(key_pos(self.heaps@, category.key()) == i as int);
            }
            let entry = &mut self.heaps[i];
            &mut entry.1
        } else {
            proof {
                // Were the key present, the scan would have stopped on it.
                let p = key_pos(self.heaps@, category.key());
                if p >= 0 {
                    if (p as int) < i as int {
                        assert(self.heaps@[p].0.key() < category.key());
                    }
                    assert(false);
                }
                let q = count_keys_lt(self.heaps@, category.key());
                if (q as int) < i as int {
                    assert(self.heaps@[q].0.key() < category.key());
                }
                if (i as int) < q {
                    assert(self.heaps@[i as int].0.key() < category.key());
                }
                assert(q == i as int);
            }
            let fresh: WriteHeap<ByteWriter> = WriteHeap::new_with_id(self.next_id);
            self.next_id = self.next_id + 1;
            self.heaps.insert(i, (category, fresh));
            let entry = &mut self.heaps[i];
            &mut entry.1
        }
    }

    fn set_heap(&mut self, category: D::Cat, heap: WriteHeap<ByteWriter>) {
        proof {
            lemma_key_pos(self.heaps@, category.key());
            lemma_count_keys_lt(self.heaps@, category.key());
        }
        let ghost hs0 = self.heaps@;
        let d = D::Cat::default_cat();
        if category.cat_eq(&d) {
            self.default_heap = heap;
            return ;
        }
        let i = self.find_at_or_after(&category);
        if i < self.heaps.len() && self.heaps[i].0.cat_eq(&category) {
            proof {
                assert(key_pos(hs0, category.key()) == i as int);
            }
            let entry = &mut self.heaps[i];
            entry.1 = heap;
            proof {
                assert(self.heaps@ =~= hs0.update(i as int, (hs0[i as int].0, heap)));
                assert forall|a: int, b: int|
                    #![trigger self.heaps@[a], self.heaps@[b]]
                    0 <= a < b < self.heaps@.len() implies self.heaps@[a].0.key()
                    < self.heaps@[b].0.key() by {
                    assert(hs0[a].0.key() < hs0[b].0.key());
                }
            }
        } else {
            proof {
                // Were the key present, the scan would have stopped on it.
                let p = key_pos(hs0, category.key());
                if p >= 0 {
                    if (p as int) < i as int {
                        assert(hs0[p].0.key() < category.key());
                    }
                    assert(false);
                }
                let q = count_keys_lt(hs0, category.key());
                if (q as int) < i as int {
                    assert(hs0[q].0.key() < category.key());
                }
                if (i as int) < q {
                    assert(hs0[i as int].0.key() < category.key());
                }
                assert(q == i as int);
            }
            if heap.heap_id >= self.next_id {
                self.next_id = heap.heap_id + 1;
            }
            self.heaps.insert(i, (category, heap));
            proof {
                let hs1 = self.heaps@;
                assert forall|a: int, b: int|
                    #![trigger hs1[a], hs1[b]]
                    0 <= a < b < hs1.len() implies hs1[a].0.key() < hs1[b].0.key() by {
                    if b < i as int {
                        assert(hs1[a] == hs0[a]);
                        assert(hs1[b] == hs0[b]);
                    } else if a > i as int {
                        assert(hs1[a] == hs0[a - 1]);
                        assert(hs1[b] == hs0[b - 1]);
                    } else if a < i as int && b == i as int {
                        assert(hs1[a] == hs0[a]);
                        assert(hs0[a].0.key() < category.key());
                    } else if a == i as int && b > i as int {
                        assert(hs1[b] == hs0[b - 1]);
                        assert(hs0[b - 1].0.key() >= category.key());
                        assert(hs0[b - 1].0.key() != category.key());
                    } else if a < i as int && b > i as int {
                        assert(hs1[a] == hs0[a]);
                        assert(hs1[b] == hs0[b - 1]);
                        assert(hs0[a].0.key() < hs0[b - 1].0.key());
                    }
                }
                assert forall|a: int| 0 <= a < hs1.len() implies (#[trigger] hs1[a]).1.wf()
                    && hs1[a].0.key() != D::Cat::default_key() && 1 <= hs1[a].1.heap_id
                    < self.next_id as int by {
                    if a < i as int {
                        assert(hs1[a] == hs0[a]);
                    } else if a > i as int {
                        assert(hs1[a] == hs0[a - 1]);
                    }
                }
                assert forall|a: int, b: int|
                    #![trigger hs1[a], hs1[b]]
                    0 <= a < b < hs1.len() implies hs1[a].1.heap_id != hs1[b].1.heap_id by {
                    if b < i as int {
                        assert(hs1[a] == hs0[a]);
                        assert(hs1[b] == hs0[b]);
                    } else if a > i as int {
                        assert(hs1[a] == hs0[a - 1]);
                        assert(hs1[b] == hs0[b - 1]);
                    } else if a < i as int && b == i as int {
                        assert(hs1[a] == hs0[a]);
                    } else if a == i as int && b > i as int {
                        assert(hs1[b] == hs0[b - 1]);
                    } else if a < i as int && b > i as int {
                        assert(hs1[a] == hs0[a]);
                        assert(hs1[b] == hs0[b - 1]);
                    }
                }
            }
        }
    }

    fn remove_heap(&mut self, category: &D::Cat) -> (h: WriteHeap<ByteWriter>) {
        proof {
            lemma_key_pos(self.heaps@, category.key());
        }
        let ghost hs0 = self.heaps@;
        let d = D::Cat::default_cat();
        if category.cat_eq(&d) {
            let mut out: WriteHeap<ByteWriter> = WriteHeap::new();
            core::mem::swap(&mut out, &mut self.default_heap);
            return out;
        }
        let i = self.find_at_or_after(category);
        if i < self.heaps.len() && self.heaps[i].0.cat_eq(category) {
            proof {
                assert(key_pos(hs0, category.key()) == i as int);
            }
            let entry = self.heaps.remove(i);
            proof {
                let hs1 = self.heaps@;
                assert forall|a: int, b: int|
                    #![trigger hs1[a], hs1[b]]
                    0 <= a < b < hs1.len() implies hs1[a].0.key() < hs1[b].0.key()
                    && hs1[a].1.heap_id != hs1[b].1.heap_id by {
                    let a0 = if a < i as int { a } else { a + 1 };
                    let b0 = if b < i as int { b } else { b + 1 };
                    assert(hs1[a] == hs0[a0]);
                    assert(hs1[b] == hs0[b0]);
                }
                assert forall|a: int| 0 <= a < hs1.len() implies (#[trigger] hs1[a]).1.wf()
                    && hs1[a].0.key() != D::Cat::default_key() && 1 <= hs1[a].1.heap_id
                    < self.next_id as int by {
                    let a0 = if a < i as int { a } else { a + 1 };
                    assert(hs1[a] == hs0[a0]);
                }
            }
            entry.1
        } else {
            proof {
                // Were the key present, the scan would have stopped on it.
                let p = key_pos(hs0, category.key());
                if p >= 0 {
                    if (p as int) < i as int {
                        assert(hs0[p].0.key() < category.key());
                    }
                    assert(false);
                }
            }
            WriteHeap::new_with_id(self.next_id)
        }
    }

    fn begin_next_block(&mut self, alignment: usize) -> (r: (usize, HeapToken)) {
        let saved = self.default_heap.current_block;
        let t = self.default_heap.seek_to_new_block(alignment);
        (saved, t)
    }

    fn end_block(&mut self, saved: usize) {
        self.default_heap.current_block = saved;
    }

    fn allocate_next_block<F: FnOnce(Self) -> (Self, Result<(), BinError>)>(self, content: F) -> (r: (
        Self,
        Result<HeapToken, BinError>,
    )) {
        self.allocate_next_block_aligned(0, content)
    }

    fn allocate_next_block_aligned<F: FnOnce(Self) -> (Self, Result<(), BinError>)>(
        self,
        alignment: usize,
        content: F,
    ) -> (r: (Self, Result<HeapToken, BinError>)) {
        let ghost c_in = self;
        let saved = self.default_heap.current_block;
        let mut c = self;
        let t = c.default_heap.seek_to_new_block(alignment);
        proof {
            assert(ctx_begun_parts(
                c_in.spec_default_heap(),
                c_in.spec_heaps(),
                c_in.spec_next_id(),
                alignment as int,
                c.spec_default_heap(),
                c.spec_heaps(),
                c.spec_next_id(),
                t,
            ));
        }
        let (mut c2, res) = content(c);
        let ghost mid = c2;
        if saved < c2.default_heap.blocks.len() {
            c2.default_heap.current_block = saved;
        }
        proof {
            assert(heap_block_restored(
                mid.spec_default_heap(),
                saved as int,
                c2.spec_default_heap(),
            ));
        }
        match res {
            Ok(_) => (c2, Ok(t)),
            Err(e) => (c2, Err(e)),
        }
    }

    fn cur_writer(&mut self) -> (w: &mut ByteWriter) {
        self.default_heap.cur_writer()
    }

    fn write_token<const N: usize>(&mut self, token: HeapToken) {
        self.default_heap.write_token::<N>(token);
    }

    fn align_to(&mut self, alignment: usize) {
        self.default_heap.align_to(alignment);
    }

    fn heap_token_at_current_pos(&self) -> (t: HeapToken) {
        self.default_heap.heap_token_at_current_pos()
    }
}

/// A scoped exclusive borrow of one heap.  On creation, the heap of
/// `default_category` is moved out of the parent and becomes this inner
/// context's own write target; `release` moves it back under the same
/// category.  The parent travels inside by value, so it cannot be observed
/// while the heap is detached, and releasing is the only way to get it back
/// — the reattachment cannot be forgotten on any path that returns the
/// parent.
pub struct InnerWriteCtx<C: WriteCtx> {
    pub default_category: C::Cat,
    pub default_heap: WriteHeap<ByteWriter>,
    pub ctx: C,
}

impl<C: WriteCtx> InnerWriteCtx<C> {
    /// Detach the heap of `default_category` from `ctx` (a fresh heap under
    /// the next stable id when absent) and wrap both.
    pub fn new(ctx: C, default_category: C::Cat) -> (r: Self)
        requires
            ctx.ctx_wf(),
            ctx.spec_next_id() < u32::MAX,
        ensures
            r.default_category == default_category,
            r.ctx.ctx_wf(),
            r.default_heap.wf(),
            r.ctx.spec_next_id() == ctx.spec_next_id(),
            if default_category.key() == <C::Cat as HeapCategory>::default_key() {
                &&& r.default_heap == ctx.spec_default_heap()
                &&& r.ctx.spec_heaps() == ctx.spec_heaps()
            } else {
                let p = key_pos(ctx.spec_heaps(), default_category.key());
                &&& r.ctx.spec_default_heap() == ctx.spec_default_heap()
                &&& if p >= 0 {
                    r.default_heap == ctx.spec_heaps()[p].1 && r.ctx.spec_heaps()
                        == ctx.spec_heaps().remove(p)
                } else {
                    r.ctx.spec_heaps() == ctx.spec_heaps() && r.default_heap.heap_id as int
                        == ctx.spec_next_id()
                }
            },
    {
        let mut c = ctx;
        let default_heap = c.remove_heap(&default_category);
        InnerWriteCtx { default_category, default_heap, ctx: c }
    }

    /// Reinstall the borrowed heap under its category and give the parent
    /// back.
    pub fn release(self) -> (c: C)
        requires
            self.ctx.ctx_wf(),
            self.default_heap.wf(),
            self.default_category.key() == <C::Cat as HeapCategory>::default_key()
                ==> self.default_heap.heap_id == 0,
            self.default_category.key() != <C::Cat as HeapCategory>::default_key() ==> {
                let p = key_pos(self.ctx.spec_heaps(), self.default_category.key());
                if p >= 0 {
                    self.default_heap.heap_id == self.ctx.spec_heaps()[p].1.heap_id
                } else {
                    &&& 1 <= self.default_heap.heap_id
                    &&& (self.default_heap.heap_id as int) < u32::MAX
                    &&& forall|i: int|
                        0 <= i < self.ctx.spec_heaps().len() ==> (#[trigger] self.ctx.spec_heaps()[i]).1.heap_id
                            != self.default_heap.heap_id
                }
            },
        ensures
            c.ctx_wf(),
            if self.default_category.key() == <C::Cat as HeapCategory>::default_key() {
                &&& c.spec_default_heap() == self.default_heap
                &&& c.spec_heaps() == self.ctx.spec_heaps()
                &&& c.spec_next_id() == self.ctx.spec_next_id()
            } else {
                let p = key_pos(self.ctx.spec_heaps(), self.default_category.key());
                &&& c.spec_default_heap() == self.ctx.spec_default_heap()
                &&& if p >= 0 {
                    c.spec_heaps() == self.ctx.spec_heaps().update(
                        p,
                        (self.ctx.spec_heaps()[p].0, self.default_heap),
                    ) && c.spec_next_id() == self.ctx.spec_next_id()
                } else {
                    c.spec_heaps() == self.ctx.spec_heaps().insert(
                        count_keys_lt(self.ctx.spec_heaps(), self.default_category.key()),
                        (self.default_category, self.default_heap),
                    ) && c.spec_next_id() == if self.default_heap.heap_id as int
                        >= self.ctx.spec_next_id() {
                        self.default_heap.heap_id as int + 1
                    } else {
                        self.ctx.spec_next_id()
                    }
                }
            },
    {
        let mut c = self.ctx;
        c.set_heap(self.default_category, self.default_heap);
        c
    }
}

} // verus!
