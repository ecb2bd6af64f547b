//! The assembly pass: concatenate every heap's blocks in category order,
//! record each block's starting offset, and patch every relocation with the
//! driver's encoding of its token's final absolute offset.
//!
//! The specification level works on the heaps in output order.  Blocks are
//! flattened into one sequence; `start_of` gives each block's absolute start;
//! a relocation's token resolves through `token_gidx` to a global block index
//! and from there to an absolute target; `assembled` folds every patch over
//! the concatenated bytes, in source order.

use vstd::prelude::*;
use crate::BinError;
use crate::category::HeapCategory;
use crate::codec::{splice_at, zeros};
use crate::cursor::{ByteWriter, Writer};
use crate::ctx::{count_keys_lt, lemma_count_keys_lt, WriteCtx, WriteCtxImpl};
use crate::domain::WriteDomain;
use crate::heap::{HeapBlock, HeapToken, WriteHeap};

verus! {

/// The blocks of one heap, each tagged with the heap's stable id and its own
/// index inside the heap.
pub open spec fn heap_blocks(h: WriteHeap<ByteWriter>) -> Seq<(int, int, HeapBlock<ByteWriter>)> {
    h.blocks@.map(|j: int, b: HeapBlock<ByteWriter>| (h.heap_id as int, j, b))
}

/// All blocks of all heaps, in output order.
pub open spec fn all_blocks(hs: Seq<WriteHeap<ByteWriter>>) -> Seq<
    (int, int, HeapBlock<ByteWriter>),
>
    decreases hs.len(),
{
    if hs.len() == 0 {
        Seq::empty()
    } else {
        all_blocks(hs.drop_last()) + heap_blocks(hs.last())
    }
}

/// Number of blocks in the heaps before heap `i`.
pub open spec fn blocks_before(hs: Seq<WriteHeap<ByteWriter>>, i: int) -> int
    decreases i,
{
    if i <= 0 {
        0
    } else {
        blocks_before(hs, i - 1) + hs[i - 1].blocks@.len()
    }
}

/// Total number of blocks.
pub open spec fn total_blocks(hs: Seq<WriteHeap<ByteWriter>>) -> int {
    blocks_before(hs, hs.len() as int)
}

/// Absolute starting offset of the block with global index `g`.
pub open spec fn start_of(bs: Seq<(int, int, HeapBlock<ByteWriter>)>, g: int) -> int
    decreases g,
{
    if g <= 0 {
        0
    } else {
        start_of(bs, g - 1) + bs[g - 1].2.writer.data().len()
    }
}

/// The concatenation of all blocks' bytes, in order.
pub open spec fn flat_bytes(bs: Seq<(int, int, HeapBlock<ByteWriter>)>) -> Seq<u8>
    decreases bs.len(),
{
    if bs.len() == 0 {
        Seq::empty()
    } else {
        flat_bytes(bs.drop_last()) + bs.last().2.writer.data()
    }
}

/// Position of the heap with stable id `id`, or -1 when absent.
pub open spec fn heap_pos(hs: Seq<WriteHeap<ByteWriter>>, id: int) -> int
    decreases hs.len(),
{
    if hs.len() == 0 {
        -1
    } else if hs[0].heap_id as int == id {
        0
    } else {
        let r = heap_pos(hs.drop_first(), id);
        if r == -1 {
            -1
        } else {
            r + 1
        }
    }
}

/// Global index of the block a token points into, or -1 when the token's
/// heap or block does not exist.
pub open spec fn token_gidx(hs: Seq<WriteHeap<ByteWriter>>, t: HeapToken) -> int {
    let hp = heap_pos(hs, t.heap_id as int);
    if hp == -1 {
        -1
    } else if t.block_id as int >= hs[hp].blocks@.len() {
        -1
    } else {
        blocks_before(hs, hp) + t.block_id as int
    }
}

/// The absolute offset a token resolves to: its block's start plus its local
/// offset.  Meaningful when the token's block exists.
pub open spec fn resolve_target(hs: Seq<WriteHeap<ByteWriter>>, t: HeapToken) -> int {
    start_of(all_blocks(hs), token_gidx(hs, t)) + t.offset as int
}

/// A relocation recorded in the block with global index `g` can be patched:
/// its token's block exists, comes strictly later in the output than the
/// source block, and the resolved offset fits the machine.
pub open spec fn reloc_resolvable(hs: Seq<WriteHeap<ByteWriter>>, g: int, t: HeapToken) -> bool {
    &&& token_gidx(hs, t) > g
    &&& resolve_target(hs, t) <= usize::MAX
}

/// Every relocation of every block can be patched.
pub open spec fn all_resolvable(hs: Seq<WriteHeap<ByteWriter>>) -> bool {
    forall|g: int, r: int|
        #![trigger all_blocks(hs)[g].2.relocations@[r]]
        0 <= g < all_blocks(hs).len() && 0 <= r < all_blocks(hs)[g].2.relocations@.len()
            ==> reloc_resolvable(hs, g, all_blocks(hs)[g].2.relocations@[r].1)
}

/// Every relocation's placeholder of width `w` lies inside its block's bytes.
pub open spec fn relocs_in_bounds(hs: Seq<WriteHeap<ByteWriter>>, w: int) -> bool {
    forall|g: int, r: int|
        #![trigger all_blocks(hs)[g].2.relocations@[r]]
        0 <= g < all_blocks(hs).len() && 0 <= r < all_blocks(hs)[g].2.relocations@.len() ==> {
            &&& 0 <= all_blocks(hs)[g].2.relocations@[r].0
            &&& all_blocks(hs)[g].2.relocations@[r].0 + w <= all_blocks(
                hs,
            )[g].2.writer.data().len()
        }
}

/// One patch applied: the relocation `r` of the block with global index `g`
/// overwrites, at its absolute source offset, the driver's encoding of its
/// token's resolved target.
pub open spec fn patch_one<D: WriteDomain>(
    hs: Seq<WriteHeap<ByteWriter>>,
    d: D,
    acc: Seq<u8>,
    g: int,
    r: int,
) -> Seq<u8> {
    let bs = all_blocks(hs);
    let e = bs[g].2.relocations@[r];
    let src = start_of(bs, g) + e.0 as int;
    splice_at(acc, src, d.encoded_ref(src, resolve_target(hs, e.1)))
}

/// The bytes after patching every relocation of the blocks before `g`, plus
/// the first `r` relocations of block `g`, in source order.
pub open spec fn patched_upto<D: WriteDomain>(
    hs: Seq<WriteHeap<ByteWriter>>,
    d: D,
    g: int,
    r: int,
) -> Seq<u8>
    decreases g, r,
{
    if g <= 0 && r <= 0 {
        flat_bytes(all_blocks(hs))
    } else if r <= 0 {
        patched_upto(hs, d, g - 1, all_blocks(hs)[g - 1].2.relocations@.len() as int)
    } else {
        patch_one(hs, d, patched_upto(hs, d, g, r - 1), g, r - 1)
    }
}

/// The fully assembled bytes: every relocation patched.
pub open spec fn assembled<D: WriteDomain>(hs: Seq<WriteHeap<ByteWriter>>, d: D) -> Seq<u8> {
    patched_upto(hs, d, total_blocks(hs), 0)
}

/// Whether any of the first `k` blocks carries a relocation.
pub open spec fn has_relocs_upto(bs: Seq<(int, int, HeapBlock<ByteWriter>)>, k: int) -> bool
    decreases k,
{
    if k <= 0 {
        false
    } else {
        has_relocs_upto(bs, k - 1) || bs[k - 1].2.relocations@.len() > 0
    }
}

/// A layout with nothing in it: no block holds a byte or a relocation.  A
/// context that never received a write assembles to a zero-length output
/// and, matching that, to an empty block-offsets table.
pub open spec fn layout_is_empty(hs: Seq<WriteHeap<ByteWriter>>) -> bool {
    &&& flat_bytes(all_blocks(hs)).len() == 0
    &&& !has_relocs_upto(all_blocks(hs), all_blocks(hs).len() as int)
}

/// The heaps of a context in output order: the category heaps with the
/// default heap inserted where its key sorts.
pub open spec fn merged_heaps<D: WriteDomain>(c: WriteCtxImpl<D>) -> Seq<WriteHeap<ByteWriter>> {
    c.heaps@.map(|i: int, p: (D::Cat, WriteHeap<ByteWriter>)| p.1).insert(
        count_keys_lt(c.heaps@, <D::Cat as HeapCategory>::default_key()),
        c.default_heap,
    )
}

// ---------------------------------------------------------------------------
// Lemmas about the layout.
// ---------------------------------------------------------------------------

/// What `heap_pos` finds when ids are distinct.
pub proof fn lemma_heap_pos(hs: Seq<WriteHeap<ByteWriter>>, id: int)
    requires
        forall|i: int, j: int|
            #![trigger hs[i], hs[j]]
            0 <= i < j < hs.len() ==> hs[i].heap_id != hs[j].heap_id,
    ensures
        heap_pos(hs, id) == -1 || (0 <= heap_pos(hs, id) < hs.len() && hs[heap_pos(
            hs,
            id,
        )].heap_id as int == id),
        heap_pos(hs, id) == -1 ==> forall|i: int|
            0 <= i < hs.len() ==> (#[trigger] hs[i]).heap_id as int != id,
        forall|i: int| 0 <= i < hs.len() && (#[trigger] hs[i]).heap_id as int == id ==> heap_pos(
            hs,
            id,
        ) == i,
    decreases hs.len(),
{
    if hs.len() > 0 && hs[0].heap_id as int != id {
        let t = hs.drop_first();
        assert forall|i: int, j: int|
            #![trigger t[i], t[j]]
            0 <= i < j < t.len() implies t[i].heap_id != t[j].heap_id by {
            assert(t[i] == hs[i + 1]);
            assert(t[j] == hs[j + 1]);
        }
        lemma_heap_pos(t, id);
        assert forall|i: int|
            0 <= i < hs.len() && (#[trigger] hs[i]).heap_id as int == id implies heap_pos(hs, id)
            == i by {
            assert(i > 0);
            assert(t[i - 1] == hs[i]);
        }
        if heap_pos(hs, id) == -1 {
            assert forall|i: int| 0 <= i < hs.len() implies (#[trigger] hs[i]).heap_id as int
                != id by {
                if i > 0 {
                    assert(t[i - 1] == hs[i]);
                }
            }
        } else {
            assert(t[heap_pos(t, id)] == hs[heap_pos(hs, id)]);
        }
    }
}

/// Block counts accumulate: `blocks_before` is monotone and each heap's
/// blocks lie between its own bounds.
pub proof fn lemma_blocks_before_nonneg(hs: Seq<WriteHeap<ByteWriter>>, i: int)
    ensures
        0 <= blocks_before(hs, i),
    decreases i,
{
    if i > 0 {
        lemma_blocks_before_nonneg(hs, i - 1);
    }
}

pub proof fn lemma_blocks_before_mono(hs: Seq<WriteHeap<ByteWriter>>, i: int, j: int)
    requires
        0 <= i <= j <= hs.len(),
    ensures
        blocks_before(hs, i) <= blocks_before(hs, j),
        0 <= blocks_before(hs, i),
    decreases j - i,
{
    lemma_blocks_before_nonneg(hs, i);
    if i < j {
        lemma_blocks_before_mono(hs, i, j - 1);
    }
}

/// Indexing into the flattened block sequence: block `j` of heap `i` sits at
/// global index `blocks_before(hs, i) + j`.
pub proof fn lemma_all_blocks(hs: Seq<WriteHeap<ByteWriter>>)
    ensures
        all_blocks(hs).len() == total_blocks(hs),
        forall|i: int, j: int|
            #![trigger hs[i].blocks@[j]]
            0 <= i < hs.len() && 0 <= j < hs[i].blocks@.len() ==> all_blocks(hs)[blocks_before(
                hs,
                i,
            ) + j] == (hs[i].heap_id as int, j, hs[i].blocks@[j]),
    decreases hs.len(),
{
    if hs.len() > 0 {
        let t = hs.drop_last();
        lemma_all_blocks(t);
        assert forall|i: int| 0 <= i <= t.len() implies blocks_before(t, i) == blocks_before(
            hs,
            i,
        ) by {
            lemma_blocks_before_eq_prefix(hs, t, i);
        }
        assert forall|i: int, j: int|
            #![trigger hs[i].blocks@[j]]
            0 <= i < hs.len() && 0 <= j < hs[i].blocks@.len() implies all_blocks(
            hs,
        )[blocks_before(hs, i) + j] == (hs[i].heap_id as int, j, hs[i].blocks@[j]) by {
            lemma_blocks_before_mono(hs, 0, i);
            if i < hs.len() - 1 {
                assert(t[i] == hs[i]);
                assert(all_blocks(t)[blocks_before(t, i) + j] == (
                    t[i].heap_id as int,
                    j,
                    t[i].blocks@[j],
                ));
                lemma_blocks_before_mono(t, i + 1, t.len() as int);
                assert(blocks_before(t, i) + j < total_blocks(t));
                assert(all_blocks(hs)[blocks_before(hs, i) + j] == all_blocks(t)[blocks_before(
                    t,
                    i,
                ) + j]);
            } else {
                assert(blocks_before(hs, i) == total_blocks(t));
                assert(all_blocks(hs)[blocks_before(hs, i) + j] == heap_blocks(hs.last())[j]);
            }
        }
    }
}

/// `blocks_before` only reads the heaps before `i`, so a longer sequence
/// with the same prefix agrees.
proof fn lemma_blocks_before_eq_prefix(
    hs: Seq<WriteHeap<ByteWriter>>,
    t: Seq<WriteHeap<ByteWriter>>,
    i: int,
)
    requires
        t.len() <= hs.len(),
        forall|k: int| 0 <= k < t.len() ==> t[k] == hs[k],
        0 <= i <= t.len(),
    ensures
        blocks_before(t, i) == blocks_before(hs, i),
    decreases i,
{
    if i > 0 {
        lemma_blocks_before_eq_prefix(hs, t, i - 1);
    }
}

/// `start_of` only reads the blocks before `g`, so a longer sequence with
/// the same prefix agrees.
pub proof fn lemma_start_of_eq_prefix(
    bs: Seq<(int, int, HeapBlock<ByteWriter>)>,
    t: Seq<(int, int, HeapBlock<ByteWriter>)>,
    g: int,
)
    requires
        t.len() <= bs.len(),
        forall|k: int| 0 <= k < t.len() ==> t[k] == bs[k],
        0 <= g <= t.len(),
    ensures
        start_of(t, g) == start_of(bs, g),
    decreases g,
{
    if g > 0 {
        lemma_start_of_eq_prefix(bs, t, g - 1);
    }
}

/// The concatenated length of the first `g` blocks is block `g`'s start.
pub proof fn lemma_flat_take_len(bs: Seq<(int, int, HeapBlock<ByteWriter>)>, g: int)
    requires
        0 <= g <= bs.len(),
    ensures
        flat_bytes(bs.take(g)).len() == start_of(bs, g),
    decreases g,
{
    if g > 0 {
        lemma_flat_take_len(bs, g - 1);
        let p = bs.take(g);
        assert(p.drop_last() =~= bs.take(g - 1));
        assert(p.last() == bs[g - 1]);
    }
}

/// Appending block `g`'s bytes extends the concatenation of the first `g`.
pub proof fn lemma_flat_take_step(bs: Seq<(int, int, HeapBlock<ByteWriter>)>, g: int)
    requires
        0 <= g < bs.len(),
    ensures
        flat_bytes(bs.take(g + 1)) == flat_bytes(bs.take(g)) + bs[g].2.writer.data(),
{
    let p = bs.take(g + 1);
    assert(p.drop_last() =~= bs.take(g));
    assert(p.last() == bs[g]);
}

/// The whole flattened byte sequence has length `start_of(bs, bs.len())`,
/// and every block's bytes lie within it.
pub proof fn lemma_flat_len(bs: Seq<(int, int, HeapBlock<ByteWriter>)>)
    ensures
        flat_bytes(bs).len() == start_of(bs, bs.len() as int),
        forall|g: int|
            0 <= g < bs.len() ==> start_of(bs, g) + (#[trigger] all_of(bs, g)).len() <= start_of(
                bs,
                bs.len() as int,
            ),
        forall|g: int| 0 <= g <= bs.len() ==> 0 <= #[trigger] start_of(bs, g),
{
    assert(bs.take(bs.len() as int) =~= bs);
    lemma_flat_take_len(bs, bs.len() as int);
    assert forall|g: int| 0 <= g < bs.len() implies start_of(bs, g) + (#[trigger] all_of(
        bs,
        g,
    )).len() <= start_of(bs, bs.len() as int) by {
        lemma_start_of_mono(bs, g + 1, bs.len() as int);
    }
    assert forall|g: int| 0 <= g <= bs.len() implies 0 <= #[trigger] start_of(bs, g) by {
        lemma_start_of_mono(bs, 0, g);
    }
}

/// The bytes of block `g`, named so the length lemma has a stable trigger.
pub open spec fn all_of(bs: Seq<(int, int, HeapBlock<ByteWriter>)>, g: int) -> Seq<u8> {
    bs[g].2.writer.data()
}

/// Starts are monotone.
pub proof fn lemma_start_of_mono(bs: Seq<(int, int, HeapBlock<ByteWriter>)>, i: int, j: int)
    requires
        0 <= i <= j,
    ensures
        start_of(bs, i) <= start_of(bs, j),
    decreases j - i,
{
    if i < j {
        lemma_start_of_mono(bs, i, j - 1);
    }
}

/// The offset and id tables assembly builds: entry `g` of `offsets` is block
/// `g`'s absolute start; entry `id` of `tbl` is the global index of that
/// heap's first block; entry `id` of `counts` is that heap's block count
/// (zero for ids no heap carries).
pub open spec fn tables_ok(
    hs: Seq<WriteHeap<ByteWriter>>,
    nid: int,
    offsets: Seq<usize>,
    tbl: Seq<usize>,
    counts: Seq<usize>,
) -> bool {
    &&& offsets.len() == all_blocks(hs).len()
    &&& (forall|g: int|
        0 <= g < offsets.len() ==> #[trigger] offsets[g] as int == start_of(all_blocks(hs), g))
    &&& tbl.len() == nid
    &&& counts.len() == nid
    &&& (forall|i: int|
        #![trigger hs[i]]
        0 <= i < hs.len() ==> tbl[hs[i].heap_id as int] as int == blocks_before(hs, i)
            && counts[hs[i].heap_id as int] as int == hs[i].blocks@.len())
    &&& (forall|id: int| 0 <= id < nid && heap_pos(hs, id) == -1 ==> #[trigger] counts[id] == 0)
}

/// Patching keeps the length, as long as every placeholder lies inside its
/// block.
pub proof fn lemma_patched_upto_len<D: WriteDomain>(
    hs: Seq<WriteHeap<ByteWriter>>,
    d: D,
    g: int,
    r: int,
)
    requires
        relocs_in_bounds(hs, d.ref_width()),
        0 <= g <= all_blocks(hs).len(),
        g < all_blocks(hs).len() ==> 0 <= r <= all_blocks(hs)[g].2.relocations@.len(),
        g == all_blocks(hs).len() ==> r == 0,
    ensures
        patched_upto(hs, d, g, r).len() == flat_bytes(all_blocks(hs)).len(),
    decreases g, r,
{
    let bs = all_blocks(hs);
    if g == 0 && r <= 0 {
    } else if r <= 0 {
        lemma_patched_upto_len(hs, d, g - 1, bs[g - 1].2.relocations@.len() as int);
    } else {
        lemma_patched_upto_len(hs, d, g, r - 1);
        let e = bs[g].2.relocations@[r - 1];
        let src = start_of(bs, g) + e.0 as int;
        let enc = d.encoded_ref(src, resolve_target(hs, e.1));
        d.lemma_encoded_ref_len(src, resolve_target(hs, e.1));
        lemma_flat_len(bs);
        assert(e.0 + d.ref_width() <= bs[g].2.writer.data().len());
        assert(all_of(bs, g) == bs[g].2.writer.data());
        assert(src + enc.len() <= flat_bytes(bs).len());
        crate::codec::lemma_splice_at(patched_upto(hs, d, g, r - 1), src, enc);
    }
}

// ---------------------------------------------------------------------------
// Laws of the assembled output.
// ---------------------------------------------------------------------------

/// Absolute source offset of relocation `r` of the block with global index
/// `g`: where its placeholder sits in the output.
pub open spec fn reloc_src(hs: Seq<WriteHeap<ByteWriter>>, g: int, r: int) -> int {
    start_of(all_blocks(hs), g) + all_blocks(hs)[g].2.relocations@[r].0
}

/// The token of relocation `r` of the block with global index `g`.
pub open spec fn reloc_token(hs: Seq<WriteHeap<ByteWriter>>, g: int, r: int) -> HeapToken {
    all_blocks(hs)[g].2.relocations@[r].1
}

/// The bytes the driver patches in for relocation `r` of block `g`.
pub open spec fn patch_val<D: WriteDomain>(hs: Seq<WriteHeap<ByteWriter>>, d: D, g: int, r: int) -> Seq<u8> {
    d.encoded_ref(reloc_src(hs, g, r), resolve_target(hs, reloc_token(hs, g, r)))
}

/// Whether `(g2, r2)` names a relocation that the source order visits
/// before position `(g, r)`.
pub open spec fn reloc_before(
    hs: Seq<WriteHeap<ByteWriter>>,
    g2: int,
    r2: int,
    g: int,
    r: int,
) -> bool {
    &&& 0 <= g2 < all_blocks(hs).len()
    &&& 0 <= r2 < all_blocks(hs)[g2].2.relocations@.len()
    &&& (g2 < g || (g2 == g && r2 < r))
}

/// No two placeholders of width `w` overlap.
pub open spec fn relocs_disjoint(hs: Seq<WriteHeap<ByteWriter>>, w: int) -> bool {
    forall|g1: int, r1: int, g2: int, r2: int|
        #![trigger reloc_src(hs, g1, r1), reloc_src(hs, g2, r2)]
        0 <= g1 < all_blocks(hs).len() && 0 <= r1 < all_blocks(hs)[g1].2.relocations@.len() && 0
            <= g2 < all_blocks(hs).len() && 0 <= r2 < all_blocks(hs)[g2].2.relocations@.len() && !(
        g1 == g2 && r1 == r2) ==> reloc_src(hs, g1, r1) + w <= reloc_src(hs, g2, r2) || reloc_src(
            hs,
            g2,
            r2,
        ) + w <= reloc_src(hs, g1, r1)
}

/// Whether output position `i` lies inside the placeholder of a relocation
/// visited before `(g, r)`.
pub open spec fn covered_before(
    hs: Seq<WriteHeap<ByteWriter>>,
    w: int,
    i: int,
    g: int,
    r: int,
) -> bool {
    exists|g2: int, r2: int|
        #![trigger reloc_src(hs, g2, r2)]
        reloc_before(hs, g2, r2, g, r) && reloc_src(hs, g2, r2) <= i < reloc_src(hs, g2, r2) + w
}

/// The shape of the partially patched output when no two placeholders
/// overlap: every relocation already visited shows its patch, and every
/// position not inside such a placeholder still shows the concatenated
/// bytes.
pub proof fn lemma_patched_partial<D: WriteDomain>(
    hs: Seq<WriteHeap<ByteWriter>>,
    d: D,
    g: int,
    r: int,
)
    requires
        relocs_in_bounds(hs, d.ref_width()),
        relocs_disjoint(hs, d.ref_width()),
        0 <= g <= all_blocks(hs).len(),
        g < all_blocks(hs).len() ==> 0 <= r <= all_blocks(hs)[g].2.relocations@.len(),
        g == all_blocks(hs).len() ==> r == 0,
    ensures
        patched_upto(hs, d, g, r).len() == flat_bytes(all_blocks(hs)).len(),
        forall|g2: int, r2: int|
            #![trigger reloc_src(hs, g2, r2)]
            reloc_before(hs, g2, r2, g, r) ==> patched_upto(hs, d, g, r).subrange(
                reloc_src(hs, g2, r2),
                reloc_src(hs, g2, r2) + d.ref_width(),
            ) == patch_val(hs, d, g2, r2),
        forall|i: int|
            0 <= i < flat_bytes(all_blocks(hs)).len() && !covered_before(
                hs,
                d.ref_width(),
                i,
                g,
                r,
            ) ==> patched_upto(hs, d, g, r)[i] == flat_bytes(all_blocks(hs))[i],
    decreases g, r,
{
    let bs = all_blocks(hs);
    let w = d.ref_width();
    let flat = flat_bytes(bs);
    lemma_patched_upto_len(hs, d, g, r);
    if g == 0 && r <= 0 {
        assert forall|i: int|
            0 <= i < flat.len() && !covered_before(hs, w, i, 0, 0) implies patched_upto(
            hs,
            d,
            0,
            0,
        )[i] == flat[i] by {}
    } else if r <= 0 {
        let rprev = bs[g - 1].2.relocations@.len() as int;
        lemma_patched_partial(hs, d, g - 1, rprev);
        assert(patched_upto(hs, d, g, 0) == patched_upto(hs, d, g - 1, rprev));
        assert forall|g2: int, r2: int|
            #![trigger reloc_src(hs, g2, r2)]
            reloc_before(hs, g2, r2, g, 0) implies patched_upto(hs, d, g, 0).subrange(
            reloc_src(hs, g2, r2),
            reloc_src(hs, g2, r2) + w,
        ) == patch_val(hs, d, g2, r2) by {
            assert(reloc_before(hs, g2, r2, g - 1, rprev));
        }
        assert forall|i: int|
            0 <= i < flat.len() && !covered_before(hs, w, i, g, 0) implies patched_upto(
            hs,
            d,
            g,
            0,
        )[i] == flat[i] by {
            if covered_before(hs, w, i, g - 1, rprev) {
                let (g2, r2) = choose|g2: int, r2: int|
                    #![trigger reloc_src(hs, g2, r2)]
                    reloc_before(hs, g2, r2, g - 1, rprev) && reloc_src(hs, g2, r2) <= i
                        < reloc_src(hs, g2, r2) + w;
                assert(reloc_before(hs, g2, r2, g, 0));
                assert(covered_before(hs, w, i, g, 0));
            }
        }
    } else {
        lemma_patched_partial(hs, d, g, r - 1);
        let prev = patched_upto(hs, d, g, r - 1);
        let cur = patched_upto(hs, d, g, r);
        let src = reloc_src(hs, g, r - 1);
        let val = patch_val(hs, d, g, r - 1);
        d.lemma_encoded_ref_len(src, resolve_target(hs, reloc_token(hs, g, r - 1)));
        lemma_flat_len(bs);
        assert(all_of(bs, g) == bs[g].2.writer.data());
        assert(bs[g].2.relocations@[r - 1].0 + w <= bs[g].2.writer.data().len());
        lemma_start_of_mono(bs, 0, g);
        assert(0 <= src);
        assert(src + w <= flat.len());
        assert(cur == splice_at(prev, src, val));
        crate::codec::lemma_splice_at(prev, src, val);
        // The newly patched range shows its patch.
        assert(cur.subrange(src, src + w) =~= val);
        // Everything the earlier patches wrote is outside the new range.
        assert forall|g2: int, r2: int|
            #![trigger reloc_src(hs, g2, r2)]
            reloc_before(hs, g2, r2, g, r) implies cur.subrange(
            reloc_src(hs, g2, r2),
            reloc_src(hs, g2, r2) + w,
        ) == patch_val(hs, d, g2, r2) by {
            if g2 == g && r2 == r - 1 {
                assert(cur.subrange(src, src + w) == val);
            } else {
                let s2 = reloc_src(hs, g2, r2);
                assert(s2 + w <= src || src + w <= s2);
                assert(prev.subrange(s2, s2 + w) == patch_val(hs, d, g2, r2));
                assert(bs[g2].2.relocations@[r2].0 + w <= bs[g2].2.writer.data().len());
                assert(all_of(bs, g2) == bs[g2].2.writer.data());
                lemma_start_of_mono(bs, 0, g2);
                assert(0 <= s2);
                assert(s2 + w <= flat.len());
                assert forall|j: int| s2 <= j < s2 + w implies cur[j] == prev[j] by {}
                assert(cur.subrange(s2, s2 + w) =~= prev.subrange(s2, s2 + w));
            }
        }
        assert forall|i: int|
            0 <= i < flat.len() && !covered_before(hs, w, i, g, r) implies cur[i] == flat[i] by {
            assert(!(src <= i < src + w)) by {
                if src <= i < src + w {
                    assert(reloc_before(hs, g, r - 1, g, r));
                    assert(covered_before(hs, w, i, g, r));
                }
            }
            assert(!covered_before(hs, w, i, g, r - 1)) by {
                if covered_before(hs, w, i, g, r - 1) {
                    let (g2, r2) = choose|g2: int, r2: int|
                        #![trigger reloc_src(hs, g2, r2)]
                        reloc_before(hs, g2, r2, g, r - 1) && reloc_src(hs, g2, r2) <= i
                            < reloc_src(hs, g2, r2) + w;
                    assert(reloc_before(hs, g2, r2, g, r));
                    assert(covered_before(hs, w, i, g, r));
                }
            }
            assert(cur[i] == prev[i]);
        }
    }
}

/// With disjoint placeholders, the assembled output reads directly: each
/// relocation's range holds the driver's encoding of its token's final
/// absolute offset, and every other byte is the plain concatenation of the
/// blocks.
pub proof fn lemma_assembled_disjoint<D: WriteDomain>(hs: Seq<WriteHeap<ByteWriter>>, d: D)
    requires
        relocs_in_bounds(hs, d.ref_width()),
        relocs_disjoint(hs, d.ref_width()),
    ensures
        assembled(hs, d).len() == flat_bytes(all_blocks(hs)).len(),
        forall|g: int, r: int|
            #![trigger reloc_src(hs, g, r)]
            0 <= g < all_blocks(hs).len() && 0 <= r < all_blocks(hs)[g].2.relocations@.len()
                ==> assembled(hs, d).subrange(
                reloc_src(hs, g, r),
                reloc_src(hs, g, r) + d.ref_width(),
            ) == patch_val(hs, d, g, r),
        forall|i: int|
            0 <= i < flat_bytes(all_blocks(hs)).len() && !covered_before(
                hs,
                d.ref_width(),
                i,
                all_blocks(hs).len() as int,
                0,
            ) ==> assembled(hs, d)[i] == flat_bytes(all_blocks(hs))[i],
{
    lemma_all_blocks(hs);
    lemma_patched_partial(hs, d, all_blocks(hs).len() as int, 0);
    assert(total_blocks(hs) == all_blocks(hs).len());
    assert forall|g: int, r: int|
        #![trigger reloc_src(hs, g, r)]
        0 <= g < all_blocks(hs).len() && 0 <= r < all_blocks(hs)[g].2.relocations@.len() implies
        assembled(hs, d).subrange(reloc_src(hs, g, r), reloc_src(hs, g, r) + d.ref_width())
        == patch_val(hs, d, g, r) by {
        assert(reloc_before(hs, g, r, all_blocks(hs).len() as int, 0));
    }
}

/// A layout without relocations assembles to the plain concatenation of its
/// blocks: fixed-layout data passes through assembly byte for byte.
pub proof fn lemma_assembled_no_relocs<D: WriteDomain>(hs: Seq<WriteHeap<ByteWriter>>, d: D)
    requires
        forall|g: int|
            0 <= g < all_blocks(hs).len() ==> (#[trigger] all_blocks(
                hs,
            )[g]).2.relocations@.len() == 0,
    ensures
        assembled(hs, d) == flat_bytes(all_blocks(hs)),
{
    let bs = all_blocks(hs);
    let w = d.ref_width();
    lemma_all_blocks(hs);
    assert forall|g: int, r: int|
        #![trigger bs[g].2.relocations@[r]]
        0 <= g < bs.len() && 0 <= r < bs[g].2.relocations@.len() implies false by {
        assert(bs[g].2.relocations@.len() == 0);
    }
    lemma_patched_partial(hs, d, bs.len() as int, 0);
    assert(assembled(hs, d) == patched_upto(hs, d, bs.len() as int, 0));
    assert forall|i: int| 0 <= i < flat_bytes(bs).len() implies assembled(hs, d)[i] == flat_bytes(
        bs,
    )[i] by {
        if covered_before(hs, w, i, bs.len() as int, 0) {
            let (g2, r2) = choose|g2: int, r2: int|
                #![trigger reloc_src(hs, g2, r2)]
                reloc_before(hs, g2, r2, bs.len() as int, 0) && reloc_src(hs, g2, r2) <= i
                    < reloc_src(hs, g2, r2) + w;
            assert(bs[g2].2.relocations@.len() == 0);
        }
    }
    assert(assembled(hs, d) =~= flat_bytes(bs));
}

/// Assembly is a pure function of the context's content and the driver:
/// assembling equal contents gives byte-identical output.  (The executable
/// pass promises `out@ == assembled(merged_heaps(ctx), driver)`, so two runs
/// over equal contexts cannot differ.)
pub proof fn lemma_assembly_deterministic<D: WriteDomain>(
    hs1: Seq<WriteHeap<ByteWriter>>,
    hs2: Seq<WriteHeap<ByteWriter>>,
    d: D,
)
    requires
        hs1 == hs2,
    ensures
        assembled(hs1, d) == assembled(hs2, d),
{
}

/// Block starting offsets depend only on the category order and the block
/// byte lengths: two layouts with equal lengths place every block at the
/// same start.
pub proof fn lemma_offsets_from_lengths(
    bs1: Seq<(int, int, HeapBlock<ByteWriter>)>,
    bs2: Seq<(int, int, HeapBlock<ByteWriter>)>,
    g: int,
)
    requires
        bs1.len() == bs2.len(),
        forall|k: int|
            0 <= k < bs1.len() ==> (#[trigger] bs1[k]).2.writer.data().len()
                == bs2[k].2.writer.data().len(),
        0 <= g <= bs1.len(),
    ensures
        start_of(bs1, g) == start_of(bs2, g),
    decreases g,
{
    if g > 0 {
        lemma_offsets_from_lengths(bs1, bs2, g - 1);
    }
}

/// A token resolves through the tables assembly returns to exactly the
/// absolute offset of byte `offset` of its block — for a token minted at a
/// block's start, the first byte written inside that block.
pub proof fn lemma_token_resolve_tables(
    hs: Seq<WriteHeap<ByteWriter>>,
    nid: int,
    offsets: Seq<usize>,
    tbl: Seq<usize>,
    counts: Seq<usize>,
    t: HeapToken,
)
    requires
        tables_ok(hs, nid, offsets, tbl, counts),
        forall|i: int, j: int|
            #![trigger hs[i], hs[j]]
            0 <= i < j < hs.len() ==> hs[i].heap_id != hs[j].heap_id,
        0 <= heap_pos(hs, t.heap_id as int),
        (t.block_id as int) < hs[heap_pos(hs, t.heap_id as int)].blocks@.len(),
        (t.heap_id as int) < nid,
    ensures
        (tbl[t.heap_id as int] + t.block_id as int) < offsets.len(),
        offsets[tbl[t.heap_id as int] + t.block_id as int] + t.offset == resolve_target(hs, t),
{
    let hp = heap_pos(hs, t.heap_id as int);
    lemma_heap_pos(hs, t.heap_id as int);
    assert(hs[hp].heap_id as int == t.heap_id as int);
    assert(tbl[t.heap_id as int] as int == blocks_before(hs, hp));
    lemma_blocks_before_mono(hs, hp + 1, hs.len() as int);
    lemma_all_blocks(hs);
    assert(token_gidx(hs, t) == blocks_before(hs, hp) + t.block_id as int);
}

impl<D: WriteDomain> WriteCtxImpl<D> {
    /// Assemble the context: concatenate every heap's blocks in category
    /// order and patch every relocation with the driver's pointer encoding of
    /// its token's final absolute offset.  Returns the bytes, the table of
    /// block starting offsets in written order, and the table mapping each
    /// heap id to the global index of that heap's first block (the two
    /// tables together let a token resolve, see `HeapToken::resolve`).
    ///
    /// Succeeds exactly when every relocation's token points at an existing
    /// block that is written after the relocation's own block; a relocation
    /// that does not is reported as `UnresolvedRelocation` naming its token.
    /// A context holding no bytes and no relocations yields no offsets
    /// entries: nothing was written, so no block start is reported.
    #[verifier::rlimit(100)]
    pub fn to_buffer(self, domain: &D) -> (r: Result<(Vec<u8>, Vec<usize>, Vec<usize>), BinError>)
        requires
            self.ctx_wf(),
            flat_bytes(all_blocks(merged_heaps(self))).len() <= usize::MAX,
            relocs_in_bounds(merged_heaps(self), domain.ref_width()),
        ensures
            ({
                let hs = merged_heaps(self);
                let bs = all_blocks(hs);
                match r {
                    Ok((out, offsets, heap_starts)) => {
                        &&& all_resolvable(hs)
                        &&& out@ == assembled(hs, *domain)
                        &&& offsets@.len() == (if layout_is_empty(hs) {
                            0int
                        } else {
                            bs.len() as int
                        })
                        &&& (forall|g: int|
                            0 <= g < offsets@.len() ==> #[trigger] offsets@[g] as int == start_of(
                                bs,
                                g,
                            ))
                        &&& heap_starts@.len() == self.next_id as int
                        &&& (forall|i: int|
                            #![trigger hs[i]]
                            0 <= i < hs.len() ==> heap_starts@[hs[i].heap_id as int] as int
                                == blocks_before(hs, i))
                    },
                    Err(e) => {
                        &&& !all_resolvable(hs)
                        &&& (e matches BinError::UnresolvedRelocation { token } && exists|
                            g: int,
                            rr: int,
                        |
                            #![trigger bs[g].2.relocations@[rr]]
                            {
                                &&& 0 <= g < bs.len()
                                &&& 0 <= rr < bs[g].2.relocations@.len()
                                &&& bs[g].2.relocations@[rr].1 == token
                                &&& !reloc_resolvable(hs, g, token)
                            })
                    },
                }
            }),
    {
        let ghost c0 = self;
        let ghost d = *domain;
        proof {
            self.lemma_ctx_wf();
            lemma_count_keys_lt(self.heaps@, <D::Cat as HeapCategory>::default_key());
        }
        let dcat = D::Cat::default_cat();
        let idx = self.find_at_or_after(&dcat);
        proof {
            let q = count_keys_lt(self.heaps@, <D::Cat as HeapCategory>::default_key());
            if (q as int) < idx as int {
                assert(self.heaps@[q].0.key() < dcat.key());
            }
            if (idx as int) < q {
                assert(self.heaps@[idx as int].0.key() < dcat.key());
            }
            assert(q == idx as int);
        }
        let nid = self.next_id;
        let WriteCtxImpl { default_heap, mut heaps, next_id: _ } = self;
        heaps.insert(idx, (dcat, default_heap));
        let ghost hs = merged_heaps(c0);
        proof {
            assert forall|k: int| 0 <= k < heaps@.len() implies (#[trigger] heaps@[k]).1 == hs[k]
                by {
                if k < idx as int {
                    assert(heaps@[k] == c0.heaps@[k]);
                } else if k > idx as int {
                    assert(heaps@[k] == c0.heaps@[k - 1]);
                }
            }
            assert(heaps@.len() == hs.len());
            // The merged heaps are well formed with distinct ids below nid.
            assert forall|k: int| 0 <= k < hs.len() implies (#[trigger] hs[k]).wf() && 0 <= hs[k].heap_id < nid as int by {
                if k < idx as int {
                    assert(hs[k] == c0.heaps@[k].1);
                } else if k > idx as int {
                    assert(hs[k] == c0.heaps@[k - 1].1);
                }
            }
            assert forall|a: int, b: int|
                #![trigger hs[a], hs[b]]
                0 <= a < b < hs.len() implies hs[a].heap_id != hs[b].heap_id by {
                let a0 = if a < idx as int { a } else { a - 1 };
                let b0 = if b < idx as int { b } else { b - 1 };
                if a != idx as int && b != idx as int {
                    assert(hs[a] == c0.heaps@[a0].1);
                    assert(hs[b] == c0.heaps@[b0].1);
                } else if a == idx as int {
                    assert(hs[b] == c0.heaps@[b0].1);
                } else {
                    assert(hs[a] == c0.heaps@[a0].1);
                }
            }
            lemma_all_blocks(hs);
            lemma_flat_len(all_blocks(hs));
        }
        let ghost bs = all_blocks(hs);
        let n_heaps = heaps.len();

        // Phase one: concatenate the blocks and build the tables.
        let mut out = ByteWriter::new_empty();
        let mut offsets: Vec<usize> = Vec::new();
        let mut tbl: Vec<usize> = vec![0usize; nid as usize];
        let mut counts: Vec<usize> = vec![0usize; nid as usize];
        let mut i: usize = 0;
        while i < n_heaps
            invariant
                n_heaps == heaps@.len(),
                heaps@.len() == hs.len(),
                forall|k: int| 0 <= k < hs.len() ==> (#[trigger] heaps@[k]).1 == hs[k],
                forall|k: int| 0 <= k < hs.len() ==> (#[trigger] hs[k]).wf() && 0 <= hs[k].heap_id < nid as int,
                forall|a: int, b: int|
                    #![trigger hs[a], hs[b]]
                    0 <= a < b < hs.len() ==> hs[a].heap_id != hs[b].heap_id,
                hs == merged_heaps(c0),
                c0 == self,
                bs == all_blocks(hs),
                bs.len() == total_blocks(hs),
                forall|a: int, j: int|
                    #![trigger hs[a].blocks@[j]]
                    0 <= a < hs.len() && 0 <= j < hs[a].blocks@.len() ==> bs[blocks_before(hs, a)
                        + j] == (hs[a].heap_id as int, j, hs[a].blocks@[j]),
                flat_bytes(bs).len() <= usize::MAX,
                forall|g: int|
                    0 <= g < bs.len() ==> start_of(bs, g) + (#[trigger] all_of(bs, g)).len()
                        <= flat_bytes(bs).len(),
                flat_bytes(bs).len() == start_of(bs, bs.len() as int),
                i <= n_heaps,
                offsets@.len() == blocks_before(hs, i as int),
                out.data() == flat_bytes(bs.take(offsets@.len() as int)),
                out.pos() == out.data().len(),
                forall|g: int|
                    0 <= g < offsets@.len() ==> #[trigger] offsets@[g] as int == start_of(bs, g),
                tbl@.len() == nid as int,
                counts@.len() == nid as int,
                forall|a: int|
                    #![trigger hs[a]]
                    0 <= a < i ==> tbl@[hs[a].heap_id as int] as int == blocks_before(hs, a)
                        && counts@[hs[a].heap_id as int] as int == hs[a].blocks@.len(),
                forall|id: int|
                    0 <= id < nid as int && heap_pos(hs, id) == -1 ==> #[trigger] counts@[id]
                        == 0,
            decreases n_heaps - i,
        {
            proof {
                lemma_heap_pos(hs, hs[i as int].heap_id as int);
                lemma_blocks_before_mono(hs, i as int, hs.len() as int);
            }
            let hid = heaps[i].1.heap_id as usize;
            let nb = heaps[i].1.blocks.len();
            tbl[hid] = offsets.len();
            counts[hid] = nb;
            let ghost tbl_snap = tbl@;
            let ghost counts_snap = counts@;
            proof {
                assert forall|a: int| #![trigger hs[a]] 0 <= a < i implies tbl@[hs[a].heap_id as int] as int == blocks_before(hs, a) && counts@[hs[a].heap_id as int] as int == hs[a].blocks@.len() by {
                    assert(hs[a].heap_id != hs[i as int].heap_id);
                }
            }
            let mut j: usize = 0;
            while j < nb
                invariant
                    n_heaps == heaps@.len(),
                    heaps@.len() == hs.len(),
                    forall|k: int| 0 <= k < hs.len() ==> (#[trigger] heaps@[k]).1 == hs[k],
                    hs == merged_heaps(c0),
                c0 == self,
                bs == all_blocks(hs),
                    bs.len() == total_blocks(hs),
                    forall|a: int, jq: int|
                        #![trigger hs[a].blocks@[jq]]
                        0 <= a < hs.len() && 0 <= jq < hs[a].blocks@.len() ==> bs[blocks_before(
                            hs,
                            a,
                        ) + jq] == (hs[a].heap_id as int, jq, hs[a].blocks@[jq]),
                    flat_bytes(bs).len() <= usize::MAX,
                    forall|g: int|
                        0 <= g < bs.len() ==> start_of(bs, g) + (#[trigger] all_of(bs, g)).len()
                            <= flat_bytes(bs).len(),
                    flat_bytes(bs).len() == start_of(bs, bs.len() as int),
                    i < n_heaps,
                    nb == hs[i as int].blocks@.len(),
                    j <= nb,
                    offsets@.len() == blocks_before(hs, i as int) + j,
                    offsets@.len() <= bs.len(),
                    out.data() == flat_bytes(bs.take(offsets@.len() as int)),
                    out.pos() == out.data().len(),
                    forall|g: int|
                        0 <= g < offsets@.len() ==> #[trigger] offsets@[g] as int == start_of(
                            bs,
                            g,
                        ),
                decreases nb - j,
            {
                let ghost g = offsets@.len() as int;
                proof {
                    lemma_blocks_before_mono(hs, 0, i as int);
                    lemma_blocks_before_mono(hs, i as int + 1, hs.len() as int);
                    assert(blocks_before(hs, i as int + 1) == blocks_before(hs, i as int) + hs[
                        i as int].blocks@.len());
                    assert(g < bs.len());
                    assert(bs[g] == (
                        hs[i as int].heap_id as int,
                        j as int,
                        hs[i as int].blocks@[j as int],
                    ));
                    lemma_flat_take_len(bs, g);
                    assert(all_of(bs, g) == hs[i as int].blocks@[j as int].writer.data());
                }
                let start = out.position();
                offsets.push(start as usize);
                let b = heaps[i].1.blocks[j].writer.as_vec();
                out.write_all(b.as_slice());
                proof {
                    lemma_flat_take_step(bs, g);
                    crate::codec::lemma_splice_append(flat_bytes(bs.take(g)), b@);
                    assert(out.data() == flat_bytes(bs.take(g + 1)));
                    lemma_blocks_before_mono(hs, i as int + 1, hs.len() as int);
                }
                j = j + 1;
            }
            i = i + 1;
        }
        proof {
            assert(offsets@.len() == blocks_before(hs, hs.len() as int));
            assert(bs.take(bs.len() as int) =~= bs);
            lemma_patched_upto_len(hs, d, 0, 0);
        }

        // Phase two: patch every relocation, in source order.
        let total = offsets.len();
        let mut saw_reloc: bool = false;
        let mut i2: usize = 0;
        let mut g2: usize = 0;
        while i2 < n_heaps
            invariant
                n_heaps == heaps@.len(),
                heaps@.len() == hs.len(),
                forall|k: int| 0 <= k < hs.len() ==> (#[trigger] heaps@[k]).1 == hs[k],
                forall|k: int| 0 <= k < hs.len() ==> (#[trigger] hs[k]).wf() && 0 <= hs[k].heap_id < nid as int,
                forall|a: int, b: int|
                    #![trigger hs[a], hs[b]]
                    0 <= a < b < hs.len() ==> hs[a].heap_id != hs[b].heap_id,
                hs == merged_heaps(c0),
                c0 == self,
                bs == all_blocks(hs),
                bs.len() == total_blocks(hs),
                forall|a: int, jq: int|
                    #![trigger hs[a].blocks@[jq]]
                    0 <= a < hs.len() && 0 <= jq < hs[a].blocks@.len() ==> bs[blocks_before(
                        hs,
                        a,
                    ) + jq] == (hs[a].heap_id as int, jq, hs[a].blocks@[jq]),
                flat_bytes(bs).len() <= usize::MAX,
                relocs_in_bounds(hs, d.ref_width()),
                d == *domain,
                forall|g: int|
                    0 <= g < bs.len() ==> start_of(bs, g) + (#[trigger] all_of(bs, g)).len()
                        <= flat_bytes(bs).len(),
                flat_bytes(bs).len() == start_of(bs, bs.len() as int),
                tables_ok(hs, nid as int, offsets@, tbl@, counts@),
                total == offsets@.len(),
                i2 <= n_heaps,
                g2 as int == blocks_before(hs, i2 as int),
                saw_reloc == has_relocs_upto(bs, g2 as int),
                g2 <= total,
                out.data() == patched_upto(hs, d, g2 as int, 0),
                out.data().len() == flat_bytes(bs).len(),
                forall|gq: int, rq: int|
                    #![trigger bs[gq].2.relocations@[rq]]
                    0 <= gq < g2 && 0 <= rq < bs[gq].2.relocations@.len() ==> reloc_resolvable(
                        hs,
                        gq,
                        bs[gq].2.relocations@[rq].1,
                    ),
            decreases n_heaps - i2,
        {
            let nb = heaps[i2].1.blocks.len();
            let mut j2: usize = 0;
            while j2 < nb
                invariant
                    n_heaps == heaps@.len(),
                    heaps@.len() == hs.len(),
                    forall|k: int| 0 <= k < hs.len() ==> (#[trigger] heaps@[k]).1 == hs[k],
                    forall|k: int| 0 <= k < hs.len() ==> (#[trigger] hs[k]).wf() && 0 <= hs[k].heap_id < nid as int,
                    forall|a: int, b: int|
                        #![trigger hs[a], hs[b]]
                        0 <= a < b < hs.len() ==> hs[a].heap_id != hs[b].heap_id,
                    hs == merged_heaps(c0),
                c0 == self,
                bs == all_blocks(hs),
                    bs.len() == total_blocks(hs),
                    forall|a: int, jq: int|
                        #![trigger hs[a].blocks@[jq]]
                        0 <= a < hs.len() && 0 <= jq < hs[a].blocks@.len() ==> bs[blocks_before(
                            hs,
                            a,
                        ) + jq] == (hs[a].heap_id as int, jq, hs[a].blocks@[jq]),
                    flat_bytes(bs).len() <= usize::MAX,
                    relocs_in_bounds(hs, d.ref_width()),
                    d == *domain,
                    forall|g: int|
                        0 <= g < bs.len() ==> start_of(bs, g) + (#[trigger] all_of(bs, g)).len()
                            <= flat_bytes(bs).len(),
                    flat_bytes(bs).len() == start_of(bs, bs.len() as int),
                    tables_ok(hs, nid as int, offsets@, tbl@, counts@),
                    total == offsets@.len(),
                    i2 < n_heaps,
                    nb == hs[i2 as int].blocks@.len(),
                    j2 <= nb,
                    g2 as int == blocks_before(hs, i2 as int) + j2,
                    saw_reloc == has_relocs_upto(bs, g2 as int),
                    g2 <= total,
                    out.data() == patched_upto(hs, d, g2 as int, 0),
                    out.data().len() == flat_bytes(bs).len(),
                    forall|gq: int, rq: int|
                        #![trigger bs[gq].2.relocations@[rq]]
                        0 <= gq < g2 && 0 <= rq < bs[gq].2.relocations@.len()
                            ==> reloc_resolvable(hs, gq, bs[gq].2.relocations@[rq].1),
                decreases nb - j2,
            {
                proof {
                    lemma_blocks_before_mono(hs, 0, i2 as int);
                    lemma_blocks_before_mono(hs, i2 as int + 1, hs.len() as int);
                    assert(bs[g2 as int] == (
                        hs[i2 as int].heap_id as int,
                        j2 as int,
                        hs[i2 as int].blocks@[j2 as int],
                    ));
                }
                let nr = heaps[i2].1.blocks[j2].relocations.len();
                if nr > 0 {
                    saw_reloc = true;
                }
                let mut rr: usize = 0;
                while rr < nr
                    invariant
                        n_heaps == heaps@.len(),
                        heaps@.len() == hs.len(),
                        forall|k: int| 0 <= k < hs.len() ==> (#[trigger] heaps@[k]).1 == hs[k],
                        forall|k: int| 0 <= k < hs.len() ==> (#[trigger] hs[k]).wf() && 0 <= hs[k].heap_id < nid as int,
                        forall|a: int, b: int|
                            #![trigger hs[a], hs[b]]
                            0 <= a < b < hs.len() ==> hs[a].heap_id != hs[b].heap_id,
                        hs == merged_heaps(c0),
                c0 == self,
                bs == all_blocks(hs),
                        bs.len() == total_blocks(hs),
                        forall|a: int, jq: int|
                            #![trigger hs[a].blocks@[jq]]
                            0 <= a < hs.len() && 0 <= jq < hs[a].blocks@.len() ==> bs[
                                blocks_before(hs, a) + jq] == (
                                hs[a].heap_id as int,
                                jq,
                                hs[a].blocks@[jq],
                            ),
                        flat_bytes(bs).len() <= usize::MAX,
                        relocs_in_bounds(hs, d.ref_width()),
                        d == *domain,
                        forall|g: int|
                            0 <= g < bs.len() ==> start_of(bs, g) + (#[trigger] all_of(
                                bs,
                                g,
                            )).len() <= flat_bytes(bs).len(),
                        flat_bytes(bs).len() == start_of(bs, bs.len() as int),
                        tables_ok(hs, nid as int, offsets@, tbl@, counts@),
                        total == offsets@.len(),
                        i2 < n_heaps,
                        nb == hs[i2 as int].blocks@.len(),
                        j2 < nb,
                        g2 as int == blocks_before(hs, i2 as int) + j2,
                        g2 < total,
                        bs[g2 as int] == (
                            hs[i2 as int].heap_id as int,
                            j2 as int,
                            hs[i2 as int].blocks@[j2 as int],
                        ),
                        nr == bs[g2 as int].2.relocations@.len(),
                        saw_reloc == (has_relocs_upto(bs, g2 as int) || nr > 0),
                        rr <= nr,
                        out.data() == patched_upto(hs, d, g2 as int, rr as int),
                        out.data().len() == flat_bytes(bs).len(),
                        forall|gq: int, rq: int|
                            #![trigger bs[gq].2.relocations@[rq]]
                            0 <= gq < g2 && 0 <= rq < bs[gq].2.relocations@.len()
                                ==> reloc_resolvable(hs, gq, bs[gq].2.relocations@[rq].1),
                        forall|rq: int|
                            0 <= rq < rr ==> reloc_resolvable(
                                hs,
                                g2 as int,
                                (#[trigger] bs[g2 as int].2.relocations@[rq]).1,
                            ),
                    decreases nr - rr,
                {
                    let e = heaps[i2].1.blocks[j2].relocations[rr];
                    let o = e.0;
                    let t = e.1;
                    proof {
                        assert(bs[g2 as int].2.relocations@[rr as int] == (o, t));
                        lemma_heap_pos(hs, t.heap_id as int);
                    }
                    let tid = t.heap_id as usize;
                    if !(tid < counts.len() && (t.block_id as usize) < counts[tid]) {
                        proof {
                            let hp = heap_pos(hs, t.heap_id as int);
                            if hp >= 0 {
                                assert(hs[hp].heap_id as int == t.heap_id as int);
                                assert(0 <= hs[hp].heap_id < nid as int);
                                assert(counts@[t.heap_id as int] as int == hs[hp].blocks@.len());
                            }
                            assert(token_gidx(hs, t) == -1);
                            assert(!reloc_resolvable(hs, g2 as int, t));
                            assert(!all_resolvable(hs));
                            assert(exists|gq: int, rq: int|
                                #![trigger bs[gq].2.relocations@[rq]]
                                {
                                    &&& 0 <= gq < bs.len()
                                    &&& 0 <= rq < bs[gq].2.relocations@.len()
                                    &&& bs[gq].2.relocations@[rq].1 == t
                                    &&& !reloc_resolvable(hs, gq, t)
                                }) by {
                                assert(bs[g2 as int].2.relocations@[rr as int] == (o, t));
                                assert(0 <= (g2 as int) < bs.len());
                                assert(0 <= (rr as int) < bs[g2 as int].2.relocations@.len());
                            }
                        }
                        return Err(BinError::UnresolvedRelocation { token: t });
                    }
                    proof {
                        assert(heap_pos(hs, t.heap_id as int) >= 0);
                        let hp = heap_pos(hs, t.heap_id as int);
                        assert(tbl@[t.heap_id as int] as int == blocks_before(hs, hp));
                        assert(counts@[t.heap_id as int] as int == hs[hp].blocks@.len());
                        lemma_blocks_before_mono(hs, hp, hs.len() as int);
                        lemma_blocks_before_mono(hs, hp + 1, hs.len() as int);
                        assert((blocks_before(hs, hp) + t.block_id as int) < total_blocks(hs));
                    }
                    let gt = tbl[tid] + t.block_id as usize;
                    proof {
                        assert(gt as int == token_gidx(hs, t));
                    }
                    if !(gt > g2) {
                        proof {
                            assert(!reloc_resolvable(hs, g2 as int, t));
                            assert(!all_resolvable(hs));
                            assert(exists|gq: int, rq: int|
                                #![trigger bs[gq].2.relocations@[rq]]
                                {
                                    &&& 0 <= gq < bs.len()
                                    &&& 0 <= rq < bs[gq].2.relocations@.len()
                                    &&& bs[gq].2.relocations@[rq].1 == t
                                    &&& !reloc_resolvable(hs, gq, t)
                                }) by {
                                assert(bs[g2 as int].2.relocations@[rr as int] == (o, t));
                                assert(0 <= (g2 as int) < bs.len());
                                assert(0 <= (rr as int) < bs[g2 as int].2.relocations@.len());
                            }
                        }
                        return Err(BinError::UnresolvedRelocation { token: t });
                    }
                    let tgt_start = offsets[gt];
                    if (t.offset as usize) > usize::MAX - tgt_start {
                        proof {
                            assert(resolve_target(hs, t) > usize::MAX);
                            assert(!reloc_resolvable(hs, g2 as int, t));
                            assert(!all_resolvable(hs));
                            assert(exists|gq: int, rq: int|
                                #![trigger bs[gq].2.relocations@[rq]]
                                {
                                    &&& 0 <= gq < bs.len()
                                    &&& 0 <= rq < bs[gq].2.relocations@.len()
                                    &&& bs[gq].2.relocations@[rq].1 == t
                                    &&& !reloc_resolvable(hs, gq, t)
                                }) by {
                                assert(bs[g2 as int].2.relocations@[rr as int] == (o, t));
                                assert(0 <= (g2 as int) < bs.len());
                                assert(0 <= (rr as int) < bs[g2 as int].2.relocations@.len());
                            }
                        }
                        return Err(BinError::UnresolvedRelocation { token: t });
                    }
                    let target = tgt_start + t.offset as usize;
                    proof {
                        assert(target as int == resolve_target(hs, t));
                        d.lemma_encoded_ref_len(0int, 0int);
                        assert(o + d.ref_width() <= bs[g2 as int].2.writer.data().len());
                        assert(all_of(bs, g2 as int) == bs[g2 as int].2.writer.data());
                        assert(start_of(bs, g2 as int) + o + d.ref_width() <= flat_bytes(
                            bs,
                        ).len());
                        lemma_start_of_mono(bs, 0, g2 as int);
                    }
                    let src = offsets[g2] + o;
                    out.set_position(src as u64);
                    let ghost before_patch = out.data();
                    proof {
                        d.lemma_encoded_ref_len(src as int, target as int);
                    }
                    domain.apply_reference(&mut out, target)?;
                    proof {
                        assert(out.data() == patch_one(
                            hs,
                            d,
                            before_patch,
                            g2 as int,
                            rr as int,
                        ));
                        assert(out.data() == patched_upto(hs, d, g2 as int, rr as int + 1));
                        crate::codec::lemma_splice_at(
                            before_patch,
                            src as int,
                            d.encoded_ref(src as int, target as int),
                        );
                        assert(reloc_resolvable(hs, g2 as int, t));
                    }
                    rr = rr + 1;
                }
                j2 = j2 + 1;
                g2 = g2 + 1;
                proof {
                    assert(out.data() == patched_upto(hs, d, g2 as int, 0));
                    assert forall|gq: int, rq: int|
                        #![trigger bs[gq].2.relocations@[rq]]
                        0 <= gq < g2 && 0 <= rq < bs[gq].2.relocations@.len() implies
                        reloc_resolvable(hs, gq, bs[gq].2.relocations@[rq].1) by {
                        if gq == g2 - 1 {
                            assert(reloc_resolvable(
                                hs,
                                g2 - 1,
                                bs[g2 - 1].2.relocations@[rq].1,
                            ));
                        }
                    }
                }
            }
            i2 = i2 + 1;
        }
        proof {
            assert(g2 as int == total_blocks(hs));
            assert(out.data() == assembled(hs, d));
            assert forall|gq: int, rq: int|
                #![trigger all_blocks(hs)[gq].2.relocations@[rq]]
                0 <= gq < all_blocks(hs).len() && 0 <= rq < all_blocks(
                    hs,
                )[gq].2.relocations@.len() implies reloc_resolvable(
                hs,
                gq,
                all_blocks(hs)[gq].2.relocations@[rq].1,
            ) by {
                assert(bs[gq].2.relocations@[rq] == all_blocks(hs)[gq].2.relocations@[rq]);
            }
        }
        let bytes = out.into_inner();
        if bytes.len() == 0 && !saw_reloc {
            return Ok((bytes, Vec::new(), tbl));
        }
        Ok((bytes, offsets, tbl))
    }
}

} // verus!
