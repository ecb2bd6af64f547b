//! Heaps of byte blocks and the tokens that refer into them.
//!
//! A block is a byte buffer plus the list of relocations recorded inside it;
//! a heap is an append-only vector of blocks with a current-block cursor.
//! Blocks are never removed or reordered, so a token stays valid while the
//! heap grows.

use vstd::prelude::*;
use crate::codec::{splice_at, zeros, zero_vec};
use crate::cursor::{Writer, aligned_pos, pad_len};

verus! {

/// A deferred reference to a position inside a block: the heap's stable id,
/// the block's index inside that heap, and a byte offset inside the block.
/// After assembly it resolves to an absolute file offset.  Tokens stay valid
/// while blocks grow or are appended.
#[derive(Clone, Copy, Debug, PartialEq, Eq, PartialOrd, Ord, Hash, Structural)]
pub struct HeapToken {
    pub heap_id: u32,
    pub block_id: u32,
    pub offset: u32,
}

impl HeapToken {
    /// The absolute offset this token denotes, given the block-start table of
    /// an assembly run and the table mapping each heap id to the global index
    /// of that heap's first block (both returned by assembly).
    pub fn resolve(self, block_offsets: &Vec<usize>, heap_first_block: &Vec<usize>) -> (r: usize)
        requires
            (self.heap_id as int) < heap_first_block@.len(),
            heap_first_block@[self.heap_id as int] + self.block_id < block_offsets@.len(),
            block_offsets@[heap_first_block@[self.heap_id as int] + self.block_id] + self.offset
                <= usize::MAX,
        ensures
            r == block_offsets@[heap_first_block@[self.heap_id as int] + self.block_id]
                + self.offset,
    {
        let n = block_offsets.len();
        let base = heap_first_block[self.heap_id as usize];
        proof {
            assert(base + self.block_id < n);
        }
        block_offsets[base + self.block_id as usize] + self.offset as usize
    }
}

/// The mathematical content of a block: its bytes and its relocations, each a
/// pair of a local offset and the token whose final position will be patched
/// in there.
pub struct BlockView {
    pub bytes: Seq<u8>,
    pub relocs: Seq<(int, HeapToken)>,
}

/// The mathematical content of a heap: its stable id, the current-block
/// cursor, and its blocks in order.
pub struct HeapView {
    pub id: int,
    pub current: int,
    pub blocks: Seq<BlockView>,
}

/// A byte buffer under construction together with the relocations recorded
/// inside it.  Each entry `(offset, token)` says: at `offset` inside these
/// bytes sits a placeholder whose final value is derived from `token`.
pub struct HeapBlock<W: Writer> {
    pub relocations: Vec<(usize, HeapToken)>,
    pub writer: W,
}

impl<W: Writer> View for HeapBlock<W> {
    type V = BlockView;

    open spec fn view(&self) -> BlockView {
        BlockView {
            bytes: self.writer.data(),
            relocs: self.relocations@.map(|i: int, r: (usize, HeapToken)| (r.0 as int, r.1)),
        }
    }
}

impl<W: Writer> HeapBlock<W> {
    /// An empty block.
    pub fn new() -> (b: Self)
        ensures
            b@.bytes == Seq::<u8>::empty(),
            b@.relocs == Seq::<(int, HeapToken)>::empty(),
            b.writer.pos() == 0,
    {
        let b = HeapBlock { relocations: Vec::new(), writer: W::new_empty() };
        proof {
            assert(b@.relocs =~= Seq::<(int, HeapToken)>::empty());
        }
        b
    }
}

impl<W: Writer> Default for HeapBlock<W> {
    /// The same empty block `new` builds.
    fn default() -> (b: Self)
        ensures
            b@.bytes == Seq::<u8>::empty(),
            b@.relocs == Seq::<(int, HeapToken)>::empty(),
            b.writer.pos() == 0,
    {
        Self::new()
    }
}

/// An ordered collection of blocks sharing one category, with a cursor naming
/// the block currently written to.  Construction seeds one empty block.
pub struct WriteHeap<W: Writer> {
    pub heap_id: u32,
    pub current_block: usize,
    pub blocks: Vec<HeapBlock<W>>,
}

impl<W: Writer> View for WriteHeap<W> {
    type V = HeapView;

    open spec fn view(&self) -> HeapView {
        HeapView {
            id: self.heap_id as int,
            current: self.current_block as int,
            blocks: self.blocks@.map(|i: int, b: HeapBlock<W>| b@),
        }
    }
}

impl<W: Writer> WriteHeap<W> {
    /// A heap is well formed when it has at least one block and the cursor
    /// names one of them.
    pub open spec fn wf(&self) -> bool {
        &&& self.blocks@.len() >= 1
        &&& (self.current_block as int) < self.blocks@.len()
    }

    /// The block the cursor names.
    pub open spec fn cur_block(&self) -> HeapBlock<W> {
        self.blocks@[self.current_block as int]
    }

    /// A fresh heap with stable id 0: one empty block, which is current.
    pub fn new() -> (h: Self)
        ensures
            h.wf(),
            h.heap_id == 0,
            h.current_block == 0,
            h.blocks@.len() == 1,
            h@.blocks[0].bytes == Seq::<u8>::empty(),
            h@.blocks[0].relocs == Seq::<(int, HeapToken)>::empty(),
            h.blocks@[0].writer.pos() == 0,
    {
        Self::new_with_id(0)
    }

    /// A fresh heap with the given stable id: one empty block, which is
    /// current.
    pub fn new_with_id(id: u32) -> (h: Self)
        ensures
            h.wf(),
            h.heap_id == id,
            h.current_block == 0,
            h.blocks@.len() == 1,
            h@.blocks[0].bytes == Seq::<u8>::empty(),
            h@.blocks[0].relocs == Seq::<(int, HeapToken)>::empty(),
            h.blocks@[0].writer.pos() == 0,
    {
        let mut blocks: Vec<HeapBlock<W>> = Vec::new();
        blocks.push(HeapBlock::new());
        WriteHeap { heap_id: id, current_block: 0, blocks }
    }

    /// A writable handle into the current block's byte buffer.
    pub fn cur_writer(&mut self) -> (w: &mut W)
        requires
            old(self).wf(),
        ensures
            *w == old(self).cur_block().writer,
            final(self).heap_id == old(self).heap_id,
            final(self).current_block == old(self).current_block,
            final(self).blocks@ == old(self).blocks@.update(
                old(self).current_block as int,
                (HeapBlock {
                    relocations: old(self).cur_block().relocations,
                    writer: *final(w),
                }),
            ),
    {
        let i = self.current_block;
        let blk = &mut self.blocks[i];
        &mut blk.writer
    }

    /// At the current block's position, record a relocation for `token`, then
    /// emit `N` zero bytes as the placeholder.
    pub fn write_token<const N: usize>(&mut self, token: HeapToken)
        requires
            old(self).wf(),
            old(self).cur_block().writer.pos() + N <= usize::MAX,
        ensures
            final(self).wf(),
            final(self).heap_id == old(self).heap_id,
            final(self).current_block == old(self).current_block,
            final(self).blocks@.len() == old(self).blocks@.len(),
            forall|k: int|
                0 <= k < old(self).blocks@.len() && k != old(self).current_block as int
                    ==> final(self).blocks@[k] == old(self).blocks@[k],
            ({
                let p = old(self).cur_block().writer.pos();
                let cur = final(self).cur_block();
                &&& cur.relocations@ == old(self).cur_block().relocations@.push(
                    (p as usize, token),
                )
                &&& cur.writer.data() == splice_at(
                    old(self).cur_block().writer.data(),
                    p,
                    zeros(N as int),
                )
                &&& cur.writer.pos() == p + N
            }),
    {
        let i = self.current_block;
        let blk = &mut self.blocks[i];
        let p = blk.writer.position();
        blk.relocations.push((p as usize, token));
        let z = zero_vec(N);
        blk.writer.write_all(z.as_slice());
    }

    /// Emit zero bytes into the current block until its position is a
    /// multiple of `alignment`; `alignment == 0` changes nothing.
    pub fn align_to(&mut self, alignment: usize)
        requires
            old(self).wf(),
            0 <= old(self).cur_block().writer.pos(),
            old(self).cur_block().writer.pos() + alignment <= usize::MAX,
        ensures
            final(self).wf(),
            final(self).heap_id == old(self).heap_id,
            final(self).current_block == old(self).current_block,
            final(self).blocks@.len() == old(self).blocks@.len(),
            forall|k: int|
                0 <= k < old(self).blocks@.len() && k != old(self).current_block as int
                    ==> final(self).blocks@[k] == old(self).blocks@[k],
            ({
                let p = old(self).cur_block().writer.pos();
                let cur = final(self).cur_block();
                &&& cur.relocations == old(self).cur_block().relocations
                &&& cur.writer.pos() == aligned_pos(p, alignment as int)
                &&& cur.writer.data() == if alignment == 0 {
                    old(self).cur_block().writer.data()
                } else {
                    splice_at(
                        old(self).cur_block().writer.data(),
                        p,
                        zeros(pad_len(p, alignment as int)),
                    )
                }
            }),
    {
        let w = self.cur_writer();
        crate::cursor::align_to(w, alignment);
    }

    /// Mint a token for the current block's current position.
    pub fn heap_token_at_current_pos(&self) -> (t: HeapToken)
        requires
            self.wf(),
            self.current_block <= u32::MAX,
            0 <= self.cur_block().writer.pos() <= u32::MAX,
        ensures
            t.heap_id == self.heap_id,
            t.block_id as int == self.current_block as int,
            t.offset as int == self.cur_block().writer.pos(),
    {
        let p = self.blocks[self.current_block].writer.position();
        HeapToken {
            heap_id: self.heap_id,
            block_id: self.current_block as u32,
            offset: p as u32,
        }
    }

    /// Move to a fresh write target: when the current block is the last one,
    /// append a new empty block; otherwise advance to the next block and
    /// align it.  Returns a token for the new target's position.
    pub fn seek_to_new_block(&mut self, alignment: usize) -> (t: HeapToken)
        requires
            old(self).wf(),
            old(self).blocks@.len() < u32::MAX,
            old(self).current_block + 1 < old(self).blocks@.len() ==> {
                let p = old(self).blocks@[old(self).current_block + 1].writer.pos();
                &&& 0 <= p
                &&& p + alignment <= usize::MAX
                &&& aligned_pos(p, alignment as int) <= u32::MAX
            },
        ensures
            final(self).wf(),
            final(self).heap_id == old(self).heap_id,
            t.heap_id == old(self).heap_id,
            t.block_id as int == final(self).current_block as int,
            if old(self).current_block + 1 == old(self).blocks@.len() {
                &&& final(self).current_block as int == old(self).blocks@.len()
                &&& final(self).blocks@.len() == old(self).blocks@.len() + 1
                &&& (forall|k: int|
                    0 <= k < old(self).blocks@.len() ==> final(self).blocks@[k] == old(
                        self,
                    ).blocks@[k])
                &&& final(self).cur_block()@.bytes == Seq::<u8>::empty()
                &&& final(self).cur_block()@.relocs == Seq::<(int, HeapToken)>::empty()
                &&& final(self).cur_block().writer.pos() == 0
                &&& t.offset == 0
            } else {
                &&& final(self).current_block == old(self).current_block + 1
                &&& final(self).blocks@.len() == old(self).blocks@.len()
                &&& (forall|k: int|
                    0 <= k < old(self).blocks@.len() && k != old(self).current_block + 1
                        ==> final(self).blocks@[k] == old(self).blocks@[k])
                &&& ({
                    let p = old(self).blocks@[old(self).current_block + 1].writer.pos();
                    let cur = final(self).cur_block();
                    &&& cur.relocations == old(self).blocks@[old(self).current_block
                        + 1].relocations
                    &&& cur.writer.pos() == aligned_pos(p, alignment as int)
                    &&& cur.writer.data() == if alignment == 0 {
                        old(self).blocks@[old(self).current_block + 1].writer.data()
                    } else {
                        splice_at(
                            old(self).blocks@[old(self).current_block + 1].writer.data(),
                            p,
                            zeros(pad_len(p, alignment as int)),
                        )
                    }
                    &&& t.offset as int == aligned_pos(p, alignment as int)
                })
            },
    {
        if self.current_block == self.blocks.len() - 1 {
            self.current_block = self.blocks.len();
            self.blocks.push(HeapBlock::new());
        } else {
            self.current_block = self.current_block + 1;
            self.align_to(alignment);
        }
        self.heap_token_at_current_pos()
    }
}

impl<W: Writer> Default for WriteHeap<W> {
    /// The same fresh heap `new` builds, with stable id 0.
    fn default() -> (h: Self)
        ensures
            h.wf(),
            h.heap_id == 0,
            h.current_block == 0,
            h.blocks@.len() == 1,
    {
        Self::new()
    }
}

} // verus!
