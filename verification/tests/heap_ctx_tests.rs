//! Heap and context behaviour: block allocation, the current-block cursor,
//! heap lookup and scoped detachment, and the nested-allocation protocol.

use vivibin::cgfx::FormatCgfx;
use vivibin::ctx::{InnerWriteCtx, WriteCtx, WriteCtxImpl};
use vivibin::cursor::{ByteWriter, Writer};
use vivibin::heap::{HeapToken, WriteHeap};
use vivibin::BinError;

#[test]
fn fresh_heap_has_one_empty_current_block() {
    let h: WriteHeap<ByteWriter> = WriteHeap::new();
    assert_eq!(h.heap_id, 0);
    assert_eq!(h.current_block, 0);
    assert_eq!(h.blocks.len(), 1);
}

#[test]
fn write_token_records_relocation_and_placeholder() {
    let mut h: WriteHeap<ByteWriter> = WriteHeap::new();
    h.cur_writer().write_all(&[1, 2]);
    let t = HeapToken { heap_id: 0, block_id: 5, offset: 9 };
    h.write_token::<4>(t);
    assert_eq!(h.blocks[0].relocations.len(), 1);
    assert_eq!(h.blocks[0].relocations[0], (2, t));
    assert_eq!(h.blocks[0].writer.as_vec(), &vec![1, 2, 0, 0, 0, 0]);
}

#[test]
fn seek_to_new_block_appends_when_current_is_last() {
    let mut h: WriteHeap<ByteWriter> = WriteHeap::new();
    h.cur_writer().write_all(&[1, 2, 3]);
    let t = h.seek_to_new_block(0);
    assert_eq!(t, HeapToken { heap_id: 0, block_id: 1, offset: 0 });
    assert_eq!(h.current_block, 1);
    assert_eq!(h.blocks.len(), 2);
}

#[test]
fn seek_to_new_block_advances_and_aligns_when_a_next_block_exists() {
    let mut h: WriteHeap<ByteWriter> = WriteHeap::new();
    let _ = h.seek_to_new_block(0);
    h.cur_writer().write_all(&[1, 2, 3]);
    // Park the heap back on block 0, then ask for a new block again: the
    // existing block 1 is re-entered and aligned from its current end.
    h.current_block = 0;
    let t = h.seek_to_new_block(4);
    assert_eq!(h.current_block, 1);
    assert_eq!(h.blocks.len(), 2);
    assert_eq!(t, HeapToken { heap_id: 0, block_id: 1, offset: 4 });
    assert_eq!(h.blocks[1].writer.as_vec(), &vec![1, 2, 3, 0]);
}

#[test]
fn heap_token_at_current_pos_names_the_cursor() {
    let mut h: WriteHeap<ByteWriter> = WriteHeap::new_with_id(3);
    h.cur_writer().write_all(&[9, 9]);
    let t = h.heap_token_at_current_pos();
    assert_eq!(t, HeapToken { heap_id: 3, block_id: 0, offset: 2 });
}

#[test]
fn heap_lookup_creates_on_first_use_with_stable_ids() {
    let mut ctx: WriteCtxImpl<FormatCgfx> = WriteCtxImpl::new();
    assert!(ctx.heap(&7).is_none());
    let h7 = ctx.heap_mut(7);
    assert_eq!(h7.heap_id, 1);
    let h3 = ctx.heap_mut(3);
    assert_eq!(h3.heap_id, 2);
    // Ids follow first use even though 3 sorts before 7.
    assert_eq!(ctx.heaps[0].0, 3);
    assert_eq!(ctx.heaps[1].0, 7);
    assert_eq!(ctx.heap(&7).unwrap().heap_id, 1);
    assert_eq!(ctx.heap(&3).unwrap().heap_id, 2);
    // The default category resolves to the default heap.
    assert_eq!(ctx.heap(&0).unwrap().heap_id, 0);
    assert_eq!(ctx.heap_id_of(&7), Some(1));
    assert_eq!(ctx.heap_id_of(&3), Some(2));
    assert_eq!(ctx.heap_id_of(&0), Some(0));
    assert_eq!(ctx.heap_id_of(&9), None);
}

#[test]
fn remove_and_set_heap_round_trip() {
    let mut ctx: WriteCtxImpl<FormatCgfx> = WriteCtxImpl::new();
    ctx.heap_mut(5).cur_writer().write_all(&[42]);
    let h = ctx.remove_heap(&5);
    assert_eq!(h.blocks[0].writer.as_vec(), &vec![42]);
    assert!(ctx.heap(&5).is_none());
    ctx.set_heap(5, h);
    assert_eq!(ctx.heap(&5).unwrap().blocks[0].writer.as_vec(), &vec![42]);
}

#[test]
fn remove_default_heap_leaves_a_fresh_one() {
    let mut ctx: WriteCtxImpl<FormatCgfx> = WriteCtxImpl::new();
    ctx.cur_writer().write_all(&[1]);
    let h = ctx.remove_heap(&0);
    assert_eq!(h.blocks[0].writer.as_vec(), &vec![1]);
    assert_eq!(ctx.default_heap.blocks.len(), 1);
    assert!(ctx.default_heap.blocks[0].writer.as_vec().is_empty());
}

#[test]
fn begin_and_end_block_save_and_restore_the_cursor() {
    let mut ctx: WriteCtxImpl<FormatCgfx> = WriteCtxImpl::new();
    ctx.cur_writer().write_all(&[1, 2]);
    let (saved, t) = ctx.begin_next_block(0);
    assert_eq!(saved, 0);
    assert_eq!(t.block_id, 1);
    ctx.cur_writer().write_all(&[3]);
    ctx.end_block(saved);
    assert_eq!(ctx.default_heap.current_block, 0);
    assert_eq!(ctx.default_heap.blocks[1].writer.as_vec(), &vec![3]);
}

#[test]
fn nested_allocation_restores_the_outer_block() {
    // Inside an outer allocation, an inner allocation writes to its own
    // block, and when it returns, the cursor is back on the outer block.
    let ctx: WriteCtxImpl<FormatCgfx> = WriteCtxImpl::new();
    let (ctx, res) = ctx.allocate_next_block(|mut c: WriteCtxImpl<FormatCgfx>| {
        c.cur_writer().write_all(&[0xA1]);
        let outer_block = c.default_heap.current_block;
        let (mut c, inner) = c.allocate_next_block(|mut c2: WriteCtxImpl<FormatCgfx>| {
            c2.cur_writer().write_all(&[0xB2]);
            (c2, Ok(()))
        });
        let inner_token = inner.unwrap();
        // The inner token names the block created by the inner call.
        assert_eq!(inner_token.block_id, 2);
        // After the inner callback, the cursor equals its value before it.
        assert_eq!(c.default_heap.current_block, outer_block);
        c.cur_writer().write_all(&[0xA3]);
        (c, Ok(()))
    });
    let outer_token = res.unwrap();
    assert_eq!(outer_token.block_id, 1);
    assert_eq!(ctx.default_heap.current_block, 0);
    assert_eq!(ctx.default_heap.blocks[1].writer.as_vec(), &vec![0xA1, 0xA3]);
    assert_eq!(ctx.default_heap.blocks[2].writer.as_vec(), &vec![0xB2]);
}

#[test]
fn inner_context_borrows_and_reinstalls_a_heap() {
    let mut ctx: WriteCtxImpl<FormatCgfx> = WriteCtxImpl::new();
    ctx.heap_mut(6).cur_writer().write_all(&[1, 2]);
    // Borrow the heap of category 6; the parent no longer has it.
    let mut inner = InnerWriteCtx::new(ctx, 6);
    assert!(inner.ctx.heap(&6).is_none());
    inner.default_heap.cur_writer().write_all(&[3]);
    // Releasing reinstalls it under the same category, writes and all.
    let ctx = inner.release();
    assert_eq!(ctx.heap(&6).unwrap().blocks[0].writer.as_vec(), &vec![1, 2, 3]);
}

#[test]
fn allocation_callback_error_still_restores_the_cursor() {
    let ctx: WriteCtxImpl<FormatCgfx> = WriteCtxImpl::new();
    let (ctx, res) = ctx.allocate_next_block(|c: WriteCtxImpl<FormatCgfx>| {
        (c, Err(BinError::InvalidEncoding))
    });
    assert_eq!(res, Err(BinError::InvalidEncoding));
    assert_eq!(ctx.default_heap.current_block, 0);
}
