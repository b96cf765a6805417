use vstd::prelude::*;

use std::ops::Range;

use crate::blocks::{Block, BlockMap, BlockView, extends, ids_view, inline_block_of, splice_spec, std_block_of};
use crate::blocks::inline_blocks::InlineBlock;
use crate::blocks::inline_blocks::text_block::StringUTF16;
use crate::blocks::standard_blocks::StandardBlock;
use crate::blocks::standard_blocks::content_block::ContentBlock;
use crate::blocks::tree::{has_kind, reparent, reparent_blocks};
use crate::mark::Mark;
use crate::new_ids::NewIds;
use crate::steps_generator::StepError;

verus! {

/// Makes `new_children` children of `block` in place of those in `range`,
/// and writes the block and the reparented children back.
pub fn splice_children(
    block: Block,
    range: Range<usize>,
    new_children: Vec<String>,
    blocks_to_update: &mut Vec<String>,
    block_map: &mut BlockMap,
) -> (r: Result<(), StepError>)
    requires
        block@.has_children() ==> range.start <= range.end <= block@.children().len(),
    ensures
        extends(old(blocks_to_update)@, final(blocks_to_update)@),
        r is Ok <==> block@.has_children() && forall|i: int|
            0 <= i < new_children@.len() ==> std_block_of(old(block_map)@, #[trigger] new_children@[i]@) is Some,
        r is Ok ==> final(block_map)@ == reparent(old(block_map)@, ids_view(new_children@), block@.id()).insert(
            block@.id(),
            block@.with_children(splice_spec(block@.children(), range.start as int, range.end as int, ids_view(new_children@))),
        ),
{
    if block.is_root() == false {
        match &block {
            Block::InlineBlock(_) => {
                return Err(crate::steps_generator::step_error_msg("InlineBlock does not have children"));
            },
            _ => {},
        }
    }
    let ghost m0 = block_map@;
    let id = block.id();
    let r = reparent_blocks(block_map, &new_children, &id, false, blocks_to_update);
    match r {
        Ok(()) => {},
        Err(e) => {
            proof {
                let j = choose|j: int| !(0 <= j < new_children@.len() ==> has_kind(m0, #[trigger] new_children@[j]@, false));
            }
            return Err(e);
        },
    }
    let mut block = block;
    block.splice_children(range.start, range.end, new_children)?;
    block_map.update_block(block, blocks_to_update)?;
    Ok(())
}

/// The same as `splice_children`, on a standard block that the caller keeps.
pub fn splice_children_on_std_block(
    block: &mut StandardBlock,
    range: Range<usize>,
    new_children: Vec<String>,
    blocks_to_update: &mut Vec<String>,
    block_map: &mut BlockMap,
) -> (r: Result<(), StepError>)
    requires
        range.start <= range.end <= old(block)@.children.len(),
    ensures
        extends(old(blocks_to_update)@, final(blocks_to_update)@),
        r is Ok <==> forall|i: int|
            0 <= i < new_children@.len() ==> std_block_of(old(block_map)@, #[trigger] new_children@[i]@) is Some,
        r is Ok ==> final(block)@ == old(block)@.with_children(splice_spec(old(block)@.children, range.start as int, range.end as int, ids_view(new_children@)))
            && final(block_map)@ == reparent(old(block_map)@, ids_view(new_children@), old(block)@.id).insert(
            old(block)@.id,
            BlockView::Standard(final(block)@),
        ),
{
    let ghost m0 = block_map@;
    let r = reparent_blocks(block_map, &new_children, &block._id, false, blocks_to_update);
    match r {
        Ok(()) => {},
        Err(e) => {
            proof {
                let j = choose|j: int| !(0 <= j < new_children@.len() ==> has_kind(m0, #[trigger] new_children@[j]@, false));
            }
            return Err(e);
        },
    }
    crate::blocks::splice_ids(&mut block.children, range.start, range.end, new_children);
    block_map.update_block(Block::StandardBlock(block.copy()), blocks_to_update)?;
    Ok(())
}

/// Makes `new_inline_blocks` inline blocks of `block` in place of those in
/// `range`, and writes the block and the reparented inline blocks back.
pub fn splice_inline_blocks(
    block: StandardBlock,
    range: Range<usize>,
    new_inline_blocks: Vec<String>,
    blocks_to_update: &mut Vec<String>,
    block_map: &mut BlockMap,
) -> (r: Result<StandardBlock, StepError>)
    requires
        block@.has_content() ==> range.start <= range.end <= block@.inline_blocks().len(),
    ensures
        extends(old(blocks_to_update)@, final(blocks_to_update)@),
        r is Ok <==> block@.has_content() && forall|i: int|
            0 <= i < new_inline_blocks@.len() ==> inline_block_of(old(block_map)@, #[trigger] new_inline_blocks@[i]@) is Some,
        r matches Ok(b) ==> b@ == block@.with_inline_blocks(splice_spec(block@.inline_blocks(), range.start as int, range.end as int, ids_view(new_inline_blocks@)))
            && final(block_map)@ == reparent(old(block_map)@, ids_view(new_inline_blocks@), block@.id).insert(
            block@.id,
            BlockView::Standard(b@),
        ),
{
    let ghost m0 = block_map@;
    let content = block.content_block()?;
    let r = reparent_blocks(block_map, &new_inline_blocks, &block._id, true, blocks_to_update);
    match r {
        Ok(()) => {},
        Err(e) => {
            proof {
                let j = choose|j: int| !(0 <= j < new_inline_blocks@.len() ==> has_kind(m0, #[trigger] new_inline_blocks@[j]@, true));
            }
            return Err(e);
        },
    }
    let mut inline_blocks = crate::blocks::copy_ids(&content.inline_blocks);
    crate::blocks::splice_ids(&mut inline_blocks, range.start, range.end, new_inline_blocks);
    let block = block.update_block_content(ContentBlock { inline_blocks })?;
    block_map.update_block(Block::StandardBlock(block.copy()), blocks_to_update)?;
    return Ok(block)
}

/// Writes `inline_block` back with the text `new_text`.
pub fn update_text(
    inline_block: InlineBlock,
    new_text: StringUTF16,
    blocks_to_update: &mut Vec<String>,
    block_map: &mut BlockMap,
) -> (r: Result<(), StepError>)
    ensures
        r is Ok,
        extends(old(blocks_to_update)@, final(blocks_to_update)@),
        final(block_map)@ == old(block_map)@.insert(
            inline_block@.id,
            BlockView::Inline(inline_block@.with_text(new_text@)),
        ),
{
    let inline_block = inline_block.update_text(new_text)?;
    block_map.update_block(Block::InlineBlock(inline_block), blocks_to_update)?;
    return Ok(())
}

/// Writes `inline_block` back with `mark` added or removed.
pub fn update_mark(
    inline_block: InlineBlock,
    mark: Mark,
    add_mark: bool,
    blocks_to_update: &mut Vec<String>,
    block_map: &mut BlockMap,
) -> (r: Result<(), StepError>)
    ensures
        r is Ok,
        extends(old(blocks_to_update)@, final(blocks_to_update)@),
        final(block_map)@ == old(block_map)@.insert(
            inline_block@.id,
            BlockView::Inline(inline_block@.with_marks(inline_block@.marks_after(mark, add_mark))),
        ),
{
    let inline_block = inline_block.apply_mark(mark, add_mark);
    block_map.update_block(Block::InlineBlock(inline_block), blocks_to_update)?;
    return Ok(())
}

/// Splits `inline_block` at `offset` and writes both halves back.
pub fn split_inline_block(
    inline_block: InlineBlock,
    offset: usize,
    blocks_to_update: &mut Vec<String>,
    block_map: &mut BlockMap,
    new_ids: &mut NewIds,
) -> (r: Result<(InlineBlock, InlineBlock), StepError>)
    ensures
        extends(old(blocks_to_update)@, final(blocks_to_update)@),
        r is Ok <==> offset <= inline_block@.text.len() && old(new_ids).ids().len() > 0,
        r is Ok ==> final(new_ids).ids() == old(new_ids).ids().drop_last(),
        r is Err ==> final(new_ids).ids() == old(new_ids).ids() && final(block_map)@ == old(block_map)@,
        r matches Ok((a, b)) ==> a@ == inline_block@.with_text(inline_block@.text.take(offset as int))
            && b@ == inline_block@.with_text(inline_block@.text.skip(offset as int)).with_id(old(new_ids).ids().last()@)
            && final(block_map)@ == old(block_map)@.insert(a@.id, BlockView::Inline(a@)).insert(b@.id, BlockView::Inline(b@)),
{
    let (left, right) = inline_block.split(offset, new_ids)?;
    block_map.update_block(Block::InlineBlock(left.copy()), blocks_to_update)?;
    block_map.update_block(Block::InlineBlock(right.copy()), blocks_to_update)?;
    return Ok((left, right))
}

} // verus!
