use vstd::prelude::*;

use crate::blocks::{Block, BlockMap, BlockMapView, BlockView, extends, ids_view, inline_block_of, splice_spec};
use crate::blocks::inline_blocks::{InlineBlock, InlineBlockView};
use crate::blocks::inline_blocks::text_block::{StringUTF16, utf16_encode};
use crate::blocks::standard_blocks::{StandardBlock, StandardBlockView};
use crate::blocks::standard_blocks::content_block::ContentBlock;
use crate::blocks::tree::inline_index;
use crate::blocks::std_block_of;
use crate::step::{ReplaceSlice, ReplaceStep};
use crate::steps_actualisor::{UpdatedState, clean_block_after_transform, cleaned, distinct_apart, all_inline};
use crate::steps_generator::{StepError, step_error_msg};
use crate::steps_generator::selection::{Layer, Selection, lemma_layers_len};
use crate::text::str_eq;

verus! {

/// The text of an inline block with `text[from..to]` replaced by `with`.
pub open spec fn replaced_text(text: Seq<u16>, from: int, to: int, with: Seq<char>) -> Seq<u16> {
    text.take(from) + utf16_encode(with) + text.skip(to)
}

/// The caret after inserting `with` at `from`: at the deepest layer of
/// `from`, just after the inserted text.
pub open spec fn caret_after(from: Seq<Layer>, with: Seq<char>) -> Seq<Layer> {
    seq![Layer { block_id: from.last().block_id, offset: (from.last().offset + utf16_encode(with).len()) as usize }]
}

/// The parent of `from` with the inline blocks strictly between `from` and
/// `to` left out.
pub open spec fn without_between(p: StandardBlockView, fi: int, ti: int) -> StandardBlockView {
    p.with_inline_blocks(p.inline_blocks().take(fi + 1) + p.inline_blocks().skip(ti))
}

/// Replaces the selected text with the text of the step, where both ends of
/// the selection lie in inline blocks of one standard block.
pub fn replace_selected_across_inline_blocks(
    from_block: InlineBlock,
    block_map: BlockMap,
    replace_step: ReplaceStep,
    blocks_to_update: Vec<String>,
) -> (r: Result<UpdatedState, StepError>)
    requires
        replace_step.slice is String ==> replace_step.from@.last().offset + utf16_encode(
            replace_step.slice->String_0@,
        ).len() <= usize::MAX,
        ({
            let t = inline_block_of(block_map@, replace_step.to@[0].block_id)->0;
            let fi = inline_index(block_map@, from_block@.parent, from_block@.id);
            let ti = inline_index(block_map@, from_block@.parent, t.id);
            inline_block_of(block_map@, replace_step.to@[0].block_id) is Some && t.parent == from_block@.parent ==> (if t.id == from_block@.id {
                replace_step.from.offset <= replace_step.to.offset <= from_block@.text.len()
            } else {
                &&& replace_step.from.offset <= from_block@.text.len()
                &&& replace_step.to.offset <= t.text.len()
                &&& fi >= 0 && ti >= 0 ==> fi < ti
            })
        }),
    ensures
        r is Ok ==> replace_step.slice is String,
        r is Ok ==> inline_block_of(block_map@, replace_step.to@[0].block_id) is Some,
        !(replace_step.slice is String) ==> r is Err,
        inline_block_of(block_map@, replace_step.to@[0].block_id) is None ==> r is Err,
        inline_block_of(block_map@, replace_step.to@[0].block_id) is Some && inline_block_of(block_map@, replace_step.to@[0].block_id)->0.parent != from_block@.parent ==> r is Err,
        replace_step.slice is String && inline_block_of(block_map@, replace_step.to@[0].block_id) is Some
            && inline_block_of(block_map@, replace_step.to@[0].block_id)->0.parent != from_block@.parent
            ==> r->Err_0.0@ == "Expected from_block and to_block to have the same parent"@,
        r matches Ok(s) ==> s.selection matches Some(sel) && sel.anchor@ == caret_after(replace_step.from@, replace_step.slice->String_0@) && sel.head@ == sel.anchor@,
        r matches Ok(s) ==> extends(blocks_to_update@, s.blocks_to_update@) && s.blocks_to_remove@.len() == 0 && s.copy is None,
        // within one inline block: its text has the selection replaced
        replace_step.slice is String && inline_block_of(block_map@, replace_step.to@[0].block_id) is Some
            && inline_block_of(block_map@, replace_step.to@[0].block_id)->0.parent == from_block@.parent
            && inline_block_of(block_map@, replace_step.to@[0].block_id)->0.id == from_block@.id
            ==> (r is Ok && r->Ok_0.block_map@ == block_map@.insert(from_block@.id, BlockView::Inline(from_block@.with_text(
                replaced_text(from_block@.text, replace_step.from.offset as int, replace_step.to.offset as int, replace_step.slice->String_0@))))),
        // across inline blocks: the ends are trimmed, what lies between goes,
        // and the parent is cleaned
        r is Ok && inline_block_of(block_map@, replace_step.to@[0].block_id)->0.id != from_block@.id ==> ({
            let s = r->Ok_0;
            let t = inline_block_of(block_map@, replace_step.to@[0].block_id)->0;
            let p = std_block_of(block_map@, from_block@.parent)->0;
            let fi = inline_index(block_map@, from_block@.parent, from_block@.id);
            let ti = inline_index(block_map@, from_block@.parent, t.id);
            let trimmed = block_map@.insert(from_block@.id, BlockView::Inline(from_block@.with_text(
                    from_block@.text.take(replace_step.from.offset as int) + utf16_encode(replace_step.slice->String_0@)))).insert(
                    t.id, BlockView::Inline(t.with_text(t.text.skip(replace_step.to.offset as int))));
            &&& std_block_of(block_map@, from_block@.parent) is Some && fi >= 0 && ti >= 0
            &&& distinct_apart(without_between(p, fi, ti).inline_blocks(), p.id) && all_inline(trimmed, without_between(p, fi, ti).inline_blocks())
                ==> cleaned(trimmed, s.block_map@, without_between(p, fi, ti))
        }),
{
    let replace_with = match &replace_step.slice {
        ReplaceSlice::String(string) => string.clone(),
        _ => return Err(step_error_msg("Replace slice should be string")),
    };
    proof {
        lemma_layers_len(replace_step.to);
    }
    let to_block = block_map.get_inline_block(&replace_step.to.block_id)?;
    if !str_eq(from_block.parent.as_str(), to_block.parent.as_str()) {
        return Err(step_error_msg("Expected from_block and to_block to have the same parent"))
    }
    proof {
        block_map.lemma_keys_are_ids();
    }
    if str_eq(from_block._id.as_str(), to_block._id.as_str()) {
        replace_across_single_inline_block(from_block, block_map, replace_step, replace_with, blocks_to_update)
    } else {
        replace_across_multiple_inline_blocks(from_block, to_block, block_map, replace_step, replace_with, blocks_to_update)
    }
}

fn replace_across_single_inline_block(
    from_block: InlineBlock,
    block_map: BlockMap,
    replace_step: ReplaceStep,
    replace_with: String,
    blocks_to_update: Vec<String>,
) -> (r: Result<UpdatedState, StepError>)
    requires
        replace_step.slice == ReplaceSlice::String(replace_with),
        replace_step.from.offset <= replace_step.to.offset <= from_block@.text.len(),
        replace_step.from@.last().offset + utf16_encode(replace_with@).len() <= usize::MAX,
    ensures
        r is Ok,
        r matches Ok(s) ==> s.block_map@ == block_map@.insert(from_block@.id, BlockView::Inline(from_block@.with_text(
            replaced_text(from_block@.text, replace_step.from.offset as int, replace_step.to.offset as int, replace_with@)))),
        r matches Ok(s) ==> s.selection matches Some(sel) && sel.anchor@ == caret_after(replace_step.from@, replace_with@) && sel.head@ == sel.anchor@,
        r matches Ok(s) ==> extends(blocks_to_update@, s.blocks_to_update@) && s.blocks_to_remove@.len() == 0 && s.copy is None,
{
    let mut block_map = block_map;
    let mut blocks_to_update = blocks_to_update;
    let mut text = from_block.text()?.copy();
    text.splice(replace_step.from.offset..replace_step.to.offset, StringUTF16::from_str(replace_with.as_str()));
    // create new block with text from replace_with inserted
    let updated_block = from_block.update_text(text)?;
    block_map.update_block(Block::InlineBlock(updated_block), &mut blocks_to_update)?;
    return Ok(UpdatedState {
        block_map,
        selection: Some(Selection::update_selection_from(replace_step)),
        blocks_to_update,
        blocks_to_remove: Vec::new(),
        copy: None,
    })
}

fn replace_across_multiple_inline_blocks(
    from_block: InlineBlock,
    to_block: InlineBlock,
    block_map: BlockMap,
    replace_step: ReplaceStep,
    replace_with: String,
    blocks_to_update: Vec<String>,
) -> (r: Result<UpdatedState, StepError>)
    requires
        replace_step.slice == ReplaceSlice::String(replace_with),
        replace_step.from.offset <= from_block@.text.len(),
        replace_step.to.offset <= to_block@.text.len(),
        replace_step.from@.last().offset + utf16_encode(replace_with@).len() <= usize::MAX,
        to_block@.parent == from_block@.parent,
        inline_index(block_map@, from_block@.parent, from_block@.id) >= 0 && inline_index(block_map@, from_block@.parent, to_block@.id) >= 0 ==> inline_index(block_map@, from_block@.parent, from_block@.id) < inline_index(block_map@, from_block@.parent, to_block@.id),
    ensures
        r matches Ok(s) ==> s.selection matches Some(sel) && sel.anchor@ == caret_after(replace_step.from@, replace_with@) && sel.head@ == sel.anchor@
            && extends(blocks_to_update@, s.blocks_to_update@) && s.blocks_to_remove@.len() == 0 && s.copy is None,
        r is Ok ==> ({
            let s = r->Ok_0;
            let t = to_block@;
            let p = std_block_of(block_map@, from_block@.parent)->0;
            let fi = inline_index(block_map@, from_block@.parent, from_block@.id);
            let ti = inline_index(block_map@, from_block@.parent, t.id);
            let trimmed = block_map@.insert(from_block@.id, BlockView::Inline(from_block@.with_text(
                    from_block@.text.take(replace_step.from.offset as int) + utf16_encode(replace_with@)))).insert(
                    t.id, BlockView::Inline(t.with_text(t.text.skip(replace_step.to.offset as int))));
            &&& std_block_of(block_map@, from_block@.parent) is Some && fi >= 0 && ti >= 0
            &&& distinct_apart(without_between(p, fi, ti).inline_blocks(), p.id) && all_inline(trimmed, without_between(p, fi, ti).inline_blocks())
                ==> cleaned(trimmed, s.block_map@, without_between(p, fi, ti))
        }),
        ({
            let t = to_block@;
            let p = std_block_of(block_map@, from_block@.parent)->0;
            let fi = inline_index(block_map@, from_block@.parent, from_block@.id);
            let ti = inline_index(block_map@, from_block@.parent, t.id);
            let trimmed = block_map@.insert(from_block@.id, BlockView::Inline(from_block@.with_text(
                    from_block@.text.take(replace_step.from.offset as int) + utf16_encode(replace_with@)))).insert(
                    t.id, BlockView::Inline(t.with_text(t.text.skip(replace_step.to.offset as int))));
            fi >= 0 && ti >= 0 && distinct_apart(without_between(p, fi, ti).inline_blocks(), p.id)
                && all_inline(trimmed, without_between(p, fi, ti).inline_blocks()) ==> r is Ok
        }),
{
    let mut blocks_to_update = blocks_to_update;
    let ghost m = block_map@;
    let updated_parent_block = remove_inline_blocks_between_from_and_to(&block_map, &from_block, &to_block._id)?;
    let block_map = update_from_inline_block_text(from_block, block_map, replace_step.from.offset, replace_with, &mut blocks_to_update)?;
    let block_map = update_to_inline_block_text(to_block, block_map, replace_step.to.offset, &mut blocks_to_update)?;
    let ghost trimmed = block_map@;
    let block_map = clean_block_after_transform(updated_parent_block, block_map, &mut blocks_to_update)?;
    return Ok(UpdatedState {
        block_map,
        selection: Some(Selection::update_selection_from(replace_step)),
        blocks_to_update,
        blocks_to_remove: Vec::new(),
        copy: None,
    })
}

/// The parent of `from_block` without the inline blocks strictly between
/// `from_block` and `to_block_id`.
fn remove_inline_blocks_between_from_and_to(
    block_map: &BlockMap,
    from_block: &InlineBlock,
    to_block_id: &String,
) -> (r: Result<StandardBlock, StepError>)
    requires
        inline_index(block_map@, from_block@.parent, from_block@.id) >= 0 && inline_index(block_map@, from_block@.parent, to_block_id@) >= 0 ==> inline_index(block_map@, from_block@.parent, from_block@.id) < inline_index(block_map@, from_block@.parent, to_block_id@),
    ensures
        r is Ok <==> inline_index(block_map@, from_block@.parent, from_block@.id) >= 0 && inline_index(block_map@, from_block@.parent, to_block_id@) >= 0,
        r matches Ok(b) ==> b@ == without_between(
            std_block_of(block_map@, from_block@.parent)->0,
            inline_index(block_map@, from_block@.parent, from_block@.id),
            inline_index(block_map@, from_block@.parent, to_block_id@),
        ),
{
    let parent_block = from_block.get_parent(block_map)?;
    let from_index = parent_block.index_of(&from_block._id)?;
    let to_index = parent_block.index_of(to_block_id.as_str())?;
    proof {
        crate::blocks::tree::lemma_inline_index(block_map@, from_block@.parent, from_block@.id);
        crate::blocks::tree::lemma_inline_index(block_map@, from_block@.parent, to_block_id@);
    }
    let content_block = parent_block.content_block()?;
    let mut inline_blocks = crate::blocks::copy_ids(&content_block.inline_blocks);
    crate::blocks::splice_ids(&mut inline_blocks, from_index + 1, to_index, Vec::new());
    proof {
        let ids = parent_block@.inline_blocks();
        assert(splice_spec(ids, from_index + 1, to_index as int, ids_view(Seq::<String>::empty())) =~= ids.take(from_index + 1) + ids.skip(to_index as int));
    }
    return parent_block.update_block_content(ContentBlock { inline_blocks })
}

/// Writes `from_block` back with its text from `offset` on replaced by
/// `replace_with`.
pub fn update_from_inline_block_text(
    from_block: InlineBlock,
    block_map: BlockMap,
    offset: usize,
    replace_with: String,
    blocks_to_update: &mut Vec<String>,
) -> (r: Result<BlockMap, StepError>)
    requires
        offset <= from_block@.text.len(),
    ensures
        r matches Ok(m) && m@ == block_map@.insert(from_block@.id, BlockView::Inline(from_block@.with_text(
            from_block@.text.take(offset as int) + utf16_encode(replace_with@)))),
        extends(old(blocks_to_update)@, final(blocks_to_update)@),
{
    let mut text = from_block.text()?.copy();
    let n = text.len();
    text.splice(offset..n, StringUTF16::from_str(replace_with.as_str()));
    proof {
        assert(from_block@.text.skip(n as int) =~= Seq::<u16>::empty());
        assert(from_block@.text.take(offset as int) + utf16_encode(replace_with@) + from_block@.text.skip(n as int)
            =~= from_block@.text.take(offset as int) + utf16_encode(replace_with@));
    }
    return update_inline_block_with_new_text_in_block(from_block, block_map, text, blocks_to_update)
}

/// Writes `to_block` back without the first `offset` units of its text.
pub fn update_to_inline_block_text(
    to_block: InlineBlock,
    block_map: BlockMap,
    offset: usize,
    blocks_to_update: &mut Vec<String>,
) -> (r: Result<BlockMap, StepError>)
    requires
        offset <= to_block@.text.len(),
    ensures
        r matches Ok(m) && m@ == block_map@.insert(to_block@.id, BlockView::Inline(to_block@.with_text(
            to_block@.text.skip(offset as int)))),
        extends(old(blocks_to_update)@, final(blocks_to_update)@),
{
    let mut text = to_block.text()?.copy();
    text.splice(0..offset, StringUTF16::new());
    proof {
        assert(to_block@.text.take(0) + Seq::<u16>::empty() + to_block@.text.skip(offset as int) =~= to_block@.text.skip(offset as int));
    }
    return update_inline_block_with_new_text_in_block(to_block, block_map, text, blocks_to_update)
}

fn update_inline_block_with_new_text_in_block(
    inline_block: InlineBlock,
    block_map: BlockMap,
    updated_text: StringUTF16,
    blocks_to_update: &mut Vec<String>,
) -> (r: Result<BlockMap, StepError>)
    ensures
        r matches Ok(m) && m@ == block_map@.insert(inline_block@.id, BlockView::Inline(inline_block@.with_text(updated_text@))),
        extends(old(blocks_to_update)@, final(blocks_to_update)@),
{
    let mut block_map = block_map;
    let updated_inline_block = inline_block.update_text(updated_text)?;
    block_map.update_block(Block::InlineBlock(updated_inline_block), blocks_to_update)?;
    return Ok(block_map)
}

} // verus!
