use vstd::prelude::*;

use crate::blocks::{Block, BlockMap, BlockView, extends, ids_view, inline_block_of, splice_spec, std_block_of};
use crate::blocks::inline_blocks::text_block::utf16_encode;
use crate::blocks::tree::{child_index, inline_index};
use crate::new_ids::NewIds;
use crate::step::{ReplaceSlice, ReplaceStep};
use crate::steps_actualisor::UpdatedState;
use crate::steps_generator::{StepError, step_error_msg};
use crate::steps_generator::selection::{Selection, SubSelection, end_depth, end_inline, lemma_layers_len, Layer};

use self::replace_for_inline_blocks::{caret_after, replace_selected_across_inline_blocks, replaced_text};
use self::replace_for_standard_blocks::replace_selected_across_standard_blocks;

pub mod replace_for_inline_blocks;
pub mod replace_for_standard_blocks;

verus! {

/// The step can be applied to `block_map` without running past the end of
/// a text or of a list of blocks.
pub open spec fn replace_step_applies(replace_step: ReplaceStep, block_map: crate::blocks::BlockMapView) -> bool {
    &&& replace_step.slice is String ==> replace_step.from@.last().offset + utf16_encode(replace_step.slice->String_0@).len() <= usize::MAX
    &&& ({
            let f = inline_block_of(block_map, replace_step.from@[0].block_id)->0;
            let t = inline_block_of(block_map, replace_step.to@[0].block_id)->0;
            let fi = inline_index(block_map, f.parent, f.id);
            let ti = inline_index(block_map, f.parent, t.id);
            inline_block_of(block_map, replace_step.from@[0].block_id) is Some
                && inline_block_of(block_map, replace_step.to@[0].block_id) is Some && t.parent == f.parent ==> (if t.id == f.id {
                replace_step.from.offset <= replace_step.to.offset <= f.text.len()
            } else {
                &&& replace_step.from.offset <= f.text.len()
                &&& replace_step.to.offset <= t.text.len()
                &&& fi >= 0 && ti >= 0 ==> fi < ti
            })
        })
    &&& ({
            let f = std_block_of(block_map, replace_step.from@[0].block_id)->0;
            std_block_of(block_map, replace_step.from@[0].block_id) is Some && child_index(block_map, f.parent, f.id) >= 0
                && std_block_of(block_map, replace_step.to@[0].block_id) is Some
                && child_index(block_map, f.parent, replace_step.to@[0].block_id) >= 0
                ==> child_index(block_map, f.parent, f.id) <= child_index(block_map, f.parent, replace_step.to@[0].block_id)
        })
    &&& block_map.contains_key(replace_step.from@[0].block_id) && block_map[replace_step.from@[0].block_id] is Root
            && replace_step.slice is Blocks ==> 0 < replace_step.from.offset <= replace_step.to.offset
            <= block_map[replace_step.from@[0].block_id].children().len()
}

/// The step replaces text within one inline block of `m`, inside its
/// text.
pub open spec fn replaces_within_block(m: crate::blocks::BlockMapView, rs: ReplaceStep) -> bool {
    let f = inline_block_of(m, rs.from@[0].block_id)->0;
    &&& rs.slice is String
    &&& inline_block_of(m, rs.from@[0].block_id) is Some
    &&& rs.to@[0].block_id == rs.from@[0].block_id
    &&& rs.from.offset <= rs.to.offset <= f.text.len()
    &&& rs.from@.last().offset + utf16_encode(rs.slice->String_0@).len() <= usize::MAX
}

/// The document after a replace step within one inline block: its text
/// has the selection replaced by the slice.
pub open spec fn replaced_within_block(m: crate::blocks::BlockMapView, rs: ReplaceStep) -> crate::blocks::BlockMapView {
    let f = inline_block_of(m, rs.from@[0].block_id)->0;
    m.insert(
        f.id,
        BlockView::Inline(f.with_text(replaced_text(f.text, rs.from.offset as int, rs.to.offset as int, rs.slice->String_0@))),
    )
}

/// `r` holds the document after the step within one inline block, with
/// the caret just after the inserted text.
pub open spec fn replaced_state(m: crate::blocks::BlockMapView, rs: ReplaceStep, r: Result<UpdatedState, StepError>) -> bool {
    &&& r is Ok
    &&& r->Ok_0.block_map@ == replaced_within_block(m, rs)
    &&& r->Ok_0.selection is Some
    &&& r->Ok_0.selection->0.anchor@ == caret_after(rs.from@, rs.slice->String_0@)
    &&& r->Ok_0.selection->0.head@ == r->Ok_0.selection->0.anchor@
}

/// Whether the step can be applied to the map (see `replace_step_applies`).
pub fn check_replace_step(replace_step: &ReplaceStep, block_map: &BlockMap) -> (r: bool)
    ensures
        r == replace_step_applies(*replace_step, block_map@),
{
    proof {
        lemma_layers_len(replace_step.from);
        lemma_layers_len(replace_step.to);
        block_map.lemma_keys_are_ids();
    }
    match &replace_step.slice {
        ReplaceSlice::String(text) => {
            let d = replace_step.from.get_deepest_subselection();
            proof {
                lemma_layers_len(*d);
            }
            let n = crate::blocks::inline_blocks::text_block::StringUTF16::from_str(text.as_str()).len();
            if d.offset.checked_add(n).is_none() {
                return false;
            }
        },
        ReplaceSlice::Blocks(_) => {},
    }
    match (block_map.get_inline_block(&replace_step.from.block_id), block_map.get_inline_block(&replace_step.to.block_id)) {
        (Ok(f), Ok(t)) => {
            if crate::text::str_eq(f.parent.as_str(), t.parent.as_str()) {
                let fl = f.text().unwrap().len();
                let tl = t.text().unwrap().len();
                if crate::text::str_eq(f._id.as_str(), t._id.as_str()) {
                    if !(replace_step.from.offset <= replace_step.to.offset && replace_step.to.offset <= fl) {
                        return false;
                    }
                } else {
                    if !(replace_step.from.offset <= fl && replace_step.to.offset <= tl) {
                        return false;
                    }
                    match (f.index(block_map), t.index(block_map)) {
                        (Ok(fi), Ok(ti)) => {
                            if fi >= ti {
                                return false;
                            }
                        },
                        _ => {},
                    }
                }
            }
        },
        _ => {},
    }
    match (block_map.get_standard_block(&replace_step.from.block_id), block_map.get_standard_block(&replace_step.to.block_id)) {
        (Ok(f), Ok(_)) => {
            match block_map.get_block(&f.parent) {
                Ok(p) => {
                    match (p.index_of_child(f._id.as_str()), p.index_of_child(replace_step.to.block_id.as_str())) {
                        (Ok(fi), Ok(ti)) => {
                            if fi > ti {
                                return false;
                            }
                        },
                        _ => {},
                    }
                },
                Err(_) => {},
            }
        },
        _ => {},
    }
    match (block_map.get_block(&replace_step.from.block_id), &replace_step.slice) {
        (Ok(Block::Root(root)), ReplaceSlice::Blocks(_)) => {
            if !(0 < replace_step.from.offset && replace_step.from.offset <= replace_step.to.offset
                && replace_step.to.offset <= root.children.len()) {
                return false;
            }
        },
        _ => {},
    }
    true
}

/// Applies a replace step, by the kind of block where the selection starts.
pub fn actualise_replace_step(
    replace_step: ReplaceStep,
    block_map: BlockMap,
    current_updated_selection: Option<Selection>,
    blocks_to_update: Vec<String>,
    new_ids: &mut NewIds,
) -> (r: Result<UpdatedState, StepError>)
    requires
        replace_step_applies(replace_step, block_map@),
    ensures
        !block_map@.contains_key(replace_step.from@[0].block_id) ==> r is Err,
        r matches Ok(s) ==> extends(blocks_to_update@, s.blocks_to_update@) && s.blocks_to_remove@.len() == 0 && s.copy is None,
        replaces_within_block(block_map@, replace_step) ==> replaced_state(block_map@, replace_step, r),
{
    proof {
        lemma_layers_len(replace_step.from);
        lemma_layers_len(replace_step.to);
        block_map.lemma_keys_are_ids();
    }
    let from_block = block_map.get_block(&replace_step.from.block_id)?;
    return match from_block {
        Block::InlineBlock(from_block) => replace_selected_across_inline_blocks(from_block, block_map, replace_step, blocks_to_update),
        Block::StandardBlock(from_block) => replace_selected_across_standard_blocks(from_block, block_map, replace_step, blocks_to_update),
        Block::Root(root_block) => replace_selected_across_blocks_children(
            Block::Root(root_block),
            block_map,
            replace_step.from,
            replace_step.to,
            replace_step.slice,
            current_updated_selection,
            blocks_to_update,
        ),
    }
}

/// Replaces the children of `block` from `from.offset` up to `to.offset`
/// with the blocks of the slice; the caret goes to the current selection,
/// else to the end of the child just before those replaced.
pub fn replace_selected_across_blocks_children(
    block: Block,
    block_map: BlockMap,
    from: SubSelection,
    to: SubSelection,
    slice: ReplaceSlice,
    current_updated_selection: Option<Selection>,
    blocks_to_update: Vec<String>,
) -> (r: Result<UpdatedState, StepError>)
    requires
        block@.has_children() && slice is Blocks ==> 0 < from.offset <= to.offset <= block@.children().len(),
    ensures
        !(slice is Blocks) || block@ is Inline ==> r is Err,
        r matches Ok(s) ==> ({
            let new_block = block@.with_children(splice_spec(block@.children(), from.offset as int, to.offset as int, ids_view(slice->Blocks_0@)));
            let before = new_block.children()[from.offset - 1];
            &&& s.block_map@ == block_map@.insert(block@.id(), new_block)
            &&& extends(blocks_to_update@, s.blocks_to_update@) && s.blocks_to_remove@.len() == 0 && s.copy is None
            &&& current_updated_selection is Some ==> s.selection == current_updated_selection
            &&& current_updated_selection is None ==> (s.selection is Some && s.selection->0.anchor@ == seq![Layer { block_id: end_inline(s.block_map@, before, end_depth())->0.id, offset: end_inline(s.block_map@, before, end_depth())->0.text.len() as usize }] && s.selection->0.head@ == s.selection->0.anchor@)
        }),
        block@.has_children() && slice is Blocks && current_updated_selection is Some ==> r is Ok,
{
    let mut block = block;
    let mut block_map = block_map;
    let mut blocks_to_update = blocks_to_update;
    let blocks_to_add = match slice {
        ReplaceSlice::Blocks(blocks) => blocks,
        _ => return Err(step_error_msg("Replace slice should be blocks")),
    };
    block.splice_children(from.offset, to.offset, blocks_to_add)?;
    let block_before_first_child_deleted_id = block.get_child_from_index(from.offset - 1)?;
    block_map.update_block(block, &mut blocks_to_update)?;
    if current_updated_selection.is_some() {
        return Ok(UpdatedState {
            block_map,
            selection: current_updated_selection,
            blocks_to_update,
            blocks_to_remove: Vec::new(),
            copy: None,
        })
    } else {
        let updated_subselection = SubSelection::at_end_of_block(&block_before_first_child_deleted_id, &block_map)?;
        return Ok(UpdatedState {
            block_map,
            selection: Some(Selection { anchor: updated_subselection.copy(), head: updated_subselection }),
            blocks_to_update,
            blocks_to_remove: Vec::new(),
            copy: None,
        })
    }
}

} // verus!
