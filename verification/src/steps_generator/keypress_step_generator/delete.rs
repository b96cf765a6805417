use vstd::prelude::*;

use crate::blocks::{Block, BlockMap, BlockMapView, inline_block_of, std_block_of};
use crate::blocks::tree::{inline_index, sibling_id};
use crate::blocks::standard_blocks::{StandardBlockKind, StandardBlockTypeView, kind_is_list};
use crate::step::is_turn_into;
use crate::steps_generator::slash_scrim::removes_text;
use crate::step::Step;
use crate::steps_generator::{StepError, step_error_msg};
use crate::steps_generator::generate_replace_selected_steps::generate_replace_selected_steps;
use crate::steps_generator::keypress_step_generator::backspace::{check_backspace, deletes_between, generate_steps_for_backspace, start_of_block_steps};
use crate::steps_generator::selection::{Layer, SubSelection, lemma_layers_len};

verus! {

/// The steps of delete at the end of the last inline block of the standard
/// block `p`: nothing where no block with text follows `p` among its
/// siblings; else those of backspace at the start of the first inline block
/// of the block below (a list item there becomes a paragraph, another block
/// joins `p`).
pub open spec fn delete_at_end_steps(m: BlockMapView, steps: Seq<Step>, p: crate::blocks::standard_blocks::StandardBlockView) -> bool {
    let s = std_block_of(m, sibling_id(m, p, 1)->0)->0;
    let c = inline_block_of(m, s.inline_blocks()[0])->0;
    let q = std_block_of(m, c.parent)->0;
    if sibling_id(m, p, 1) is None || !s.has_content() {
        steps.len() == 0
    } else {
        inline_block_of(m, s.inline_blocks()[0]) is Some && inline_index(m, c.parent, c.id) == 0 && std_block_of(m, c.parent) is Some
            ==> if kind_is_list(q.content.kind) {
            steps.len() == 1 && is_turn_into(steps[0], c.parent, StandardBlockTypeView::empty_of_kind(StandardBlockKind::Paragraph))
        } else {
            start_of_block_steps(m, steps, q, c.id)
        }
    }
}

/// The steps for delete: the unit after the caret goes; at the end of the
/// last inline block, the block below (where it has text) joins this one;
/// with a selection, what is selected goes.
pub fn generate_steps_for_delete(block_map: &BlockMap, from: SubSelection, to: SubSelection) -> (r: Result<Vec<Step>, StepError>)
    ensures
        !block_map@.contains_key(from@[0].block_id) ==> r is Err,
        block_map@.contains_key(from@[0].block_id) && block_map@[from@[0].block_id] is Root ==> r is Err,
        inline_block_of(block_map@, from@[0].block_id) is Some && from.offset != inline_block_of(
            block_map@,
            from@[0].block_id,
        )->0.text.len() && to.offset < usize::MAX ==> r is Ok && deletes_between(
            r->Ok_0@,
            inline_block_of(block_map@, from@[0].block_id)->0.parent,
            from,
            SubSelection { offset: (to.offset + 1) as usize, ..to },
        ),
        ({
            let b = inline_block_of(block_map@, from@[0].block_id)->0;
            let p = std_block_of(block_map@, b.parent)->0;
            inline_block_of(block_map@, from@[0].block_id) is Some && from.offset == b.text.len() && inline_index(block_map@, b.parent, b.id)
                == p.inline_blocks().len() - 1 && r is Ok ==> delete_at_end_steps(block_map@, r->Ok_0@, p)
        }),
        ({
            let b = inline_block_of(block_map@, from@[0].block_id)->0;
            let p = std_block_of(block_map@, b.parent)->0;
            let i = inline_index(block_map@, b.parent, b.id);
            let c = p.inline_blocks()[i + 1];
            inline_block_of(block_map@, from@[0].block_id) is Some && from.offset == b.text.len() && 0 <= i < p.inline_blocks().len()
                - 1 && inline_block_of(block_map@, c) is Some ==> (r matches Ok(steps) && steps@.len() == 1 && removes_text(
                steps@[0],
                inline_block_of(block_map@, c)->0.parent,
                c,
                0,
                1,
            ))
        }),
{
    proof {
        lemma_layers_len(from);
        lemma_layers_len(to);
        block_map.lemma_keys_are_ids();
    }
    let mut from = from;
    let mut to = to;
    let from_block = block_map.get_block(&from.block_id)?;
    match from_block {
        Block::InlineBlock(from_block) => {
            if from.offset == from_block.text()?.len() {
                // at end of block
                if from_block.is_last_inline_block(block_map)? {
                    let std_block = block_map.get_inline_block(&from.block_id)?.get_parent(block_map)?;
                    let next_standard_sibling = std_block.next_sibling(block_map)?;
                    let next = match next_standard_sibling {
                        Some(block) => {
                            if !block.has_content() {
                                return Ok(Vec::new())
                            }
                            block
                        },
                        None => return Ok(Vec::new()),
                    };
                    let n = next.inline_blocks_length()?;
                    if n == 0 {
                        return Err(step_error_msg("Block has no inline blocks"));
                    }
                    let new_subselection = SubSelection { block_id: next.get_inline_block_from_index(0)?, offset: 0, subselection: None };
                    let to_subselection = new_subselection.copy();
                    proof {
                        lemma_layers_len(new_subselection);
                        lemma_layers_len(to_subselection);
                        assert(new_subselection@ == to_subselection@);
                    }
                    if !check_backspace(block_map, &new_subselection, &to_subselection) {
                        return Err(step_error_msg("Backspace does not fit the document"));
                    }
                    return generate_steps_for_backspace(block_map, new_subselection, to_subselection)
                } else {
                    // caret at end of inline block that is not the last inline in it's parent
                    let next_inline_block = from_block.next_block(block_map)?;
                    from = SubSelection { block_id: next_inline_block.id(), offset: 0, subselection: None };
                    to = from.copy();
                    to.offset = 1;
                    proof {
                        reveal_with_fuel(crate::steps_generator::selection::layers, 2);
                        assert(from@ =~= seq![Layer { block_id: next_inline_block@.id, offset: 0 }]);
                        assert(to@ =~= seq![Layer { block_id: next_inline_block@.id, offset: 1 }]);
                    }
                }
            } else {
                // somewhere inside block
                if to.offset == usize::MAX {
                    return Err(step_error_msg("Offset is too large"));
                }
                to.offset = to.offset + 1;
            }
            return generate_replace_selected_steps(block_map, from, to, String::new())
        },
        Block::StandardBlock(_) => return generate_replace_selected_steps(block_map, from, to, String::new()),
        Block::Root(_) => return Err(step_error_msg("Cannot perform a delete operation on a root block")),
    }
}

} // verus!
