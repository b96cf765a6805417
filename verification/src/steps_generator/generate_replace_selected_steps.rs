use vstd::prelude::*;

use crate::blocks::{Block, BlockMap, BlockView};
use crate::blocks::standard_blocks::{StandardBlockKind, StandardBlockType, StandardBlockTypeView};
use crate::blocks::standard_blocks::content_block::ContentBlock;
use crate::step::{ReplaceSlice, ReplaceStep, Step, TurnInto, is_replace_step, is_turn_into};
use crate::steps_generator::{StepError, step_error_msg};
use crate::steps_generator::selection::{SubSelection, lemma_layers_len};
use crate::text::str_eq;

verus! {

/// The step that replaces what lies between `from` and `to` with
/// `replace_with`: a replace step, or, where a whole standard block is
/// selected on its own, turning it into a paragraph.
pub fn generate_replace_selected_steps(
    block_map: &BlockMap,
    from: SubSelection,
    to: SubSelection,
    replace_with: String,
) -> (r: Result<Vec<Step>, StepError>)
    ensures
        !block_map@.contains_key(from@[0].block_id) ==> r is Err,
        block_map@.contains_key(from@[0].block_id) ==> ({
            let b = block_map@[from@[0].block_id];
            &&& b is Root ==> r is Err
            &&& b is Inline ==> (r matches Ok(steps) && steps@.len() == 1
                && is_replace_step(steps@[0], b.parent(), from, to, ReplaceSlice::String(replace_with)))
            &&& b is Standard && from@[0].block_id == to@[0].block_id ==> (r matches Ok(steps) && steps@.len() == 1
                && is_turn_into(steps@[0], from@[0].block_id, StandardBlockTypeView::empty_of_kind(StandardBlockKind::Paragraph)))
            &&& b is Standard && from@[0].block_id != to@[0].block_id ==> (r matches Ok(steps) && steps@.len() == 1
                && is_replace_step(steps@[0], b.parent(), from, to, ReplaceSlice::String(replace_with)))
        }),
{
    proof {
        lemma_layers_len(from);
        lemma_layers_len(to);
    }
    let mut steps: Vec<Step> = Vec::new();
    match block_map.get_block(&from.block_id)? {
        Block::InlineBlock(inline_block) => {
            steps.push(Step::ReplaceStep(ReplaceStep { block_id: inline_block.parent, from, to, slice: ReplaceSlice::String(replace_with) }));
        },
        Block::StandardBlock(standard_block) => {
            if str_eq(from.block_id.as_str(), to.block_id.as_str()) {
                let t = StandardBlockType::Paragraph(ContentBlock::new(Vec::new()));
                proof {
                    assert(crate::blocks::ids_view(Seq::<String>::empty()) =~= Seq::<Seq<char>>::empty());
                }
                steps.push(Step::TurnInto(TurnInto { block_id: from.block_id, new_block_type: t }));
            } else {
                steps.push(Step::ReplaceStep(ReplaceStep { block_id: standard_block.parent, from, to, slice: ReplaceSlice::String(replace_with) }));
            }
        },
        Block::Root(_) => return Err(step_error_msg("Cannot perform replace step on root")),
    }
    return Ok(steps)
}

} // verus!
