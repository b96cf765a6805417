use vstd::prelude::*;

use crate::blocks::{BlockMap, inline_block_of};
use crate::blocks::standard_blocks::{StandardBlockKind, StandardBlockType, StandardBlockTypeView};
use crate::blocks::standard_blocks::content_block::ContentBlock;
use crate::step::{Step, TurnInto, is_turn_into};
use crate::steps_generator::StepError;
use crate::steps_generator::selection::{SubSelection, lemma_layers_len};

verus! {

/// The step that turns the block holding the caret into `new_block_type`.
pub fn generate_turn_into_step(new_block_type: &StandardBlockType, from: SubSelection, block_map: &BlockMap) -> (r: Result<
    Vec<Step>,
    StepError,
>)
    ensures
        r is Ok <==> inline_block_of(block_map@, from@[0].block_id) is Some,
        r matches Ok(steps) ==> steps@.len() == 1 && is_turn_into(steps@[0], inline_block_of(block_map@, from@[0].block_id)->0.parent, new_block_type@),
{
    proof {
        lemma_layers_len(from);
    }
    let inline_block = block_map.get_inline_block(&from.block_id)?;
    let mut steps: Vec<Step> = Vec::new();
    steps.push(Step::TurnInto(TurnInto { block_id: inline_block.parent, new_block_type: new_block_type.copy() }));
    return Ok(steps)
}

/// The step that turns block `block_id` into a paragraph.
pub fn turn_into_paragraph_step(block_id: String) -> (r: Result<Vec<Step>, StepError>)
    ensures
        r matches Ok(steps) && steps@.len() == 1 && is_turn_into(steps@[0], block_id@, StandardBlockTypeView::empty_of_kind(StandardBlockKind::Paragraph)),
{
    let mut steps: Vec<Step> = Vec::new();
    proof {
        assert(crate::blocks::ids_view(Seq::<String>::empty()) =~= Seq::<Seq<char>>::empty());
    }
    steps.push(Step::TurnInto(TurnInto { block_id, new_block_type: StandardBlockType::Paragraph(ContentBlock::new(Vec::new())) }));
    return Ok(steps)
}

} // verus!
