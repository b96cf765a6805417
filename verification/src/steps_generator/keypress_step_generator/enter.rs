use vstd::prelude::*;

use crate::blocks::{BlockMap, BlockMapView, inline_block_of, std_block_of};
use crate::blocks::standard_blocks::{StandardBlockKind, StandardBlockType, StandardBlockTypeView, StandardBlockView, kind_is_list};
use crate::blocks::tree::{child_index, inline_index};
use crate::steps_generator::slash_scrim::{adds_block, empty_paragraph};
use crate::step::is_turn_into;
use crate::blocks::standard_blocks::content_block::ContentBlock;
use crate::step::{AddBlockStep, SplitStep, Step};
use crate::steps_generator::StepError;
use crate::steps_generator::generate_replace_selected_steps::generate_replace_selected_steps;
use crate::steps_generator::selection::{Layer, SubSelection, lemma_layers_len};
use crate::steps_generator::turn_into::turn_into_paragraph_step;
use crate::utilities::caret_is_at_start_of_block;

verus! {

/// The standard block `p` is a list item with no text: one inline block,
/// which is empty.
pub open spec fn empty_list_item(m: BlockMapView, p: StandardBlockView) -> bool {
    kind_is_list(p.content.kind) && p.inline_blocks().len() == 1 && inline_block_of(m, p.inline_blocks()[0])->0.text.len() == 0
}

/// The steps of enter at a caret in the inline block `b` of the standard
/// block `p`: an empty list item becomes a paragraph; at the very start of
/// `p`, an empty paragraph is added above it, keeping the caret in `p`;
/// otherwise `p` splits at the caret `at`.
pub open spec fn enter_caret_steps(
    m: BlockMapView,
    steps: Seq<Step>,
    b: crate::blocks::inline_blocks::InlineBlockView,
    p: StandardBlockView,
    at: Layer,
) -> bool {
    if empty_list_item(m, p) {
        steps.len() == 1 && is_turn_into(steps[0], p.id, StandardBlockTypeView::empty_of_kind(StandardBlockKind::Paragraph))
    } else if at.offset == 0 && inline_index(m, b.parent, b.id) == 0 {
        &&& steps.len() == 1
        &&& steps[0] matches Step::AddBlock(a)
        &&& a.block_id@ == m[p.parent].id()
        &&& a.child_offset == child_index(m, p.parent, p.id)
        &&& a.block_type@ == empty_paragraph()
        &&& a.focus_block_below
    } else {
        &&& steps.len() == 1
        &&& steps[0] matches Step::SplitStep(sp)
        &&& sp.subselection@ == seq![at]
    }
}

/// The steps for enter: an empty list item becomes a paragraph; a caret at
/// the very start of a block adds an empty paragraph above it; otherwise
/// what is selected goes and the block splits at the caret.
pub fn generate_steps_for_enter(block_map: &BlockMap, from: SubSelection, to: SubSelection) -> (r: Result<Vec<Step>, StepError>)
    ensures
        r matches Ok(steps) ==> steps@.len() >= 1,
        from@ != to@ && r is Ok ==> r->Ok_0@.last() is SplitStep && r->Ok_0@.last()->SplitStep_0.subselection@ == seq![from@.last()],
        from@ == to@ && inline_block_of(block_map@, from@[0].block_id) is None ==> r is Err,
        ({
            let b = inline_block_of(block_map@, from@[0].block_id)->0;
            let p = std_block_of(block_map@, b.parent)->0;
            from@ == to@ && from@.len() == 1 && inline_block_of(block_map@, from@[0].block_id) is Some && std_block_of(block_map@, b.parent) is Some
                && !kind_is_list(p.content.kind) && !(from.offset == 0 && inline_index(block_map@, b.parent, b.id) == 0) ==> r is Ok
        }),
        ({
            let b = inline_block_of(block_map@, from@[0].block_id)->0;
            from@ == to@ && from@.len() == 1 && inline_block_of(block_map@, from@[0].block_id) is Some && r is Ok ==> enter_caret_steps(
                block_map@,
                r->Ok_0@,
                b,
                std_block_of(block_map@, b.parent)->0,
                from@.last(),
            )
        }),
{
    proof {
        lemma_layers_len(from);
    }
    let mut steps: Vec<Step> = Vec::new();
    if !from.same_as(&to) {
        let delete_selected_steps = generate_replace_selected_steps(block_map, from.copy(), to, String::new())?;
        let mut delete_selected_steps = delete_selected_steps;
        steps.append(&mut delete_selected_steps);
    } else {
        let std_block = block_map.get_inline_block(&from.block_id)?.get_parent(block_map)?;
        proof {
            block_map.lemma_keys_are_ids();
        }
        if std_block.is_list() && std_block.text_is_empty(block_map)? {
            return turn_into_paragraph_step(std_block.id())
        } else if caret_is_at_start_of_block(&from, &to, block_map)? {
            let inline_block = block_map.get_inline_block(&from.block_id)?;
            let std_block = inline_block.get_parent(block_map)?;
            let parent = std_block.get_parent(block_map)?;
            let mut add: Vec<Step> = Vec::new();
            let block_type = StandardBlockType::Paragraph(ContentBlock::new(Vec::new()));
            proof {
                assert(crate::blocks::ids_view(Seq::<String>::empty()) =~= Seq::<Seq<char>>::empty());
                assert(block_type@ == empty_paragraph());
            }
            add.push(Step::AddBlock(AddBlockStep {
                block_id: parent.id(),
                new_std_block_id: String::new(),
                new_inline_block_id: String::new(),
                child_offset: std_block.index(block_map)?,
                block_type,
                focus_block_below: true,
            }));
            return Ok(add)
        }
    }
    steps.push(Step::SplitStep(SplitStep {
        subselection: from.get_deepest_subselection().copy(),
        new_std_block_id: String::new(),
        new_inline_block_id: String::new(),
    }));
    return Ok(steps)
}

} // verus!
