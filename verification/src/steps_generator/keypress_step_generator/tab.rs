use vstd::prelude::*;

use crate::blocks::{Block, BlockMap, inline_block_of, root_block_of, std_block_of};
use crate::blocks::standard_blocks::StandardBlock;
use crate::blocks::tree::child_index;
use crate::step::{Step, TurnToChild, TurnToParent};
use crate::steps_generator::{StepError, step_error_msg};
use crate::steps_generator::event::KeyPressMetadata;
use crate::steps_generator::selection::{SubSelection, lemma_layers_len};

verus! {

/// The steps for tab or shift-tab on the single block `b`: moving it under
/// the block above it (none for a first child), or up a level (none under
/// the root).
pub open spec fn tab_steps_for(m: crate::blocks::BlockMapView, b: crate::blocks::standard_blocks::StandardBlockView, shift: bool, steps: Seq<Step>) -> bool {
    if shift {
        if root_block_of(m, b.parent) is Some {
            steps.len() == 0
        } else {
            steps.len() == 1 && steps[0] is TurnToParent && steps[0]->TurnToParent_0.block_id@ == b.id
        }
    } else {
        if child_index(m, b.parent, b.id) == 0 {
            steps.len() == 0
        } else {
            steps.len() == 1 && steps[0] is TurnToChild && steps[0]->TurnToChild_0.block_id@ == b.id
        }
    }
}

/// The steps for tab (indent each selected block under the one above it) or
/// shift-tab (move each up a level); blocks that cannot move are left.
pub fn generate_steps_for_tab(block_map: &BlockMap, from: SubSelection, to: SubSelection, key_press_metadata: KeyPressMetadata) -> (r:
    Result<Vec<Step>, StepError>)
    ensures
        !block_map@.contains_key(from@[0].block_id) ==> r is Err,
        block_map@.contains_key(from@[0].block_id) && block_map@[from@[0].block_id] is Root ==> r is Err,
        ({
            let b = inline_block_of(block_map@, from@[0].block_id)->0;
            let p = std_block_of(block_map@, b.parent)->0;
            inline_block_of(block_map@, from@[0].block_id) is Some ==> {
                &&& std_block_of(block_map@, b.parent) is None ==> r is Err
                &&& std_block_of(block_map@, b.parent) is Some && (key_press_metadata.shift_down || child_index(
                    block_map@,
                    p.parent,
                    p.id,
                ) >= 0) ==> r is Ok && tab_steps_for(block_map@, p, key_press_metadata.shift_down, r->Ok_0@)
                &&& std_block_of(block_map@, b.parent) is Some && !key_press_metadata.shift_down && child_index(
                    block_map@,
                    p.parent,
                    p.id,
                ) < 0 ==> r is Err
            }
        }),
{
    proof {
        lemma_layers_len(from);
        lemma_layers_len(to);
    }
    let from_block = block_map.get_block(&from.block_id)?;
    match from_block {
        Block::InlineBlock(inline_block) => {
            let parent_block = inline_block.get_parent(block_map)?;
            if key_press_metadata.shift_down {
                return turn_to_parent_step_generator(parent_block.parent_is_root(block_map), parent_block)
            } else {
                return turn_to_child_step_generator(block_map, parent_block)
            }
        },
        Block::StandardBlock(from_block) => {
            let to_block = block_map.get_standard_block(&to.block_id)?;
            let parent = from_block.get_parent(block_map)?;
            let parents_children = parent.children()?;
            let mut i = from_block.index(block_map)?;
            let mut steps: Vec<Step> = Vec::new();
            let ti = to_block.index(block_map)?;
            proof {
                crate::blocks::tree::lemma_child_index(block_map@, to_block@.parent, to_block@.id);
            }
            let n = block_map.get_block(&to_block.parent)?.children()?.len();
            assert(ti < n);
            let j = ti + 1;
            while i < j
                invariant
                    block_map@.contains_key(from@[0].block_id),
                    block_map@[from@[0].block_id] is Standard,
                decreases j - i,
            {
                if i >= parents_children.len() {
                    return Err(step_error_msg("Block not found"));
                }
                let std_block = block_map.get_standard_block(&parents_children[i])?;
                let option_step = if key_press_metadata.shift_down {
                    turn_to_parent_step_generator(std_block.parent_is_root(block_map), std_block)?
                } else {
                    turn_to_child_step_generator(block_map, std_block)?
                };
                let mut option_step = option_step;
                if option_step.len() > 0 {
                    steps.push(option_step.remove(0));
                }
                i += 1;
            }
            return Ok(steps)
        },
        Block::Root(_) => return Err(step_error_msg("Cannot tab on root block")),
    }
}

/// Indenting a block: none for the first child, else one turn-to-child.
fn turn_to_child_step_generator(block_map: &BlockMap, std_block: StandardBlock) -> (r: Result<Vec<Step>, StepError>)
    ensures
        r is Ok <==> child_index(block_map@, std_block@.parent, std_block@.id) >= 0,
        r matches Ok(steps) ==> (steps@.len() == 0 <==> child_index(block_map@, std_block@.parent, std_block@.id) == 0),
        r matches Ok(steps) ==> (steps@.len() > 0 ==> steps@.len() == 1 && steps@[0] == Step::TurnToChild(TurnToChild { block_id: std_block._id })),
{
    let mut steps: Vec<Step> = Vec::new();
    if std_block.index(block_map)? == 0 {
        return Ok(steps)
    } else {
        steps.push(Step::TurnToChild(TurnToChild { block_id: std_block._id }));
        return Ok(steps)
    }
}

/// Moving a block up a level: none under the root, else one turn-to-parent.
fn turn_to_parent_step_generator(parent_is_root: bool, std_block: StandardBlock) -> (r: Result<Vec<Step>, StepError>)
    ensures
        r matches Ok(steps) && (parent_is_root ==> steps@.len() == 0) && (!parent_is_root ==> steps@.len() == 1
            && steps@[0] == Step::TurnToParent(TurnToParent { block_id: std_block._id })),
{
    let mut steps: Vec<Step> = Vec::new();
    if parent_is_root {
        return Ok(steps)
    } else {
        steps.push(Step::TurnToParent(TurnToParent { block_id: std_block._id }));
        return Ok(steps)
    }
}

} // verus!
