use vstd::prelude::*;

use crate::blocks::{Block, BlockMap, BlockMapView, BlockView, extends, ids_view, index_of_id, std_block_of};
use crate::blocks::tree::{child_index, sibling_id};
use crate::step::TurnToChild;
use crate::steps_actualisor::{UpdatedState, recorded};
use crate::steps_generator::{StepError, step_error_msg};

verus! {

/// `m` with block `id` made the last child of the sibling just before it.
pub open spec fn turned_to_child(m: BlockMapView, id: Seq<char>) -> BlockMapView {
    let b = std_block_of(m, id)->0;
    let p = m[b.parent];
    let above = std_block_of(m, sibling_id(m, b, -1)->0)->0;
    m.insert(b.id, BlockView::Standard(b.with_parent(above.id)))
        .insert(above.id, BlockView::Standard(above.with_children(above.children.push(b.id))))
        .insert(p.id(), p.with_children(p.children().remove(index_of_id(p.children(), b.id))))
}

/// Makes the block the last child of the sibling just before it.
pub fn actualise_child_steps(block_map: BlockMap, turn_to_child_step: TurnToChild, blocks_to_update: Vec<String>) -> (r: Result<
    UpdatedState,
    StepError,
>)
    ensures
        r is Ok <== ({
            let b = std_block_of(block_map@, turn_to_child_step.block_id@)->0;
            &&& std_block_of(block_map@, turn_to_child_step.block_id@) is Some
            &&& child_index(block_map@, b.parent, b.id) > 0
            &&& std_block_of(block_map@, sibling_id(block_map@, b, -1)->0) is Some
        }),
        r is Ok ==> ({
            let b = std_block_of(block_map@, turn_to_child_step.block_id@)->0;
            &&& std_block_of(block_map@, turn_to_child_step.block_id@) is Some
            &&& child_index(block_map@, b.parent, b.id) > 0
            &&& std_block_of(block_map@, sibling_id(block_map@, b, -1)->0) is Some
        }),
        ({
            let b = std_block_of(block_map@, turn_to_child_step.block_id@)->0;
            std_block_of(block_map@, turn_to_child_step.block_id@) is Some && child_index(block_map@, b.parent, b.id) == 0
                ==> r is Err && r->Err_0.0@ == "Should not be able to turn into child if first index"@
        }),
        r matches Ok(s) ==> ({
            let m = block_map@;
            let b = std_block_of(m, turn_to_child_step.block_id@)->0;
            let p = m[b.parent];
            let above = std_block_of(m, sibling_id(m, b, -1)->0)->0;
            &&& s.block_map@ == turned_to_child(m, turn_to_child_step.block_id@)
            &&& s.selection is None && extends(blocks_to_update@, s.blocks_to_update@) && s.blocks_to_remove@.len() == 0 && s.copy is None
            &&& recorded(m, s.block_map@, ids_view(s.blocks_to_update@))
        }),
{
    let ghost m0 = block_map@;
    let mut block_map = block_map;
    let mut blocks_to_update = blocks_to_update;
    let new_child_block = block_map.get_standard_block(&turn_to_child_step.block_id)?;
    proof {
        block_map.lemma_keys_are_ids();
    }
    let parent = new_child_block.get_parent(&block_map)?;
    let parent = parent.remove_child_from_id(new_child_block._id.as_str())?;
    let block_above = new_child_block.get_previous(&block_map)?;
    match block_above {
        Some(block_above) => {
            let mut block_above = block_above;
            let mut new_child_block = new_child_block;
            let ghost above0 = block_above@;
            block_above.children.push(new_child_block.id());
            proof {
                assert(block_above@.children =~= above0.children.push(new_child_block@.id));
            }
            new_child_block.parent = block_above.id();
            let ghost a = new_child_block@.id;
            let ghost bb = block_above@.id;
            let ghost c = parent@.id();
            block_map.update_block(Block::StandardBlock(new_child_block), &mut blocks_to_update)?;
            let ghost bt1 = ids_view(blocks_to_update@);
            block_map.update_block(Block::StandardBlock(block_above), &mut blocks_to_update)?;
            let ghost bt2 = ids_view(blocks_to_update@);
            block_map.update_block(parent, &mut blocks_to_update)?;
            proof {
                let bt = ids_view(blocks_to_update@);
                assert(bt[bt.len() - 1] == c);
                assert(bt2[bt2.len() - 1] == bb);
                assert(bt1[bt1.len() - 1] == a);
                assert(bt == bt2.push(c));
                assert(bt2 == bt1.push(bb));
                assert(bt.contains(bb)) by {
                    let j = choose|j: int| 0 <= j < bt2.len() && bt2[j] == bb;
                    assert(bt[j] == bb);
                }
                assert(bt.contains(a)) by {
                    let j = choose|j: int| 0 <= j < bt1.len() && bt1[j] == a;
                    assert(bt2[j] == a);
                    assert(bt[j] == a);
                }
            }
        },
        None => return Err(step_error_msg("Should not be able to turn into child if first index")),
    }
    return Ok(UpdatedState { block_map, selection: None, blocks_to_update, blocks_to_remove: Vec::new(), copy: None })
}

} // verus!
