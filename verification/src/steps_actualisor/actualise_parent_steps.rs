use vstd::prelude::*;

use crate::blocks::{Block, BlockMap, BlockMapView, BlockView, copy_ids, extends, ids_view, std_block_of};
use crate::blocks::tree::{child_index, reparent, reparent_blocks, has_kind, with_parent};
use crate::step::TurnToParent;
use crate::steps_actualisor::{UpdatedState, recorded};
use crate::steps_generator::{StepError, step_error_msg};

verus! {

/// `m2` is `m` with block `id` moved up a level, just after its parent `p`:
/// it keeps its children and takes the siblings that followed it as its
/// last children, which it becomes the parent of, and `p` keeps the
/// children before it (stated where `p` and its parent are other blocks
/// than `id` and `p`).
pub open spec fn turned_to_parent(m: BlockMapView, id: Seq<char>, m2: BlockMapView) -> bool {
    let b = std_block_of(m, id)->0;
    let p = std_block_of(m, b.parent)->0;
    let i = child_index(m, b.parent, b.id);
    let after = p.children.skip(i + 1);
    &&& p.parent != b.id && p.parent != p.id ==> std_block_of(m2, b.id) is Some
        && std_block_of(m2, b.id)->0.children == b.children + after
        && std_block_of(m2, p.id) == Some(p.with_children(p.children.take(i)))
    &&& p.parent != b.id && p.parent != p.id ==> std_block_of(m2, b.id)->0.parent == p.parent
        && m2.contains_key(p.parent) && m2[p.parent].children() == m[p.parent].children().insert(
        child_index(m, p.parent, p.id) + 1,
        b.id,
    )
    &&& forall|k: Seq<char>| #[trigger] after.contains(k) && k != b.id && k != p.id && k != p.parent
        ==> m2.contains_key(k) && m2[k] == with_parent(m[k], b.id)
}

/// Moves the block up a level, just after its parent; the siblings that
/// followed it become its last children.
pub fn actualise_parent_steps(block_map: BlockMap, turn_to_parent_step: TurnToParent, blocks_to_update: Vec<String>) -> (r: Result<
    UpdatedState,
    StepError,
>)
    ensures
        r is Ok ==> ({
            let b = std_block_of(block_map@, turn_to_parent_step.block_id@)->0;
            &&& std_block_of(block_map@, turn_to_parent_step.block_id@) is Some
            &&& std_block_of(block_map@, b.parent) is Some
            &&& child_index(block_map@, b.parent, b.id) >= 0
        }),
        ({
            let m = block_map@;
            let b = std_block_of(m, turn_to_parent_step.block_id@)->0;
            let p = std_block_of(m, b.parent)->0;
            let i = child_index(m, b.parent, b.id);
            std_block_of(m, turn_to_parent_step.block_id@) is Some && std_block_of(m, b.parent) is Some && i >= 0 && m.contains_key(p.parent)
                && child_index(m, p.parent, p.id) >= 0 && (forall|j: int| i < j < p.children.len() ==> std_block_of(m, #[trigger] p.children[j]) is Some)
                ==> r is Ok
        }),
        r matches Ok(s) ==> ({
            &&& turned_to_parent(block_map@, turn_to_parent_step.block_id@, s.block_map@)
            &&& recorded(block_map@, s.block_map@, ids_view(s.blocks_to_update@))
            &&& s.selection is None && extends(blocks_to_update@, s.blocks_to_update@) && s.blocks_to_remove@.len() == 0 && s.copy is None
        }),
{
    let ghost m0 = block_map@;
    let mut block_map = block_map;
    let mut blocks_to_update = blocks_to_update;
    let current_block = block_map.get_standard_block(&turn_to_parent_step.block_id)?;
    proof {
        block_map.lemma_keys_are_ids();
    }
    let previous_parent = block_map.get_standard_block(&current_block.parent)?;
    let current_block_index = current_block.index(&block_map)?;
    proof {
        crate::blocks::tree::lemma_child_index(block_map@, current_block@.parent, current_block@.id);
    }
    let n = previous_parent.children.len();
    assert(current_block_index < n);
    let mut first_half = copy_ids(&previous_parent.children);
    let second_half = first_half.split_off(current_block_index + 1);
    first_half.truncate(current_block_index);
    proof {
        assert(ids_view(first_half@) =~= previous_parent@.children.take(current_block_index as int));
        assert(ids_view(second_half@) =~= previous_parent@.children.skip(current_block_index + 1));
    }
    let mut current_block = current_block;
    let mut children = copy_ids(&current_block.children);
    let mut moved = copy_ids(&second_half);
    let ghost before = children@;
    children.append(&mut moved);
    proof {
        assert(ids_view(children@) =~= current_block@.children + previous_parent@.children.skip(current_block_index + 1));
    }
    current_block.children = children;
    let current_id = current_block.id();
    proof {
        let pv = previous_parent@;
        let i = current_block_index as int;
        if forall|j: int| i < j < pv.children.len() ==> std_block_of(block_map@, #[trigger] pv.children[j]) is Some {
            assert forall|k: int| 0 <= k < second_half@.len() implies crate::blocks::tree::has_kind(block_map@, #[trigger] second_half@[k]@, false) by {
                assert(ids_view(second_half@)[k] == second_half@[k]@);
                assert(pv.children[i + 1 + k] == second_half@[k]@);
            }
        }
    }
    let ghost bt0 = ids_view(blocks_to_update@);
    reparent_blocks(&mut block_map, &second_half, &current_id, false, &mut blocks_to_update)?;
    let ghost bt1 = ids_view(blocks_to_update@);
    let ghost m1 = block_map@;
    proof {
        block_map.lemma_keys_are_ids();
    }
    let mut previous_parent = previous_parent;
    previous_parent.children = first_half;
    let mut previous_grandparent = block_map.get_block(&previous_parent.parent())?;
    proof {
        let pv0 = std_block_of(m0, current_block@.parent)->0;
        assert(m1[pv0.parent].children() == m0[pv0.parent].children());
        assert(child_index(m1, pv0.parent, pv0.id) == child_index(m0, pv0.parent, pv0.id));
    }
    current_block.parent = previous_grandparent.id();
    let parent_index = previous_parent.index(&block_map)?;
    proof {
        crate::blocks::tree::lemma_child_index(block_map@, previous_parent@.parent, previous_parent@.id);
    }
    let k = previous_grandparent.children()?.len();
    assert(parent_index < k);
    previous_grandparent.insert_child(current_block.id(), parent_index + 1)?;
    let ghost cb = current_block@;
    let ghost pp = previous_parent@;
    let ghost gv = previous_grandparent@;
    block_map.update_block(Block::StandardBlock(current_block), &mut blocks_to_update)?;
    let ghost bt2 = ids_view(blocks_to_update@);
    block_map.update_block(Block::StandardBlock(previous_parent), &mut blocks_to_update)?;
    let ghost bt3 = ids_view(blocks_to_update@);
    let ghost mid = block_map@;
    block_map.update_block(previous_grandparent, &mut blocks_to_update)?;
    proof {
        let bt = ids_view(blocks_to_update@);
        assert(bt[bt.len() - 1] == gv.id());
        assert(bt3[bt3.len() - 1] == pp.id);
        assert(bt2[bt2.len() - 1] == cb.id);
        assert(bt == bt3.push(gv.id()) && bt3 == bt2.push(pp.id) && bt2 == bt1.push(cb.id));
        assert(bt1 == bt0 + ids_view(second_half@));
        assert forall|k: Seq<char>| #[trigger] ids_view(second_half@).contains(k) implies bt.contains(k) by {
            let j = choose|j: int| 0 <= j < ids_view(second_half@).len() && ids_view(second_half@)[j] == k;
            assert(bt1[bt0.len() + j] == k);
            assert(bt[bt0.len() + j] == k);
        }
        assert(bt.contains(pp.id)) by {
            assert(bt[bt3.len() - 1] == pp.id);
        }
        assert(bt.contains(cb.id)) by {
            assert(bt[bt2.len() - 1] == cb.id);
        }
    }
    return Ok(UpdatedState { block_map, selection: None, blocks_to_update, blocks_to_remove: Vec::new(), copy: None })
}

} // verus!
