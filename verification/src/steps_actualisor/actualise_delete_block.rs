use vstd::prelude::*;

use crate::blocks::{BlockMap, BlockMapView, BlockView, extends, ids_view, splice_spec, std_block_of};
use crate::blocks::tree::{child_index, reparent};
use crate::steps_actualisor::UpdatedState;
use crate::steps_generator::StepError;
use crate::utilities::update_state_tools;

verus! {

/// `m` with block `id` taken out of its parent, unless it is the only
/// block of the page.
pub open spec fn deleted(m: BlockMapView, id: Seq<char>) -> BlockMapView {
    let b = std_block_of(m, id)->0;
    let p = m[b.parent];
    if p is Root && p.children().len() == 1 && b.children.len() == 0 {
        m
    } else {
        m.insert(p.id(), p.with_children(p.children().remove(child_index(m, b.parent, b.id))))
    }
}

/// Takes the block `block_id` out of its parent, unless it is the only
/// block of the page.
pub fn actualise_delete_block(block_id: String, block_map: BlockMap, blocks_to_update: Vec<String>) -> (r: Result<
    UpdatedState,
    StepError,
>)
    ensures
        std_block_of(block_map@, block_id@) is None ==> r is Err,
        std_block_of(block_map@, block_id@) is Some && block_map@.contains_key(std_block_of(block_map@, block_id@)->0.parent)
            && child_index(block_map@, std_block_of(block_map@, block_id@)->0.parent, block_id@) >= 0 ==> r is Ok,
        r matches Ok(s) ==> s.selection is None && extends(blocks_to_update@, s.blocks_to_update@)
            && s.blocks_to_remove@.len() == 0 && s.copy is None,
        r matches Ok(s) ==> ({
            let b = std_block_of(block_map@, block_id@)->0;
            let p = block_map@[b.parent];
            let only = p is Root && p.children().len() == 1 && b.children.len() == 0;
            &&& only ==> s.block_map@ == block_map@
            &&& !only ==> child_index(block_map@, b.parent, b.id) >= 0
            &&& s.block_map@ == deleted(block_map@, block_id@)
        }),
{
    let mut block_map = block_map;
    let mut blocks_to_update = blocks_to_update;
    proof {
        block_map.lemma_keys_are_ids();
    }
    if !block_map.only_one_std_block(block_id.as_str())? {
        let block = block_map.get_standard_block(&block_id)?;
        let parent = block.get_parent(&block_map)?;
        let block_index = block.index(&block_map)?;
        proof {
            crate::blocks::tree::lemma_child_index(block_map@, block@.parent, block@.id);
        }
        let n = parent.children()?.len();
        assert(block_index < n);
        let ghost m0 = block_map@;
        update_state_tools::splice_children(parent, block_index..block_index + 1, Vec::new(), &mut blocks_to_update, &mut block_map)?;
        proof {
            let p = m0[block@.parent];
            assert(reparent(m0, ids_view(Seq::<String>::empty()), p.id()) =~= m0);
            assert(splice_spec(p.children(), block_index as int, block_index + 1, ids_view(Seq::<String>::empty())) =~= p.children().remove(block_index as int));
        }
    }
    return Ok(UpdatedState { block_map, selection: None, blocks_to_update, blocks_to_remove: Vec::new(), copy: None })
}

} // verus!
