use vstd::prelude::*;

use crate::blocks::BlockMap;
use crate::steps_actualisor::UpdatedState;
use crate::steps_generator::StepError;
use crate::steps_generator::event::ReplaceWithChildrenEvent;

verus! {

/// Replacing a block with its children leaves the document as it is for
/// now: the editor does not move the children up yet.
pub fn actualise_replace_with_children(
    replace_with_children_event: ReplaceWithChildrenEvent,
    block_map: BlockMap,
    blocks_to_update: Vec<String>,
) -> (r: Result<UpdatedState, StepError>)
    ensures
        r matches Ok(s) && s.block_map == block_map && s.selection is None && s.blocks_to_update == blocks_to_update
            && s.blocks_to_remove@.len() == 0 && s.copy is None,
{
    return Ok(UpdatedState { block_map, selection: None, blocks_to_update, blocks_to_remove: Vec::new(), copy: None })
}

} // verus!
