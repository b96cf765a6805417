use vstd::prelude::*;

use crate::blocks::BlockMap;
use crate::new_ids::NewIds;
use crate::step::DuplicateStep;
use crate::steps_actualisor::UpdatedState;
use crate::steps_generator::StepError;

verus! {

/// Duplicating a block leaves the document as it is for now: the editor
/// does not copy blocks yet.
pub fn actualise_duplicate(
    duplicate_step: DuplicateStep,
    block_map: BlockMap,
    new_ids: &mut NewIds,
    blocks_to_update: Vec<String>,
) -> (r: Result<UpdatedState, StepError>)
    ensures
        r matches Ok(s) && s.block_map == block_map && s.selection is None && s.blocks_to_update == blocks_to_update
            && s.blocks_to_remove@.len() == 0 && s.copy is None,
        *final(new_ids) == *old(new_ids),
{
    return Ok(UpdatedState { block_map, selection: None, blocks_to_update, blocks_to_remove: Vec::new(), copy: None })
}

} // verus!
