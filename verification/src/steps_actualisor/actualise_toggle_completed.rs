use vstd::prelude::*;

use crate::blocks::{Block, BlockMap, BlockMapView, BlockView, extends, ids_view, std_block_of};
use crate::blocks::standard_blocks::{StandardBlockKind, StandardBlockType, StandardBlockTypeView};
use crate::steps_actualisor::{UpdatedState, recorded};
use crate::steps_generator::{StepError, step_error};

verus! {

/// Block `id` of `m` is a to-do list item.
pub open spec fn is_todo(m: BlockMapView, id: Seq<char>) -> bool {
    std_block_of(m, id) is Some && std_block_of(m, id)->0.content.kind == StandardBlockKind::TodoList
}

/// `m` with the to-do list item `id` ticked or unticked.
pub open spec fn toggled(m: BlockMapView, id: Seq<char>) -> BlockMapView {
    let b = std_block_of(m, id)->0;
    m.insert(id, BlockView::Standard(b.with_content(StandardBlockTypeView { completed: !b.content.completed, ..b.content })))
}

/// Ticks or unticks a to-do list item.
pub fn actualise_toggle_completed(_id: String, block_map: BlockMap, blocks_to_update: Vec<String>) -> (r: Result<
    UpdatedState,
    StepError,
>)
    ensures
        r is Ok <==> is_todo(block_map@, _id@),
        r matches Ok(s) ==> s.block_map@ == toggled(block_map@, _id@) && s.selection is None
            && extends(blocks_to_update@, s.blocks_to_update@) && s.blocks_to_remove@.len() == 0 && s.copy is None,
        r matches Ok(s) ==> ids_view(s.blocks_to_update@).contains(_id@) && recorded(block_map@, s.block_map@, ids_view(
            s.blocks_to_update@,
        )),
{
    let mut block_map = block_map;
    let mut blocks_to_update = blocks_to_update;
    let block = block_map.get_standard_block(&_id)?;
    proof {
        block_map.lemma_keys_are_ids();
    }
    let crate::blocks::standard_blocks::StandardBlock { _id: id, content, children, parent, marks } = block;
    return match content {
        StandardBlockType::TodoList(list_block) => {
            let mut list_block = list_block;
            list_block.completed = !list_block.completed;
            let block = crate::blocks::standard_blocks::StandardBlock {
                _id: id,
                content: StandardBlockType::TodoList(list_block),
                children,
                parent,
                marks,
            };
            let ghost bt0 = ids_view(blocks_to_update@);
            block_map.update_block(Block::StandardBlock(block), &mut blocks_to_update)?;
            proof {
                assert(ids_view(blocks_to_update@).last() == _id@);
                assert(ids_view(blocks_to_update@).contains(_id@));
            }
            Ok(UpdatedState { block_map, selection: None, blocks_to_update, blocks_to_remove: Vec::new(), copy: None })
        },
        _ => Err(step_error("Cannot toggle completed on any block other than a to-do list. Got block: ", _id.as_str())),
    }
}

/// Ticking a to-do list item twice leaves the document as it was.
pub proof fn lemma_toggle_twice(m: BlockMapView, id: Seq<char>)
    requires
        is_todo(m, id),
    ensures
        is_todo(toggled(m, id), id),
        toggled(toggled(m, id), id) == m,
{
    let b = std_block_of(m, id)->0;
    let once = toggled(m, id);
    assert(once[id] == BlockView::Standard(b.with_content(StandardBlockTypeView { completed: !b.content.completed, ..b.content })));
    assert(toggled(once, id) =~= m);
}

} // verus!
