use vstd::prelude::*;

use crate::blocks::{Block, BlockMap, BlockMapView, BlockView, copy_ids, extends, std_block_of};
use crate::blocks::standard_blocks::{StandardBlock, StandardBlockTypeView};
use crate::blocks::standard_blocks::content_block::ContentBlock;
use crate::step::TurnInto;
use crate::steps_actualisor::UpdatedState;
use crate::steps_generator::StepError;
use crate::steps_generator::selection::{Layer, Selection, SubSelection, end_depth, end_inline};

verus! {

/// The type a block gets from a turn-into: the new type, holding the block's
/// inline blocks where it has some.
pub open spec fn turned_type(old: StandardBlockTypeView, new: StandardBlockTypeView) -> StandardBlockTypeView {
    if old.has_content() {
        new.with_inline_blocks(old.inline_blocks)
    } else {
        new
    }
}

/// The document `m` with the block `id` turned into a block of type `t`.
pub open spec fn turned_into(m: BlockMapView, id: Seq<char>, t: StandardBlockTypeView) -> BlockMapView {
    let b = std_block_of(m, id)->0;
    m.insert(id, BlockView::Standard(b.with_content(turned_type(b.content, t))))
}


/// Changes the type of a block, keeping its inline blocks, and puts the
/// caret at its end.
pub fn actualise_turn_into_step(turn_into_step: TurnInto, block_map: BlockMap, blocks_to_update: Vec<String>) -> (r: Result<
    UpdatedState,
    StepError,
>)
    ensures
        std_block_of(block_map@, turn_into_step.block_id@) is None ==> r is Err,
        r matches Ok(s) ==> s.block_map@ == turned_into(block_map@, turn_into_step.block_id@, turn_into_step.new_block_type@),
        std_block_of(block_map@, turn_into_step.block_id@) matches Some(b) && b.has_content() && !turn_into_step.new_block_type@.has_content() ==> r is Err,
        ({
            let b = std_block_of(block_map@, turn_into_step.block_id@)->0;
            let m2 = block_map@.insert(turn_into_step.block_id@, BlockView::Standard(b.with_content(turned_type(b.content, turn_into_step.new_block_type@))));
            std_block_of(block_map@, turn_into_step.block_id@) is Some && (b.has_content() ==> turn_into_step.new_block_type@.has_content())
                && end_inline(m2, turn_into_step.block_id@, end_depth()) is Some ==> r is Ok
        }),
        r matches Ok(s) ==> ({
            let b = std_block_of(block_map@, turn_into_step.block_id@)->0;
            &&& s.block_map@ == block_map@.insert(turn_into_step.block_id@, BlockView::Standard(b.with_content(turned_type(b.content, turn_into_step.new_block_type@))))
            &&& s.selection is Some && s.selection->0.anchor@ == seq![Layer { block_id: end_inline(s.block_map@, turn_into_step.block_id@, end_depth())->0.id, offset: end_inline(s.block_map@, turn_into_step.block_id@, end_depth())->0.text.len() as usize }]
            &&& s.selection->0.head@ == s.selection->0.anchor@
            &&& extends(blocks_to_update@, s.blocks_to_update@) && s.blocks_to_remove@.len() == 0 && s.copy is None
        }),
{
    let mut block_map = block_map;
    let mut blocks_to_update = blocks_to_update;
    let block = block_map.get_standard_block(&turn_into_step.block_id)?;
    proof {
        block_map.lemma_keys_are_ids();
    }
    let new_block_content = match block.content_block() {
        Ok(content_block) => turn_into_step.new_block_type.update_block_content(
            ContentBlock { inline_blocks: copy_ids(&content_block.inline_blocks) },
        )?,
        Err(_) => turn_into_step.new_block_type.copy(),
    };
    let block = StandardBlock {
        _id: block._id,
        content: new_block_content,
        children: block.children,
        parent: block.parent,
        marks: block.marks,
    };
    block_map.update_block(Block::StandardBlock(block), &mut blocks_to_update)?;
    let subselection = SubSelection::at_end_of_block(turn_into_step.block_id.as_str(), &block_map)?;
    return Ok(UpdatedState {
        block_map,
        selection: Some(Selection { anchor: subselection.copy(), head: subselection }),
        blocks_to_update,
        blocks_to_remove: Vec::new(),
        copy: None,
    })
}

} // verus!
