use vstd::prelude::*;

use crate::blocks::{Block, BlockMap, BlockMapView, BlockView, extends, inline_block_of, std_block_of};
use crate::blocks::inline_blocks::{InlineBlock, InlineBlockView};
use crate::blocks::standard_blocks::{StandardBlock, StandardBlockView};
use crate::blocks::standard_blocks::content_block::ContentBlock;
use crate::new_ids::NewIds;
use crate::step::AddBlockStep;
use crate::steps_actualisor::UpdatedState;
use crate::steps_generator::StepError;
use crate::steps_generator::selection::{Layer, Selection, SubSelection};

verus! {

/// What an add-block step does to the document `m`, giving `s`, with the
/// fresh ids `ids`: the new standard block (the last fresh id) goes into
/// the children of the block `block_id` at `child_offset`; it is of the
/// step's kind, a child of that block, without children, and where its
/// kind holds text, holds one new empty inline block (the next fresh id).
pub open spec fn block_added(m: BlockMapView, a: AddBlockStep, ids: Seq<String>, s: BlockMapView) -> bool {
    let std_id = ids[ids.len() - 1]@;
    let inline_id = ids[ids.len() - 2]@;
    &&& ids.len() >= 2
    &&& m.contains_key(a.block_id@)
    &&& a.block_id@ != std_id ==> (std_block_of(s, std_id) matches Some(b) && b.parent == a.block_id@ && b.children.len() == 0
        && b.content.kind == a.block_type@.kind && (a.block_type@.has_content() ==> b.inline_blocks() == seq![inline_id]))
    &&& s[a.block_id@] == m[a.block_id@].with_children(m[a.block_id@].children().insert(a.child_offset as int, std_id))
    &&& a.block_type@.has_content() && inline_id != std_id && inline_id != a.block_id@ ==> inline_block_of(s, inline_id) == Some(
        InlineBlockView { id: inline_id, text: Seq::empty(), marks: Seq::empty(), parent: std_id },
    )
}


/// Adds a new block of the step's type as the child of `block_id` at
/// `child_offset`; a block with text gets a new empty inline block, which
/// takes the caret unless the caret is to go to the block below. The new
/// block takes the next fresh id and its inline block the one after.
pub fn actualise_add_block(
    add_block_step: AddBlockStep,
    block_map: BlockMap,
    new_ids: &mut NewIds,
    blocks_to_update: Vec<String>,
) -> (r: Result<UpdatedState, StepError>)
    requires
        block_map@.contains_key(add_block_step.block_id@) && block_map@[add_block_step.block_id@].has_children()
            ==> add_block_step.child_offset <= block_map@[add_block_step.block_id@].children().len(),
    ensures
        !block_map@.contains_key(add_block_step.block_id@) ==> r is Err,
        r matches Ok(s) ==> block_added(block_map@, add_block_step, old(new_ids).ids(), s.block_map@),
        block_map@.contains_key(add_block_step.block_id@) && block_map@[add_block_step.block_id@] is Inline ==> r is Err,
        block_map@.contains_key(add_block_step.block_id@) && !(block_map@[add_block_step.block_id@] is Inline)
            && old(new_ids).ids().len() >= 3 && !add_block_step.focus_block_below ==> r is Ok,
        r matches Ok(s) ==> ({
            let ids = old(new_ids).ids();
            let std_id = ids[ids.len() - 1]@;
            let inline_id = ids[ids.len() - 2]@;
            &&& ids.len() >= 2
            &&& add_block_step.block_id@ != std_id ==> (std_block_of(s.block_map@, std_id) matches Some(b) && b.parent == add_block_step.block_id@ && b.children.len() == 0
                && b.content.kind == add_block_step.block_type@.kind
                && (add_block_step.block_type@.has_content() ==> b.inline_blocks() == seq![inline_id]))
            &&& s.block_map@[add_block_step.block_id@] == block_map@[add_block_step.block_id@].with_children(
                block_map@[add_block_step.block_id@].children().insert(add_block_step.child_offset as int, std_id),
            )
            &&& !add_block_step.block_type@.has_content() ==> s.selection is None
            &&& add_block_step.block_type@.has_content() && !add_block_step.focus_block_below ==> s.selection is Some
                && s.selection->0.anchor@ == seq![Layer { block_id: inline_id, offset: 0 }] && s.selection->0.head@ == s.selection->0.anchor@
            &&& extends(blocks_to_update@, s.blocks_to_update@) && s.blocks_to_remove@.len() == 0 && s.copy is None
            &&& add_block_step.block_type@.has_content() && inline_id != std_id && inline_id != add_block_step.block_id@
                ==> inline_block_of(s.block_map@, inline_id) == Some(InlineBlockView {
                id: inline_id,
                text: Seq::empty(),
                marks: Seq::empty(),
                parent: std_id,
            })
            &&& ({
                let c = block_map@[add_block_step.block_id@].children()[add_block_step.child_offset as int];
                add_block_step.block_type@.has_content() && add_block_step.focus_block_below && c != inline_id
                    && std_block_of(block_map@, c) is Some ==> s.selection is Some && s.selection->0.anchor@ == seq![
                    Layer { block_id: std_block_of(block_map@, c)->0.inline_blocks()[0], offset: 0 },
                ] && s.selection->0.head@ == s.selection->0.anchor@
            })
        }),
        ({
            let ids = old(new_ids).ids();
            let p = block_map@[add_block_step.block_id@];
            let c = p.children()[add_block_step.child_offset as int];
            block_map@.contains_key(add_block_step.block_id@) && !(p is Inline) && ids.len() >= 3
                && add_block_step.block_type@.has_content() && add_block_step.focus_block_below
                && add_block_step.child_offset < p.children().len() && c != ids[ids.len() - 2]@
                && std_block_of(block_map@, c) is Some && std_block_of(block_map@, c)->0.has_content()
                && std_block_of(block_map@, c)->0.inline_blocks().len() > 0 ==> r is Ok
        }),
{
    let mut block_map = block_map;
    let mut blocks_to_update = blocks_to_update;
    let mut parent = block_map.get_block(&add_block_step.block_id)?;
    proof {
        block_map.lemma_keys_are_ids();
    }
    let new_std_block_id = new_ids.get_id()?;
    let new_inline_block_id = new_ids.get_id()?;
    let mut selection: Option<Selection> = None;
    let AddBlockStep { block_id, new_std_block_id: _, new_inline_block_id: _, child_offset, block_type, focus_block_below } = add_block_step;
    let new_block_type = if block_type.has_content() {
        let mut new_inline_block = InlineBlock::new(new_ids, new_std_block_id.clone())?;
        new_inline_block._id = new_inline_block_id.clone();
        block_map.update_block(Block::InlineBlock(new_inline_block), &mut blocks_to_update)?;
        if focus_block_below {
            let focus_std_block = block_map.get_standard_block(&parent.get_child_from_index(child_offset)?)?;
            let n = focus_std_block.inline_blocks_length()?;
            if n == 0 {
                return Err(crate::steps_generator::step_error_msg("Block has no inline blocks"));
            }
            let inline_block_id = focus_std_block.get_inline_block_from_index(0)?;
            selection = Some(Selection {
                anchor: SubSelection { block_id: inline_block_id.clone(), offset: 0, subselection: None },
                head: SubSelection { block_id: inline_block_id, offset: 0, subselection: None },
            });
        } else {
            selection = Some(Selection {
                anchor: SubSelection { block_id: new_inline_block_id.clone(), offset: 0, subselection: None },
                head: SubSelection { block_id: new_inline_block_id.clone(), offset: 0, subselection: None },
            });
        }
        let mut first: Vec<String> = Vec::new();
        first.push(new_inline_block_id.clone());
        proof {
            assert(crate::blocks::ids_view(first@) =~= seq![new_inline_block_id@]);
        }
        block_type.update_block_content(ContentBlock { inline_blocks: first })?
    } else {
        block_type
    };
    let new_std_block = StandardBlock {
        _id: new_std_block_id,
        content: new_block_type,
        children: Vec::new(),
        parent: parent.id(),
        marks: Vec::new(),
    };
    proof {
        assert(crate::blocks::ids_view(new_std_block.children@) =~= Seq::<Seq<char>>::empty());
    }
    parent.insert_child(new_std_block.id(), child_offset)?;
    let ghost nb = new_std_block@;
    block_map.update_block(Block::StandardBlock(new_std_block), &mut blocks_to_update)?;
    block_map.update_block(parent, &mut blocks_to_update)?;
    return Ok(UpdatedState { block_map, selection, blocks_to_update, blocks_to_remove: Vec::new(), copy: None })
}

} // verus!
