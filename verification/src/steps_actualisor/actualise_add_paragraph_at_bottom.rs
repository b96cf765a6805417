use vstd::prelude::*;

use crate::blocks::{Block, BlockMap, BlockMapView, BlockView, extends, ids_view, root_block_of, std_block_of, inline_block_of};
use crate::blocks::inline_blocks::InlineBlock;
use crate::blocks::standard_blocks::{StandardBlock, StandardBlockKind, StandardBlockTypeView};
use crate::new_ids::NewIds;
use crate::step::AddParagraphAtBottomStep;
use crate::steps_actualisor::UpdatedState;
use crate::steps_generator::StepError;
use crate::steps_generator::selection::{Layer, Selection, SubSelection};
use crate::utilities::update_state_tools;

verus! {

/// What adding a paragraph at the bottom does to the document `m`, giving
/// `s`, with the fresh ids `ids`: where the two fresh ids differ from each
/// other and from the root, the new empty paragraph (the last fresh id),
/// holding one empty inline block (the next one), is the root's last child.
pub open spec fn paragraph_added(m: BlockMapView, step: AddParagraphAtBottomStep, ids: Seq<String>, s: BlockMapView) -> bool {
    let para_id = ids[ids.len() - 1]@;
    let inline_id = ids[ids.len() - 2]@;
    let root = step.root_block_id@;
    para_id != root && inline_id != root && para_id != inline_id ==> {
        &&& std_block_of(s, para_id) == Some(empty_paragraph(para_id, inline_id, root))
        &&& inline_block_of(s, inline_id) is Some && inline_block_of(s, inline_id)->0.text.len() == 0
        &&& root_block_of(s, root) is Some && root_block_of(s, root)->0.children == root_block_of(m, root)->0.children.push(para_id)
    }
}


/// Adds an empty paragraph as the last child of the root and puts the caret
/// in it.
pub fn actualise_add_paragraph_at_bottom(
    step: AddParagraphAtBottomStep,
    block_map: BlockMap,
    new_ids: &mut NewIds,
    blocks_to_update: Vec<String>,
) -> (r: Result<UpdatedState, StepError>)
    ensures
        old(new_ids).ids().len() < 2 ==> r is Err,
        r matches Ok(s) ==> paragraph_added(block_map@, step, old(new_ids).ids(), s.block_map@),
        ({
            let ids = old(new_ids).ids();
            ids.len() >= 2 && root_block_of(block_map@, step.root_block_id@) is Some && ids[ids.len() - 1]@ != step.root_block_id@
                && ids[ids.len() - 2]@ != step.root_block_id@ && ids[ids.len() - 1]@ != ids[ids.len() - 2]@ ==> r is Ok
        }),
        r matches Ok(s) ==> ({
            let ids = old(new_ids).ids();
            let para_id = ids[ids.len() - 1]@;
            let inline_id = ids[ids.len() - 2]@;
            let root = step.root_block_id@;
            &&& final(new_ids).ids() == ids.take(ids.len() - 2)
            &&& s.selection is Some && s.selection->0.anchor@ == seq![Layer { block_id: inline_id, offset: 0 }]
            &&& s.selection->0.head@ == s.selection->0.anchor@
            &&& para_id != root && inline_id != root && para_id != inline_id ==> {
                &&& std_block_of(s.block_map@, para_id) == Some(empty_paragraph(para_id, inline_id, root))
                &&& inline_block_of(s.block_map@, inline_id) is Some && inline_block_of(s.block_map@, inline_id)->0.text.len() == 0
                &&& root_block_of(s.block_map@, root) is Some && root_block_of(s.block_map@, root)->0.children
                    == root_block_of(block_map@, root)->0.children.push(para_id)
            }
            &&& extends(blocks_to_update@, s.blocks_to_update@) && s.blocks_to_remove@.len() == 0 && s.copy is None
        }),
{
    let ghost m0 = block_map@;
    let mut block_map = block_map;
    let mut blocks_to_update = blocks_to_update;
    let ghost ids0 = new_ids.ids();
    let new_paragraph_id = new_ids.get_id()?;
    let new_inline_block = InlineBlock::new(new_ids, new_paragraph_id.clone())?;
    let inline_id = new_inline_block.id();
    let mut inline_ids: Vec<String> = Vec::new();
    inline_ids.push(new_inline_block.id());
    let new_paragraph = StandardBlock::new_paragraph_block(
        new_paragraph_id.clone(),
        inline_ids,
        Vec::new(),
        Vec::new(),
        step.root_block_id.clone(),
    );
    proof {
        assert(ids_view(inline_ids@) =~= seq![inline_id@]);
        assert(ids_view(Seq::<String>::empty()) =~= Seq::<Seq<char>>::empty());
        assert(new_ids.ids() =~= ids0.take(ids0.len() - 2));
        assert(new_paragraph@ == empty_paragraph(new_paragraph_id@, inline_id@, step.root_block_id@));
    }
    block_map.update_block(Block::StandardBlock(new_paragraph), &mut blocks_to_update)?;
    block_map.update_block(Block::InlineBlock(new_inline_block), &mut blocks_to_update)?;
    let root = block_map.get_root_block(&step.root_block_id)?;
    let children_len = root.children.len();
    let mut new_children: Vec<String> = Vec::new();
    new_children.push(new_paragraph_id.clone());
    let ghost m1 = block_map@;
    let ghost rv = root@;
    proof {
        block_map.lemma_keys_are_ids();
        assert(rv.id == step.root_block_id@);
    }
    update_state_tools::splice_children(Block::Root(root), children_len..children_len, new_children, &mut blocks_to_update, &mut block_map)?;
    proof {
        let pid = new_paragraph_id@;
        let iid = inline_id@;
        let r = step.root_block_id@;
        let fin = block_map@;
        assert(pid != r && iid != r && pid != iid ==> {
            &&& std_block_of(fin, pid) == Some(empty_paragraph(pid, iid, r))
            &&& inline_block_of(fin, iid) is Some && inline_block_of(fin, iid)->0.text.len() == 0
            &&& root_block_of(fin, r) is Some && root_block_of(fin, r)->0.children == root_block_of(m0, r)->0.children.push(pid)
        }) by {
            if pid != r && iid != r && pid != iid {
                assert(ids_view(new_children@) =~= seq![pid]);
                assert(crate::blocks::splice_spec(rv.children, children_len as int, children_len as int, seq![pid]) =~= rv.children.push(pid));
                assert(m1[pid] == BlockView::Standard(empty_paragraph(pid, iid, r)));
                assert(crate::blocks::tree::with_parent(m1[pid], r) == m1[pid]);
                assert(seq![pid][0] == pid);
                assert(seq![pid].contains(pid));
                assert(!seq![pid].contains(iid));
                assert(!seq![pid].contains(r));
                assert(root_block_of(m1, r) == root_block_of(m0, r));
            }
        }
    }
    let new_subselection = SubSelection { block_id: inline_id, offset: 0, subselection: None };
    return Ok(UpdatedState {
        block_map,
        selection: Some(Selection { anchor: new_subselection.copy(), head: new_subselection }),
        blocks_to_update,
        blocks_to_remove: Vec::new(),
        copy: None,
    })
}

/// The empty paragraph `id` under `parent`, holding the inline block
/// `inline_id`.
pub open spec fn empty_paragraph(id: Seq<char>, inline_id: Seq<char>, parent: Seq<char>) -> crate::blocks::standard_blocks::StandardBlockView {
    crate::blocks::standard_blocks::StandardBlockView {
        id,
        content: StandardBlockTypeView::empty_of_kind(StandardBlockKind::Paragraph).with_inline_blocks(seq![inline_id]),
        children: Seq::empty(),
        parent,
        marks: Seq::empty(),
    }
}

} // verus!
