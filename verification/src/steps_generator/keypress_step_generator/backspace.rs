use vstd::prelude::*;

use crate::blocks::{Block, BlockMap, BlockMapView, BlockView, inline_block_of, root_block_of, std_block_of};
use crate::blocks::standard_blocks::StandardBlockView;
use crate::blocks::inline_blocks::InlineBlock;
use crate::blocks::standard_blocks::StandardBlock;
use crate::blocks::tree::{child_index, inline_index, sibling_id};
use crate::step::{ReplaceSlice, ReplaceStep, Step, TurnToParent, is_turn_into};
use crate::blocks::standard_blocks::{StandardBlockKind, StandardBlockTypeView};
use crate::steps_generator::{StepError, step_error_msg};
use crate::steps_generator::generate_replace_selected_steps::generate_replace_selected_steps;
use crate::steps_generator::selection::{Layer, SubSelection, lemma_layers_len, youngest_end};
use crate::steps_generator::turn_into::turn_into_paragraph_step;
use crate::steps_generator::slash_scrim::removes_text;

verus! {

/// Backspace at the start of an inline block that follows another deletes
/// the last unit of that one, which must then hold some text.
pub open spec fn backspace_applies(m: crate::blocks::BlockMapView, from: SubSelection, to: SubSelection) -> bool {
    let b = inline_block_of(m, from@[0].block_id)->0;
    let i = inline_index(m, b.parent, b.id);
    let p = std_block_of(m, b.parent)->0;
    inline_block_of(m, from@[0].block_id) is Some && from@ == to@ && from.offset == 0 && i > 0
        && inline_block_of(m, p.inline_blocks()[i - 1]) is Some
        ==> inline_block_of(m, p.inline_blocks()[i - 1])->0.text.len() > 0
}

/// Whether backspace can be worked out without running off a text.
pub fn check_backspace(block_map: &BlockMap, from: &SubSelection, to: &SubSelection) -> (r: bool)
    ensures
        r == backspace_applies(block_map@, *from, *to),
{
    proof {
        lemma_layers_len(*from);
    }
    match block_map.get_inline_block(&from.block_id) {
        Ok(b) => {
            if from.same_as(to) && from.offset == 0 {
                proof {
                    block_map.lemma_keys_are_ids();
                }
                match b.index(block_map) {
                    Ok(i) => {
                        if i > 0 {
                            match b.previous_block(block_map) {
                                Ok(prev) => return prev.text().unwrap().len() > 0,
                                Err(_) => return true,
                            }
                        }
                        true
                    },
                    Err(_) => true,
                }
            } else {
                true
            }
        },
        Err(_) => true,
    }
}

/// `steps` is one step that deletes the text between `from` and `to` in the
/// standard block `parent`.
pub open spec fn deletes_between(steps: Seq<Step>, parent: Seq<char>, from: SubSelection, to: SubSelection) -> bool {
    &&& steps.len() == 1
    &&& steps[0] is ReplaceStep
    &&& steps[0]->ReplaceStep_0.block_id@ == parent
    &&& steps[0]->ReplaceStep_0.from@ == from@
    &&& steps[0]->ReplaceStep_0.to@ == to@
    &&& steps[0]->ReplaceStep_0.slice is String
    &&& steps[0]->ReplaceStep_0.slice->String_0@ == Seq::<char>::empty()
}

/// The steps for backspace: with a caret, delete the unit before it (at the
/// start of a list item, turn it into a paragraph; at the start of another
/// block, join it to the block above or move it up a level); with a
/// selection, delete what is selected.
pub fn generate_steps_for_backspace(block_map: &BlockMap, from: SubSelection, to: SubSelection) -> (r: Result<Vec<Step>, StepError>)
    requires
        backspace_applies(block_map@, from, to),
    ensures
        !block_map@.contains_key(from@[0].block_id) ==> r is Err,
        block_map@.contains_key(from@[0].block_id) && block_map@[from@[0].block_id] is Root ==> r is Err,
        inline_block_of(block_map@, from@[0].block_id) is Some && from@ != to@ ==> r is Ok && deletes_between(
            r->Ok_0@,
            inline_block_of(block_map@, from@[0].block_id)->0.parent,
            from,
            to,
        ),
        inline_block_of(block_map@, from@[0].block_id) is Some && from@ == to@ && from.offset > 0 ==> r is Ok && deletes_between(
            r->Ok_0@,
            inline_block_of(block_map@, from@[0].block_id)->0.parent,
            SubSelection { offset: (from.offset - 1) as usize, ..from },
            to,
        ),
        ({
            let b = inline_block_of(block_map@, from@[0].block_id)->0;
            inline_block_of(block_map@, from@[0].block_id) is Some && from@ == to@ && from.offset == 0 && inline_index(
                block_map@,
                b.parent,
                b.id,
            ) == 0 && std_block_of(block_map@, b.parent) is Some && crate::blocks::standard_blocks::kind_is_list(
                std_block_of(block_map@, b.parent)->0.content.kind,
            ) ==> r is Ok && r->Ok_0@.len() == 1 && is_turn_into(
                r->Ok_0@[0],
                b.parent,
                StandardBlockTypeView::empty_of_kind(StandardBlockKind::Paragraph),
            )
        }),
        ({
            let b = inline_block_of(block_map@, from@[0].block_id)->0;
            inline_block_of(block_map@, from@[0].block_id) is Some && from@ == to@ && from.offset == 0 && inline_index(
                block_map@,
                b.parent,
                b.id,
            ) == 0 && std_block_of(block_map@, b.parent) is Some && !crate::blocks::standard_blocks::kind_is_list(
                std_block_of(block_map@, b.parent)->0.content.kind,
            ) && r is Ok ==> start_of_block_steps(block_map@, r->Ok_0@, std_block_of(block_map@, b.parent)->0, b.id)
        }),
        ({
            let b = inline_block_of(block_map@, from@[0].block_id)->0;
            let i = inline_index(block_map@, b.parent, b.id);
            let c = std_block_of(block_map@, b.parent)->0.inline_blocks()[i - 1];
            let t = inline_block_of(block_map@, c)->0.text;
            inline_block_of(block_map@, from@[0].block_id) is Some && from@ == to@ && from.offset == 0 && i > 0 && inline_block_of(
                block_map@,
                c,
            ) is Some ==> (r matches Ok(steps) && steps@.len() == 1 && removes_text(
                steps@[0],
                inline_block_of(block_map@, c)->0.parent,
                c,
                t.len() - 1,
                t.len() as int,
            ))
        }),
{
    proof {
        lemma_layers_len(from);
        lemma_layers_len(to);
        block_map.lemma_keys_are_ids();
    }
    let mut from = from;
    let mut to = to;
    let from_block = block_map.get_block(&from.block_id)?;
    match from_block {
        Block::InlineBlock(from_block) => {
            if from.same_as(&to) {
                // caret selection
                if from.offset == 0 {
                    // at start of block
                    if from_block.index(block_map)? == 0 {
                        // caret at start of standard block
                        let std_block = block_map.get_inline_block(&from.block_id)?.get_parent(block_map)?;
                        if std_block.is_list() {
                            return turn_into_paragraph_step(std_block.id())
                        } else {
                            return caret_at_start_of_parent_block_steps(from_block, block_map)
                        }
                    } else {
                        // caret at start of inline block that is not the first inline in it's parent
                        let previous_inline_block = from_block.previous_block(block_map)?;
                        let len = previous_inline_block.text()?.len();
                        from = SubSelection { block_id: previous_inline_block.id(), offset: len - 1, subselection: None };
                        to = from.copy();
                        to.offset = to.offset + 1;
                        proof {
                            reveal_with_fuel(crate::steps_generator::selection::layers, 2);
                            assert(from@ =~= seq![Layer { block_id: previous_inline_block@.id, offset: (len - 1) as usize }]);
                            assert(to@ =~= seq![Layer { block_id: previous_inline_block@.id, offset: len }]);
                        }
                    }
                } else {
                    // somewhere inside block
                    from.offset = from.offset - 1;
                }
            }
            return generate_replace_selected_steps(block_map, from, to, String::new())
        },
        Block::StandardBlock(_) => return generate_replace_selected_steps(block_map, from, to, String::new()),
        Block::Root(_) => return Err(step_error_msg("Cannot perform a backspace operation on a root block")),
    }
}

/// The steps of backspace at the start of the standard block `p`, whose
/// first inline block is `first`: where `p` is nested in another block, it
/// moves up a level; under the root, it joins the end of the block above it
/// (the youngest descendant of its previous sibling), and nothing happens to
/// the first block.
pub open spec fn start_of_block_steps(m: BlockMapView, steps: Seq<Step>, p: StandardBlockView, first: Seq<char>) -> bool {
    if root_block_of(m, p.parent) is None {
        &&& steps.len() == 1
        &&& steps[0] matches Step::TurnToParent(t)
        &&& t.block_id@ == p.id
    } else if child_index(m, p.parent, p.id) == 0 {
        steps.len() == 0
    } else {
        &&& steps.len() == 1
        &&& steps[0] matches Step::ReplaceStep(r)
        &&& r.block_id@ == p.parent
        &&& exists|fuel: nat| #[trigger] youngest_end(m, std_block_of(m, sibling_id(m, p, -1)->0)->0, fuel) == Some(r.from@)
        &&& r.to@ == seq![Layer { block_id: p.id, offset: 0 }, Layer { block_id: first, offset: 0 }]
        &&& r.slice matches ReplaceSlice::String(x)
        &&& x@.len() == 0
    }
}

/// Backspace at the start of a standard block: one nested in another moves
/// up a level; one under the root joins the end of the block above it.
fn caret_at_start_of_parent_block_steps(from_block: InlineBlock, block_map: &BlockMap) -> (r: Result<Vec<Step>, StepError>)
    ensures
        std_block_of(block_map@, from_block@.parent) is None ==> r is Err,
        r matches Ok(steps) ==> start_of_block_steps(block_map@, steps@, std_block_of(block_map@, from_block@.parent)->0, from_block@.id),
        std_block_of(block_map@, from_block@.parent) is Some && root_block_of(block_map@, std_block_of(block_map@, from_block@.parent)->0.parent)
            is None ==> r is Ok,
        std_block_of(block_map@, from_block@.parent) is Some && child_index(
            block_map@,
            std_block_of(block_map@, from_block@.parent)->0.parent,
            std_block_of(block_map@, from_block@.parent)->0.id,
        ) == 0 ==> r is Ok,
{
    let parent_block = from_block.get_parent(block_map)?;
    let mut steps: Vec<Step> = Vec::new();
    if !parent_block.parent_is_root(block_map) {
        steps.push(Step::TurnToParent(TurnToParent { block_id: parent_block.id() }));
        return Ok(steps)
    } else {
        let block_before_parent = parent_block.get_previous(block_map)?;
        match block_before_parent {
            Some(block_before_parent) => {
                let from = SubSelection::at_end_of_youngest_descendant(&block_before_parent, block_map)?;
                let to = SubSelection {
                    block_id: parent_block.id(),
                    offset: 0,
                    subselection: Some(Box::new(SubSelection { block_id: from_block.id(), offset: 0, subselection: None })),
                };
                proof {
                    reveal_with_fuel(crate::steps_generator::selection::layers, 3);
                    assert(to@ =~= seq![Layer { block_id: parent_block@.id, offset: 0 }, Layer { block_id: from_block@.id, offset: 0 }]);
                }
                let slice = ReplaceSlice::String(String::new());
                proof {
                    assert(slice->String_0@ =~= Seq::<char>::empty());
                }
                steps.push(Step::ReplaceStep(ReplaceStep { block_id: parent_block.parent.clone(), from, to, slice }));
                return Ok(steps)
            },
            None => return Ok(steps),
        }
    }
}

} // verus!
