use vstd::prelude::*;

use crate::blocks::{Block, BlockMap, BlockMapView, index_of_id, inline_block_of, std_block_of};
use crate::blocks::standard_blocks::{StandardBlock, StandardBlockView};
use crate::blocks::tree::{has_mark, left_out, range_end, range_start};
use crate::mark::Mark;
use crate::step::{MarkStep, Step};
use crate::steps_generator::{StepError, step_error_msg};
use crate::steps_generator::selection::{Layer, SubSelection, lemma_layers_len};
use crate::utilities::{BlockStructure, BlocksBetween, get_blocks_between};
use crate::utilities::walk::walked;

verus! {

/// Which ends of a selection fall inside a block, with their offsets into the
/// inline blocks at those ends.
#[derive(PartialEq, Eq, Debug, Clone, Copy, Structural)]
pub enum ForSelection {
    From(usize),
    To(usize),
    Both(usize, usize),
}

/// `s` adds (when `add`) or removes `mark` between `from` and `to`.
pub open spec fn is_mark_step(s: Step, add: bool, mark: Mark, from: SubSelection, to: SubSelection) -> bool {
    match s {
        Step::AddMarkStep(ms) => add && ms.mark == mark && ms.from == from && ms.to == to,
        Step::RemoveMarkStep(ms) => !add && ms.mark == mark && ms.from == from && ms.to == to,
        _ => false,
    }
}

/// Every inline block of `p` that the selection covers, from index `fi`
/// to index `ti`, holds `mark`.
pub open spec fn selection_all_marked(
    m: crate::blocks::BlockMapView,
    p: crate::blocks::standard_blocks::StandardBlockView,
    mark: Mark,
    fi: int,
    ti: int,
    for_selection: ForSelection,
) -> bool {
    let ids = p.inline_blocks();
    forall|k: int|
        range_start(m, ids, fi as usize, for_selection) <= k < range_end(ids, ti as usize) ==> left_out(k, ti as usize, for_selection)
            || has_mark(m, #[trigger] ids[k], mark)
}

/// Every inline block of `b` holds `mark`.
pub open spec fn block_all_marked(m: BlockMapView, b: StandardBlockView, mark: Mark) -> bool {
    b.has_content() && forall|k: int| 0 <= k < b.inline_blocks().len() ==> has_mark(m, #[trigger] b.inline_blocks()[k], mark)
}

/// The `i`th block of the walk `bs` holds `mark` wherever the selection
/// covers it: in the first block from `from` to its end, in the last from
/// its start to `to`, and all of each block between.
pub open spec fn walk_block_marked(m: BlockMapView, bs: Seq<StandardBlockView>, i: int, mark: Mark, from: Layer, to: Layer) -> bool {
    let b = bs[i];
    let ids = b.inline_blocks();
    if i == 0 {
        selection_all_marked(m, b, mark, index_of_id(ids, from.block_id), ids.len() - 1, ForSelection::From(from.offset))
    } else if i == bs.len() - 1 {
        selection_all_marked(m, b, mark, 0, index_of_id(ids, to.block_id), ForSelection::To(to.offset))
    } else {
        block_all_marked(m, b, mark)
    }
}

/// Every block of the walk `bs` holds `mark` wherever the selection covers it.
pub open spec fn walk_all_marked(m: BlockMapView, bs: Seq<StandardBlockView>, mark: Mark, from: Layer, to: Layer) -> bool {
    forall|i: int| 0 <= i < bs.len() ==> #[trigger] walk_block_marked(m, bs, i, mark, from, to)
}

/// Every standard block of `m` holds text, in inline blocks of `m`.
pub open spec fn blocks_hold_text(m: BlockMapView) -> bool {
    forall|k: Seq<char>| #[trigger] std_block_of(m, k) is Some ==> std_block_of(m, k)->0.has_content()
        && crate::steps_actualisor::all_inline(m, std_block_of(m, k)->0.inline_blocks())
}

/// A selection across standard blocks that a mark can be set on: it spans
/// the blocks from its first to its last (see `spans_blocks`), every
/// standard block holds text, and each end's inline block is one of its
/// block's.
pub open spec fn markable_across(m: BlockMapView, from: SubSelection, to: SubSelection) -> bool {
    &&& m.contains_key(from@[0].block_id) && m[from@[0].block_id] is Standard
    &&& crate::utilities::spans_blocks(m, from, to)
    &&& blocks_hold_text(m)
    &&& std_block_of(m, to@[to@.len() - 2].block_id) is Some
    &&& index_of_id(std_block_of(m, from@[from@.len() - 2].block_id)->0.inline_blocks(), from@.last().block_id) >= 0
    &&& index_of_id(std_block_of(m, to@[to@.len() - 2].block_id)->0.inline_blocks(), to@.last().block_id) >= 0
}

/// The step for a format command: where every selected inline block already
/// holds `mark`, remove it; otherwise add it.
pub fn generate_mark_steps(mark: Mark, from: SubSelection, to: SubSelection, block_map: &BlockMap) -> (r: Result<Vec<Step>, StepError>)
    ensures
        !block_map@.contains_key(from@[0].block_id) ==> r is Err,
        block_map@.contains_key(from@[0].block_id) && block_map@[from@[0].block_id] is Root ==> r is Err,
        r matches Ok(steps) ==> steps@.len() == 1 && (is_mark_step(steps@[0], true, mark, from, to) || is_mark_step(steps@[0], false, mark, from, to)),
        r matches Ok(steps) ==> crate::steps_actualisor::mark_of(steps@[0]).block_id@ == block_map@[from@[0].block_id].parent(),
        ({
            let f = inline_block_of(block_map@, from@[0].block_id)->0;
            let p = std_block_of(block_map@, f.parent)->0;
            inline_block_of(block_map@, from@[0].block_id) is Some && r is Ok ==> (r->Ok_0@[0] is RemoveMarkStep
                <==> selection_all_marked(
                block_map@,
                p,
                mark,
                crate::blocks::index_of_id(p.inline_blocks(), from@[0].block_id),
                crate::blocks::index_of_id(p.inline_blocks(), to@[0].block_id),
                ForSelection::Both(from.offset, to.offset),
            ))
        }),
        ({
            let f = inline_block_of(block_map@, from@[0].block_id)->0;
            let p = std_block_of(block_map@, f.parent)->0;
            inline_block_of(block_map@, from@[0].block_id) is Some && std_block_of(block_map@, f.parent) is Some && p.has_content()
                && index_of_id(p.inline_blocks(), from@[0].block_id) >= 0 && index_of_id(p.inline_blocks(), to@[0].block_id) >= 0
                && crate::steps_actualisor::all_inline(block_map@, p.inline_blocks()) ==> r is Ok
        }),
        markable_across(block_map@, from, to) ==> r is Ok,
        block_map@.contains_key(from@[0].block_id) && block_map@[from@[0].block_id] is Standard && r is Ok
            ==> exists|bs: Seq<StandardBlockView>|
            #[trigger] walked(block_map@, bs, from@[from@.len() - 2].block_id, to@[to@.len() - 2].block_id) && (r->Ok_0@[0] is RemoveMarkStep
                <==> walk_all_marked(block_map@, bs, mark, from@.last(), to@.last())),
{
    proof {
        lemma_layers_len(from);
        lemma_layers_len(to);
    }
    let ghost ok = markable_across(block_map@, from, to);
    let from_block = block_map.get_block(&from.block_id)?;
    let parent_block_id = from_block.parent()?;
    let mut should_add_mark = false;
    match from_block {
        Block::InlineBlock(from_block) => {
            let parent_block = block_map.get_standard_block(&from_block.parent)?;
            let fi = parent_block.index_of(from.block_id.as_str())?;
            let ti = parent_block.index_of(to.block_id.as_str())?;
            proof {
                crate::blocks::lemma_index_of_id(parent_block@.inline_blocks(), from.block_id@);
            }
            if parent_block.all_inline_blocks_in_range_have_identical_mark(&mark, fi, ti, ForSelection::Both(from.offset, to.offset), block_map)? == false {
                should_add_mark = true;
            }
        },
        Block::StandardBlock(_) => {
            match get_blocks_between(&from, &to, BlockStructure::Flat, block_map)? {
                BlocksBetween::Flat(blocks) => {
                    let deepest_from = from.get_deepest_subselection();
                    let deepest_to = to.get_deepest_subselection();
                    proof {
                        lemma_layers_len(*deepest_from);
                        lemma_layers_len(*deepest_to);
                    }
                    let ghost bs = blocks@.map_values(|b: StandardBlock| b@);
                    let ghost fl = from@.last();
                    let ghost tl = to@.last();
                    assert(deepest_from.block_id@ == fl.block_id && deepest_from.offset == fl.offset);
                    assert(deepest_to.block_id@ == tl.block_id && deepest_to.offset == tl.offset);
                    proof {
                        if ok {
                            assert(walked(block_map@, bs, from@[from@.len() - 2].block_id, to@[to@.len() - 2].block_id));
                        }
                    }
                    let n = blocks.len();
                    let mut i: usize = 0;
                    while i < n
                        invariant_except_break
                            !should_add_mark,
                        invariant
                            n == blocks@.len(),
                            !(inline_block_of(block_map@, from@[0].block_id) is Some),
                            bs == blocks@.map_values(|b: StandardBlock| b@),
                            i <= n,
                            deepest_from.block_id@ == fl.block_id && deepest_from.offset == fl.offset,
                            deepest_to.block_id@ == tl.block_id && deepest_to.offset == tl.offset,
                            forall|j: int| 0 <= j < i ==> #[trigger] walk_block_marked(block_map@, bs, j, mark, fl, tl),
                            ok == markable_across(block_map@, from, to),
                            fl == from@.last() && tl == to@.last(),
                            ok ==> walked(block_map@, bs, from@[from@.len() - 2].block_id, to@[to@.len() - 2].block_id),
                            bs.len() >= 1 ==> bs[0].id == from@[from@.len() - 2].block_id && bs.last().id == to@[to@.len() - 2].block_id,
                        ensures
                            should_add_mark ==> !walk_all_marked(block_map@, bs, mark, fl, tl),
                            !should_add_mark ==> walk_all_marked(block_map@, bs, mark, fl, tl),
                        decreases n - i,
                    {
                        let block = &blocks[i];
                        assert(bs[i as int] == block@);
                        proof {
                            if ok {
                                let last = std_block_of(block_map@, to@[to@.len() - 2].block_id)->0;
                                if i + 1 < n {
                                    assert(std_block_of(block_map@, bs[i as int].id) == Some(bs[i as int]));
                                } else {
                                    assert(bs[i as int] == last.with_children(Seq::empty()));
                                }
                                assert(block@.has_content());
                                assert(crate::steps_actualisor::all_inline(block_map@, block@.inline_blocks()));
                                if i == 0 {
                                    let first = std_block_of(block_map@, from@[from@.len() - 2].block_id)->0;
                                    if n > 1 {
                                        assert(block@ == first);
                                    } else {
                                        assert(from@[from@.len() - 2].block_id == to@[to@.len() - 2].block_id);
                                        assert(block@.inline_blocks() == first.inline_blocks());
                                    }
                                }
                                if i + 1 == n {
                                    assert(block@.inline_blocks() == last.inline_blocks());
                                }
                            }
                        }
                        if i == 0 {
                            let fi = block.index_of(deepest_from.block_id.as_str())?;
                            proof {
                                crate::blocks::lemma_index_of_id(block@.inline_blocks(), deepest_from.block_id@);
                            }
                            let len = block.inline_blocks_length()?;
                            if block.all_inline_blocks_in_range_have_identical_mark(&mark, fi, len - 1, ForSelection::From(deepest_from.offset), block_map)? == false {
                                should_add_mark = true;
                                assert(!walk_block_marked(block_map@, bs, 0, mark, fl, tl));
                                break ;
                            }
                            assert(walk_block_marked(block_map@, bs, 0, mark, fl, tl));
                        } else if i == n - 1 {
                            let ti = block.index_of(deepest_to.block_id.as_str())?;
                            if block.all_inline_blocks_in_range_have_identical_mark(&mark, 0, ti, ForSelection::To(deepest_to.offset), block_map)? == false {
                                should_add_mark = true;
                                assert(!walk_block_marked(block_map@, bs, i as int, mark, fl, tl));
                                break ;
                            }
                            assert(walk_block_marked(block_map@, bs, i as int, mark, fl, tl));
                        } else {
                            if block.all_inline_blocks_have_identical_mark(&mark, block_map)? == false {
                                should_add_mark = true;
                                assert(!walk_block_marked(block_map@, bs, i as int, mark, fl, tl));
                                break ;
                            }
                            assert(walk_block_marked(block_map@, bs, i as int, mark, fl, tl));
                        }
                        i += 1;
                    }
                    proof {
                        assert(walked(block_map@, bs, from@[from@.len() - 2].block_id, to@[to@.len() - 2].block_id));
                    }
                },
                BlocksBetween::Tree { .. } => return Err(step_error_msg("Expected the blocks flat")),
            }
        },
        Block::Root(_) => return Err(step_error_msg("Cannot generate mark steps for a root block")),
    };
    let mark_step = MarkStep {
        block_id: parent_block_id,
        from,
        to,
        mark,
        from_new_inline_id: String::new(),
        to_new_inline_id: String::new(),
    };
    let mut steps: Vec<Step> = Vec::new();
    if should_add_mark {
        steps.push(Step::AddMarkStep(mark_step));
    } else {
        steps.push(Step::RemoveMarkStep(mark_step));
    }
    return Ok(steps)
}

} // verus!
