use vstd::prelude::*;

use crate::blocks::{Block, BlockMap, BlockMapView, BlockView, copy_ids, extends, ids_view, index_of_id, inline_block_of, std_block_of};
use crate::blocks::standard_blocks::{StandardBlock, StandardBlockView};
use crate::blocks::standard_blocks::content_block::ContentBlock;
use crate::blocks::tree::{inline_index, mark_inline};
use crate::mark::Mark;
use crate::new_ids::NewIds;
use crate::step::MarkStep;
use crate::steps_actualisor::{UpdatedState, all_inline, clean_block_after_transform, distinct_apart, m2_unchanged, no_mergeable};
use crate::steps_generator::{StepError, step_error_msg};
use crate::steps_generator::selection::{Layer, SubSelection, lemma_layers_len};
use crate::utilities::{BlockStructure, BlocksBetween, get_blocks_between};
use crate::utilities::walk::walked;

verus! {

/// `m` with the inline block `id` cut at `offset`: it keeps the text before,
/// a new block `fresh` holds the text after, and `std` (written back) lists
/// it just after `id`.
pub open spec fn split_edge(m: BlockMapView, id: Seq<char>, offset: usize, std: StandardBlockView, fresh: Seq<char>) -> BlockMapView {
    let b = inline_block_of(m, id)->0;
    let second = b.with_text(b.text.skip(offset as int)).with_id(fresh);
    let i = inline_index(m, b.parent, b.id);
    m.insert(b.id, BlockView::Inline(b.with_text(b.text.take(offset as int)))).insert(second.id, BlockView::Inline(second)).insert(
        std.id,
        BlockView::Standard(std.with_inline_blocks(std.inline_blocks().insert(i + 1, second.id))),
    )
}

/// The document once the inline blocks at both ends of a mark step across
/// standard blocks are cut, with the last two of the fresh ids `ids`.
pub open spec fn split_ends(m: BlockMapView, mark_step: MarkStep, ids: Seq<String>) -> BlockMapView {
    let f = mark_step.from@;
    let t = mark_step.to@;
    let fb = std_block_of(m, f[f.len() - 2].block_id)->0;
    let tb = std_block_of(m, t[t.len() - 2].block_id)->0;
    split_edge(
        split_edge(m, f.last().block_id, f.last().offset, fb, ids.last()@),
        t.last().block_id,
        t.last().offset,
        tb,
        ids[ids.len() - 2]@,
    )
}

/// The inline blocks of the `i`th block of the walk `bs` that the mark
/// covers: in the first block those after the one of `fl`, in the last
/// those up to the one of `tl`, all of any other.
pub open spec fn walk_block_range(bs: Seq<StandardBlockView>, i: int, fl: Layer, tl: Layer) -> Seq<Seq<char>> {
    let ids = bs[i].inline_blocks();
    if i == 0 {
        ids.subrange(index_of_id(ids, fl.block_id) + 1, ids.len() as int)
    } else if i == bs.len() - 1 {
        ids.subrange(0, index_of_id(ids, tl.block_id) + 1)
    } else {
        ids
    }
}

/// `m` with the mark set (or taken off) on what the selection covers of the
/// first `n` blocks of the walk `bs`, one block after another.
pub open spec fn marked_over(m: BlockMapView, bs: Seq<StandardBlockView>, n: nat, fl: Layer, tl: Layer, mark: Mark, add: bool) -> BlockMapView
    decreases n,
{
    if n == 0 {
        m
    } else {
        mark_inline(marked_over(m, bs, (n - 1) as nat, fl, tl, mark, add), walk_block_range(bs, n - 1, fl, tl), mark, add)
    }
}

/// The standard block `id` of `m` holds distinct inline blocks of `m`, all
/// with text, no two neighbours with the same marks: cleaning it changes
/// nothing.
pub open spec fn already_clean(m: BlockMapView, id: Seq<char>) -> bool {
    let b = std_block_of(m, id)->0;
    &&& std_block_of(m, id) is Some && b.has_content()
    &&& distinct_apart(b.inline_blocks(), id)
    &&& all_inline(m, b.inline_blocks())
    &&& no_mergeable(m, b.inline_blocks())
    &&& m2_unchanged(m, b)
}

/// Marking leaves the standard blocks as they are, and which blocks are
/// inline blocks.
proof fn lemma_marked_over_keeps(m: BlockMapView, bs: Seq<StandardBlockView>, n: nat, fl: Layer, tl: Layer, mark: Mark, add: bool)
    ensures
        forall|k: Seq<char>| #[trigger] std_block_of(marked_over(m, bs, n, fl, tl, mark, add), k) == std_block_of(m, k),
        forall|k: Seq<char>| #[trigger] inline_block_of(marked_over(m, bs, n, fl, tl, mark, add), k) is Some <==> inline_block_of(m, k) is Some,
    decreases n,
{
    if n > 0 {
        lemma_marked_over_keeps(m, bs, (n - 1) as nat, fl, tl, mark, add);
        let prev = marked_over(m, bs, (n - 1) as nat, fl, tl, mark, add);
        let cur = marked_over(m, bs, n, fl, tl, mark, add);
        assert(cur == mark_inline(prev, walk_block_range(bs, n - 1, fl, tl), mark, add));
        assert forall|k: Seq<char>| #[trigger] inline_block_of(cur, k) is Some <==> inline_block_of(prev, k) is Some by {
            if prev.contains_key(k) {
                assert(cur.contains_key(k));
                assert(cur[k] is Inline <==> prev[k] is Inline);
            } else {
                assert(!cur.contains_key(k));
            }
            assert(inline_block_of(prev, k) is Some <==> inline_block_of(m, k) is Some);
        }
        assert forall|k: Seq<char>| #[trigger] std_block_of(cur, k) == std_block_of(prev, k)
            && (inline_block_of(cur, k) is Some <==> inline_block_of(prev, k) is Some) by {
            if prev.contains_key(k) {
                assert(cur.contains_key(k));
                assert(cur[k] is Inline <==> prev[k] is Inline);
                assert(cur[k] is Standard <==> prev[k] is Standard);
                if prev[k] is Standard {
                    assert(cur[k] == prev[k]);
                }
            } else {
                assert(!cur.contains_key(k));
            }
        }
    }
}

/// What a mark step across standard blocks asks of the document `m` to
/// succeed: both ends lie in inline blocks one layer into standard blocks
/// that hold text, within their texts; there are two fresh ids; once the
/// ends are cut the selection can be marked (`markable_across`); the two
/// end blocks are distinct, each lists its inline blocks once, and they
/// share none.
pub open spec fn across_ok(m: BlockMapView, mark_step: MarkStep, ids: Seq<String>) -> bool {
    let f = mark_step.from@;
    let t = mark_step.to@;
    let fb = std_block_of(m, f[f.len() - 2].block_id)->0;
    let tb = std_block_of(m, t[t.len() - 2].block_id)->0;
    let bf = inline_block_of(m, f.last().block_id)->0;
    let m1 = split_edge(m, f.last().block_id, f.last().offset, fb, ids.last()@);
    let bt = inline_block_of(m1, t.last().block_id)->0;
    let m2 = split_ends(m, mark_step, ids);
    let f2 = std_block_of(m2, fb.id)->0;
    let t2 = std_block_of(m2, tb.id)->0;
    &&& f.len() >= 2 && t.len() >= 2 && ids.len() >= 2
    &&& std_block_of(m, f[f.len() - 2].block_id) is Some && std_block_of(m, t[t.len() - 2].block_id) is Some
    &&& inline_block_of(m, f.last().block_id) is Some && f.last().offset <= bf.text.len()
    &&& std_block_of(m, bf.parent) == Some(fb) && fb.has_content() && inline_index(m, bf.parent, bf.id) >= 0
    &&& inline_block_of(m1, t.last().block_id) is Some && t.last().offset <= bt.text.len()
    &&& std_block_of(m1, bt.parent) == Some(tb) && tb.has_content() && inline_index(m1, bt.parent, bt.id) >= 0
    &&& crate::steps_generator::mark_steps::markable_across(m2, mark_step.from, mark_step.to)
    &&& forall|k: Seq<char>| #[trigger] std_block_of(m2, k) is Some ==> std_block_of(m2, k)->0.inline_blocks().len() > 0
    &&& distinct_apart(f2.inline_blocks(), fb.id) && distinct_apart(t2.inline_blocks(), tb.id)
    &&& fb.id != tb.id
    &&& forall|j: int| 0 <= j < t2.inline_blocks().len() ==> !f2.inline_blocks().contains(#[trigger] t2.inline_blocks()[j])
}

/// Marks text across standard blocks: the inline blocks at both ends are
/// split at the selection, every inline block of every standard block in
/// between is marked, and the two end blocks are cleaned.
#[verifier::rlimit(60)]
pub fn actualise_mark_step_on_standard_blocks(
    mark_step: MarkStep,
    document: BlockMap,
    add_mark: bool,
    new_ids: &mut NewIds,
    blocks_to_update: Vec<String>,
) -> (r: Result<UpdatedState, StepError>)
    ensures
        mark_step.from@.len() < 2 || mark_step.to@.len() < 2 ==> r is Err,
        r matches Ok(s) ==> s.selection is None && extends(blocks_to_update@, s.blocks_to_update@)
            && s.blocks_to_remove@.len() == 0 && s.copy is None,
        across_ok(document@, mark_step, old(new_ids).ids()) ==> r is Ok,
        r is Ok ==> exists|bs: Seq<StandardBlockView>|
            #[trigger] walked(split_ends(document@, mark_step, old(new_ids).ids()), bs, mark_step.from@[mark_step.from@.len() - 2].block_id,
                mark_step.to@[mark_step.to@.len() - 2].block_id) && ({
                let mo = marked_over(split_ends(document@, mark_step, old(new_ids).ids()), bs, bs.len(), mark_step.from@.last(),
                    mark_step.to@.last(), mark_step.mark, add_mark);
                already_clean(mo, mark_step.from@[mark_step.from@.len() - 2].block_id)
                    && already_clean(mo, mark_step.to@[mark_step.to@.len() - 2].block_id) ==> r->Ok_0.block_map@ == mo
            }),
{
    let ghost bt0 = blocks_to_update@;
    let ghost m0 = document@;
    let ghost ids0 = new_ids.ids();
    let ghost ok = across_ok(m0, mark_step, ids0);
    let mut block_map = document;
    let mut blocks_to_update = blocks_to_update;
    proof {
        lemma_layers_len(mark_step.from);
        lemma_layers_len(mark_step.to);
    }
    let from_second_deepest_layer = mark_step.from.copy().get_two_deepest_layers()?;
    let from_deepest_layer = mark_step.from.get_deepest_subselection();
    proof {
        lemma_layers_len(from_second_deepest_layer);
        assert(from_second_deepest_layer.block_id@ == mark_step.from@[mark_step.from@.len() - 2].block_id);
    }
    let from_deepest_std_block = block_map.get_standard_block(&from_second_deepest_layer.block_id)?;
    let to_second_deepest_layer = mark_step.to.copy().get_two_deepest_layers()?;
    let to_deepest_layer = mark_step.to.get_deepest_subselection();
    proof {
        lemma_layers_len(to_second_deepest_layer);
        assert(to_second_deepest_layer.block_id@ == mark_step.to@[mark_step.to@.len() - 2].block_id);
    }
    let to_deepest_std_block = block_map.get_standard_block(&to_second_deepest_layer.block_id)?;
    proof {
        lemma_layers_len(mark_step.from);
        lemma_layers_len(mark_step.to);
        lemma_layers_len(from_second_deepest_layer);
        lemma_layers_len(to_second_deepest_layer);
        lemma_layers_len(*from_deepest_layer);
        lemma_layers_len(*to_deepest_layer);
        assert(from_second_deepest_layer.block_id@ == mark_step.from@[mark_step.from@.len() - 2].block_id);
        assert(to_second_deepest_layer.block_id@ == mark_step.to@[mark_step.to@.len() - 2].block_id);
    }
    let ghost fl = mark_step.from@.last();
    let ghost tl = mark_step.to@.last();
    split_edge_inline_blocks(&mut block_map, new_ids, from_deepest_layer, from_deepest_std_block, &mut blocks_to_update)?;
    split_edge_inline_blocks(&mut block_map, new_ids, to_deepest_layer, to_deepest_std_block, &mut blocks_to_update)?;
    let ghost m2 = block_map@;
    proof {
        assert(m2 == split_ends(m0, mark_step, ids0));
    }
    let ghost mut wbs: Seq<StandardBlockView> = Seq::empty();
    match get_blocks_between(&mark_step.from, &mark_step.to, BlockStructure::Flat, &block_map)? {
        BlocksBetween::Flat(blocks) => {
            let ghost bs = blocks@.map_values(|b: StandardBlock| b@);
            proof {
                wbs = bs;
                assert(block_map@ == marked_over(m2, bs, 0, fl, tl, mark_step.mark, add_mark));
            }
            let mut i: usize = 0;
            let n = blocks.len();
            while i < n
                invariant
                    n == blocks@.len(),
                    extends(bt0, blocks_to_update@),
                    i <= n,
                    bs == blocks@.map_values(|b: StandardBlock| b@),
                    block_map@ == marked_over(m2, bs, i as nat, fl, tl, mark_step.mark, add_mark),
                    from_deepest_layer.block_id@ == fl.block_id,
                    to_deepest_layer.block_id@ == tl.block_id,
                    fl == mark_step.from@.last() && tl == mark_step.to@.last(),
                    ok == across_ok(m0, mark_step, ids0),
                    m0 == document@ && ids0 == old(new_ids).ids(),
                    m2 == split_ends(m0, mark_step, ids0),
                    ok ==> walked(m2, bs, mark_step.from@[mark_step.from@.len() - 2].block_id, mark_step.to@[mark_step.to@.len() - 2].block_id),
                    ok ==> crate::steps_generator::mark_steps::markable_across(m2, mark_step.from, mark_step.to),
                    ok ==> forall|k: Seq<char>| #[trigger] std_block_of(m2, k) is Some ==> std_block_of(m2, k)->0.inline_blocks().len() > 0,
                    mark_step.from@.len() >= 2 && mark_step.to@.len() >= 2,
                decreases n - i,
            {
                let block = &blocks[i];
                assert(bs[i as int] == block@);
                proof {
                    if ok {
                        let fid = mark_step.from@[mark_step.from@.len() - 2].block_id;
                        let tid = mark_step.to@[mark_step.to@.len() - 2].block_id;
                        let last = std_block_of(m2, tid)->0;
                        lemma_marked_over_keeps(m2, bs, i as nat, fl, tl, mark_step.mark, add_mark);
                        if i + 1 < n {
                            assert(std_block_of(m2, bs[i as int].id) == Some(bs[i as int]));
                        } else {
                            assert(bs[i as int] == last.with_children(Seq::empty()));
                        }
                        assert(block@.has_content());
                        assert(all_inline(m2, block@.inline_blocks()));
                        assert(block@.inline_blocks().len() > 0);
                        assert forall|k: int| 0 <= k < block@.inline_blocks().len() implies inline_block_of(block_map@, #[trigger] block@.inline_blocks()[k]) is Some by {
                            assert(inline_block_of(m2, block@.inline_blocks()[k]) is Some);
                        }
                        if i == 0 {
                            let first = std_block_of(m2, fid)->0;
                            if n > 1 {
                                assert(block@ == first);
                            } else {
                                assert(fid == tid);
                                assert(block@.inline_blocks() == first.inline_blocks());
                            }
                        }
                        if i + 1 == n {
                            assert(block@.inline_blocks() == last.inline_blocks());
                        }
                    }
                }
                let len = block.inline_blocks_length()?;
                if len == 0 {
                    return Err(step_error_msg("Block has no inline blocks"));
                }
                let ghost before = block_map@;
                if i == 0 {
                    let from_index = block.index_of(from_deepest_layer.block_id.as_str())?;
                    proof {
                        crate::blocks::lemma_index_of_id(block@.inline_blocks(), from_deepest_layer.block_id@);
                    }
                    if from_index < usize::MAX {
                        block.apply_mark_to_all_inline_blocks_in_range(mark_step.mark, from_index + 1, len - 1, &mut block_map, add_mark, &mut blocks_to_update)?;
                    }
                } else if i == n - 1 {
                    let to_index = block.index_of(to_deepest_layer.block_id.as_str())?;
                    proof {
                        crate::blocks::lemma_index_of_id(block@.inline_blocks(), to_deepest_layer.block_id@);
                    }
                    block.apply_mark_to_all_inline_blocks_in_range(mark_step.mark, 0, to_index, &mut block_map, add_mark, &mut blocks_to_update)?;
                } else {
                    block.apply_mark_to_all_inline_blocks(mark_step.mark, &mut block_map, add_mark, &mut blocks_to_update)?;
                }
                proof {
                    assert(block_map@ == mark_inline(before, walk_block_range(bs, i as int, fl, tl), mark_step.mark, add_mark));
                    assert(marked_over(m2, bs, (i + 1) as nat, fl, tl, mark_step.mark, add_mark) == mark_inline(
                        marked_over(m2, bs, i as nat, fl, tl, mark_step.mark, add_mark), walk_block_range(bs, i as int, fl, tl),
                        mark_step.mark, add_mark));
                }
                i += 1;
            }
        },
        BlocksBetween::Tree { .. } => {
            return Err(step_error_msg("Expected the blocks flat"));
        },
    }
    proof {
        if ok {
            lemma_marked_over_keeps(m2, wbs, wbs.len(), fl, tl, mark_step.mark, add_mark);
            assert(block_map@ == marked_over(m2, wbs, wbs.len(), fl, tl, mark_step.mark, add_mark));
        }
    }
    let from_second_deepest_layer = mark_step.from.copy().get_two_deepest_layers()?;
    let from_deepest_std_block = block_map.get_standard_block(&from_second_deepest_layer.block_id)?;
    let to_second_deepest_layer = mark_step.to.copy().get_two_deepest_layers()?;
    let to_deepest_std_block = block_map.get_standard_block(&to_second_deepest_layer.block_id)?;
    let ghost mo = block_map@;
    proof {
        block_map.lemma_keys_are_ids();
        lemma_layers_len(from_second_deepest_layer);
        lemma_layers_len(to_second_deepest_layer);
        if ok {
            lemma_marked_over_keeps(m2, wbs, wbs.len(), fl, tl, mark_step.mark, add_mark);
            assert(mo == marked_over(m2, wbs, wbs.len(), fl, tl, mark_step.mark, add_mark));
        }
    }
    proof {
        if ok {
            let f2 = from_deepest_std_block@;
            assert forall|k: int| 0 <= k < f2.inline_blocks().len() implies inline_block_of(mo, #[trigger] f2.inline_blocks()[k]) is Some by {
                assert(inline_block_of(m2, f2.inline_blocks()[k]) is Some);
            }
        }
    }
    let block_map = clean_block_after_transform(from_deepest_std_block, block_map, &mut blocks_to_update)?;
    let ghost mf = block_map@;
    proof {
        if ok {
            let f2 = from_deepest_std_block@;
            let t2 = to_deepest_std_block@;
            assert forall|k: int| 0 <= k < t2.inline_blocks().len() implies inline_block_of(mf, #[trigger] t2.inline_blocks()[k]) is Some by {
                let x = t2.inline_blocks()[k];
                assert(inline_block_of(m2, x) is Some);
                assert(inline_block_of(mo, x) is Some);
                assert(!f2.inline_blocks().contains(x));
                assert(x != f2.id);
                assert(mf[x] == mo[x]);
            }
        }
    }
    proof {
        let fid = mark_step.from@[mark_step.from@.len() - 2].block_id;
        if already_clean(mo, fid) {
            assert(mf =~= mo);
        }
    }
    let block_map = clean_block_after_transform(to_deepest_std_block, block_map, &mut blocks_to_update)?;
    proof {
        let fid = mark_step.from@[mark_step.from@.len() - 2].block_id;
        let tid = mark_step.to@[mark_step.to@.len() - 2].block_id;
        if already_clean(mo, fid) && already_clean(mo, tid) {
            assert(block_map@ =~= mo);
        }
        assert(walked(m2, wbs, fid, tid));
        assert(mo == marked_over(m2, wbs, wbs.len(), fl, tl, mark_step.mark, add_mark));
    }
    return Ok(UpdatedState { block_map, selection: None, blocks_to_update, blocks_to_remove: Vec::new(), copy: None })
}

/// Splits the inline block of `deepest_layer` at its offset and puts the
/// later half just after the earlier one in `deepest_std_block`, writing the
/// three blocks back.
pub fn split_edge_inline_blocks(
    block_map: &mut BlockMap,
    new_ids: &mut NewIds,
    deepest_layer: &SubSelection,
    deepest_std_block: StandardBlock,
    blocks_to_update: &mut Vec<String>,
) -> (r: Result<(), StepError>)
    ensures
        extends(old(blocks_to_update)@, final(blocks_to_update)@),
        inline_block_of(old(block_map)@, deepest_layer.block_id@) is None ==> r is Err,
        ({
            let b = inline_block_of(old(block_map)@, deepest_layer.block_id@)->0;
            inline_block_of(old(block_map)@, deepest_layer.block_id@) is Some && deepest_layer.offset <= b.text.len() && old(new_ids).ids().len() > 0
                && std_block_of(old(block_map)@, b.parent) == Some(deepest_std_block@) && deepest_std_block@.has_content()
                && inline_index(old(block_map)@, b.parent, b.id) >= 0 ==> r is Ok
        }),
        r is Ok ==> ({
            let b = inline_block_of(old(block_map)@, deepest_layer.block_id@)->0;
            let ids = old(new_ids).ids();
            let second = b.with_text(b.text.skip(deepest_layer.offset as int)).with_id(ids.last()@);
            let i = inline_index(old(block_map)@, b.parent, b.id);
            &&& deepest_layer.offset <= b.text.len() && ids.len() > 0
            &&& final(new_ids).ids() == ids.drop_last()
            &&& 0 <= i < deepest_std_block@.inline_blocks().len()
            &&& final(block_map)@ == old(block_map)@.insert(b.id, BlockView::Inline(b.with_text(b.text.take(deepest_layer.offset as int))))
                .insert(second.id, BlockView::Inline(second))
                .insert(deepest_std_block@.id, BlockView::Standard(deepest_std_block@.with_inline_blocks(
                    deepest_std_block@.inline_blocks().insert(i + 1, second.id))))
        }),
{
    let inline_block = block_map.get_inline_block(&deepest_layer.block_id)?;
    proof {
        block_map.lemma_keys_are_ids();
    }
    let (first_half, second_half) = inline_block.split(deepest_layer.offset, new_ids)?;
    let content = deepest_std_block.content_block()?;
    let mut inline_blocks = copy_ids(&content.inline_blocks);
    let index = first_half.index(block_map)?;
    proof {
        crate::blocks::tree::lemma_inline_index(block_map@, first_half@.parent, first_half@.id);
    }
    if index >= inline_blocks.len() {
        return Err(step_error_msg("Inline block not found in its block"));
    }
    let ghost before = inline_blocks@;
    inline_blocks.insert(index + 1, second_half.id());
    proof {
        assert(ids_view(inline_blocks@) =~= ids_view(before).insert(index + 1, second_half@.id));
    }
    let deepest_std_block = deepest_std_block.update_block_content(ContentBlock { inline_blocks })?;
    block_map.update_block(Block::InlineBlock(first_half), blocks_to_update)?;
    block_map.update_block(Block::InlineBlock(second_half), blocks_to_update)?;
    block_map.update_block(Block::StandardBlock(deepest_std_block), blocks_to_update)?;
    return Ok(())
}

} // verus!
