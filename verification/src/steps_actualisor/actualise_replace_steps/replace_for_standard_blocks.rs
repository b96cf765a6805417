use vstd::prelude::*;

use crate::blocks::{Block, BlockMap, BlockMapView, BlockView, extends, ids_view, index_of_id, inline_block_of, root_block_of, splice_spec, std_block_of};
use crate::blocks::inline_blocks::InlineBlock;
use crate::blocks::inline_blocks::text_block::utf16_encode;
use crate::blocks::standard_blocks::{StandardBlock, StandardBlockView};
use crate::blocks::standard_blocks::content_block::ContentBlock;
use crate::blocks::tree::{child_index, reparent, with_parent};
use crate::step::{ReplaceSlice, ReplaceStep};
use crate::steps_actualisor::{UpdatedState, all_inline, clean_block_after_transform, distinct_apart, lemma_texts_append, lemma_texts_frame, lemma_texts_single, text_of, texts};
use crate::steps_actualisor::actualise_replace_steps::replace_for_inline_blocks::{
    caret_after, update_from_inline_block_text, update_to_inline_block_text,
};
use crate::steps_generator::{StepError, step_error_msg};
use crate::steps_generator::selection::{Layer, Selection, SubSelection, end_depth, end_inline, lemma_layers_len};
use crate::text::str_eq;

verus! {

/// Replaces what is selected across standard blocks with the text of the
/// step: the blocks after `from` up to `to` leave their parent, `from`
/// keeps its inline blocks up to the selection and takes those of `to`
/// after it, with the children of `to`.
pub fn replace_selected_across_standard_blocks(
    from_block: StandardBlock,
    block_map: BlockMap,
    replace_step: ReplaceStep,
    blocks_to_update: Vec<String>,
) -> (r: Result<UpdatedState, StepError>)
    requires
        child_index(block_map@, from_block@.parent, from_block@.id) >= 0 && std_block_of(block_map@, replace_step.to@[0].block_id) is Some
            && child_index(block_map@, from_block@.parent, replace_step.to@[0].block_id) >= 0
            ==> child_index(block_map@, from_block@.parent, from_block@.id) <= child_index(block_map@, from_block@.parent, replace_step.to@[0].block_id),
        replace_step.slice is String ==> replace_step.from@.last().offset + utf16_encode(replace_step.slice->String_0@).len() <= usize::MAX,
    ensures
        std_block_of(block_map@, replace_step.to@[0].block_id) is None ==> r is Err,
        std_block_of(block_map@, replace_step.to@[0].block_id) is Some
            && std_block_of(block_map@, replace_step.to@[0].block_id)->0.parent != from_block@.parent ==> r is Err
            && r->Err_0.0@ == "Expected from_block and to_block to have the same parent"@,
        r matches Ok(s) ==> extends(blocks_to_update@, s.blocks_to_update@) && s.blocks_to_remove@.len() == 0 && s.copy is None,
        r matches Ok(s) ==> s.selection is Some,
        std_block_of(block_map@, replace_step.to@[0].block_id) matches Some(t)
            && replace_step.slice is String && replace_step.from@.len() == 2 && replace_step.to@.len() == 2
            && replace_step.from@[0].block_id == from_block@.id
            && std_block_of(block_map@, from_block@.id) == Some(from_block@)
            && root_block_of(block_map@, from_block@.parent) is Some
            && t.parent == from_block@.parent
            && child_index(block_map@, from_block@.parent, from_block@.id) >= 0
            && child_index(block_map@, from_block@.parent, t.id) >= 0
            && (forall|i: int| 0 <= i < t.children.len() ==> std_block_of(block_map@, #[trigger] t.children[i]) is Some)
            && joinable(block_map@, replace_step.from@, replace_step.to@, from_block@, t)
            ==> r is Ok,
        std_block_of(block_map@, replace_step.to@[0].block_id) matches Some(t)
            && replace_step.slice is String && replace_step.from@.len() == 2 && replace_step.to@.len() == 2
            && replace_step.from@[0].block_id == from_block@.id
            && std_block_of(block_map@, from_block@.id) == Some(from_block@)
            && root_block_of(block_map@, from_block@.parent) is Some
            && t.parent == from_block@.parent
            && (forall|i: int| 0 <= i < t.children.len() ==> std_block_of(block_map@, #[trigger] t.children[i]) is Some)
            && joinable(block_map@, replace_step.from@, replace_step.to@, from_block@, t)
            && r is Ok ==> ({
            let m = block_map@;
            let t = std_block_of(m, replace_step.to@[0].block_id)->0;
            let s = r->Ok_0;
            let p = from_block@.parent;
            let fi = child_index(m, p, from_block@.id);
            let ti = child_index(m, p, t.id);
            let q = std_block_of(s.block_map@, from_block@.id);
            &&& s.block_map@.contains_key(p) && s.block_map@[p].children() == m[p].children().take(fi + 1) + m[p].children().skip(ti + 1)
            &&& q is Some && q->0.children == t.children
            &&& texts(s.block_map@, q->0.inline_blocks()) == joined_text(m, replace_step.from@, replace_step.to@, from_block@, t,
                replace_step.slice->String_0@)
            &&& forall|c: Seq<char>| #[trigger] t.children.contains(c) && c != from_block@.id && c != p
                ==> s.block_map@.contains_key(c) && s.block_map@[c] == with_parent(m[c], from_block@.id)
            &&& s.selection is Some && s.selection->0.anchor@ == caret_after(replace_step.from@, replace_step.slice->String_0@)
                && s.selection->0.head@ == s.selection->0.anchor@
        }),
{
    let ghost m = block_map@;
    let mut block_map = block_map;
    let mut blocks_to_update = blocks_to_update;
    proof {
        lemma_layers_len(replace_step.to);
    }
    let to_block = block_map.get_standard_block(&replace_step.to.block_id)?;
    if !str_eq(from_block.parent.as_str(), to_block.parent.as_str()) {
        return Err(step_error_msg("Expected from_block and to_block to have the same parent"))
    }
    proof {
        block_map.lemma_keys_are_ids();
    }
    remove_any_blocks_between_from_and_to_incl_to(&mut block_map, &from_block, &to_block, &mut blocks_to_update)?;
    let ghost m1 = block_map@;
    let ghost original_from = replace_step.from@;
    let ghost original_to = replace_step.to@;
    let ghost original_from_block = from_block@;
    let ghost t = to_block@;
    let ghost simple = replace_step.slice is String && original_from.len() == 2 && original_to.len() == 2
        && original_from[0].block_id == original_from_block.id
        && std_block_of(m, original_from_block.id) == Some(original_from_block)
        && root_block_of(m, original_from_block.parent) is Some
        && t.parent == original_from_block.parent
        && (forall|i: int| 0 <= i < t.children.len() ==> std_block_of(m, #[trigger] t.children[i]) is Some)
        && joinable(m, original_from, original_to, original_from_block, t);
    proof {
        if simple {
            let p = original_from_block.parent;
            assert(m[p] is Root);
            assert(m1.dom() == m.dom());
            assert(m1[original_from_block.id] == m[original_from_block.id]);
            assert(m1[t.id] == m[t.id]);
            assert(original_from.subrange(0, 2) == original_from);
            assert(original_to.subrange(0, 2) == original_to);
            assert(root_block_of(m1, p) is Some);
            assert forall|i: int| 0 <= i < t.children.len() implies std_block_of(m1, #[trigger] t.children[i]) is Some by {
                assert(std_block_of(m, t.children[i]) is Some);
                assert(m1[t.children[i]] == m[t.children[i]]);
            }
        }
    }
    let (replace_step, from_block, to_block) = get_deepest_std_blocks_in_selection(replace_step, &block_map)?;
    proof {
        lemma_layers_len(replace_step.from);
        assert(replace_step.from@.last() == original_from.last());
    }
    if !to_block.parent_is_root(&block_map) {
        move_to_blocks_younger_siblings_after_from_block(&from_block, &to_block, &mut block_map, &mut blocks_to_update)?;
    }
    proof {
        lemma_layers_len(replace_step.from);
    }
    match &replace_step.from.subselection {
        Some(_) => {
            let mut from_block = from_block;
            from_block.children = crate::blocks::copy_ids(&to_block.children);
            from_block.set_new_parent_of_children(&mut block_map, &mut blocks_to_update)?;
            let ghost m2 = block_map@;
            proof {
                if simple {
                    let jn = joined_ids(original_from, original_to, original_from_block, t);
                    assert forall|i: int| 0 <= i < jn.len() implies inline_block_of(m2, #[trigger] jn[i]) is Some
                        && inline_block_of(m2, jn[i])->0.text == inline_block_of(m, jn[i])->0.text by {
                        assert(inline_block_of(m, jn[i]) is Some);
                        assert(m1[jn[i]] == m[jn[i]]);
                    }
                    assert(inline_block_of(m2, original_from[1].block_id)->0.text == inline_block_of(m, original_from[1].block_id)->0.text);
                    assert(inline_block_of(m2, original_to[1].block_id)->0.text == inline_block_of(m, original_to[1].block_id)->0.text);
                    assert(joinable(m2, replace_step.from@, replace_step.to@, from_block@, to_block@));
                }
            }
            let ghost fb2 = from_block@;
            let block_map = replace_inline_blocks_text(&replace_step, from_block, to_block, block_map, &mut blocks_to_update)?;
            proof {
                if simple {
                    let s3 = block_map@;
                    let p = original_from_block.parent;
                    let jn = joined_ids(original_from, original_to, original_from_block, t);
                    let fi = index_of_id(original_from_block.inline_blocks(), original_from[1].block_id);
                    let ti = index_of_id(t.inline_blocks(), original_to[1].block_id);
                    let a0 = original_from_block.inline_blocks().take(fi);
                    let b0 = t.inline_blocks().skip(ti + 1);
                    assert(forall|k: int| 0 <= k < jn.len() ==> inline_block_of(m2, #[trigger] jn[k]) is Some);
                    assert(!jn.contains(p)) by {
                        if jn.contains(p) {
                            let k = choose|k: int| 0 <= k < jn.len() && jn[k] == p;
                            assert(inline_block_of(m2, jn[k]) is Some);
                        }
                    }
                    assert(replace_step.from@ == original_from && replace_step.to@ == original_to);
                    assert(fb2.inline_blocks() == original_from_block.inline_blocks());
                    assert(joined_ids(replace_step.from@, replace_step.to@, fb2, t) == jn);
                    assert(m2.contains_key(p));
                    assert(m[p] is Root);
                    assert(p != original_from_block.id);
                    assert(s3[p] == m2[p]);
                    assert forall|c: Seq<char>| #[trigger] t.children.contains(c) && c != original_from_block.id && c != p
                        implies s3.contains_key(c) && s3[c] == with_parent(m[c], original_from_block.id) by {
                        let k = choose|k: int| 0 <= k < t.children.len() && t.children[k] == c;
                        assert(std_block_of(m, t.children[k]) is Some);
                        assert(m1[c] == m[c]);
                        assert(m2.contains_key(c));
                        assert(!jn.contains(c)) by {
                            if jn.contains(c) {
                                let i = choose|i: int| 0 <= i < jn.len() && jn[i] == c;
                                assert(inline_block_of(m2, jn[i]) is Some);
                            }
                        }
                    }
                    crate::blocks::lemma_index_of_id(original_from_block.inline_blocks(), original_from[1].block_id);
                    crate::blocks::lemma_index_of_id(t.inline_blocks(), original_to[1].block_id);
                    assert(jn.len() == fi + 1 + t.inline_blocks().len() - ti);
                    assert forall|k: int| 0 <= k < a0.len() implies text_of(m2, #[trigger] a0[k]) == text_of(m, a0[k]) by {
                        assert(jn[k] == a0[k]);
                        assert(inline_block_of(m, jn[k]) is Some);
                        assert(m1[jn[k]] == m[jn[k]]);
                    }
                    assert forall|k: int| 0 <= k < b0.len() implies text_of(m2, #[trigger] b0[k]) == text_of(m, b0[k]) by {
                        assert(jn[fi + 2 + k] == b0[k]);
                        assert(inline_block_of(m, jn[fi + 2 + k]) is Some);
                        assert(m1[jn[fi + 2 + k]] == m[jn[fi + 2 + k]]);
                    }
                    lemma_texts_frame(m2, m, a0);
                    lemma_texts_frame(m2, m, b0);
                    assert(joined_text(m2, original_from, original_to, fb2, t, replace_step.slice->String_0@)
                        == joined_text(m, original_from, original_to, original_from_block, t, replace_step.slice->String_0@));
                }
            }
            return Ok(UpdatedState {
                block_map,
                selection: Some(Selection::update_selection_from(replace_step)),
                blocks_to_update,
                blocks_to_remove: Vec::new(),
                copy: None,
            })
        },
        None => return replace_across_standard_blocks_no_subselection(from_block, block_map, replace_step, blocks_to_update),
    }
}

/// The inline blocks of `b` with `added` in front of them where the caret
/// is at offset 0, and behind them otherwise.
spec fn joined_inline(b: StandardBlockView, added: Seq<Seq<char>>, offset: usize) -> Seq<Seq<char>> {
    if offset == 0 {
        added + b.inline_blocks()
    } else {
        b.inline_blocks() + added
    }
}

/// Puts the inline blocks of a block slice into the standard block of the
/// selection, at its start where the caret is at offset 0 and else at its
/// end; the caret goes to the end of the block as it was. Only a caret (the
/// same block and offset at both ends) and a block slice are handled.
fn replace_across_standard_blocks_no_subselection(
    from_block: StandardBlock,
    block_map: BlockMap,
    replace_step: ReplaceStep,
    blocks_to_update: Vec<String>,
) -> (r: Result<UpdatedState, StepError>)
    ensures
        replace_step.from@[0].block_id != replace_step.to@[0].block_id || replace_step.from.offset != replace_step.to.offset
            || replace_step.slice is String ==> r is Err,
        r matches Ok(s) ==> extends(blocks_to_update@, s.blocks_to_update@) && s.blocks_to_remove@.len() == 0 && s.copy is None,
        r matches Ok(s) ==> s.selection matches Some(sel) && sel.anchor@ == sel.head@ && sel.anchor@ == seq![
            Layer {
                block_id: end_inline(block_map@, from_block@.id, end_depth())->0.id,
                offset: end_inline(block_map@, from_block@.id, end_depth())->0.text.len() as usize,
            },
        ],
        replace_step.from@[0].block_id == replace_step.to@[0].block_id && replace_step.from.offset == replace_step.to.offset
            && replace_step.slice is Blocks && from_block@.has_content()
            && end_inline(block_map@, from_block@.id, end_depth()) is Some
            && distinct_apart(joined_inline(from_block@, ids_view(replace_step.slice->Blocks_0@), replace_step.from.offset), from_block@.id)
            && all_inline(block_map@, joined_inline(from_block@, ids_view(replace_step.slice->Blocks_0@), replace_step.from.offset))
            ==> r is Ok,
{
    proof {
        lemma_layers_len(replace_step.from);
        lemma_layers_len(replace_step.to);
    }
    if !str_eq(replace_step.from.block_id.as_str(), replace_step.to.block_id.as_str()) {
        return Err(step_error_msg("A selection across standard blocks needs a layer inside them"));
    }
    if replace_step.from.offset != replace_step.to.offset {
        return Err(step_error_msg("A selection inside one standard block needs a layer inside it"));
    }
    let blocks_to_add = match replace_step.slice {
        ReplaceSlice::Blocks(blocks) => blocks,
        _ => return Err(step_error_msg("Replace slice should be blocks")),
    };
    let updated_subselection = SubSelection::at_end_of_block(&from_block._id, &block_map)?;
    let mut blocks_to_update = blocks_to_update;
    let mut inline_blocks = crate::blocks::copy_ids(&from_block.content_block()?.inline_blocks);
    let mut added = blocks_to_add;
    let ghost a0 = ids_view(added@);
    let ghost i0 = ids_view(inline_blocks@);
    if replace_step.from.offset == 0 {
        let ghost av = added@;
        let ghost iv = inline_blocks@;
        added.append(&mut inline_blocks);
        proof {
            assert(ids_view(av + iv) =~= ids_view(av) + ids_view(iv));
        }
        inline_blocks = added;
    } else {
        let ghost av = added@;
        let ghost iv = inline_blocks@;
        inline_blocks.append(&mut added);
        proof {
            assert(ids_view(iv + av) =~= ids_view(iv) + ids_view(av));
        }
    }
    assert(ids_view(inline_blocks@) == joined_inline(from_block@, a0, replace_step.from.offset));
    let updated_standard_block = from_block.update_block_content(ContentBlock { inline_blocks })?;
    let updated_standard_block_id = updated_standard_block.id();
    let block_map = clean_block_after_transform(updated_standard_block, block_map, &mut blocks_to_update)?;
    let updated_standard_block = block_map.get_standard_block(&updated_standard_block_id)?;
    let block_map = updated_standard_block.set_as_parent_for_all_inline_blocks(block_map, &mut blocks_to_update)?;
    let anchor = updated_subselection.copy();
    Ok(UpdatedState {
        block_map,
        selection: Some(Selection { anchor, head: updated_subselection }),
        blocks_to_update,
        blocks_to_remove: Vec::new(),
        copy: None,
    })
}

/// Takes the children of the parent from just after `from_block` up to and
/// including `to_block` out of it.
fn remove_any_blocks_between_from_and_to_incl_to(
    block_map: &mut BlockMap,
    from_block: &StandardBlock,
    to_block: &StandardBlock,
    blocks_to_update: &mut Vec<String>,
) -> (r: Result<(), StepError>)
    requires
        from_block@.parent == to_block@.parent,
        child_index(old(block_map)@, from_block@.parent, from_block@.id) >= 0 && child_index(old(block_map)@, from_block@.parent, to_block@.id) >= 0
            ==> child_index(old(block_map)@, from_block@.parent, from_block@.id) <= child_index(old(block_map)@, from_block@.parent, to_block@.id),
    ensures
        extends(old(blocks_to_update)@, final(blocks_to_update)@),
        r is Ok <==> child_index(old(block_map)@, from_block@.parent, from_block@.id) >= 0 && child_index(old(block_map)@, from_block@.parent, to_block@.id) >= 0,
        r is Ok ==> ({
            let m = old(block_map)@;
            let p = m[from_block@.parent];
            let fi = child_index(m, from_block@.parent, from_block@.id);
            let ti = child_index(m, from_block@.parent, to_block@.id);
            final(block_map)@ == m.insert(p.id(), p.with_children(p.children().take(fi + 1) + p.children().skip(ti + 1)))
        }),
{
    let ghost m = block_map@;
    let mut parent_block = block_map.get_block(&from_block.parent)?;
    let fi = from_block.index(block_map)?;
    let ti = to_block.index(block_map)?;
    proof {
        crate::blocks::tree::lemma_child_index(m, from_block@.parent, from_block@.id);
        crate::blocks::tree::lemma_child_index(m, from_block@.parent, to_block@.id);
        let p = m[from_block@.parent];
        assert(splice_spec(p.children(), fi + 1, ti + 1, ids_view(Seq::<String>::empty())) =~= p.children().take(fi + 1) + p.children().skip(ti + 1));
    }
    let n = parent_block.children()?.len();
    assert(ti < n);
    parent_block.splice_children(fi + 1, ti + 1, Vec::new())?;
    block_map.update_block(parent_block, blocks_to_update)?;
    return Ok(())
}

/// The step with its ends cut down to their two deepest layers, and the
/// standard blocks at the top of those.
fn get_deepest_std_blocks_in_selection(replace_step: ReplaceStep, block_map: &BlockMap) -> (r: Result<
    (ReplaceStep, StandardBlock, StandardBlock),
    StepError,
>)
    ensures
        r is Ok <==> replace_step.from@.len() >= 2 && replace_step.to@.len() >= 2
            && std_block_of(block_map@, replace_step.from@[replace_step.from@.len() - 2].block_id) is Some
            && std_block_of(block_map@, replace_step.to@[replace_step.to@.len() - 2].block_id) is Some,
        r matches Ok((step, f, t)) ==> step.from@ == replace_step.from@.subrange(replace_step.from@.len() - 2, replace_step.from@.len() as int)
            && step.to@ == replace_step.to@.subrange(replace_step.to@.len() - 2, replace_step.to@.len() as int)
            && step.slice == replace_step.slice
            && std_block_of(block_map@, step.from@[0].block_id) == Some(f@)
            && std_block_of(block_map@, step.to@[0].block_id) == Some(t@),
{
    proof {
        lemma_layers_len(replace_step.from);
        lemma_layers_len(replace_step.to);
    }
    let ReplaceStep { block_id, from, to, slice } = replace_step;
    let from = from.get_two_deepest_layers()?;
    let to = to.get_two_deepest_layers()?;
    proof {
        lemma_layers_len(from);
        lemma_layers_len(to);
    }
    let from_block = block_map.get_standard_block(&from.block_id)?;
    let to_block = block_map.get_standard_block(&to.block_id)?;
    return Ok((ReplaceStep { block_id, from, to, slice }, from_block, to_block))
}

/// The children of the parent of `from` once the siblings that follow `to`
/// are put just after `from`.
spec fn moved_children(m: BlockMapView, from: StandardBlockView, to: StandardBlockView) -> Seq<Seq<char>> {
    let fi = child_index(m, from.parent, from.id);
    splice_spec(
        m[from.parent].children(),
        fi + 1,
        fi + 1,
        m[to.parent].children().skip(child_index(m, to.parent, to.id) + 1),
    )
}

/// Moves the siblings that follow `to_block` to just after `from_block`,
/// under the parent of `from_block`.
fn move_to_blocks_younger_siblings_after_from_block(
    from_block: &StandardBlock,
    to_block: &StandardBlock,
    block_map: &mut BlockMap,
    blocks_to_update: &mut Vec<String>,
) -> (r: Result<(), StepError>)
    ensures
        extends(old(blocks_to_update)@, final(blocks_to_update)@),
        r is Ok <==> child_index(old(block_map)@, to_block@.parent, to_block@.id) >= 0
            && child_index(old(block_map)@, from_block@.parent, from_block@.id) >= 0
            && forall|i: int| 0 <= i < moved_children(old(block_map)@, from_block@, to_block@).len()
                ==> std_block_of(old(block_map)@, #[trigger] moved_children(old(block_map)@, from_block@, to_block@)[i]) is Some,
        r is Ok ==> ({
            let m = old(block_map)@;
            let p = m[from_block@.parent].with_children(moved_children(m, from_block@, to_block@));
            final(block_map)@ == reparent(m, p.children(), p.id()).insert(p.id(), p)
        }),
{
    let siblings_after_to_block = to_block.get_siblings_after(block_map)?;
    let mut from_parent = from_block.get_parent(block_map)?;
    let fi = from_block.index(block_map)?;
    proof {
        crate::blocks::tree::lemma_child_index(block_map@, from_block@.parent, from_block@.id);
    }
    let n = from_parent.children()?.len();
    if fi >= n {
        return Err(step_error_msg("Block not found under its parent"));
    }
    from_parent.splice_children(fi + 1, fi + 1, siblings_after_to_block)?;
    from_parent.set_new_parent_of_children(block_map, blocks_to_update)?;
    block_map.update_block(from_parent, blocks_to_update)?;
    return Ok(())
}

/// The inline blocks that `from` keeps up to the inner layer of `f`, then
/// those of `to` from the inner layer of `t` on.
pub open spec fn joined_ids(f: Seq<Layer>, t: Seq<Layer>, from: StandardBlockView, to: StandardBlockView) -> Seq<Seq<char>> {
    from.inline_blocks().take(index_of_id(from.inline_blocks(), f[1].block_id) + 1)
        + to.inline_blocks().skip(index_of_id(to.inline_blocks(), t[1].block_id))
}

/// The two ends `f` and `t` of a selection reach one layer into `from` and
/// `to`, at two distinct inline blocks of the map and offsets within their
/// texts, and the joined inline blocks are inline blocks of the map, each
/// once.
pub open spec fn joinable(m: BlockMapView, f: Seq<Layer>, t: Seq<Layer>, from: StandardBlockView, to: StandardBlockView) -> bool {
    &&& f.len() > 1 && t.len() > 1
    &&& from.has_content() && to.has_content()
    &&& index_of_id(from.inline_blocks(), f[1].block_id) >= 0
    &&& index_of_id(to.inline_blocks(), t[1].block_id) >= 0
    &&& f[1].block_id != t[1].block_id
    &&& all_inline(m, joined_ids(f, t, from, to))
    &&& distinct_apart(joined_ids(f, t, from, to), from.id)
    &&& f[1].offset <= inline_block_of(m, f[1].block_id)->0.text.len()
    &&& t[1].offset <= inline_block_of(m, t[1].block_id)->0.text.len()
}

/// The text of `from` up to the caret `f`, then `w`, then the text of `to`
/// after the caret `t`.
pub open spec fn joined_text(m: BlockMapView, f: Seq<Layer>, t: Seq<Layer>, from: StandardBlockView, to: StandardBlockView, w: Seq<char>) -> Seq<u16> {
    let fi = index_of_id(from.inline_blocks(), f[1].block_id);
    let ti = index_of_id(to.inline_blocks(), t[1].block_id);
    texts(m, from.inline_blocks().take(fi)) + text_of(m, f[1].block_id).take(f[1].offset as int) + utf16_encode(w)
        + text_of(m, t[1].block_id).skip(t[1].offset as int) + texts(m, to.inline_blocks().skip(ti + 1))
}

/// The texts of four runs of ids, the middle two single, where the outer
/// runs read as in another map.
proof fn lemma_joined_texts(m: BlockMapView, m3: BlockMapView, a0: Seq<Seq<char>>, x: Seq<char>, y: Seq<char>, b0: Seq<Seq<char>>)
    requires
        forall|k: int| 0 <= k < a0.len() ==> text_of(m3, #[trigger] a0[k]) == text_of(m, a0[k]),
        forall|k: int| 0 <= k < b0.len() ==> text_of(m3, #[trigger] b0[k]) == text_of(m, b0[k]),
    ensures
        texts(m3, a0 + seq![x] + seq![y] + b0) == texts(m, a0) + text_of(m3, x) + text_of(m3, y) + texts(m, b0),
{
    lemma_texts_frame(m3, m, a0);
    lemma_texts_frame(m3, m, b0);
    lemma_texts_append(m3, a0 + seq![x] + seq![y], b0);
    lemma_texts_append(m3, a0 + seq![x], seq![y]);
    lemma_texts_append(m3, a0, seq![x]);
    lemma_texts_single(m3, x);
    lemma_texts_single(m3, y);
}

/// Joins the text of the two ends: `from_block` keeps its inline blocks up
/// to the inner `from` one and takes those of `to_block` from the inner `to`
/// one; the ends are trimmed and the joined block cleaned.
fn replace_inline_blocks_text(
    replace_step: &ReplaceStep,
    from_block: StandardBlock,
    to_block: StandardBlock,
    block_map: BlockMap,
    blocks_to_update: &mut Vec<String>,
) -> (r: Result<BlockMap, StepError>)
    ensures
        extends(old(blocks_to_update)@, final(blocks_to_update)@),
        r is Ok ==> replace_step.slice is String,
        replace_step.slice is String && joinable(block_map@, replace_step.from@, replace_step.to@, from_block@, to_block@)
            ==> r is Ok,
        replace_step.slice is String && joinable(block_map@, replace_step.from@, replace_step.to@, from_block@, to_block@)
            && r is Ok ==> ({
            let s = r->Ok_0@;
            let q = std_block_of(s, from_block@.id);
            let jn = joined_ids(replace_step.from@, replace_step.to@, from_block@, to_block@);
            &&& q is Some && q->0 == from_block@.with_inline_blocks(q->0.inline_blocks())
            &&& texts(s, q->0.inline_blocks()) == joined_text(
                block_map@,
                replace_step.from@,
                replace_step.to@,
                from_block@,
                to_block@,
                replace_step.slice->String_0@,
            )
            &&& forall|k: Seq<char>| #[trigger] block_map@.contains_key(k) && k != from_block@.id && !jn.contains(k)
                ==> s.contains_key(k) && s[k] == block_map@[k]
        }),
{
    let ghost m0 = block_map@;
    let inner_from = replace_step.from.get_child_subselection()?;
    let inner_to = replace_step.to.get_child_subselection()?;
    proof {
        lemma_layers_len(*inner_from);
        lemma_layers_len(*inner_to);
        assert(inner_from.block_id@ == inner_from@[0].block_id);
        assert(inner_to.block_id@ == inner_to@[0].block_id);
    }
    let inner_from_index = from_block.index_of(inner_from.block_id.as_str())?;
    let inner_to_index = to_block.index_of(inner_to.block_id.as_str())?;
    proof {
        crate::blocks::lemma_index_of_id(from_block@.inline_blocks(), inner_from.block_id@);
        crate::blocks::lemma_index_of_id(to_block@.inline_blocks(), inner_to.block_id@);
    }
    let ghost f = replace_step.from@;
    let ghost t = replace_step.to@;
    let ghost j = joined_ids(f, t, from_block@, to_block@);
    let ghost fid = from_block@.id;
    proof {
        if joinable(m0, f, t, from_block@, to_block@) {
            assert(j[inner_from_index as int] == f[1].block_id);
            assert(j[inner_from_index + 1] == t[1].block_id);
        }
    }
    let from_block_with_updated_text = merge_blocks_inline_blocks(from_block, to_block, inner_from_index, inner_to_index)?;
    let block_map = from_block_with_updated_text.set_as_parent_for_all_inline_blocks(block_map, blocks_to_update)?;
    let ghost m1 = block_map@;
    proof {
        block_map.lemma_keys_are_ids();
        if joinable(m0, f, t, from_block@, to_block@) {
            assert(j.contains(f[1].block_id));
            assert(j.contains(t[1].block_id));
            assert(inline_block_of(m1, f[1].block_id)->0.text == inline_block_of(m0, f[1].block_id)->0.text);
            assert(inline_block_of(m1, t[1].block_id)->0.text == inline_block_of(m0, t[1].block_id)->0.text);
        }
    }
    let block_map = update_from_subselection_inline_block_text(block_map, replace_step, blocks_to_update)?;
    let ghost m2 = block_map@;
    proof {
        if joinable(m0, f, t, from_block@, to_block@) {
            assert(m2[t[1].block_id] == m1[t[1].block_id]);
            assert(inline_block_of(m2, t[1].block_id) == inline_block_of(m1, t[1].block_id));
        }
    }
    let block_map = update_to_subselection_inline_block_text(block_map, replace_step, &from_block_with_updated_text._id, blocks_to_update)?;
    let ghost m3 = block_map@;
    proof {
        if joinable(m0, f, t, from_block@, to_block@) {
            assert forall|i: int| 0 <= i < j.len() implies inline_block_of(m3, #[trigger] j[i]) is Some by {
                assert(inline_block_of(m0, j[i]) is Some);
                assert(m1.contains_key(j[i]) && m1[j[i]] is Inline);
            }
            assert(all_inline(m3, from_block_with_updated_text@.inline_blocks()));
        }
    }
    proof {
        if joinable(m0, f, t, from_block@, to_block@) && replace_step.slice is String {
            let fi = inner_from_index as int;
            let ti = inner_to_index as int;
            let a0 = from_block@.inline_blocks().take(fi);
            let b0 = to_block@.inline_blocks().skip(ti + 1);
            let x = f[1].block_id;
            let y = t[1].block_id;
            assert(from_block@.inline_blocks().take(fi + 1) =~= a0 + seq![x]);
            assert(to_block@.inline_blocks().skip(ti) =~= seq![y] + b0);
            assert(j =~= a0 + seq![x] + seq![y] + b0);
            assert forall|k: int| 0 <= k < a0.len() implies text_of(m3, #[trigger] a0[k]) == text_of(m0, a0[k]) by {
                assert(j[k] == a0[k]);
                assert(a0[k] != x && a0[k] != y);
                assert(inline_block_of(m0, j[k]) is Some);
            }
            assert forall|k: int| 0 <= k < b0.len() implies text_of(m3, #[trigger] b0[k]) == text_of(m0, b0[k]) by {
                assert(j[a0.len() + 2 + k] == b0[k]);
                assert(b0[k] != x && b0[k] != y);
                assert(inline_block_of(m0, j[a0.len() + 2 + k]) is Some);
            }
            lemma_joined_texts(m0, m3, a0, x, y, b0);
            assert(text_of(m3, x) == text_of(m0, x).take(f[1].offset as int) + utf16_encode(replace_step.slice->String_0@));
            assert(text_of(m3, y) == text_of(m0, y).skip(t[1].offset as int));
            assert forall|k: Seq<char>| #[trigger] m0.contains_key(k) && k != fid && !j.contains(k) implies m3.contains_key(k)
                && m3[k] == m0[k] by {
                assert(k != x && k != y) by {
                    assert(j[fi] == x);
                    assert(j[fi + 1] == y);
                }
            }
        }
    }
    let block_map = clean_block_after_transform(from_block_with_updated_text, block_map, blocks_to_update)?;
    return Ok(block_map)
}

fn update_from_subselection_inline_block_text(
    block_map: BlockMap,
    replace_step: &ReplaceStep,
    blocks_to_update: &mut Vec<String>,
) -> (r: Result<BlockMap, StepError>)
    ensures
        extends(old(blocks_to_update)@, final(blocks_to_update)@),
        r is Ok <==> replace_step.from@.len() > 1 && replace_step.slice is String
            && inline_block_of(block_map@, replace_step.from@[1].block_id) is Some
            && replace_step.from@[1].offset <= inline_block_of(block_map@, replace_step.from@[1].block_id)->0.text.len(),
        r matches Ok(m) ==> ({
            let b = inline_block_of(block_map@, replace_step.from@[1].block_id)->0;
            m@ == block_map@.insert(b.id, BlockView::Inline(b.with_text(
                b.text.take(replace_step.from@[1].offset as int) + utf16_encode(replace_step.slice->String_0@))))
        }),
{
    let (from_subselection_block, offset) = get_subselection_inline_block(&block_map, &replace_step.from)?;
    let replace_with = match &replace_step.slice {
        ReplaceSlice::String(string) => string.clone(),
        _ => return Err(step_error_msg("Replace slice should be string")),
    };
    if offset > from_subselection_block.text()?.len() {
        return Err(step_error_msg("Offset is larger than text size"));
    }
    return update_from_inline_block_text(from_subselection_block, block_map, offset, replace_with, blocks_to_update)
}

fn update_to_subselection_inline_block_text(
    block_map: BlockMap,
    replace_step: &ReplaceStep,
    new_parent_id: &String,
    blocks_to_update: &mut Vec<String>,
) -> (r: Result<BlockMap, StepError>)
    ensures
        extends(old(blocks_to_update)@, final(blocks_to_update)@),
        r is Ok <==> replace_step.to@.len() > 1 && inline_block_of(block_map@, replace_step.to@[1].block_id) is Some
            && replace_step.to@[1].offset <= inline_block_of(block_map@, replace_step.to@[1].block_id)->0.text.len(),
        r matches Ok(m) ==> ({
            let b = inline_block_of(block_map@, replace_step.to@[1].block_id)->0;
            m@ == block_map@.insert(b.id, BlockView::Inline(b.with_parent(new_parent_id@).with_text(
                b.text.skip(replace_step.to@[1].offset as int))))
        }),
{
    let (to_subselection_block, offset) = get_subselection_inline_block(&block_map, &replace_step.to)?;
    let mut to_subselection_block = to_subselection_block;
    to_subselection_block.parent = new_parent_id.clone();
    if offset > to_subselection_block.text()?.len() {
        return Err(step_error_msg("Offset is larger than text size"));
    }
    return update_to_inline_block_text(to_subselection_block, block_map, offset, blocks_to_update)
}

/// The inline block one layer down in `subselection`, and its offset.
fn get_subselection_inline_block(block_map: &BlockMap, subselection: &SubSelection) -> (r: Result<(InlineBlock, usize), StepError>)
    ensures
        r is Ok <==> subselection@.len() > 1 && inline_block_of(block_map@, subselection@[1].block_id) is Some,
        r matches Ok((b, o)) ==> inline_block_of(block_map@, subselection@[1].block_id) == Some(b@) && o == subselection@[1].offset,
{
    let inner_subselection = subselection.get_child_subselection()?;
    proof {
        lemma_layers_len(*inner_subselection);
    }
    return Ok((block_map.get_inline_block(&inner_subselection.block_id)?, inner_subselection.offset))
}

/// `from_block` with its inline blocks up to `inner_from_index`, then those
/// of `to_block` from `inner_to_index` on.
fn merge_blocks_inline_blocks(
    from_block: StandardBlock,
    to_block: StandardBlock,
    inner_from_index: usize,
    inner_to_index: usize,
) -> (r: Result<StandardBlock, StepError>)
    requires
        from_block@.has_content() ==> inner_from_index < from_block@.inline_blocks().len(),
        to_block@.has_content() ==> inner_to_index <= to_block@.inline_blocks().len(),
    ensures
        r is Ok <==> from_block@.has_content() && to_block@.has_content(),
        r matches Ok(b) ==> b@ == from_block@.with_inline_blocks(
            from_block@.inline_blocks().take(inner_from_index + 1) + to_block@.inline_blocks().skip(inner_to_index as int),
        ),
{
    let from_content = from_block.content_block()?;
    let mut updated_inline_blocks = crate::blocks::copy_ids(&from_content.inline_blocks);
    let n = updated_inline_blocks.len();
    assert(inner_from_index < n);
    updated_inline_blocks.truncate(inner_from_index + 1);
    let to_content = to_block.content_block()?;
    let mut tail = crate::blocks::copy_ids(&to_content.inline_blocks).split_off(inner_to_index);
    let ghost head = updated_inline_blocks@;
    let ghost t = tail@;
    updated_inline_blocks.append(&mut tail);
    proof {
        assert(ids_view(updated_inline_blocks@) =~= from_block@.inline_blocks().take(inner_from_index + 1) + to_block@.inline_blocks().skip(inner_to_index as int));
    }
    return from_block.update_block_content(ContentBlock { inline_blocks: updated_inline_blocks });
}

} // verus!
