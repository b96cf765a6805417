use vstd::prelude::*;

use crate::blocks::{Block, BlockMap, BlockMapView, BlockView, copy_ids, extends, ids_view, inline_block_of, std_block_of};
use crate::blocks::inline_blocks::{InlineBlock, InlineBlockView};
use crate::blocks::tree::inline_index;
use crate::blocks::standard_blocks::content_block::ContentBlock;
use crate::new_ids::NewIds;
use crate::step::MarkStep;
use crate::steps_actualisor::{UpdatedState, all_inline, clean_block_after_transform, distinct_apart, m2_unchanged, no_mergeable, lemma_texts_append, lemma_texts_frame, lemma_texts_single, text_of, texts};
use crate::steps_generator::{StepError, step_error_msg};
use crate::steps_generator::selection::{Layer, Selection, SubSelection, lemma_layers_len, raw_fits, raw_position, text_len};
use crate::text::str_eq;

use self::actualise_across_std_blocks::actualise_mark_step_on_standard_blocks;

pub mod actualise_across_std_blocks;

verus! {

/// The mark step lies within one inline block of a standard block `p`
/// whose inline blocks are distinct inline blocks of `m`, and the two fresh
/// ids that it takes (the last two of `ids`) are new to `m`, to each other
/// and to `p`.
pub open spec fn marks_within_block(m: BlockMapView, mark_step: MarkStep, ids: Seq<String>) -> bool {
    let f = inline_block_of(m, mark_step.from@[0].block_id)->0;
    let p = std_block_of(m, f.parent)->0;
    &&& inline_block_of(m, mark_step.from@[0].block_id) is Some
    &&& mark_step.to@[0].block_id == mark_step.from@[0].block_id
    &&& std_block_of(m, f.parent) is Some
    &&& p.has_content()
    &&& distinct_apart(p.inline_blocks(), p.id)
    &&& all_inline(m, p.inline_blocks())
    &&& ids.len() >= 2
    &&& !m.contains_key(ids[ids.len() - 1]@)
    &&& !m.contains_key(ids[ids.len() - 2]@)
    &&& ids[ids.len() - 1]@ != ids[ids.len() - 2]@
    &&& ids[ids.len() - 1]@ != p.id
    &&& ids[ids.len() - 2]@ != p.id
}

/// The standard block of a mark step within one inline block `f`, once `f`
/// is split in three: the text before the selection (keeping the id of
/// `f`), the selected text under the last fresh id, and the text after it
/// under the one before that.
pub open spec fn marked_block(m: BlockMapView, mark_step: MarkStep, ids: Seq<String>) -> crate::blocks::standard_blocks::StandardBlockView {
    let f = inline_block_of(m, mark_step.from@[0].block_id)->0;
    let p = std_block_of(m, f.parent)->0;
    let i = crate::blocks::index_of_id(p.inline_blocks(), f.id);
    p.with_inline_blocks(crate::blocks::splice_spec(p.inline_blocks(), i, i + 1, seq![f.id, ids[ids.len() - 1]@, ids[ids.len() - 2]@]))
}

/// The document after a mark step within one inline block `f`, before it
/// is cleaned: `f` keeps the text before the selection; a new block holds
/// the selected text with the marks of `f` after the mark is added or
/// removed; another new block holds the text after the selection with the
/// marks of `f`; the standard block lists the three in place of `f`.
pub open spec fn marked_map(m: BlockMapView, mark_step: MarkStep, add: bool, ids: Seq<String>) -> BlockMapView {
    let f = inline_block_of(m, mark_step.from@[0].block_id)->0;
    let t = f.text;
    let a = mark_step.from.offset as int;
    let b = mark_step.to.offset as int;
    let bv = f.with_text(t.take(a));
    let mv = f.with_id(ids[ids.len() - 1]@).with_text(t.subrange(a, b)).with_marks(f.marks_after(mark_step.mark, add));
    let av = f.with_id(ids[ids.len() - 2]@).with_text(t.skip(b));
    let up = marked_block(m, mark_step, ids);
    m.insert(up.id, BlockView::Standard(up)).insert(bv.id, BlockView::Inline(bv)).insert(mv.id, BlockView::Inline(mv)).insert(
        av.id,
        BlockView::Inline(av),
    )
}

/// The text of the standard block that holds the inline block `from_id`:
/// the texts of its inline blocks, one after the other.
pub open spec fn text_of_parent(m: BlockMapView, m2: BlockMapView, from_id: Seq<char>) -> Seq<u16> {
    let p = std_block_of(m, inline_block_of(m, from_id)->0.parent)->0;
    texts(m2, std_block_of(m2, p.id)->0.inline_blocks())
}

/// The standard block that holds the deepest layer of `layers`, in `m`.
pub open spec fn raw_block(m: BlockMapView, layers: Seq<Layer>) -> Seq<char> {
    std_block_of(m, inline_block_of(m, layers.last().block_id)->0.parent)->0.id
}

/// How many text units into its standard block the deepest layer of
/// `layers` lies, in `m`.
pub open spec fn raw_offset(m: BlockMapView, layers: Seq<Layer>) -> int {
    let d = layers.last();
    let b = inline_block_of(m, d.block_id)->0;
    text_len(m, std_block_of(m, b.parent)->0.inline_blocks().take(inline_index(m, b.parent, b.id))) + d.offset
}

/// The caret `s` lies, in `m2`, as many text units into the block
/// `raw_block(m, layers)` as the deepest layer of `layers` did in `m`.
pub open spec fn found_again(m: BlockMapView, m2: BlockMapView, layers: Seq<Layer>, s: Seq<Layer>) -> bool {
    exists|i: int| #[trigger] raw_position(
        m2,
        std_block_of(m2, raw_block(m, layers))->0.inline_blocks(),
        raw_offset(m, layers) as usize,
        s,
        i,
    )
}

/// A position in the text of a block is found for one offset only: where
/// the inline blocks are distinct, two offsets that give the same caret are
/// the same offset. So the two ends of a marked selection, found again after
/// the mark, differ wherever the ends did.
pub proof fn lemma_raw_position_unique(
    m: BlockMapView,
    ids: Seq<Seq<char>>,
    o1: usize,
    o2: usize,
    s: Seq<Layer>,
    i: int,
    j: int,
)
    requires
        ids.no_duplicates(),
        raw_position(m, ids, o1, s, i),
        raw_position(m, ids, o2, s, j),
    ensures
        o1 == o2,
{
    assert(ids[i] == s[0].block_id && ids[j] == s[0].block_id);
    assert(i == j);
    crate::steps_generator::selection::lemma_text_len_nonneg(m, ids.take(i));
    if i > 0 {
        assert(text_len(m, ids.take(i)) < o1 && text_len(m, ids.take(i)) < o2);
    } else {
        assert(ids.take(0) =~= Seq::<Seq<char>>::empty());
    }
}

/// Adds (or removes) the mark of the step over the selected text, splitting
/// the inline blocks at the ends of the selection; the selection is then
/// found again by its offsets in the text of its standard blocks.
pub fn actualise_mark_step(
    mark_step: MarkStep,
    block_map: BlockMap,
    add_mark: bool,
    new_ids: &mut NewIds,
    blocks_to_update: Vec<String>,
) -> (r: Result<UpdatedState, StepError>)
    requires
        ({
            let f = inline_block_of(block_map@, mark_step.from@[0].block_id)->0;
            inline_block_of(block_map@, mark_step.from@[0].block_id) is Some && mark_step.from@[0].block_id == mark_step.to@[0].block_id
                ==> mark_step.from.offset <= mark_step.to.offset <= f.text.len()
        }),
    ensures
        !block_map@.contains_key(mark_step.from@[0].block_id) ==> r is Err,
        block_map@.contains_key(mark_step.from@[0].block_id) && block_map@[mark_step.from@[0].block_id] is Root ==> r is Err,
        r matches Ok(s) ==> s.selection is Some && extends(blocks_to_update@, s.blocks_to_update@)
            && s.blocks_to_remove@.len() == 0 && s.copy is None,
        r matches Ok(s) ==> found_again(block_map@, s.block_map@, mark_step.from@, s.selection->0.anchor@) && found_again(
            block_map@,
            s.block_map@,
            mark_step.to@,
            s.selection->0.head@,
        ),
        marks_within_block(block_map@, mark_step, old(new_ids).ids()) && r is Ok ==> text_of_parent(
            block_map@,
            r->Ok_0.block_map@,
            mark_step.from@[0].block_id,
        ) == text_of_parent(block_map@, block_map@, mark_step.from@[0].block_id),
        marks_within_block(block_map@, mark_step, old(new_ids).ids()) && mark_step.from@.len() == 1 && mark_step.to@.len() == 1
            && raw_fits(block_map@, mark_step.from@) && raw_fits(block_map@, mark_step.to@) ==> r is Ok,
        ({
            let ids = old(new_ids).ids();
            let mm = marked_map(block_map@, mark_step, add_mark, ids);
            let up = marked_block(block_map@, mark_step, ids);
            marks_within_block(block_map@, mark_step, ids) && mark_step.from@.len() == 1 && mark_step.to@.len() == 1
                && raw_fits(block_map@, mark_step.from@) && raw_fits(block_map@, mark_step.to@)
                && no_mergeable(mm, up.inline_blocks()) && m2_unchanged(mm, up) ==> (r is Ok && r->Ok_0.block_map@ == mm)
        }),
{
    let ghost m = block_map@;
    let ghost ids0 = new_ids.ids();
    let ghost within = marks_within_block(m, mark_step, ids0) && mark_step.from@.len() == 1 && mark_step.to@.len() == 1
        && raw_fits(m, mark_step.from@) && raw_fits(m, mark_step.to@);
    proof {
        lemma_layers_len(mark_step.from);
        lemma_layers_len(mark_step.to);
        block_map.lemma_keys_are_ids();
    }
    let block = block_map.get_block(&mark_step.from.block_id)?;
    match block {
        Block::Root(_) => return Err(step_error_msg("Cannot mark root block")),
        _ => {},
    }
    let from_raw_selection = mark_step.from.to_raw_selection(&block_map)?;
    let to_raw_selection = mark_step.to.to_raw_selection(&block_map)?;
    let updated_state = match block {
        Block::InlineBlock(from_block) => actualise_mark_step_on_inline_blocks(mark_step, from_block, block_map, add_mark, new_ids, blocks_to_update)?,
        Block::StandardBlock(_) => actualise_mark_step_on_standard_blocks(mark_step, block_map, add_mark, new_ids, blocks_to_update)?,
        Block::Root(_) => return Err(step_error_msg("Cannot mark root block")),
    };
    let block_map = updated_state.block_map;
    let blocks_to_update = updated_state.blocks_to_update;
    proof {
        lemma_layers_len(from_raw_selection);
        lemma_layers_len(to_raw_selection);
        if within {
            let f = inline_block_of(m, mark_step.from@[0].block_id)->0;
            let p = std_block_of(m, f.parent)->0;
            let i = inline_index(m, f.parent, f.id);
            let s2 = block_map@;
            let q = std_block_of(s2, p.id)->0;
            crate::blocks::tree::lemma_inline_index(m, f.parent, f.id);
            assert(p.inline_blocks()[i] == f.id);
            assert(std_block_of(m, p.id) == Some(p));
            lemma_text_len_texts(m, p.inline_blocks());
            lemma_text_len_texts(s2, q.inline_blocks());
            lemma_raw_offset_fits(m, p.inline_blocks(), i, mark_step.from.offset as int);
            lemma_raw_offset_fits(m, p.inline_blocks(), i, mark_step.to.offset as int);
            assert(from_raw_selection.block_id@ == p.id);
            assert(to_raw_selection.block_id@ == p.id);
            assert(texts(s2, q.inline_blocks()) == texts(m, p.inline_blocks()));
            assert(mark_step.from@.last() == mark_step.from@[0]);
            assert(mark_step.from@[0].offset == mark_step.from.offset);
            assert(text_of(m, p.inline_blocks()[i]) == f.text);
            crate::steps_generator::selection::lemma_text_len_nonneg(m, p.inline_blocks().take(i));
            assert(from_raw_selection.offset == from_raw_selection@[0].offset);
            assert(from_raw_selection.offset == text_len(m, p.inline_blocks().take(i)) + mark_step.from.offset);
            assert(from_raw_selection.offset <= text_len(s2, q.inline_blocks()));
            assert(to_raw_selection.offset <= text_len(s2, q.inline_blocks()));
        }
    }
    let ghost fr = from_raw_selection;
    let ghost tr = to_raw_selection;
    let anchor = from_raw_selection.real_selection_from_raw(&block_map)?;
    let head = to_raw_selection.real_selection_from_raw(&block_map)?;
    proof {
        assert(fr.block_id@ == raw_block(m, mark_step.from@) && fr.offset == raw_offset(m, mark_step.from@) as usize);
        assert(tr.block_id@ == raw_block(m, mark_step.to@) && tr.offset == raw_offset(m, mark_step.to@) as usize);
    }
    return Ok(UpdatedState {
        block_map,
        selection: Some(Selection { anchor, head }),
        blocks_to_update,
        blocks_to_remove: Vec::new(),
        copy: None,
    })
}

/// The length of the texts of `ids` is what `text_len` counts.
proof fn lemma_text_len_texts(m: BlockMapView, ids: Seq<Seq<char>>)
    ensures
        text_len(m, ids) == texts(m, ids).len(),
    decreases ids.len(),
{
    if ids.len() > 0 {
        lemma_text_len_texts(m, ids.drop_last());
    }
}

/// An offset within the text of the `i`-th inline block, counted from the
/// start of the texts of `ids`, lies within those texts.
proof fn lemma_raw_offset_fits(m: BlockMapView, ids: Seq<Seq<char>>, i: int, offset: int)
    requires
        0 <= i < ids.len(),
        0 <= offset <= text_of(m, ids[i]).len(),
    ensures
        text_len(m, ids.take(i)) + offset <= texts(m, ids).len(),
{
    assert(ids.take(i + 1).drop_last() =~= ids.take(i));
    crate::steps_generator::selection::lemma_text_len_prefix(m, ids, i + 1, ids.len() as int);
    assert(ids.take(ids.len() as int) =~= ids);
    lemma_text_len_texts(m, ids);
}

/// Marks text within one standard block: within one inline block, that
/// block becomes three (before, marked middle, after); across inline blocks,
/// the two end blocks are split and everything between is marked. The
/// standard block is then cleaned.
fn actualise_mark_step_on_inline_blocks(
    mark_step: MarkStep,
    from_block: InlineBlock,
    block_map: BlockMap,
    add_mark: bool,
    new_ids: &mut NewIds,
    blocks_to_update: Vec<String>,
) -> (r: Result<UpdatedState, StepError>)
    requires
        mark_step.from@[0].block_id == mark_step.to@[0].block_id ==> mark_step.from.offset <= mark_step.to.offset <= from_block@.text.len(),
    ensures
        r matches Ok(s) ==> s.selection is Some && extends(blocks_to_update@, s.blocks_to_update@)
            && s.blocks_to_remove@.len() == 0 && s.copy is None,
        inline_block_of(block_map@, from_block@.id) == Some(from_block@) && from_block@.id == mark_step.from@[0].block_id
            && marks_within_block(block_map@, mark_step, old(new_ids).ids()) && r is Ok ==> text_of_parent(
            block_map@,
            r->Ok_0.block_map@,
            from_block@.id,
        ) == text_of_parent(block_map@, block_map@, from_block@.id),
        inline_block_of(block_map@, from_block@.id) == Some(from_block@) && from_block@.id == mark_step.from@[0].block_id
            && marks_within_block(block_map@, mark_step, old(new_ids).ids())
            && inline_index(block_map@, from_block@.parent, from_block@.id) >= 0 ==> r is Ok,
        ({
            let ids = old(new_ids).ids();
            let mm = marked_map(block_map@, mark_step, add_mark, ids);
            let up = marked_block(block_map@, mark_step, ids);
            inline_block_of(block_map@, from_block@.id) == Some(from_block@) && from_block@.id == mark_step.from@[0].block_id
                && marks_within_block(block_map@, mark_step, ids) && inline_index(block_map@, from_block@.parent, from_block@.id) >= 0
                && no_mergeable(mm, up.inline_blocks()) && m2_unchanged(mm, up) ==> (r is Ok && r->Ok_0.block_map@ == mm)
        }),
        inline_block_of(block_map@, from_block@.id) == Some(from_block@) && from_block@.id == mark_step.from@[0].block_id
            && marks_within_block(block_map@, mark_step, old(new_ids).ids()) && r is Ok ==> ({
            let s = r->Ok_0.block_map@;
            let q = std_block_of(s, std_block_of(block_map@, from_block@.parent)->0.id);
            q is Some && q->0.has_content() && q->0.inline_blocks().len() > 0 && all_inline(s, q->0.inline_blocks())
        }),
{
    let ghost bt0 = blocks_to_update@;
    let ghost m = block_map@;
    let ghost ids0 = new_ids.ids();
    proof {
        block_map.lemma_keys_are_ids();
    }
    let mut block_map = block_map;
    let mut blocks_to_update = blocks_to_update;
    proof {
        lemma_layers_len(mark_step.from);
        lemma_layers_len(mark_step.to);
    }
    if str_eq(mark_step.from.block_id.as_str(), mark_step.to.block_id.as_str()) {
        let (before_block, middle_block, after_block) = create_before_middle_after_blocks_with_new_text_and_mark(from_block, new_ids, &mark_step, add_mark)?;
        let parent_block = block_map.get_standard_block(&before_block.parent)?;
        let original_block_index = parent_block.index_of(before_block._id.as_str())?;
        proof {
            crate::blocks::lemma_index_of_id(parent_block@.inline_blocks(), before_block@.id);
        }
        let content_block = parent_block.content_block()?;
        let mut inline_blocks = copy_ids(&content_block.inline_blocks);
        let mut three: Vec<String> = Vec::new();
        three.push(before_block.id());
        three.push(middle_block.id());
        three.push(after_block.id());
        let n = inline_blocks.len();
        assert(original_block_index < n);
        crate::blocks::splice_ids(&mut inline_blocks, original_block_index, original_block_index + 1, three);
        let updated_parent_block = parent_block.update_block_content(ContentBlock { inline_blocks })?;
        let new_selection = Selection {
            anchor: SubSelection { block_id: middle_block.id(), offset: 0, subselection: None },
            head: SubSelection { block_id: middle_block.id(), offset: middle_block.text()?.len(), subselection: None },
        };
        let ghost bv = before_block@;
        let ghost mv = middle_block@;
        let ghost av = after_block@;
        let ghost up = updated_parent_block@;
        block_map.update_block(Block::StandardBlock(updated_parent_block.copy()), &mut blocks_to_update)?;
        block_map.update_block(Block::InlineBlock(before_block), &mut blocks_to_update)?;
        block_map.update_block(Block::InlineBlock(middle_block), &mut blocks_to_update)?;
        block_map.update_block(Block::InlineBlock(after_block), &mut blocks_to_update)?;
        let ghost m1 = block_map@;
        proof {
            if inline_block_of(m, from_block@.id) == Some(from_block@) && from_block@.id == mark_step.from@[0].block_id
                && marks_within_block(m, mark_step, ids0) {
                let t = from_block@.text;
                assert(t.take(mark_step.from.offset as int) + t.subrange(mark_step.from.offset as int, mark_step.to.offset as int)
                    + t.skip(mark_step.to.offset as int) =~= t);
                assert(crate::blocks::ids_view(three@) =~= seq![bv.id, mv.id, av.id]);
                lemma_mark_keeps_text(m, m1, parent_block@, up, bv, mv, av, original_block_index as int, ids0);
            }
        }
        proof {
            if inline_block_of(m, from_block@.id) == Some(from_block@) && from_block@.id == mark_step.from@[0].block_id
                && marks_within_block(m, mark_step, ids0) {
                assert(up == marked_block(m, mark_step, ids0));
                assert(m1 == marked_map(m, mark_step, add_mark, ids0));
                assert(m1.insert(up.id, BlockView::Standard(up)) =~= m1);
            }
        }
        let block_map = clean_block_after_transform(updated_parent_block, block_map, &mut blocks_to_update)?;
        return Ok(UpdatedState { block_map, selection: Some(new_selection), blocks_to_update, blocks_to_remove: Vec::new(), copy: None })
    } else {
        let from_parent_block = block_map.get_standard_block(&from_block.parent)?;
        let to_block = block_map.get_inline_block(&mark_step.to.block_id)?;
        let (first_half_of_from_block, second_half_of_from_block) = from_block.split(mark_step.from.offset, new_ids)?;
        let first_half_of_from_block_id = first_half_of_from_block.id();
        let second_half_of_from_block_id = second_half_of_from_block.id();
        let (first_half_of_to_block, second_half_of_to_block) = to_block.split(mark_step.to.offset, new_ids)?;
        let first_half_of_to_block_id = first_half_of_to_block.id();
        let second_half_of_to_block_id = second_half_of_to_block.id();
        let second_half_of_from_block = second_half_of_from_block.apply_mark(mark_step.mark, add_mark);
        let first_half_of_to_block = first_half_of_to_block.apply_mark(mark_step.mark, add_mark);
        let new_subselection = updated_selection_after_apply_mark(second_half_of_from_block_id.clone(), &first_half_of_to_block)?;
        block_map.update_block(Block::InlineBlock(first_half_of_from_block), &mut blocks_to_update)?;
        block_map.update_block(Block::InlineBlock(second_half_of_from_block), &mut blocks_to_update)?;
        block_map.update_block(Block::InlineBlock(first_half_of_to_block), &mut blocks_to_update)?;
        block_map.update_block(Block::InlineBlock(second_half_of_to_block), &mut blocks_to_update)?;
        let content_block = from_parent_block.content_block()?;
        let mut inline_blocks = copy_ids(&content_block.inline_blocks);
        let from_index = ContentBlock::new(copy_ids(&inline_blocks)).index_of(first_half_of_from_block_id.as_str())?;
        let j = ContentBlock::new(copy_ids(&inline_blocks)).index_of(first_half_of_to_block_id.as_str())?;
        proof {
            crate::blocks::lemma_index_of_id(ids_view(inline_blocks@), first_half_of_from_block_id@);
            crate::blocks::lemma_index_of_id(ids_view(inline_blocks@), first_half_of_to_block_id@);
        }
        let n0 = inline_blocks.len();
        assert(from_index < n0);
        let mut i = from_index + 1;
        while i < j
            invariant
                j < inline_blocks@.len(),
                extends(bt0, blocks_to_update@),
                mark_step.from@[0].block_id != mark_step.to@[0].block_id,
            decreases j - i,
        {
            let block = block_map.get_inline_block(&inline_blocks[i])?;
            let block = block.apply_mark(mark_step.mark, add_mark);
            block_map.update_block(Block::InlineBlock(block), &mut blocks_to_update)?;
            i += 1;
        }
        let mut two_from: Vec<String> = Vec::new();
        two_from.push(first_half_of_from_block_id);
        two_from.push(second_half_of_from_block_id);
        crate::blocks::splice_ids(&mut inline_blocks, from_index, from_index + 1, two_from);
        let to_index = ContentBlock::new(copy_ids(&inline_blocks)).index_of(first_half_of_to_block_id.as_str())?;
        proof {
            crate::blocks::lemma_index_of_id(ids_view(inline_blocks@), first_half_of_to_block_id@);
        }
        let mut two_to: Vec<String> = Vec::new();
        two_to.push(first_half_of_to_block_id);
        two_to.push(second_half_of_to_block_id);
        let n2 = inline_blocks.len();
        assert(to_index < n2);
        crate::blocks::splice_ids(&mut inline_blocks, to_index, to_index + 1, two_to);
        let updated_parent_block = from_parent_block.update_block_content(ContentBlock { inline_blocks })?;
        block_map.update_block(Block::StandardBlock(updated_parent_block.copy()), &mut blocks_to_update)?;
        let block_map = clean_block_after_transform(updated_parent_block, block_map, &mut blocks_to_update)?;
        return Ok(UpdatedState { block_map, selection: Some(new_subselection), blocks_to_update, blocks_to_remove: Vec::new(), copy: None })
    }
}

/// Putting the three parts of an inline block in its place keeps the text
/// of the standard block, and leaves its inline blocks distinct inline
/// blocks of the map.
proof fn lemma_mark_keeps_text(
    m: BlockMapView,
    m1: BlockMapView,
    p: crate::blocks::standard_blocks::StandardBlockView,
    up: crate::blocks::standard_blocks::StandardBlockView,
    bv: InlineBlockView,
    mv: InlineBlockView,
    av: InlineBlockView,
    i: int,
    ids: Seq<String>,
)
    requires
        std_block_of(m, p.id) == Some(p),
        p.has_content(),
        distinct_apart(p.inline_blocks(), p.id),
        all_inline(m, p.inline_blocks()),
        0 <= i < p.inline_blocks().len(),
        inline_block_of(m, p.inline_blocks()[i]) is Some,
        bv.id == p.inline_blocks()[i],
        mv.id == ids[ids.len() - 1]@,
        av.id == ids[ids.len() - 2]@,
        ids.len() >= 2,
        !m.contains_key(ids[ids.len() - 1]@),
        !m.contains_key(ids[ids.len() - 2]@),
        ids[ids.len() - 1]@ != ids[ids.len() - 2]@,
        ids[ids.len() - 1]@ != p.id,
        ids[ids.len() - 2]@ != p.id,
        bv.text + mv.text + av.text == inline_block_of(m, p.inline_blocks()[i])->0.text,
        up == p.with_inline_blocks(crate::blocks::splice_spec(p.inline_blocks(), i, i + 1, seq![bv.id, mv.id, av.id])),
        m1 == m.insert(p.id, BlockView::Standard(up)).insert(bv.id, BlockView::Inline(bv)).insert(mv.id, BlockView::Inline(mv)).insert(
            av.id,
            BlockView::Inline(av),
        ),
    ensures
        up.has_content(),
        distinct_apart(up.inline_blocks(), up.id),
        all_inline(m1, up.inline_blocks()),
        texts(m1, up.inline_blocks()) == texts(m, p.inline_blocks()),
        up.id == p.id,
{
    let ids_p = p.inline_blocks();
    let head = ids_p.take(i);
    let tail = ids_p.skip(i + 1);
    let new_ids = up.inline_blocks();
    assert(new_ids =~= head + seq![bv.id, mv.id, av.id] + tail);
    assert(ids_p =~= head + seq![bv.id] + tail);
    assert(m.contains_key(bv.id));
    assert forall|k: int| 0 <= k < ids_p.len() implies m.contains_key(#[trigger] ids_p[k]) && ids_p[k] != mv.id && ids_p[k] != av.id by {
        assert(inline_block_of(m, ids_p[k]) is Some);
    }
    assert forall|x: int, y: int| 0 <= x < y < new_ids.len() implies new_ids[x] != new_ids[y] by {
        if x < i && y < i {
            assert(new_ids[x] == ids_p[x] && new_ids[y] == ids_p[y]);
        } else if x < i && y == i {
            assert(new_ids[x] == ids_p[x] && new_ids[y] == ids_p[i]);
        } else if x < i && (y == i + 1 || y == i + 2) {
            assert(new_ids[x] == ids_p[x]);
        } else if x < i {
            assert(new_ids[x] == ids_p[x] && new_ids[y] == ids_p[y - 2]);
        } else if x == i && y >= i + 3 {
            assert(new_ids[y] == ids_p[y - 2]);
        } else if (x == i + 1 || x == i + 2) && y >= i + 3 {
            assert(new_ids[y] == ids_p[y - 2]);
        } else if x >= i + 3 {
            assert(new_ids[x] == ids_p[x - 2] && new_ids[y] == ids_p[y - 2]);
        }
    }
    assert(!new_ids.contains(up.id)) by {
        if new_ids.contains(up.id) {
            let k = choose|k: int| 0 <= k < new_ids.len() && new_ids[k] == up.id;
            if k < i {
                assert(new_ids[k] == ids_p[k]);
            } else if k >= i + 3 {
                assert(new_ids[k] == ids_p[k - 2]);
            } else if k == i {
                assert(ids_p[i] == bv.id);
            }
        }
    }
    assert forall|k: int| 0 <= k < new_ids.len() implies inline_block_of(m1, #[trigger] new_ids[k]) is Some by {
        if k < i {
            assert(new_ids[k] == ids_p[k]);
            assert(ids_p[k] != p.id);
        } else if k >= i + 3 {
            assert(new_ids[k] == ids_p[k - 2]);
            assert(ids_p[k - 2] != p.id);
        }
    }
    assert forall|k: int| 0 <= k < head.len() implies text_of(m1, #[trigger] head[k]) == text_of(m, head[k]) by {
        assert(head[k] == ids_p[k]);
        assert(ids_p[k] != bv.id);
        assert(ids_p[k] != p.id);
    }
    assert forall|k: int| 0 <= k < tail.len() implies text_of(m1, #[trigger] tail[k]) == text_of(m, tail[k]) by {
        assert(tail[k] == ids_p[k + i + 1]);
        assert(ids_p[k + i + 1] != bv.id);
        assert(ids_p[k + i + 1] != p.id);
    }
    lemma_texts_frame(m1, m, head);
    lemma_texts_frame(m1, m, tail);
    lemma_texts_append(m1, head + seq![bv.id, mv.id, av.id], tail);
    lemma_texts_append(m1, head, seq![bv.id, mv.id, av.id]);
    lemma_texts_append(m, head + seq![bv.id], tail);
    lemma_texts_append(m, head, seq![bv.id]);
    lemma_texts_single(m, bv.id);
    assert(seq![bv.id, mv.id, av.id] =~= seq![bv.id] + seq![mv.id] + seq![av.id]);
    lemma_texts_append(m1, seq![bv.id] + seq![mv.id], seq![av.id]);
    lemma_texts_append(m1, seq![bv.id], seq![mv.id]);
    lemma_texts_single(m1, bv.id);
    lemma_texts_single(m1, mv.id);
    lemma_texts_single(m1, av.id);
    assert(text_of(m1, bv.id) == bv.text);
    assert(text_of(m1, mv.id) == mv.text);
    assert(text_of(m1, av.id) == av.text);
}

/// The block split at the two offsets of the step: the part before keeps
/// the block's id; the middle part, under the next fresh id, gets the mark;
/// the part after gets the fresh id after that.
pub fn create_before_middle_after_blocks_with_new_text_and_mark(
    from_block: InlineBlock,
    new_ids: &mut NewIds,
    mark_step: &MarkStep,
    add_mark: bool,
) -> (r: Result<(InlineBlock, InlineBlock, InlineBlock), StepError>)
    requires
        mark_step.from.offset <= mark_step.to.offset <= from_block@.text.len(),
    ensures
        r is Ok <==> old(new_ids).ids().len() >= 2,
        r matches Ok((b, m, a)) ==> ({
            let ids = old(new_ids).ids();
            let t = from_block@.text;
            let f = mark_step.from.offset as int;
            let to = mark_step.to.offset as int;
            &&& b@ == from_block@.with_text(t.take(f))
            &&& m@ == from_block@.with_id(ids[ids.len() - 1]@).with_text(t.subrange(f, to)).with_marks(
                from_block@.marks_after(mark_step.mark, add_mark))
            &&& a@ == from_block@.with_id(ids[ids.len() - 2]@).with_text(t.skip(to))
            &&& final(new_ids).ids() == ids.take(ids.len() - 2)
        }),
{
    let ghost ids0 = new_ids.ids();
    let text = from_block.text()?;
    let (before_text, middle_text, after_text) = text.split_before_middle_after(mark_step.from.offset, mark_step.to.offset);
    let before_block = from_block.copy().update_text(before_text)?;
    let middle_block = from_block.copy().to_new_block(new_ids)?.update_text(middle_text)?;
    let after_block = from_block.to_new_block(new_ids)?.update_text(after_text)?;
    let middle_block = middle_block.apply_mark(mark_step.mark, add_mark);
    proof {
        assert(new_ids.ids() =~= ids0.take(ids0.len() - 2));
    }
    return Ok((before_block, middle_block, after_block))
}

/// The selection over the marked text: from the start of the later half of
/// the block where it starts, to the end of the earlier half of the block
/// where it ends.
pub fn updated_selection_after_apply_mark(second_half_of_from_block_id: String, first_half_of_to_block: &InlineBlock) -> (r: Result<
    Selection,
    StepError,
>)
    ensures
        r matches Ok(s) && s.anchor@ == seq![Layer { block_id: second_half_of_from_block_id@, offset: 0 }]
            && s.head@ == seq![Layer { block_id: first_half_of_to_block@.id, offset: first_half_of_to_block@.text.len() as usize }],
{
    return Ok(Selection {
        anchor: SubSelection { block_id: second_half_of_from_block_id, offset: 0, subselection: None },
        head: SubSelection { block_id: first_half_of_to_block.id(), offset: first_half_of_to_block.text()?.len(), subselection: None },
    })
}

} // verus!
