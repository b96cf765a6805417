use vstd::prelude::*;

use crate::blocks::{Block, BlockMap, BlockView, extends, inline_block_of, splice_spec, std_block_of};
use crate::blocks::standard_blocks::{StandardBlockKind, StandardBlockType, StandardBlockTypeView};
use crate::blocks::standard_blocks::content_block::ContentBlock;
use crate::blocks::standard_blocks::list_block::ListBlock;
use crate::new_ids::NewIds;
use crate::step::SplitStep;
use crate::steps_actualisor::{UpdatedState, all_inline, clean_block_after_transform, cleaned, distinct_apart, lemma_texts_append, lemma_texts_frame, lemma_texts_single, text_of, texts};
use crate::blocks::BlockMapView;
use crate::blocks::tree::{inline_index, reparent};
use crate::steps_generator::{StepError, step_error_msg};
use crate::steps_generator::selection::{Layer, Selection, SubSelection, lemma_layers_len};

verus! {

/// The kind of block that enter makes below a block of kind `k`: a
/// paragraph below text, the same kind of list below a list item.
pub open spec fn enter_kind(k: StandardBlockKind) -> Option<StandardBlockKind> {
    match k {
        StandardBlockKind::Paragraph | StandardBlockKind::H1 | StandardBlockKind::H2 | StandardBlockKind::H3 => Some(StandardBlockKind::Paragraph),
        StandardBlockKind::TodoList => Some(StandardBlockKind::TodoList),
        StandardBlockKind::DotPointList => Some(StandardBlockKind::DotPointList),
        StandardBlockKind::NumberedList => Some(StandardBlockKind::NumberedList),
        StandardBlockKind::ArrowList => Some(StandardBlockKind::ArrowList),
        _ => None,
    }
}

/// Enter keeps a list going and ends a heading: below a list item of any
/// kind comes an item of the same kind; below a paragraph or a heading
/// comes a paragraph; blocks that hold no text cannot be split.
pub proof fn lemma_enter_kinds(k: StandardBlockKind)
    ensures
        crate::blocks::standard_blocks::kind_is_list(k) ==> enter_kind(k) == Some(k),
        (k is Paragraph || k is H1 || k is H2 || k is H3) ==> enter_kind(k) == Some(StandardBlockKind::Paragraph),
        !crate::blocks::standard_blocks::kind_has_content(k) ==> enter_kind(k) is None,
{
}

/// The empty type of the block that enter makes below a block of type
/// `block_type`.
pub fn get_new_enter_block_type(block_type: &StandardBlockType) -> (r: Result<StandardBlockType, StepError>)
    ensures
        r is Err <==> enter_kind(block_type@.kind) is None,
        r matches Ok(t) ==> t@ == StandardBlockTypeView::empty_of_kind(enter_kind(block_type@.kind)->0),
{
    let r = match block_type {
        StandardBlockType::Paragraph(_) | StandardBlockType::H1(_) | StandardBlockType::H2(_) | StandardBlockType::H3(_)
            => StandardBlockType::Paragraph(ContentBlock { inline_blocks: Vec::new() }),
        StandardBlockType::TodoList(_) => StandardBlockType::TodoList(ListBlock { content: ContentBlock { inline_blocks: Vec::new() }, completed: false }),
        StandardBlockType::DotPointList(_) => StandardBlockType::DotPointList(ListBlock { content: ContentBlock { inline_blocks: Vec::new() }, completed: false }),
        StandardBlockType::NumberedList(_) => StandardBlockType::NumberedList(ListBlock { content: ContentBlock { inline_blocks: Vec::new() }, completed: false }),
        StandardBlockType::ArrowList(_) => StandardBlockType::ArrowList(ListBlock { content: ContentBlock { inline_blocks: Vec::new() }, completed: false }),
        _ => return Err(step_error_msg("Cannot enter on this block type")),
    };
    proof {
        assert(crate::blocks::ids_view(Seq::<String>::empty()) =~= Seq::<Seq<char>>::empty());
    }
    Ok(r)
}

/// The split happens in an inline block of a standard block `p` whose
/// inline blocks are distinct inline blocks of `m`, and the two fresh ids
/// that it takes (the last two of `ids`) are new to `m`, to each other and
/// to `p`.
pub open spec fn splits_within_block(m: BlockMapView, split_step: SplitStep, ids: Seq<String>) -> bool {
    let f = inline_block_of(m, split_step.subselection@[0].block_id)->0;
    let p = std_block_of(m, f.parent)->0;
    &&& inline_block_of(m, split_step.subselection@[0].block_id) is Some
    &&& std_block_of(m, f.parent) is Some
    &&& p.has_content()
    &&& distinct_apart(p.inline_blocks(), p.id)
    &&& all_inline(m, p.inline_blocks())
    &&& ids.len() >= 2
    &&& !m.contains_key(ids[ids.len() - 1]@)
    &&& !m.contains_key(ids[ids.len() - 2]@)
    &&& ids[ids.len() - 1]@ != ids[ids.len() - 2]@
}

/// The text of the split block and of the new block below it, one after
/// the other, in `m2`.
pub open spec fn split_texts(m: BlockMapView, m2: BlockMapView, split_step: SplitStep, ids: Seq<String>) -> Seq<u16> {
    let f = inline_block_of(m, split_step.subselection@[0].block_id)->0;
    let p = std_block_of(m, f.parent)->0;
    texts(m2, std_block_of(m2, p.id)->0.inline_blocks()) + texts(m2, std_block_of(m2, ids[ids.len() - 2]@)->0.inline_blocks())
}

/// What a split within a block (see `splits_within_block`) does to the
/// document `m`, giving `s`: the new block (the second fresh id) is of the
/// enter kind, unticked, holds the text after the caret and the inline
/// blocks after it, takes the children, and stands just after the split
/// block among their parent's children; the split block keeps the text
/// before the caret and no children.
pub open spec fn split_done(m: BlockMapView, split_step: SplitStep, ids: Seq<String>, s: BlockMapView) -> bool {
    let f = inline_block_of(m, split_step.subselection@[0].block_id)->0;
    let p = std_block_of(m, f.parent)->0;
    let i = inline_index(m, f.parent, f.id);
    let o = split_step.subselection.offset as int;
    let n = std_block_of(s, ids[ids.len() - 2]@);
    &&& n is Some && n->0.content.kind == enter_kind(p.content.kind)->0 && n->0.children == p.children
        && n->0.parent == p.parent && !n->0.content.completed
    &&& std_block_of(s, p.id) is Some && std_block_of(s, p.id)->0.children.len() == 0
    &&& p.parent != p.id ==> s.contains_key(p.parent) && s[p.parent].children() == m[p.parent].children().insert(
        crate::blocks::tree::child_index(m, p.parent, p.id) + 1,
        ids[ids.len() - 2]@,
    )
    &&& texts(s, std_block_of(s, p.id)->0.inline_blocks()) == texts(m, p.inline_blocks().take(i)) + f.text.take(o)
    &&& texts(s, n->0.inline_blocks()) == f.text.skip(o) + texts(m, p.inline_blocks().skip(i + 1))
}

/// Splits the block at the caret: the text after the caret, and the inline
/// blocks after it, go to a new block of the enter kind just below, which
/// takes the children; both blocks are cleaned and the caret goes to the
/// start of the new block.
pub fn actualise_split_step(
    split_step: SplitStep,
    block_map: BlockMap,
    new_ids: &mut NewIds,
    blocks_to_update: Vec<String>,
) -> (r: Result<UpdatedState, StepError>)
    ensures
        inline_block_of(block_map@, split_step.subselection@[0].block_id) is None ==> r is Err,
        r matches Ok(s) ==> s.selection is Some && s.selection->0.anchor@.len() == 1 && s.selection->0.anchor@[0].offset == 0
            && s.selection->0.head@ == s.selection->0.anchor@,
        r matches Ok(s) ==> extends(blocks_to_update@, s.blocks_to_update@) && s.blocks_to_remove@.len() == 0 && s.copy is None,
        splits_within_block(block_map@, split_step, old(new_ids).ids()) && r is Ok ==> split_texts(
            block_map@,
            r->Ok_0.block_map@,
            split_step,
            old(new_ids).ids(),
        ) == texts(
            block_map@,
            std_block_of(block_map@, inline_block_of(block_map@, split_step.subselection@[0].block_id)->0.parent)->0.inline_blocks(),
        ),
        splits_within_block(block_map@, split_step, old(new_ids).ids()) && r is Ok ==> ({
            let ids = old(new_ids).ids();
            let f = inline_block_of(block_map@, split_step.subselection@[0].block_id)->0;
            let p = std_block_of(block_map@, f.parent)->0;
            let s = r->Ok_0.block_map@;
            let n = std_block_of(s, ids[ids.len() - 2]@);
            &&& n is Some && n->0.content.kind == enter_kind(p.content.kind)->0 && n->0.children == p.children
                && n->0.parent == p.parent && !n->0.content.completed
            &&& std_block_of(s, p.id) is Some && std_block_of(s, p.id)->0.children.len() == 0
            &&& p.parent != p.id ==> s.contains_key(p.parent) && s[p.parent].children() == block_map@[p.parent].children().insert(
                crate::blocks::tree::child_index(block_map@, p.parent, p.id) + 1,
                ids[ids.len() - 2]@,
            )
        }),
        splits_within_block(block_map@, split_step, old(new_ids).ids()) && r is Ok ==> ({
            let ids = old(new_ids).ids();
            let f = inline_block_of(block_map@, split_step.subselection@[0].block_id)->0;
            let p = std_block_of(block_map@, f.parent)->0;
            let i = inline_index(block_map@, f.parent, f.id);
            let o = split_step.subselection.offset as int;
            let s = r->Ok_0.block_map@;
            let n = std_block_of(s, ids[ids.len() - 2]@)->0;
            &&& texts(s, std_block_of(s, p.id)->0.inline_blocks()) == texts(block_map@, p.inline_blocks().take(i)) + f.text.take(o)
            &&& texts(s, n.inline_blocks()) == f.text.skip(o) + texts(block_map@, p.inline_blocks().skip(i + 1))
            &&& n.inline_blocks().len() > 0
            &&& r->Ok_0.selection->0.anchor@ == seq![Layer { block_id: n.inline_blocks()[0], offset: 0 }]
        }),
        splits_within_block(block_map@, split_step, old(new_ids).ids()) && r is Ok ==> split_done(
            block_map@,
            split_step,
            old(new_ids).ids(),
            r->Ok_0.block_map@,
        ),
        ({
            let f = inline_block_of(block_map@, split_step.subselection@[0].block_id)->0;
            let p = std_block_of(block_map@, f.parent)->0;
            splits_within_block(block_map@, split_step, old(new_ids).ids()) && split_step.subselection.offset <= f.text.len()
                && inline_index(block_map@, f.parent, f.id) >= 0 && enter_kind(p.content.kind) is Some
                && (forall|j: int| 0 <= j < p.children.len() ==> std_block_of(block_map@, #[trigger] p.children[j]) is Some)
                && crate::blocks::tree::child_index(block_map@, p.parent, p.id) >= 0 ==> r is Ok
        }),
{
    let ghost m = block_map@;
    let ghost ids0 = new_ids.ids();
    let ghost law = splits_within_block(m, split_step, ids0);
    let ghost fb = inline_block_of(m, split_step.subselection@[0].block_id)->0;
    let ghost pb = std_block_of(m, fb.parent)->0;
    let ghost succ = law && split_step.subselection.offset <= fb.text.len()
        && inline_index(m, fb.parent, fb.id) >= 0 && enter_kind(pb.content.kind) is Some
        && (forall|j: int| 0 <= j < pb.children.len() ==> std_block_of(m, #[trigger] pb.children[j]) is Some)
        && crate::blocks::tree::child_index(m, pb.parent, pb.id) >= 0;
    proof {
        block_map.lemma_keys_are_ids();
    }
    let mut block_map = block_map;
    let mut blocks_to_update = blocks_to_update;
    proof {
        lemma_layers_len(split_step.subselection);
    }
    let inline_block = block_map.get_inline_block(&split_step.subselection.block_id)?;
    let (first_half_inline_block, second_half_inline_block) = inline_block.split(split_step.subselection.offset, new_ids)?;
    let mut second_half_inline_block = second_half_inline_block;
    if second_half_inline_block.text()?.len() == 0 {
        second_half_inline_block.marks = Vec::new();
    }
    let parent = first_half_inline_block.get_parent(&block_map)?;
    let new_block_content = get_new_enter_block_type(&parent.content)?;
    let mut second_id: Vec<String> = Vec::new();
    second_id.push(second_half_inline_block.id());
    let new_block_content = new_block_content.push_to_content(second_id)?;
    let index = first_half_inline_block.index(&block_map)?;
    proof {
        crate::blocks::tree::lemma_inline_index(block_map@, first_half_inline_block@.parent, first_half_inline_block@.id);
    }
    let n = parent.inline_blocks_length()?;
    assert(index < n);
    let (updated_standard_block, new_standard_block) = parent.split(index + 1, new_block_content, new_ids)?;
    let ghost fv = inline_block@;
    let ghost first = first_half_inline_block@;
    let ghost second = second_half_inline_block@;
    let ghost pv = parent@;
    let ghost i = index as int;
    proof {
        crate::blocks::tree::lemma_inline_index(m, first.parent, first.id);
        assert(first.text + second.text =~= fv.text);
        assert(new_standard_block@.inline_blocks() =~= seq![second.id] + pv.inline_blocks().skip(i + 1));
    }
    new_standard_block.set_new_parent_of_children(&mut block_map, &mut blocks_to_update)?;
    let ghost m2 = block_map@;
    proof {
        block_map.lemma_keys_are_ids();
    }
    proof {
        if succ || law {
            assert(m2.dom() == m.dom());
            if m.contains_key(pb.parent) {
                assert(m2[pb.parent].children() == m[pb.parent].children());
            }
            assert(crate::blocks::tree::child_index(m2, pb.parent, pb.id) == crate::blocks::tree::child_index(m, pb.parent, pb.id));
        }
    }
    let mut parents_parent = block_map.get_block(&updated_standard_block.parent())?;
    let parent_index = updated_standard_block.index(&block_map)?;
    proof {
        crate::blocks::tree::lemma_child_index(block_map@, updated_standard_block@.parent, updated_standard_block@.id);
    }
    let k = parents_parent.children()?.len();
    assert(parent_index < k);
    let mut new_child: Vec<String> = Vec::new();
    new_child.push(new_standard_block.id());
    proof {
        assert(crate::blocks::ids_view(new_child@) =~= seq![new_standard_block@.id]);
    }
    parents_parent.splice_children(parent_index + 1, parent_index + 1, new_child)?;
    block_map.update_block(Block::InlineBlock(first_half_inline_block), &mut blocks_to_update)?;
    block_map.update_block(Block::InlineBlock(second_half_inline_block), &mut blocks_to_update)?;
    block_map.update_block(parents_parent, &mut blocks_to_update)?;
    let ghost m3 = block_map@;
    let ghost ppv = parents_parent@;
    proof {
        if law {
            let m4p = reparent(m3, new_standard_block@.inline_blocks(), new_standard_block@.id);
            lemma_split_texts_before_clean(m, m2, m3, m4p, fv, first, second, pv, updated_standard_block@,
                new_standard_block@, ppv, i, ids0);
            assert forall|k: int| 0 <= k < new_standard_block@.inline_blocks().len()
                implies inline_block_of(m3, #[trigger] new_standard_block@.inline_blocks()[k]) is Some by {
                assert(inline_block_of(m4p, new_standard_block@.inline_blocks()[k]) is Some);
            }
        }
    }
    let block_map = new_standard_block.set_as_parent_for_all_inline_blocks(block_map, &mut blocks_to_update)?;
    let ghost m4 = block_map@;
    let ghost uv = updated_standard_block@;
    let ghost nv = new_standard_block@;
    proof {
        if law {
            lemma_split_texts_before_clean(m, m2, m3, m4, fv, first, second, pv, uv, nv, ppv, i, ids0);
        }
    }
    let block_map = clean_block_after_transform(updated_standard_block, block_map, &mut blocks_to_update)?;
    let ghost m5 = block_map@;
    proof {
        if law {
            lemma_split_between_cleans(m, m4, m5, pv, uv, nv, i, ids0);
        }
    }
    let new_standard_block_id = new_standard_block.id();
    let block_map = clean_block_after_transform(new_standard_block, block_map, &mut blocks_to_update)?;
    let ghost m6 = block_map@;
    proof {
        if law {
            lemma_split_texts_before_clean(m, m2, m3, m4, fv, first, second, pv, uv, nv, ppv, i, ids0);
            lemma_split_after_cleans(m, m4, m5, m6, pv, uv, nv, i, ids0);
            lemma_split_places_new_block(m, m2, m3, m4, m5, m6, pv, uv, nv, ppv, i, ids0);
        }
    }
    let new_standard_block = block_map.get_standard_block(&new_standard_block_id)?;
    let len = new_standard_block.inline_blocks_length()?;
    if len == 0 {
        return Err(step_error_msg("Block has no inline blocks"));
    }
    let first_inline_block_id = new_standard_block.get_inline_block_from_index(0)?;
    let updated_subselection = SubSelection { block_id: first_inline_block_id, offset: 0, subselection: None };
    return Ok(UpdatedState {
        block_map,
        selection: Some(Selection { anchor: updated_subselection.copy(), head: updated_subselection }),
        blocks_to_update,
        blocks_to_remove: Vec::new(),
        copy: None,
    })
}

/// After the split and both cleanings, the new block stands just after the
/// split block among the children of their parent, with the kind that enter
/// gives, holding the children of the split block, which keeps none.
proof fn lemma_split_places_new_block(
    m: BlockMapView,
    m2: BlockMapView,
    m3: BlockMapView,
    m4: BlockMapView,
    m5: BlockMapView,
    m6: BlockMapView,
    pv: crate::blocks::standard_blocks::StandardBlockView,
    uv: crate::blocks::standard_blocks::StandardBlockView,
    nv: crate::blocks::standard_blocks::StandardBlockView,
    ppv: BlockView,
    i: int,
    ids: Seq<String>,
)
    requires
        forall|k: Seq<char>| #[trigger] m.contains_key(k) ==> m[k].id() == k,
        all_inline(m, pv.inline_blocks()),
        ids.len() >= 2,
        !m.contains_key(ids[ids.len() - 1]@),
        !m.contains_key(ids[ids.len() - 2]@),
        0 <= i < pv.inline_blocks().len(),
        uv == pv.with_inline_blocks(pv.inline_blocks().take(i + 1)).with_children(Seq::empty()),
        nv.id == ids[ids.len() - 2]@,
        nv.inline_blocks() == seq![ids[ids.len() - 1]@] + pv.inline_blocks().skip(i + 1),
        nv.children == pv.children,
        nv.parent == pv.parent,
        m2 == reparent(m, pv.children, nv.id),
        m.contains_key(pv.parent),
        !(m[pv.parent] is Inline),
        ppv == m2[pv.parent].with_children(splice_spec(
            m2[pv.parent].children(),
            crate::blocks::tree::child_index(m, pv.parent, pv.id) + 1,
            crate::blocks::tree::child_index(m, pv.parent, pv.id) + 1,
            seq![nv.id],
        )),
        0 <= crate::blocks::tree::child_index(m, pv.parent, pv.id) < m[pv.parent].children().len(),
        m3.contains_key(ppv.id()) && m3[ppv.id()] == ppv,
        m4 == reparent(m3, nv.inline_blocks(), nv.id),
        cleaned(m4, m5, uv),
        cleaned(m5, m6, nv),
        std_block_of(m, pv.id) == Some(pv),
    ensures
        std_block_of(m6, nv.id) is Some && std_block_of(m6, nv.id)->0.content.kind == nv.content.kind
            && std_block_of(m6, nv.id)->0.children == pv.children && std_block_of(m6, nv.id)->0.parent == pv.parent
            && std_block_of(m6, nv.id)->0.content.completed == nv.content.completed,
        std_block_of(m6, pv.id) is Some && std_block_of(m6, pv.id)->0.children.len() == 0,
        pv.parent != pv.id ==> m6.contains_key(pv.parent) && m6[pv.parent].children() == m[pv.parent].children().insert(
            crate::blocks::tree::child_index(m, pv.parent, pv.id) + 1,
            nv.id,
        ),
{
    let pp = pv.parent;
    let ci = crate::blocks::tree::child_index(m, pp, pv.id);
    assert(m2[pp].children() == m[pp].children());
    assert(m2[pp].id() == pp);
    assert(ppv.id() == pp);
    assert(splice_spec(m[pp].children(), ci + 1, ci + 1, seq![nv.id]) =~= m[pp].children().insert(ci + 1, nv.id));
    assert(m3[pp] == ppv);
    assert(m4[pp].children() == ppv.children());
    assert(nv.id != pv.id);
    if pp != pv.id {
        assert(!uv.inline_blocks().contains(pp)) by {
            if uv.inline_blocks().contains(pp) {
                let j = choose|j: int| 0 <= j < uv.inline_blocks().len() && uv.inline_blocks()[j] == pp;
                assert(uv.inline_blocks()[j] == pv.inline_blocks()[j]);
                assert(inline_block_of(m, pv.inline_blocks()[j]) is Some);
            }
        }
        assert(m4.contains_key(pp));
        assert(m5[pp] == m4[pp]);
        assert(pp != nv.id);
        assert(!nv.inline_blocks().contains(pp)) by {
            if nv.inline_blocks().contains(pp) {
                let j = choose|j: int| 0 <= j < nv.inline_blocks().len() && nv.inline_blocks()[j] == pp;
                if j > 0 {
                    assert(nv.inline_blocks()[j] == pv.inline_blocks()[j + i]);
                    assert(inline_block_of(m, pv.inline_blocks()[j + i]) is Some);
                }
            }
        }
        assert(m6[pp] == m5[pp]);
    }
}

/// Before the two blocks are cleaned: the inline blocks up to the caret,
/// and those of the new block, are inline blocks with the texts that the
/// split gives them.
proof fn lemma_split_texts_before_clean(
    m: BlockMapView,
    m2: BlockMapView,
    m3: BlockMapView,
    m4: BlockMapView,
    fv: crate::blocks::inline_blocks::InlineBlockView,
    first: crate::blocks::inline_blocks::InlineBlockView,
    second: crate::blocks::inline_blocks::InlineBlockView,
    pv: crate::blocks::standard_blocks::StandardBlockView,
    uv: crate::blocks::standard_blocks::StandardBlockView,
    nv: crate::blocks::standard_blocks::StandardBlockView,
    ppv: BlockView,
    i: int,
    ids: Seq<String>,
)
    requires
        forall|k: Seq<char>| #[trigger] m.contains_key(k) ==> m[k].id() == k,
        inline_block_of(m, fv.id) == Some(fv),
        std_block_of(m, fv.parent) == Some(pv),
        pv.has_content(),
        distinct_apart(pv.inline_blocks(), pv.id),
        all_inline(m, pv.inline_blocks()),
        ids.len() >= 2,
        !m.contains_key(ids[ids.len() - 1]@),
        !m.contains_key(ids[ids.len() - 2]@),
        ids[ids.len() - 1]@ != ids[ids.len() - 2]@,
        first.id == fv.id,
        first.parent == fv.parent,
        second.id == ids[ids.len() - 1]@,
        first.text + second.text == fv.text,
        0 <= i < pv.inline_blocks().len(),
        pv.inline_blocks()[i] == fv.id,
        uv == pv.with_inline_blocks(pv.inline_blocks().take(i + 1)).with_children(Seq::empty()),
        nv.id == ids[ids.len() - 2]@,
        nv.inline_blocks() == seq![second.id] + pv.inline_blocks().skip(i + 1),
        nv.children == pv.children,
        forall|j: int| 0 <= j < pv.children.len() ==> std_block_of(m, #[trigger] pv.children[j]) is Some,
        m2 == reparent(m, pv.children, nv.id),
        !(ppv is Inline),
        m2.contains_key(ppv.id()),
        !(m2[ppv.id()] is Inline),
        m3 == m2.insert(first.id, BlockView::Inline(first)).insert(second.id, BlockView::Inline(second)).insert(ppv.id(), ppv),
        m4 == reparent(m3, nv.inline_blocks(), nv.id),
    ensures
        all_inline(m4, uv.inline_blocks()),
        all_inline(m4, nv.inline_blocks()),
        distinct_apart(uv.inline_blocks(), uv.id),
        distinct_apart(nv.inline_blocks(), nv.id),
        uv.has_content(),
        uv.id == pv.id,
        texts(m4, uv.inline_blocks()) + texts(m4, nv.inline_blocks()) == texts(m, pv.inline_blocks()),
        texts(m4, uv.inline_blocks()) == texts(m, pv.inline_blocks().take(i)) + first.text,
        texts(m4, nv.inline_blocks()) == second.text + texts(m, pv.inline_blocks().skip(i + 1)),
{
    let ps = pv.inline_blocks();
    let head = ps.take(i);
    let tail = ps.skip(i + 1);
    assert(uv.inline_blocks() =~= head + seq![fv.id]);
    assert(ps =~= head + seq![fv.id] + tail);
    assert forall|k: int| 0 <= k < ps.len() implies m.contains_key(#[trigger] ps[k]) && m[ps[k]] is Inline by {
        assert(inline_block_of(m, ps[k]) is Some);
    }
    // what each map holds under the ids of `ps`, and the fresh ones
    assert forall|k: Seq<char>| ps.contains(k) && k != fv.id implies inline_block_of(m4, k) == Some(
        inline_block_of(m, k)->0.with_parent(if nv.inline_blocks().contains(k) { nv.id } else { inline_block_of(m, k)->0.parent }),
    ) by {
        let j = choose|j: int| 0 <= j < ps.len() && ps[j] == k;
        assert(m[k] is Inline);
        assert(!pv.children.contains(k)) by {
            if pv.children.contains(k) {
                let c = choose|c: int| 0 <= c < pv.children.len() && pv.children[c] == k;
                assert(std_block_of(m, pv.children[c]) is Some);
            }
        }
        assert(m2[k] == m[k]);
        assert(k != ppv.id());
        assert(k != second.id);
        assert(m3[k] == m[k]);
        if nv.inline_blocks().contains(k) {
            assert(m4[k] == with_parent_view(m3[k], nv.id));
        }
    }
    assert(m4.contains_key(fv.id) && m4[fv.id] == BlockView::Inline(first)) by {
        assert(fv.id != second.id);
        assert(m.contains_key(fv.id) && m[fv.id] is Inline);
        assert(m2.contains_key(ppv.id()));
        assert(fv.id != ppv.id()) by {
            if fv.id == ppv.id() {
                assert(m2[fv.id] is Inline);
            }
        }
        assert(!nv.inline_blocks().contains(fv.id)) by {
            if nv.inline_blocks().contains(fv.id) {
                let j = choose|j: int| 0 <= j < nv.inline_blocks().len() && nv.inline_blocks()[j] == fv.id;
                if j == 0 {
                    assert(!m.contains_key(second.id));
                } else {
                    assert(nv.inline_blocks()[j] == ps[i + j]);
                }
            }
        }
    }
    assert(m4.contains_key(second.id) && m4[second.id] == BlockView::Inline(second.with_parent(nv.id))) by {
        assert(second.id != ppv.id());
        assert(nv.inline_blocks()[0] == second.id);
    }
    assert forall|k: int| 0 <= k < head.len() implies text_of(m4, #[trigger] head[k]) == text_of(m, head[k]) by {
        assert(head[k] == ps[k]);
        assert(ps.contains(ps[k]));
    }
    assert forall|k: int| 0 <= k < tail.len() implies text_of(m4, #[trigger] tail[k]) == text_of(m, tail[k]) by {
        assert(tail[k] == ps[k + i + 1]);
        assert(ps.contains(ps[k + i + 1]));
    }
    lemma_texts_frame(m4, m, head);
    lemma_texts_frame(m4, m, tail);
    lemma_texts_append(m4, head, seq![fv.id]);
    lemma_texts_single(m4, fv.id);
    lemma_texts_append(m4, seq![second.id], tail);
    lemma_texts_single(m4, second.id);
    lemma_texts_append(m, head + seq![fv.id], tail);
    lemma_texts_append(m, head, seq![fv.id]);
    lemma_texts_single(m, fv.id);
    assert forall|k: int| 0 <= k < uv.inline_blocks().len() implies inline_block_of(m4, #[trigger] uv.inline_blocks()[k]) is Some by {
        if k < i {
            assert(uv.inline_blocks()[k] == ps[k]);
            assert(ps.contains(ps[k]));
        }
    }
    assert forall|k: int| 0 <= k < nv.inline_blocks().len() implies inline_block_of(m4, #[trigger] nv.inline_blocks()[k]) is Some by {
        if k > 0 {
            assert(nv.inline_blocks()[k] == ps[k + i]);
            assert(ps.contains(ps[k + i]));
        }
    }
    assert forall|x: int, y: int| 0 <= x < y < nv.inline_blocks().len() implies nv.inline_blocks()[x] != nv.inline_blocks()[y] by {
        if x == 0 {
            assert(nv.inline_blocks()[y] == ps[y + i]);
        } else {
            assert(nv.inline_blocks()[x] == ps[x + i] && nv.inline_blocks()[y] == ps[y + i]);
        }
    }
    assert(!nv.inline_blocks().contains(nv.id)) by {
        if nv.inline_blocks().contains(nv.id) {
            let j = choose|j: int| 0 <= j < nv.inline_blocks().len() && nv.inline_blocks()[j] == nv.id;
            if j > 0 {
                assert(nv.inline_blocks()[j] == ps[j + i]);
            }
        }
    }
    assert(!uv.inline_blocks().contains(uv.id)) by {
        if uv.inline_blocks().contains(uv.id) {
            let j = choose|j: int| 0 <= j < uv.inline_blocks().len() && uv.inline_blocks()[j] == uv.id;
            assert(uv.inline_blocks()[j] == ps[j]);
        }
    }
}

/// The view of a block with its parent set: the spec of `reparent`.
pub open spec fn with_parent_view(b: BlockView, p: Seq<char>) -> BlockView {
    crate::blocks::tree::with_parent(b, p)
}

/// Cleaning the upper block leaves the inline blocks of the new block as
/// they were.
proof fn lemma_split_between_cleans(
    m: BlockMapView,
    m4: BlockMapView,
    m5: BlockMapView,
    pv: crate::blocks::standard_blocks::StandardBlockView,
    uv: crate::blocks::standard_blocks::StandardBlockView,
    nv: crate::blocks::standard_blocks::StandardBlockView,
    i: int,
    ids: Seq<String>,
)
    requires
        cleaned(m4, m5, uv),
        uv.id == pv.id,
        all_inline(m4, nv.inline_blocks()),
        distinct_apart(pv.inline_blocks(), pv.id),
        0 <= i < pv.inline_blocks().len(),
        uv.inline_blocks() == pv.inline_blocks().take(i + 1),
        nv.inline_blocks() == seq![nv.inline_blocks()[0]] + pv.inline_blocks().skip(i + 1),
        !pv.inline_blocks().contains(nv.inline_blocks()[0]),
        nv.inline_blocks()[0] != pv.id,
    ensures
        all_inline(m5, nv.inline_blocks()),
        texts(m5, nv.inline_blocks()) == texts(m4, nv.inline_blocks()),
{
    let ps = pv.inline_blocks();
    assert forall|k: int| 0 <= k < nv.inline_blocks().len() implies #[trigger] m5.contains_key(nv.inline_blocks()[k])
        && m5[nv.inline_blocks()[k]] == m4[nv.inline_blocks()[k]] by {
        let x = nv.inline_blocks()[k];
        assert(inline_block_of(m4, x) is Some);
        if k > 0 {
            assert(x == ps[k + i]);
            assert(x != pv.id) by {
                assert(ps.contains(ps[k + i]));
            }
            assert(!uv.inline_blocks().contains(x)) by {
                if uv.inline_blocks().contains(x) {
                    let j = choose|j: int| 0 <= j < uv.inline_blocks().len() && uv.inline_blocks()[j] == x;
                    assert(uv.inline_blocks()[j] == ps[j]);
                }
            }
        } else {
            assert(!uv.inline_blocks().contains(x)) by {
                if uv.inline_blocks().contains(x) {
                    let j = choose|j: int| 0 <= j < uv.inline_blocks().len() && uv.inline_blocks()[j] == x;
                    assert(uv.inline_blocks()[j] == ps[j]);
                    assert(ps.contains(ps[j]));
                }
            }
        }
    }
    assert forall|k: int| 0 <= k < nv.inline_blocks().len() implies text_of(m5, #[trigger] nv.inline_blocks()[k]) == text_of(m4, nv.inline_blocks()[k]) by {
        assert(m5[nv.inline_blocks()[k]] == m4[nv.inline_blocks()[k]]);
    }
    lemma_texts_frame(m5, m4, nv.inline_blocks());
}

/// Cleaning the new block leaves the upper block as it was after its own
/// cleaning; together their texts are the text before the split.
proof fn lemma_split_after_cleans(
    m: BlockMapView,
    m4: BlockMapView,
    m5: BlockMapView,
    m6: BlockMapView,
    pv: crate::blocks::standard_blocks::StandardBlockView,
    uv: crate::blocks::standard_blocks::StandardBlockView,
    nv: crate::blocks::standard_blocks::StandardBlockView,
    i: int,
    ids: Seq<String>,
)
    requires
        cleaned(m4, m5, uv),
        cleaned(m5, m6, nv),
        uv.id == pv.id,
        nv.id == ids[ids.len() - 2]@,
        ids.len() >= 2,
        nv.id != pv.id,
        distinct_apart(pv.inline_blocks(), pv.id),
        0 <= i < pv.inline_blocks().len(),
        uv.inline_blocks() == pv.inline_blocks().take(i + 1),
        nv.inline_blocks() == seq![nv.inline_blocks()[0]] + pv.inline_blocks().skip(i + 1),
        !pv.inline_blocks().contains(nv.inline_blocks()[0]),
        !pv.inline_blocks().contains(nv.id),
        nv.inline_blocks()[0] != pv.id,
        texts(m5, nv.inline_blocks()) == texts(m4, nv.inline_blocks()),
        texts(m4, uv.inline_blocks()) + texts(m4, nv.inline_blocks()) == texts(m, pv.inline_blocks()),
    ensures
        texts(m6, std_block_of(m6, pv.id)->0.inline_blocks()) + texts(m6, std_block_of(m6, nv.id)->0.inline_blocks()) == texts(
            m,
            pv.inline_blocks(),
        ),
        texts(m6, std_block_of(m6, pv.id)->0.inline_blocks()) == texts(m4, uv.inline_blocks()),
        texts(m6, std_block_of(m6, nv.id)->0.inline_blocks()) == texts(m4, nv.inline_blocks()),
{
    let ps = pv.inline_blocks();
    let u2 = std_block_of(m5, uv.id)->0.inline_blocks();
    assert(!nv.inline_blocks().contains(pv.id)) by {
        if nv.inline_blocks().contains(pv.id) {
            let j = choose|j: int| 0 <= j < nv.inline_blocks().len() && nv.inline_blocks()[j] == pv.id;
            if j > 0 {
                assert(nv.inline_blocks()[j] == ps[j + i]);
            }
        }
    }
    assert(m5.contains_key(pv.id));
    assert(m6[pv.id] == m5[pv.id]);
    assert(std_block_of(m6, pv.id) == std_block_of(m5, pv.id));
    assert forall|k: int| 0 <= k < u2.len() implies text_of(m6, #[trigger] u2[k]) == text_of(m5, u2[k]) by {
        let x = u2[k];
        assert(uv.inline_blocks().contains(x));
        let j = choose|j: int| 0 <= j < uv.inline_blocks().len() && uv.inline_blocks()[j] == x;
        assert(x == ps[j]);
        assert(x != nv.id) by {
            assert(ps.contains(ps[j]));
        }
        assert(!nv.inline_blocks().contains(x)) by {
            if nv.inline_blocks().contains(x) {
                let a = choose|a: int| 0 <= a < nv.inline_blocks().len() && nv.inline_blocks()[a] == x;
                if a == 0 {
                    assert(ps.contains(ps[j]));
                } else {
                    assert(nv.inline_blocks()[a] == ps[a + i]);
                }
            }
        }
        if m5.contains_key(x) {
            assert(m6[x] == m5[x]);
        }
    }
    lemma_texts_frame(m6, m5, u2);
}

} // verus!
