use vstd::prelude::*;

use crate::blocks::{BlockMap, BlockMapView, BlockView, copy_ids, inline_block_of, nearest_standard, std_block_of, extends, ids_view, index_of_id, lemma_index_of_id, splice_spec};
use crate::blocks::standard_blocks::{StandardBlock, StandardBlockView};
use crate::blocks::tree::{child_index, down_last, reparent};
use crate::new_ids::NewIds;
use crate::steps_actualisor::{CustomCopy, UpdatedState, all_inline, clean_block_after_transform, cleaned, distinct_apart, text_of, texts};
use crate::steps_generator::{StepError, step_error_msg};
use crate::steps_generator::selection::{Layer, Selection, SubSelection, end_inline, lemma_layers_len};
use crate::utilities::{BlockStructure, BlocksBetween, Tree, get_blocks_between};
use crate::utilities::renaming::{fresh_for, lemma_renamed_all_fresh, lemma_renamed_map_at, lemma_renamed_map_keys, lemma_renamed_old, reassigned, renamed, renamed_block, renamed_map, renamed_standard, taken_ids};
use crate::utilities::update_state_tools::{splice_children, splice_children_on_std_block, splice_inline_blocks, split_inline_block};

verus! {

/// Puts the blocks between `from` and `to` on the clipboard, as a tree; the
/// document is left as it is.
pub fn actualise_copy(
    copy: CustomCopy,
    from: SubSelection,
    to: SubSelection,
    block_map: BlockMap,
    new_ids: &mut NewIds,
    blocks_to_update: Vec<String>,
) -> (r: Result<UpdatedState, StepError>)
    ensures
        *final(new_ids) == *old(new_ids),
        crate::utilities::one_block_under_root(block_map@, from, to) ==> r is Ok,
        r matches Ok(s) ==> s.block_map == block_map && s.blocks_to_update == blocks_to_update
            && s.selection is Some && s.selection->0.anchor == from && s.selection->0.head == to
            && s.copy is Some && s.blocks_to_remove@.len() == 0,
{
    let blocks_between = get_blocks_between(&from, &to, BlockStructure::Tree, &block_map)?;
    let copy = match blocks_between {
        BlocksBetween::Tree { top_blocks, block_map: tree_map } => copy.update(Tree { top_blocks, block_map: tree_map })?,
        BlocksBetween::Flat(_) => return Err(step_error_msg("Should get blocks as tree")),
    };
    return Ok(UpdatedState {
        block_map,
        selection: Some(Selection { anchor: from, head: to }),
        blocks_to_update,
        blocks_to_remove: Vec::new(),
        copy: Some(copy),
    })
}

/// Splicing distinct new ids into distinct ids keeps them distinct, and
/// brings in no other id.
proof fn lemma_splice_distinct(s: Seq<Seq<char>>, i: int, ins: Seq<Seq<char>>)
    requires
        0 <= i <= s.len(),
        s.no_duplicates(),
        ins.no_duplicates(),
        forall|j: int| 0 <= j < ins.len() ==> !s.contains(#[trigger] ins[j]),
    ensures
        splice_spec(s, i, i, ins).no_duplicates(),
        forall|y: Seq<char>| #[trigger] splice_spec(s, i, i, ins).contains(y) ==> s.contains(y) || ins.contains(y),
{
    let r = splice_spec(s, i, i, ins);
    assert forall|a: int, b: int| 0 <= a < r.len() && 0 <= b < r.len() && a != b implies r[a] != r[b] by {
        if a < i {
            assert(r[a] == s[a]);
        } else if a < i + ins.len() {
            assert(r[a] == ins[a - i]);
        } else {
            assert(r[a] == s[a - ins.len()]);
        }
        if b < i {
            assert(r[b] == s[b]);
        } else if b < i + ins.len() {
            assert(r[b] == ins[b - i]);
        } else {
            assert(r[b] == s[b - ins.len()]);
        }
        if a < i && b >= i + ins.len() {
            assert(s[a] != s[b - ins.len()]);
        }
        if b < i && a >= i + ins.len() {
            assert(s[b] != s[a - ins.len()]);
        }
        if a < i && i <= b < i + ins.len() {
            assert(s.contains(s[a]));
        }
        if b < i && i <= a < i + ins.len() {
            assert(s.contains(s[b]));
        }
        if a >= i + ins.len() && i <= b < i + ins.len() {
            assert(s.contains(s[a - ins.len()]));
        }
        if b >= i + ins.len() && i <= a < i + ins.len() {
            assert(s.contains(s[b - ins.len()]));
        }
    }
    assert forall|y: Seq<char>| #[trigger] r.contains(y) implies s.contains(y) || ins.contains(y) by {
        let a = choose|a: int| 0 <= a < r.len() && r[a] == y;
        if a < i {
            assert(r[a] == s[a]);
        } else if a < i + ins.len() {
            assert(r[a] == ins[a - i]);
        } else {
            assert(r[a] == s[a - ins.len()]);
        }
    }
}

/// Texts read the same from two lists of ids whose blocks, one by one, have
/// the same texts.
proof fn lemma_texts_pointwise(m1: BlockMapView, s1: Seq<Seq<char>>, m2: BlockMapView, s2: Seq<Seq<char>>)
    requires
        s1.len() == s2.len(),
        forall|j: int| 0 <= j < s1.len() ==> text_of(m1, #[trigger] s1[j]) == text_of(m2, s2[j]),
    ensures
        texts(m1, s1) == texts(m2, s2),
    decreases s1.len(),
{
    if s1.len() > 0 {
        let a = s1.drop_last();
        let b = s2.drop_last();
        assert forall|j: int| 0 <= j < a.len() implies text_of(m1, #[trigger] a[j]) == text_of(m2, b[j]) by {
            assert(a[j] == s1[j] && b[j] == s2[j]);
        }
        lemma_texts_pointwise(m1, a, m2, b);
        assert(text_of(m1, s1[s1.len() - 1]) == text_of(m2, s2[s2.len() - 1]));
    }
}

/// The text of the block of the caret after a paste: the text before the
/// caret, the copied text, then the text after the caret.
proof fn lemma_paste_text(
    m0: BlockMapView,
    tm: BlockMapView,
    ma: BlockMapView,
    mc: BlockMapView,
    m4: BlockMapView,
    p: StandardBlockView,
    p2: StandardBlockView,
    ids: Seq<Seq<char>>,
    i: int,
    dt: Seq<u16>,
    o: int,
    fids: Seq<Seq<char>>,
    fo: Seq<Seq<char>>,
    fresh: Seq<char>,
)
    requires
        ids.no_duplicates(),
        0 <= i < ids.len(),
        p2.id == p.id,
        p2.inline_blocks() == splice_spec(ids, i + 1, i + 1, fids.push(fresh)),
        cleaned(mc, m4, p2),
        forall|j: int| 0 <= j < p2.inline_blocks().len() ==> text_of(mc, #[trigger] p2.inline_blocks()[j]) == text_of(ma, p2.inline_blocks()[j]),
        text_of(ma, ids[i]) == dt.take(o),
        text_of(ma, fresh) == dt.skip(o),
        forall|j: int| 0 <= j < ids.len() && j != i ==> text_of(ma, #[trigger] ids[j]) == text_of(m0, ids[j]),
        fids.len() == fo.len(),
        forall|j: int| 0 <= j < fids.len() ==> text_of(ma, #[trigger] fids[j]) == text_of(tm, fo[j]),
    ensures
        std_block_of(m4, p.id) is Some,
        texts(m4, std_block_of(m4, p.id)->0.inline_blocks()) == texts(m0, ids.take(i)) + dt.take(o) + texts(tm, fo) + dt.skip(o) + texts(
            m0,
            ids.skip(i + 1),
        ),
{
    let ids2 = p2.inline_blocks();
    let before = ids.take(i);
    let after = ids.skip(i + 1);
    assert forall|j: int| 0 <= j < ids2.len() implies text_of(mc, #[trigger] ids2[j]) == text_of(ma, ids2[j]) by {}
    lemma_texts_pointwise(mc, ids2, ma, ids2);
    assert(ids2 =~= before + seq![ids[i]] + fids + seq![fresh] + after);
    crate::steps_actualisor::lemma_texts_append(ma, before + seq![ids[i]] + fids + seq![fresh], after);
    crate::steps_actualisor::lemma_texts_append(ma, before + seq![ids[i]] + fids, seq![fresh]);
    crate::steps_actualisor::lemma_texts_append(ma, before + seq![ids[i]], fids);
    crate::steps_actualisor::lemma_texts_append(ma, before, seq![ids[i]]);
    crate::steps_actualisor::lemma_texts_single(ma, ids[i]);
    crate::steps_actualisor::lemma_texts_single(ma, fresh);
    assert forall|j: int| 0 <= j < before.len() implies text_of(ma, #[trigger] before[j]) == text_of(m0, before[j]) by {
        assert(before[j] == ids[j]);
    }
    lemma_texts_pointwise(ma, before, m0, before);
    assert forall|j: int| 0 <= j < after.len() implies text_of(ma, #[trigger] after[j]) == text_of(m0, after[j]) by {
        assert(after[j] == ids[j + i + 1]);
    }
    lemma_texts_pointwise(ma, after, m0, after);
    lemma_texts_pointwise(ma, fids, tm, fo);
    assert(texts(m0, before) + dt.take(o) + texts(tm, fo) + dt.skip(o) + texts(m0, after) =~= texts(ma, ids2));
}

/// `m2` holds what `m` holds under every id but `d`, `pid`, `fresh` and
/// the ids `fids`.
#[verifier::opaque]
pub open spec fn kept_apart(
    m: BlockMapView,
    m2: BlockMapView,
    d: Seq<char>,
    pid: Seq<char>,
    fresh: Seq<char>,
    fids: Seq<Seq<char>>,
) -> bool {
    forall|k: Seq<char>|
        k != d && k != pid && k != fresh && !fids.contains(k) ==> (#[trigger] m2.contains_key(k) <==> m.contains_key(k)) && (
        m.contains_key(k) ==> m2[k] == m[k])
}

/// Where the pasted blocks end up: from the maps after each stage of
/// `actualise_paste`, the block `p` of the caret takes the children `fc`
/// of the first copied block before its own, and its parent takes `rest`
/// just after `p`.
proof fn lemma_paste_places(
    m0: BlockMapView,
    m1: BlockMapView,
    ma: BlockMapView,
    mb: BlockMapView,
    mc: BlockMapView,
    m4: BlockMapView,
    p: StandardBlockView,
    p1: StandardBlockView,
    p2: StandardBlockView,
    g: BlockView,
    d: Seq<char>,
    fresh: Seq<char>,
    fids: Seq<Seq<char>>,
    fc: Seq<Seq<char>>,
    rest: Seq<Seq<char>>,
    i: int,
    idx: int,
)
    requires
        forall|k: Seq<char>| #[trigger] m0.contains_key(k) ==> m1.contains_key(k) && m1[k] == m0[k],
        m0.contains_key(p.id),
        m0.contains_key(p.parent),
        p.parent != p.id,
        distinct_apart(p.inline_blocks(), p.id),
        all_inline(m0, p.inline_blocks()),
        0 <= i < p.inline_blocks().len(),
        p.inline_blocks()[i] == d,
        fids.no_duplicates(),
        forall|j: int| 0 <= j < fids.len() ==> !m0.contains_key(#[trigger] fids[j]),
        !fids.contains(fresh),
        !m0.contains_key(fresh),
        kept_apart(m1, ma, d, p.id, fresh, fids),
        all_inline(ma, p1.inline_blocks()),
        p1 == p.with_inline_blocks(splice_spec(p.inline_blocks(), i + 1, i + 1, fids.push(fresh))),
        p2 == p1.with_children(fc + p1.children),
        mb == reparent(ma, fc, p.id).insert(p.id, BlockView::Standard(p2)),
        mb.contains_key(p.parent),
        g == mb[p.parent],
        g.id() == p.parent,
        g.has_children(),
        idx == child_index(mb, p.parent, p.id),
        idx >= 0,
        mc == reparent(mb, rest, g.id()).insert(g.id(), g.with_children(splice_spec(g.children(), idx + 1, idx + 1, rest))),
        distinct_apart(p2.inline_blocks(), p.id) && all_inline(mc, p2.inline_blocks()) ==> cleaned(mc, m4, p2),
    ensures
        std_block_of(m4, p.id) matches Some(q) && q.children == fc + p.children,
        idx == child_index(m0, p.parent, p.id),
        m4.contains_key(p.parent) && m4[p.parent].children() == splice_spec(m0[p.parent].children(), idx + 1, idx + 1, rest),
        cleaned(mc, m4, p2),
        forall|j: int| 0 <= j < p2.inline_blocks().len() ==> text_of(mc, #[trigger] p2.inline_blocks()[j]) == text_of(ma, p2.inline_blocks()[j]),
{
    reveal(kept_apart);
    let ids = p.inline_blocks();
    let ins = fids.push(fresh);
    assert(ins.no_duplicates()) by {
        assert forall|a: int, b: int| 0 <= a < ins.len() && 0 <= b < ins.len() && a != b implies ins[a] != ins[b] by {
            if a < fids.len() && b < fids.len() {
                assert(fids[a] != fids[b]);
            } else if a < fids.len() {
                assert(fids.contains(fids[a]));
            } else if b < fids.len() {
                assert(fids.contains(fids[b]));
            }
        }
    }
    assert forall|j: int| 0 <= j < ins.len() implies !ids.contains(#[trigger] ins[j]) by {
        if ids.contains(ins[j]) {
            let a = choose|a: int| 0 <= a < ids.len() && ids[a] == ins[j];
            assert(inline_block_of(m0, ids[a]) is Some);
            if j < fids.len() {
                assert(!m0.contains_key(fids[j]));
            }
        }
    }
    lemma_splice_distinct(ids, i + 1, ins);
    let ids2 = p2.inline_blocks();
    assert(ids2 == splice_spec(ids, i + 1, i + 1, ins));
    assert(!ids2.contains(p.id)) by {
        if ids2.contains(p.id) {
            if ins.contains(p.id) {
                let j = choose|j: int| 0 <= j < ins.len() && ins[j] == p.id;
                if j < fids.len() {
                    assert(!m0.contains_key(fids[j]));
                }
            }
        }
    }
    // p.parent is none of the ids that change
    assert(p.parent != fresh);
    assert(!fids.contains(p.parent)) by {
        if fids.contains(p.parent) {
            let j = choose|j: int| 0 <= j < fids.len() && fids[j] == p.parent;
        }
    }
    assert(!(mb[p.parent] is Inline));
    assert(p.parent != d) by {
        if p.parent == d {
            assert(p1.inline_blocks()[i] == d);
            assert(inline_block_of(ma, p1.inline_blocks()[i]) is Some);
            assert(mb[d] is Inline);
        }
    }
    assert(ma[p.parent] == m1[p.parent]);
    assert(mb[p.parent].children() == m0[p.parent].children());
    // the ids of p2 are inline blocks of mc
    assert(!ids2.contains(p.parent)) by {
        if ids2.contains(p.parent) {
            let j = choose|j: int| 0 <= j < ids2.len() && ids2[j] == p.parent;
            assert(inline_block_of(ma, ids2[j]) is Some);
        }
    }
    assert forall|j: int| 0 <= j < ids2.len() implies inline_block_of(mc, #[trigger] ids2[j]) is Some && text_of(mc, ids2[j]) == text_of(ma, ids2[j]) by {
        assert(inline_block_of(ma, ids2[j]) is Some);
        assert(ids2[j] != p.id);
        assert(ids2[j] != p.parent);
    }
    assert(cleaned(mc, m4, p2));
    assert(mc.contains_key(p.parent));
    assert(m4[p.parent] == mc[p.parent]);
}

/// A block without children is the only block that going down last
/// children from it reaches.
proof fn lemma_down_last_childless(m: BlockMapView, b: StandardBlockView, n: nat)
    requires
        b.children.len() == 0,
    ensures
        down_last(m, b, n) == (if n == 0 { Some(b) } else { None::<StandardBlockView> }),
    decreases n,
{
    if n > 0 {
        lemma_down_last_childless(m, b, (n - 1) as nat);
    }
}

/// A block of the copied tree stands, renamed, under its new id in the
/// document that the renamed tree was added to.
proof fn lemma_pasted_block(
    m0: BlockMapView,
    tm0: BlockMapView,
    olds: Seq<Seq<char>>,
    news: Seq<Seq<char>>,
    m1: BlockMapView,
    k: Seq<char>,
)
    requires
        olds.len() == news.len(),
        olds.no_duplicates(),
        news.no_duplicates(),
        olds.to_set() == tm0.dom(),
        forall|x: Seq<char>| #[trigger] tm0.contains_key(x) ==> tm0[x].id() == x,
        m1 == m0.union_prefer_right(renamed_map(tm0, olds, news)),
        tm0.contains_key(k),
    ensures
        m1.contains_key(renamed(olds, news, k)),
        m1[renamed(olds, news, k)] == renamed_block(olds, news, tm0[k]),
        exists|a: int| 0 <= a < olds.len() && olds[a] == k && news[a] == renamed(olds, news, k),
{
    assert(olds.to_set().contains(k));
    let a = choose|a: int| 0 <= a < olds.len() && olds[a] == k;
    assert forall|i: int| 0 <= i < olds.len() implies tm0.contains_key(#[trigger] olds[i]) by {
        assert(olds.to_set().contains(olds[i]));
    }
    lemma_renamed_old(olds, news, a);
    lemma_renamed_map_at(tm0, olds, news, a);
}

/// A standard block of the copied tree stands, renamed, under a fresh id
/// in the document after the inline blocks were pasted: its new id is none
/// of the ids that the paste of the inline blocks changed.
proof fn lemma_pasted_std(
    m0: BlockMapView,
    tm0: BlockMapView,
    olds: Seq<Seq<char>>,
    news: Seq<Seq<char>>,
    m1: BlockMapView,
    ma: BlockMapView,
    t1: Seq<Seq<char>>,
    fo: Seq<Seq<char>>,
    d: Seq<char>,
    pid: Seq<char>,
    k: Seq<char>,
)
    requires
        olds.len() == news.len(),
        olds.no_duplicates(),
        olds.to_set() == tm0.dom(),
        forall|x: Seq<char>| #[trigger] tm0.contains_key(x) ==> tm0[x].id() == x,
        m1 == m0.union_prefer_right(renamed_map(tm0, olds, news)),
        t1.len() == news.len() + 1,
        forall|j: int| 0 <= j < news.len() ==> #[trigger] news[j] == t1[j],
        t1.no_duplicates(),
        forall|j: int| 0 <= j < t1.len() ==> !m0.contains_key(#[trigger] t1[j]),
        m0.contains_key(d),
        m0.contains_key(pid),
        forall|j: int| 0 <= j < fo.len() ==> inline_block_of(tm0, #[trigger] fo[j]) is Some,
        kept_apart(m1, ma, d, pid, t1[news.len() as int], crate::utilities::renaming::renamed_all(olds, news, fo)),
        std_block_of(tm0, k) is Some,
    ensures
        std_block_of(ma, renamed(olds, news, k)) == Some(renamed_standard(olds, news, tm0[k]->Standard_0)),
        !m0.contains_key(renamed(olds, news, k)),
{
    reveal(kept_apart);
    assert(news.no_duplicates()) by {
        assert forall|a: int, b: int| 0 <= a < news.len() && 0 <= b < news.len() && a != b implies news[a] != news[b] by {
            assert(news[a] == t1[a] && news[b] == t1[b]);
        }
    }
    lemma_pasted_block(m0, tm0, olds, news, m1, k);
    let a = choose|a: int| 0 <= a < olds.len() && olds[a] == k && news[a] == renamed(olds, news, k);
    let rk = renamed(olds, news, k);
    assert(rk == t1[a]);
    assert(!m0.contains_key(rk));
    assert(rk != t1[news.len() as int]);
    let fids = crate::utilities::renaming::renamed_all(olds, news, fo);
    assert(!fids.contains(rk)) by {
        if fids.contains(rk) {
            let x = choose|x: int| 0 <= x < fids.len() && fids[x] == rk;
            let y = fo[x];
            assert(inline_block_of(tm0, y) is Some);
            lemma_pasted_block(m0, tm0, olds, news, m1, y);
            let b = choose|b: int| 0 <= b < olds.len() && olds[b] == y && news[b] == renamed(olds, news, y);
            assert(news[a] == news[b]);
        }
    }
    assert(rk != d);
    assert(rk != pid);
    assert(ma.contains_key(rk) <==> m1.contains_key(rk));
    assert(ma[rk] == m1[rk]);
}

/// When a paste succeeds: the paste places the blocks cleanly
/// (`pastes_cleanly`); there are fresh ids for every copied block and one
/// more; more than one block, or a block with children, was copied; the
/// block `p` of the caret holds text, with the caret in one of its inline
/// blocks within its text, and is a child of its parent; the first copied
/// block holds text and its children are standard blocks of the copy, as
/// are the other top blocks; the last top block has no children and is, as
/// it stands in the copy, a block with text whose last inline block is
/// there.
pub open spec fn paste_succeeds(m: BlockMapView, from: SubSelection, t: Tree, ids: Seq<String>) -> bool {
    let tm = t.block_map@;
    let tops = t.top_blocks@;
    let n = tm.dom().len();
    let p = nearest_standard(m, from@[0].block_id)->0;
    let d = from@.last();
    let first = tops[0]@;
    let last = tops.last()@;
    &&& pastes_cleanly(m, from@[0].block_id, t, ids)
    &&& ids.len() >= n + 1
    &&& !(tops.len() == 1 && first.children.len() == 0)
    &&& p.has_content() && index_of_id(p.inline_blocks(), d.block_id) >= 0 && d.offset <= text_of(m, d.block_id).len()
    &&& 0 <= child_index(m, p.parent, p.id) && child_index(m, p.parent, p.id) + 1 < usize::MAX
    &&& first.has_content()
    &&& last.children.len() == 0 && std_block_of(tm, last.id) == Some(last) && last.has_content() && last.inline_blocks().len() > 0
    &&& inline_block_of(tm, last.inline_blocks().last()) is Some
    &&& forall|j: int| 0 <= j < first.children.len() ==> std_block_of(tm, #[trigger] first.children[j]) is Some
    &&& forall|i: int| 1 <= i < tops.len() ==> std_block_of(tm, #[trigger] tops[i]@.id) is Some
}

/// When `actualise_paste` promises where the blocks go: the fresh ids are
/// new to the document and differ from each other; the standard block `p`
/// of the caret and its parent are blocks of the document, `p` is not its
/// own parent, and its inline blocks are distinct inline blocks; the first
/// copied block's inline blocks are distinct blocks of the copied tree.
pub open spec fn pastes_cleanly(m: BlockMapView, id: Seq<char>, t: Tree, ids: Seq<String>) -> bool {
    let p = nearest_standard(m, id)->0;
    let f = t.top_blocks@[0]@;
    &&& t.top_blocks@.len() > 0
    &&& fresh_for(ids, t.block_map@.dom().len() + 1, m)
    &&& nearest_standard(m, id) is Some
    &&& m.contains_key(p.parent)
    &&& p.parent != p.id
    &&& distinct_apart(p.inline_blocks(), p.id)
    &&& all_inline(m, p.inline_blocks())
    &&& f.inline_blocks().no_duplicates()
    &&& forall|j: int| 0 <= j < f.inline_blocks().len() ==> inline_block_of(t.block_map@, #[trigger] f.inline_blocks()[j]) is Some
}

/// Where a paste at `from` of the tree `t` puts things, in the document
/// `s` made from `m`: the block `p` of the caret gets the first copied
/// block's children before its own; the other top blocks of the copy come
/// just after `p` among its parent's children, the children around them as
/// they were; and `p`'s text is its text before the caret, the first copied
/// block's text, and its text after the caret.
pub open spec fn pasted(m: BlockMapView, from: SubSelection, t: Tree, s: BlockMapView) -> bool {
    let p = nearest_standard(m, from@[0].block_id)->0;
    let k = t.top_blocks@[0]@.children.len();
    let i = child_index(m, p.parent, p.id);
    let gc = m[p.parent].children();
    let d = from@.last();
    let ids = p.inline_blocks();
    let j = index_of_id(ids, d.block_id);
    let dt = text_of(m, d.block_id);
    &&& std_block_of(s, p.id) matches Some(q) && q.children.len() == k + p.children.len() && q.children.skip(k as int)
        == p.children
    &&& i >= 0 && s.contains_key(p.parent) && s[p.parent].children().len() == gc.len() + t.top_blocks@.len() - 1
    &&& s[p.parent].children().take(i + 1) == gc.take(i + 1)
    &&& s[p.parent].children().skip(i + t.top_blocks@.len()) == gc.skip(i + 1)
    &&& texts(s, std_block_of(s, p.id)->0.inline_blocks()) == texts(m, ids.take(j)) + dt.take(d.offset as int) + texts(
        t.block_map@,
        t.top_blocks@[0]@.inline_blocks(),
    ) + dt.skip(d.offset as int) + texts(m, ids.skip(j + 1))
}

/// Pastes the copied blocks at `from`: the inline blocks of the first copied
/// block go in at the caret, splitting the inline block there; its children
/// become the first children of the block holding the caret; the other top
/// blocks follow that block in its parent. The copied blocks get fresh ids
/// first. The caret ends after the pasted text where one block without
/// children was copied, else at the end of the last copied block.
#[verifier::rlimit(100)]
#[verifier::spinoff_prover]
pub fn actualise_paste(
    copy: CustomCopy,
    from: SubSelection,
    block_map: BlockMap,
    new_ids: &mut NewIds,
    blocks_to_update: Vec<String>,
) -> (r: Result<UpdatedState, StepError>)
    ensures
        copy matches CustomCopy::Rust(t) && t.top_blocks@.len() == 0 ==> r is Err,
        paste_succeeds(block_map@, from, copy->Rust_0, old(new_ids).ids()) ==> r is Ok,
        copy matches CustomCopy::Rust(t) && old(new_ids).ids().len() <= t.block_map@.dom().len() ==> r is Err,
        r matches Ok(s) ==> s.copy is None && s.blocks_to_remove@.len() == 0 && s.selection is Some
            && extends(blocks_to_update@, s.blocks_to_update@),
        r is Ok ==> (copy matches CustomCopy::Rust(t) && final(new_ids).ids() == old(new_ids).ids().take(
            old(new_ids).ids().len() - t.block_map@.dom().len() - 1,
        )),
        r is Ok && pastes_cleanly(block_map@, from@[0].block_id, copy->Rust_0, old(new_ids).ids()) ==> ({
            let t = copy->Rust_0;
            let p = nearest_standard(block_map@, from@[0].block_id)->0;
            let i = child_index(block_map@, p.parent, p.id);
            let news = taken_ids(old(new_ids).ids(), t.block_map@.dom().len());
            exists|olds: Seq<Seq<char>>| #[trigger] olds.to_set() == t.block_map@.dom() && olds.len() == news.len() && forall|j: int|
                1 <= j < t.top_blocks@.len() ==> #[trigger] r->Ok_0.block_map@[p.parent].children()[i + j] == renamed(
                    olds,
                    news,
                    t.top_blocks@[j]@.id,
                )
        }),
        r is Ok && pastes_cleanly(block_map@, from@[0].block_id, copy->Rust_0, old(new_ids).ids()) ==> pasted(
            block_map@,
            from,
            copy->Rust_0,
            r->Ok_0.block_map@,
        ),
{
    let mut block_map = block_map;
    let mut blocks_to_update = blocks_to_update;
    let ghost m0 = block_map@;
    let ghost id = from@[0].block_id;
    let ghost pc = pastes_cleanly(m0, id, copy->Rust_0, new_ids.ids());
    let ghost ps = paste_succeeds(m0, from, copy->Rust_0, new_ids.ids());
    let mut copy_tree = copy.to_tree()?;
    let ghost ids0 = new_ids.ids();
    let ghost n = copy_tree.block_map@.dom().len();
    proof {
        block_map.lemma_keys_are_ids();
        copy_tree.block_map.lemma_keys_are_ids();
    }
    let ghost tm0 = copy_tree.block_map@;
    let ghost tops0 = copy_tree.top_blocks@;
    copy_tree.reassign_ids(new_ids)?;
    let ghost ids1 = new_ids.ids();
    let ghost news = taken_ids(ids0, n);
    let ghost olds = choose|o: Seq<Seq<char>>| reassigned(tm0, tops0, copy_tree.block_map@, copy_tree.top_blocks@, o, news);
    let ghost tm1 = copy_tree.block_map@;
    let ghost tops1 = copy_tree.top_blocks@;
    let ghost fresh = ids1.last()@;
    let last_block = copy_tree.get_last_block()?;
    let Tree { top_blocks, block_map: tree_map } = copy_tree;
    let mut top_blocks = top_blocks;
    block_map.add_block_map(tree_map)?;
    let ghost m1 = block_map@;
    proof {
        if pc {
            let t1 = taken_ids(ids0, n + 1);
            assert forall|j: int| 0 <= j < news.len() implies #[trigger] news[j] == t1[j] by {}
            assert(news.no_duplicates()) by {
                assert forall|a: int, b: int| 0 <= a < news.len() && 0 <= b < news.len() && a != b implies news[a] != news[b] by {
                    assert(news[a] == t1[a] && news[b] == t1[b]);
                }
            }
            assert forall|j: int| 0 <= j < olds.len() implies tm0.contains_key(#[trigger] olds[j]) by {
                assert(olds.to_set().contains(olds[j]));
            }
            assert forall|k: Seq<char>| #[trigger] m0.contains_key(k) implies m1.contains_key(k) && m1[k] == m0[k] by {
                if tm1.contains_key(k) {
                    lemma_renamed_map_keys(tm0, olds, news, k);
                    let j = choose|j: int| 0 <= j < news.len() && news[j] == k;
                    assert(news[j] == t1[j]);
                }
            }
        }
    }
    proof {
        if ps {
            let t1 = taken_ids(ids0, n + 1);
            assert forall|j: int| 0 <= j < news.len() implies #[trigger] news[j] == t1[j] by {}
            assert(news.no_duplicates()) by {
                assert forall|a: int, b: int| 0 <= a < news.len() && 0 <= b < news.len() && a != b implies news[a] != news[b] by {
                    assert(news[a] == t1[a] && news[b] == t1[b]);
                }
            }
            let last0 = tops0.last()@;
            assert(tops1.last()@ == renamed_standard(olds, news, last0)) by {
                assert(tops1[tops1.len() - 1]@ == renamed_standard(olds, news, tops0[tops0.len() - 1]@));
            }
            assert(tops1.last()@.children.len() == 0);
            let nn = choose|nn: nat| #[trigger] down_last(tm1, tops1.last()@, nn) == Some(last_block@);
            lemma_down_last_childless(tm1, tops1.last()@, nn);
            assert(last_block@ == tops1.last()@);
            lemma_pasted_block(m0, tm0, olds, news, m1, last0.id);
            let x = last0.inline_blocks().last();
            lemma_pasted_block(m0, tm0, olds, news, m1, x);
            let li = crate::utilities::renaming::renamed_all(olds, news, last0.inline_blocks());
            assert(li.last() == renamed(olds, news, x));
            assert(end_inline(m1, renamed(olds, news, x), 2) is Some);
            assert(end_inline(m1, last_block@.id, 3) is Some);
        }
    }
    let only_one_std_block = top_blocks.len() == 1 && top_blocks[0].children.len() == 0;
    let anchor = SubSelection::at_end_of_block(&last_block._id, &block_map)?;
    let head = SubSelection::at_end_of_block(&last_block._id, &block_map)?;
    let mut selection = Some(Selection { anchor, head });
    let insertion_std_block = block_map.get_nearest_ancestor_standard_block_incl_self(&from.block_id)?;
    let first_copied_block = top_blocks[0].copy();
    let ghost p = insertion_std_block@;
    let ghost fids = first_copied_block@.inline_blocks();
    proof {
        if pc {
            let t1 = taken_ids(ids0, n + 1);
            let f = tops0[0]@;
            assert(nearest_standard(m1, id) == nearest_standard(m0, id));
            assert(m0.contains_key(p.id));
            assert(first_copied_block@ == renamed_standard(olds, news, f));
            assert forall|j: int| 0 <= j < f.inline_blocks().len() implies olds.contains(#[trigger] f.inline_blocks()[j]) by {
                assert(tm0.dom().contains(f.inline_blocks()[j]));
                assert(olds.to_set().contains(f.inline_blocks()[j]));
            }
            assert forall|j: int| 0 <= j < news.len() implies #[trigger] news[j] == t1[j] by {}
            assert(news.no_duplicates()) by {
                assert forall|a: int, b: int| 0 <= a < news.len() && 0 <= b < news.len() && a != b implies news[a] != news[b] by {
                    assert(news[a] == t1[a] && news[b] == t1[b]);
                }
            }
            lemma_renamed_all_fresh(olds, news, f.inline_blocks());
            assert forall|j: int| 0 <= j < fids.len() implies !m0.contains_key(#[trigger] fids[j]) by {
                assert(news.contains(fids[j]));
                let a = choose|a: int| 0 <= a < news.len() && news[a] == fids[j];
                assert(news[a] == t1[a]);
            }
            assert(!fids.contains(p.id));
            assert(all_inline(m1, p.inline_blocks())) by {
                assert forall|j: int| 0 <= j < p.inline_blocks().len() implies inline_block_of(m1, #[trigger] p.inline_blocks()[j]) is Some by {
                    assert(inline_block_of(m0, p.inline_blocks()[j]) is Some);
                }
            }
        }
    }
    let deepest = from.get_deepest_subselection().copy();
    proof {
        lemma_layers_len(from);
        lemma_layers_len(deepest);
        assert(deepest.block_id@ == from@.last().block_id);
    }
    proof {
        if ps {
            let d = from@.last().block_id;
            let i = index_of_id(p.inline_blocks(), d);
            crate::blocks::lemma_index_of_id(p.inline_blocks(), d);
            assert(inline_block_of(m0, p.inline_blocks()[i]) is Some);
            assert(m1[d] == m0[d]);
            let f = tops0[0]@;
            assert forall|j: int| 0 <= j < fids.len() implies inline_block_of(m1, #[trigger] fids[j]) is Some by {
                assert(inline_block_of(tm0, f.inline_blocks()[j]) is Some);
                lemma_pasted_block(m0, tm0, olds, news, m1, f.inline_blocks()[j]);
            }
            assert(ids1.len() > 0);
        }
    }
    let mut insertion_std_block = paste_inline_blocks(
        insertion_std_block,
        deepest,
        first_copied_block.copy(),
        &mut block_map,
        new_ids,
        &mut blocks_to_update,
        only_one_std_block,
        &mut selection,
    )?;
    let ghost ma = block_map@;
    proof {
        assert(ids1 == ids0.take(ids0.len() - n));
        assert(new_ids.ids() == ids1.drop_last());
        assert(new_ids.ids() =~= ids0.take(ids0.len() - n - 1));
        if pc {
            let t1 = taken_ids(ids0, n + 1);
            assert(fresh == t1[n as int]);
            assert(!m0.contains_key(fresh));
            assert forall|j: int| 0 <= j < fids.len() implies #[trigger] fids[j] != fresh by {
                assert(news.contains(fids[j]));
                let a = choose|a: int| 0 <= a < news.len() && news[a] == fids[j];
                assert(news[a] == t1[a]);
            }
            assert(!fids.contains(fresh));
            assert(fresh != p.id);
            let d = from@.last().block_id;
            let ids = p.inline_blocks();
            let i = index_of_id(ids, d);
            crate::blocks::lemma_index_of_id(ids, d);
            assert(inline_block_of(m0, ids[i]) is Some);
            assert(d != p.id);
            assert(fresh != d);
            let f = tops0[0]@;
            let fo = f.inline_blocks();
            assert forall|j: int| 0 <= j < olds.len() implies tm0.contains_key(#[trigger] olds[j]) by {
                assert(olds.to_set().contains(olds[j]));
            }
            assert forall|j: int| 0 <= j < news.len() implies #[trigger] news[j] == t1[j] by {}
            assert(news.no_duplicates()) by {
                assert forall|a: int, b: int| 0 <= a < news.len() && 0 <= b < news.len() && a != b implies news[a] != news[b] by {
                    assert(news[a] == t1[a] && news[b] == t1[b]);
                }
            }
            assert forall|j: int| 0 <= j < fids.len() implies text_of(ma, #[trigger] fids[j]) == text_of(tm0, fo[j]) by {
                assert(tm0.dom().contains(fo[j]));
                assert(olds.to_set().contains(fo[j]));
                let a = choose|a: int| 0 <= a < olds.len() && olds[a] == fo[j];
                crate::utilities::renaming::lemma_renamed_old(olds, news, a);
                crate::utilities::renaming::lemma_renamed_map_at(tm0, olds, news, a);
                assert(fids[j] == news[a]);
                assert(tm1.contains_key(news[a]));
                assert(m1[news[a]] == tm1[news[a]]);
                assert(inline_block_of(m0, fids[j]) is None);
                assert(inline_block_of(m1, fids[j]) is Some);
            }
            assert forall|j: int| 0 <= j < ids.len() && j != i implies text_of(ma, #[trigger] ids[j]) == text_of(m0, ids[j]) by {
                assert(inline_block_of(m0, ids[j]) is Some);
                assert(ids[j] != ids[i]);
                assert(ids.contains(ids[j]));
            }
        }
    }
    let ghost p1 = insertion_std_block@;
    let fc_ids = copy_ids(&first_copied_block.children);
    let ghost fc = ids_view(fc_ids@);
    proof {
        if ps {
            let t1 = taken_ids(ids0, n + 1);
            let f = tops0[0]@;
            assert forall|j: int| 0 <= j < news.len() implies #[trigger] news[j] == t1[j] by {}
            assert(fresh == t1[n as int]);
            assert(kept_apart(m1, ma, from@.last().block_id, p.id, t1[n as int], fids));
            assert forall|j: int| 0 <= j < fc.len() implies std_block_of(ma, #[trigger] fc[j]) is Some by {
                assert(std_block_of(tm0, f.children[j]) is Some);
                assert(fc[j] == renamed(olds, news, f.children[j]));
                lemma_pasted_std(m0, tm0, olds, news, m1, ma, t1, f.inline_blocks(), from@.last().block_id, p.id, f.children[j]);
            }
            assert forall|j: int| 0 <= j < fc_ids@.len() implies std_block_of(ma, #[trigger] fc_ids@[j]@) is Some by {
                assert(fc[j] == fc_ids@[j]@);
            }
        }
    }
    splice_children_on_std_block(&mut insertion_std_block, 0..0, fc_ids, &mut blocks_to_update, &mut block_map)?;
    let ghost mb = block_map@;
    let ghost p2 = insertion_std_block@;
    proof {
        assert(splice_spec(p1.children, 0, 0, fc) =~= fc + p1.children);
        block_map.lemma_keys_are_ids();
        if ps {
            let t1 = taken_ids(ids0, n + 1);
            let d = from@.last().block_id;
            let q = p.parent;
            assert(m0.contains_key(q));
            assert(m1[q] == m0[q]);
            assert(child_index(m0, q, p.id) >= 0);
            assert(q != d) by {
                let i = index_of_id(p.inline_blocks(), d);
                crate::blocks::lemma_index_of_id(p.inline_blocks(), d);
                assert(inline_block_of(m0, p.inline_blocks()[i]) is Some);
            }
            assert(q != fresh);
            assert(!fids.contains(q)) by {
                if fids.contains(q) {
                    let j = choose|j: int| 0 <= j < fids.len() && fids[j] == q;
                }
            }
            assert(kept_apart(m1, ma, d, p.id, fresh, fids));
            reveal(kept_apart);
            assert(ma.contains_key(q) && ma[q] == m1[q]);
            assert(mb.contains_key(q));
            assert(mb[q].children() == m0[q].children());
            assert(!(mb[q] is Inline));
            assert(child_index(mb, q, p.id) == child_index(m0, q, p.id));
        }
    }
    let parent = insertion_std_block.get_parent(&block_map)?;
    let index = insertion_std_block.index(&block_map)?;
    proof {
        crate::blocks::tree::lemma_child_index(block_map@, insertion_std_block@.parent, insertion_std_block@.id);
    }
    top_blocks.remove(0);
    let mut rest: Vec<String> = Vec::new();
    let mut i: usize = 0;
    while i < top_blocks.len()
        invariant
            i <= top_blocks@.len(),
            rest@.len() == i,
            forall|j: int| 0 <= j < i ==> #[trigger] rest@[j]@ == top_blocks@[j]@.id,
        decreases top_blocks@.len() - i,
    {
        rest.push(top_blocks[i].id());
        i += 1;
    }
    let after = match index.checked_add(1) {
        Some(v) => v,
        None => return Err(step_error_msg("Too many blocks")),
    };
    let ghost g = parent@;
    let ghost rs = ids_view(rest@);
    proof {
        if ps {
            let t1 = taken_ids(ids0, n + 1);
            let f = tops0[0]@;
            assert forall|j: int| 0 <= j < news.len() implies #[trigger] news[j] == t1[j] by {}
            assert(fresh == t1[n as int]);
            assert(kept_apart(m1, ma, from@.last().block_id, p.id, t1[n as int], fids));
            assert forall|j: int| 0 <= j < rs.len() implies std_block_of(mb, #[trigger] rs[j]) is Some by {
                let x = tops0[j + 1]@.id;
                assert(std_block_of(tm0, x) is Some);
                assert(tops1[j + 1]@ == renamed_standard(olds, news, tops0[j + 1]@));
                assert(rs[j] == rest@[j]@);
                assert(rs[j] == renamed(olds, news, x));
                lemma_pasted_std(m0, tm0, olds, news, m1, ma, t1, f.inline_blocks(), from@.last().block_id, p.id, x);
                assert(rs[j] != p.id);
            }
            assert forall|j: int| 0 <= j < rest@.len() implies std_block_of(mb, #[trigger] rest@[j]@) is Some by {
                assert(rs[j] == rest@[j]@);
            }
        }
    }
    splice_children(parent, after..after, rest, &mut blocks_to_update, &mut block_map)?;
    let ghost mc = block_map@;
    let mut raw_selection = SubSelection::new();
    if only_one_std_block {
        match &selection {
            Some(s) => {
                raw_selection = s.anchor.to_raw_selection(&block_map)?;
            },
            None => {},
        }
    }
    let block_map = clean_block_after_transform(insertion_std_block, block_map, &mut blocks_to_update)?;
    proof {
        if pc {
            let d = from@.last().block_id;
            let i = index_of_id(p.inline_blocks(), d);
            crate::blocks::lemma_index_of_id(p.inline_blocks(), d);
            assert(rs.len() == tops1.len() - 1);
            lemma_paste_places(m0, m1, ma, mb, mc, block_map@, p, p1, p2, g, d, fresh, fids, fc, rs, i, index as int);
            let gc = m0[p.parent].children();
            let sc = block_map@[p.parent].children();
            let k = tops0[0]@.children.len();
            assert(fc.len() == k);
            assert(sc == splice_spec(gc, index + 1, index + 1, rs));
            crate::blocks::tree::lemma_child_index(m0, p.parent, p.id);
            assert(sc.take(index + 1) =~= gc.take(index + 1));
            assert(sc.skip(index + tops1.len()) =~= gc.skip(index + 1));
            assert forall|j: int| 1 <= j < tops0.len() implies #[trigger] sc[index + j] == renamed(olds, news, tops0[j]@.id) by {
                assert(sc[index + j] == rs[j - 1]);
                assert(rs[j - 1] == top_blocks@[j - 1]@.id);
                assert(tops1[j]@ == renamed_standard(olds, news, tops0[j]@));
            }
            assert(olds.to_set() == tm0.dom() && olds.len() == n);
            let q = std_block_of(block_map@, p.id)->0;
            assert(q.children.skip(k as int) =~= p.children);
            let d2 = from@.last();
            let dt = text_of(m0, d2.block_id);
            lemma_paste_text(m0, tm0, ma, mc, block_map@, p, p2, p.inline_blocks(), i, dt, d2.offset as int, fids, tops0[0]@.inline_blocks(), fresh);
        }
    }
    if only_one_std_block {
        let new_subselection = raw_selection.real_selection_from_raw(&block_map)?;
        selection = Some(Selection { anchor: new_subselection.copy(), head: new_subselection });
    }
    return Ok(UpdatedState { block_map, selection, blocks_to_update, blocks_to_remove: Vec::new(), copy: None })
}

/// Splits the inline block at `deepest_subselection` and puts the inline
/// blocks of `first_copied_block` between its halves. Where only inline
/// blocks are pasted, the caret goes to the start of the second half.
fn paste_inline_blocks(
    insertion_block: StandardBlock,
    deepest_subselection: SubSelection,
    first_copied_block: StandardBlock,
    block_map: &mut BlockMap,
    new_ids: &mut NewIds,
    blocks_to_update: &mut Vec<String>,
    paste_only_inline_blocks: bool,
    selection: &mut Option<Selection>,
) -> (r: Result<StandardBlock, StepError>)
    ensures
        extends(old(blocks_to_update)@, final(blocks_to_update)@),
        r is Ok ==> old(new_ids).ids().len() > 0 && final(new_ids).ids() == old(new_ids).ids().drop_last(),
        ({
            let ids = insertion_block@.inline_blocks();
            let b = inline_block_of(old(block_map)@, deepest_subselection.block_id@)->0;
            insertion_block@.has_content() && index_of_id(ids, deepest_subselection.block_id@) >= 0 && inline_block_of(
                old(block_map)@,
                deepest_subselection.block_id@,
            ) is Some && deepest_subselection.offset <= b.text.len() && old(new_ids).ids().len() > 0 && first_copied_block@.has_content()
                && all_inline(old(block_map)@, first_copied_block@.inline_blocks()) ==> r is Ok
        }),
        r matches Ok(b) ==> ({
            let ids = insertion_block@.inline_blocks();
            let i = index_of_id(ids, deepest_subselection.block_id@);
            &&& 0 <= i < ids.len()
            &&& b@ == insertion_block@.with_inline_blocks(
                splice_spec(ids, i + 1, i + 1, first_copied_block@.inline_blocks().push(old(new_ids).ids().last()@)),
            )
        }),
        r is Ok ==> kept_apart(
            old(block_map)@,
            final(block_map)@,
            deepest_subselection.block_id@,
            insertion_block@.id,
            old(new_ids).ids().last()@,
            first_copied_block@.inline_blocks(),
        ),
        r is Ok && all_inline(old(block_map)@, insertion_block@.inline_blocks())
            && !insertion_block@.inline_blocks().contains(insertion_block@.id)
            && !first_copied_block@.inline_blocks().contains(insertion_block@.id)
            && old(new_ids).ids().last()@ != insertion_block@.id ==> all_inline(
            final(block_map)@,
            r->Ok_0@.inline_blocks(),
        ),
        r is Ok && deepest_subselection.block_id@ != insertion_block@.id && old(new_ids).ids().last()@ != insertion_block@.id
            && old(new_ids).ids().last()@ != deepest_subselection.block_id@ ==> ({
            let t = inline_block_of(old(block_map)@, deepest_subselection.block_id@)->0.text;
            let o = deepest_subselection.offset as int;
            &&& inline_block_of(old(block_map)@, deepest_subselection.block_id@) is Some && o <= t.len()
            &&& text_of(final(block_map)@, deepest_subselection.block_id@) == t.take(o)
            &&& text_of(final(block_map)@, old(new_ids).ids().last()@) == t.skip(o)
            &&& forall|k: Seq<char>| k != deepest_subselection.block_id@ && k != old(new_ids).ids().last()@ && k != insertion_block@.id
                && #[trigger] inline_block_of(old(block_map)@, k) is Some ==> inline_block_of(final(block_map)@, k) is Some
                && text_of(final(block_map)@, k) == text_of(old(block_map)@, k)
        }),
        paste_only_inline_blocks && r is Ok ==> (*final(selection) matches Some(s) && s.anchor@ == seq![
            Layer { block_id: old(new_ids).ids().last()@, offset: 0 },
        ] && s.head@ == s.anchor@),
        !paste_only_inline_blocks ==> *final(selection) == *old(selection),
{
    let ghost ids = insertion_block@.inline_blocks();
    let index = insertion_block.index_of(deepest_subselection.block_id.as_str())?;
    proof {
        lemma_index_of_id(ids, deepest_subselection.block_id@);
    }
    let insertion_block_id = insertion_block.get_inline_block_from_index(index)?;
    let insertion_inline_block = block_map.get_inline_block(&insertion_block_id)?;
    proof {
        block_map.lemma_keys_are_ids();
    }
    let ghost m0 = block_map@;
    let (_first_half, second_half) = split_inline_block(
        insertion_inline_block,
        deepest_subselection.offset,
        blocks_to_update,
        block_map,
        new_ids,
    )?;
    if paste_only_inline_blocks {
        *selection = Some(Selection {
            anchor: SubSelection::from(second_half.id(), 0, None),
            head: SubSelection::from(second_half.id(), 0, None),
        });
    }
    let mut new_inline_blocks_ids = copy_ids(&first_copied_block.content_block()?.inline_blocks);
    let ghost pasted = ids_view(new_inline_blocks_ids@);
    let second_id = second_half.id();
    new_inline_blocks_ids.push(second_id);
    proof {
        assert(ids_view(new_inline_blocks_ids@) =~= pasted.push(second_half@.id));
    }
    let inline_count = insertion_block.inline_blocks_length()?;
    assert(index < inline_count);
    let at = match index.checked_add(1) {
        Some(v) => v,
        None => return Err(step_error_msg("Too many inline blocks")),
    };
    let ghost m1 = block_map@;
    let ghost b0 = insertion_block@;
    proof {
        if all_inline(m0, first_copied_block@.inline_blocks()) {
            assert forall|j: int| 0 <= j < new_inline_blocks_ids@.len() implies inline_block_of(m1, #[trigger] new_inline_blocks_ids@[j]@) is Some by {
                assert(ids_view(new_inline_blocks_ids@)[j] == new_inline_blocks_ids@[j]@);
                if j < pasted.len() {
                    assert(inline_block_of(m0, pasted[j]) is Some);
                }
            }
        }
    }
    proof {
        assert(ids[index as int] == deepest_subselection.block_id@);
        assert(_first_half@.id == deepest_subselection.block_id@);
        assert(pasted == first_copied_block@.inline_blocks());
    }
    let insertion_block = splice_inline_blocks(insertion_block, at..at, new_inline_blocks_ids, blocks_to_update, block_map)?;
    proof {
        let new_list = pasted.push(second_half@.id);
        assert forall|k: Seq<char>|
            k != deepest_subselection.block_id@ && k != b0.id && k != second_half@.id
                && !first_copied_block@.inline_blocks().contains(k) implies (#[trigger] block_map@.contains_key(k)
                <==> m0.contains_key(k)) && (m0.contains_key(k) ==> block_map@[k] == m0[k]) by {
            assert(!new_list.contains(k)) by {
                if new_list.contains(k) {
                    let j = choose|j: int| 0 <= j < new_list.len() && new_list[j] == k;
                    if j < pasted.len() {
                        assert(pasted[j] == k);
                    }
                }
            }
            if m0.contains_key(k) {
                assert(block_map@[k] == m1[k]);
                assert(m1[k] == m0[k]);
            }
        }
        reveal(kept_apart);
        let dd = deepest_subselection.block_id@;
        if dd != b0.id && second_half@.id != b0.id && second_half@.id != dd {
            assert(m1[dd] == BlockView::Inline(_first_half@));
            assert(block_map@[dd] == crate::blocks::tree::with_parent(m1[dd], b0.id) || block_map@[dd] == m1[dd]);
            assert(block_map@[second_half@.id] == crate::blocks::tree::with_parent(m1[second_half@.id], b0.id) || block_map@[second_half@.id] == m1[second_half@.id]);
            assert forall|k: Seq<char>| k != dd && k != second_half@.id && k != b0.id
                && #[trigger] inline_block_of(m0, k) is Some implies inline_block_of(block_map@, k) is Some
                && text_of(block_map@, k) == text_of(m0, k) by {
                assert(m1[k] == m0[k]);
            }
        }
        if all_inline(m0, ids) && !ids.contains(b0.id) && !pasted.contains(b0.id) && second_half@.id != b0.id {
            let ids2 = insertion_block@.inline_blocks();
            assert forall|j: int| 0 <= j < ids2.len() implies inline_block_of(block_map@, #[trigger] ids2[j]) is Some by {
                let k = ids2[j];
                if j <= index {
                    assert(k == ids[j]);
                    assert(inline_block_of(m0, ids[j]) is Some);
                    assert(k != b0.id);
                } else if j < index + 1 + new_list.len() {
                    assert(k == new_list[j - index - 1]);
                    assert(inline_block_of(m1, new_list[j - index - 1]) is Some);
                    if j - index - 1 < pasted.len() {
                        assert(pasted[j - index - 1] == k);
                    }
                    assert(k != b0.id);
                } else {
                    assert(k == ids[j - new_list.len()]);
                    assert(inline_block_of(m0, ids[j - new_list.len()]) is Some);
                    assert(k != b0.id);
                }
            }
        }
    }
    return Ok(insertion_block)
}

} // verus!
