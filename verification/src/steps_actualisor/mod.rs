use vstd::prelude::*;

use crate::blocks::{Block, BlockMap, BlockMapView, BlockView, copy_ids, extends, ids_view, inline_block_of, std_block_of};
use crate::blocks::inline_blocks::InlineBlockType;
use crate::blocks::inline_blocks::copy_marks;
use crate::blocks::standard_blocks::StandardBlock;
use crate::blocks::standard_blocks::content_block::ContentBlock;
use crate::blocks::tree::marks_contain;
use crate::mark::Mark;
use crate::steps_generator::StepError;
use crate::steps_generator::selection::{Selection, lemma_layers_len};
use crate::steps_generator::step_error_msg;
use crate::step::Step;
use crate::new_ids::NewIds;
use crate::utilities::Tree;
use crate::steps_actualisor::actualise_replace_steps::{replaced_state, replaces_within_block};
use crate::steps_actualisor::actualise_mark_steps::{marks_within_block, text_of_parent};
use crate::steps_actualisor::actualise_split_step::{split_texts, splits_within_block};
use crate::steps_actualisor::actualise_toggle_completed::{is_todo, toggled};

pub mod actualise_replace_steps;
pub mod actualise_toggle_completed;
pub mod actualise_delete_block;
pub mod actualise_duplicate;
pub mod actualise_replace_with_children;
pub mod actualise_turn_into;
pub mod actualise_child_steps;
pub mod actualise_parent_steps;
pub mod actualise_add_block;
pub mod actualise_add_paragraph_at_bottom;
pub mod actualise_split_step;
pub mod actualise_mark_steps;
pub mod actualise_drop_block;
pub mod actualise_shortcuts;

verus! {

/// The clipboard: the blocks last copied.
pub enum CustomCopy {
    Rust(Tree),
}

impl CustomCopy {
    pub fn new() -> (c: Self)
        ensures
            c matches CustomCopy::Rust(t) && t.top_blocks@.len() == 0 && t.block_map@ == Map::<
                Seq<char>,
                BlockView,
            >::empty(),
    {
        CustomCopy::Rust(Tree { top_blocks: Vec::new(), block_map: BlockMap::new() })
    }

    pub fn from(tree: Tree) -> (c: Self)
        ensures
            c == CustomCopy::Rust(tree),
    {
        CustomCopy::Rust(tree)
    }

    /// A copy of the clipboard.
    pub fn copy(&self) -> (c: Self)
        ensures
            c matches CustomCopy::Rust(t) && self matches CustomCopy::Rust(u) && t.block_map@ == u.block_map@
                && t.top_blocks@.len() == u.top_blocks@.len(),
    {
        match self {
            CustomCopy::Rust(tree) => CustomCopy::Rust(tree.copy()),
        }
    }

    /// The clipboard holding `tree` in place of what it held.
    pub fn update(self, tree: Tree) -> (r: Result<Self, StepError>)
        ensures
            r == Ok::<Self, StepError>(CustomCopy::Rust(tree)),
    {
        return match self {
            Self::Rust(_) => Ok(Self::Rust(tree)),
        }
    }

    /// The copied blocks.
    pub fn to_tree(self) -> (r: Result<Tree, StepError>)
        ensures
            r matches Ok(t) && self == CustomCopy::Rust(t),
    {
        return match self {
            Self::Rust(tree) => Ok(tree),
        }
    }
}

/// Every block that `m2` holds other than `m` does (a new block or a
/// changed one) is listed in `ids`: the editor redraws all of them.
pub open spec fn recorded(m: BlockMapView, m2: BlockMapView, ids: Seq<Seq<char>>) -> bool {
    forall|k: Seq<char>| #[trigger] m2.contains_key(k) && (!m.contains_key(k) || m2[k] != m[k]) ==> ids.contains(k)
}

/// The document after some steps, with what the editor must redraw.
pub struct UpdatedState {
    pub block_map: BlockMap,
    pub selection: Option<Selection>,
    pub blocks_to_update: Vec<String>,  // Vec<ID>
    pub blocks_to_remove: Vec<String>,  // Vec<ID>
    pub copy: Option<CustomCopy>,
}

impl UpdatedState {
    pub fn new(block_map: BlockMap) -> (s: Self)
        ensures
            s.block_map == block_map,
            s.selection is None,
            s.blocks_to_update@.len() == 0,
            s.blocks_to_remove@.len() == 0,
            s.copy is None,
    {
        return Self {
            block_map,
            selection: None,
            blocks_to_update: Vec::new(),
            blocks_to_remove: Vec::new(),
            copy: None,
        }
    }
}

/// The text of the inline block `k` of `m`.
pub open spec fn text_of(m: BlockMapView, k: Seq<char>) -> Seq<u16> {
    inline_block_of(m, k)->0.text
}

/// The marks of the inline block `k` of `m`.
pub open spec fn marks_of(m: BlockMapView, k: Seq<char>) -> Seq<Mark> {
    inline_block_of(m, k)->0.marks
}

/// The texts of the inline blocks `ids` of `m`, one after the other.
pub open spec fn texts(m: BlockMapView, ids: Seq<Seq<char>>) -> Seq<u16>
    decreases ids.len(),
{
    if ids.len() == 0 {
        Seq::empty()
    } else {
        texts(m, ids.drop_last()) + text_of(m, ids.last())
    }
}

/// Every id of `ids` names an inline block of `m`.
pub open spec fn all_inline(m: BlockMapView, ids: Seq<Seq<char>>) -> bool {
    forall|i: int| 0 <= i < ids.len() ==> inline_block_of(m, #[trigger] ids[i]) is Some
}

/// Two lists of marks hold the same marks: as many, and each of the first
/// in the second.
pub open spec fn marks_identical(a: Seq<Mark>, b: Seq<Mark>) -> bool {
    a.len() == b.len() && forall|i: int| 0 <= i < a.len() ==> b.contains(#[trigger] a[i])
}

/// The inline block `ids[i]` has the same marks as the one before it.
pub open spec fn mergeable_at(m: BlockMapView, ids: Seq<Seq<char>>, i: int) -> bool {
    marks_identical(marks_of(m, ids[i]), marks_of(m, ids[i - 1]))
}

/// No two neighbouring inline blocks of `ids` have the same marks.
pub open spec fn no_mergeable(m: BlockMapView, ids: Seq<Seq<char>>) -> bool {
    forall|i: int| 1 <= i < ids.len() ==> !#[trigger] mergeable_at(m, ids, i)
}

/// The ids are pairwise distinct, and none of them is `id`.
pub open spec fn distinct_apart(ids: Seq<Seq<char>>, id: Seq<char>) -> bool {
    &&& forall|i: int, j: int| 0 <= i < j < ids.len() ==> ids[i] != ids[j]
    &&& !ids.contains(id)
}

pub proof fn lemma_texts_append(m: BlockMapView, a: Seq<Seq<char>>, b: Seq<Seq<char>>)
    ensures
        texts(m, a + b) == texts(m, a) + texts(m, b),
    decreases b.len(),
{
    if b.len() == 0 {
        assert(a + b =~= a);
        assert(texts(m, a) + texts(m, b) =~= texts(m, a));
    } else {
        lemma_texts_append(m, a, b.drop_last());
        assert((a + b).drop_last() =~= a + b.drop_last());
        assert(texts(m, a) + texts(m, b.drop_last()) + text_of(m, b.last()) =~= texts(m, a) + (
        texts(m, b.drop_last()) + text_of(m, b.last())));
    }
}

pub proof fn lemma_texts_single(m: BlockMapView, x: Seq<char>)
    ensures
        texts(m, seq![x]) == text_of(m, x),
{
    reveal_with_fuel(texts, 2);
    assert(seq![x].drop_last() =~= Seq::<Seq<char>>::empty());
    assert(texts(m, seq![x].drop_last()) == Seq::<u16>::empty());
    assert(Seq::<u16>::empty() + text_of(m, x) =~= text_of(m, x));
}

/// Texts are read the same from two maps that agree on them.
pub proof fn lemma_texts_frame(m1: BlockMapView, m2: BlockMapView, s: Seq<Seq<char>>)
    requires
        forall|i: int| 0 <= i < s.len() ==> text_of(m1, #[trigger] s[i]) == text_of(m2, s[i]),
    ensures
        texts(m1, s) == texts(m2, s),
    decreases s.len(),
{
    if s.len() > 0 {
        lemma_texts_frame(m1, m2, s.drop_last());
        assert(text_of(m1, s[s.len() - 1]) == text_of(m2, s[s.len() - 1]));
    }
}

/// What the step `step` does to the document `m`, giving `m2`, where `ids`
/// are the fresh ids at hand; each case is what the function that applies
/// that kind of step states: a replace or a split within a block, a mark
/// within a block (the text stays), a block turned into a child or a
/// parent or another type, added, ticked, deleted, dropped, pasted, a
/// paragraph added at the bottom; a copy, a duplicate and a replace with
/// children leave the document as it is.
pub open spec fn step_effect(m: BlockMapView, ids: Seq<String>, step: Step, m2: BlockMapView) -> bool {
    match step {
        Step::ReplaceStep(rs) => replaces_within_block(m, rs) ==> m2 == actualise_replace_steps::replaced_within_block(m, rs),
        Step::SplitStep(sp) => splits_within_block(m, sp, ids) ==> actualise_split_step::split_done(m, sp, ids, m2),
        Step::AddMarkStep(ms) => actualise_mark_steps::marks_within_block(m, ms, ids) ==> text_of_parent(m, m2, ms.from@[0].block_id)
            == text_of_parent(m, m, ms.from@[0].block_id),
        Step::RemoveMarkStep(ms) => actualise_mark_steps::marks_within_block(m, ms, ids) ==> text_of_parent(
            m,
            m2,
            ms.from@[0].block_id,
        ) == text_of_parent(m, m, ms.from@[0].block_id),
        Step::TurnToChild(t) => m2 == actualise_child_steps::turned_to_child(m, t.block_id@),
        Step::TurnToParent(t) => actualise_parent_steps::turned_to_parent(m, t.block_id@, m2),
        Step::AddBlock(a) => actualise_add_block::block_added(m, a, ids, m2),
        Step::TurnInto(t) => m2 == actualise_turn_into::turned_into(m, t.block_id@, t.new_block_type@),
        Step::ToggleCompleted(id) => m2 == toggled(m, id@),
        Step::Copy(_, _) => m2 == m,
        Step::Paste(p) => actualise_shortcuts::pastes_cleanly(m, p.from@[0].block_id, p.copy_tree, ids)
            ==> actualise_shortcuts::pasted(m, p.from, p.copy_tree, m2),
        Step::DropBlock(e) => ((e.side_dropped == crate::steps_generator::event::Side::Top || e.side_dropped
            == crate::steps_generator::event::Side::Bottom) ==> m2 == actualise_drop_block::dropped_beside(m, e)) && ((e.side_dropped
            == crate::steps_generator::event::Side::Left || e.side_dropped == crate::steps_generator::event::Side::Right)
            ==> actualise_drop_block::dropped_aside(m, e, ids, m2)),
        Step::DeleteBlock(id) => m2 == actualise_delete_block::deleted(m, id@),
        Step::Duplicate(_) => m2 == m,
        Step::ReplaceWithChildren(_) => m2 == m,
        Step::AddParagraphAtBottom(st) => actualise_add_paragraph_at_bottom::paragraph_added(m, st, ids, m2),
    }
}

/// `chain` runs from `m` through the documents that `steps` give one after
/// another, and `id_chain` from `ids` through the fresh ids left after each
/// step; each step does to the document before it what `step_effect` says,
/// with the fresh ids at hand before it.
pub open spec fn steps_chain(
    m: BlockMapView,
    ids: Seq<String>,
    steps: Seq<Step>,
    chain: Seq<BlockMapView>,
    id_chain: Seq<Seq<String>>,
) -> bool {
    &&& chain.len() == steps.len() + 1
    &&& id_chain.len() == steps.len() + 1
    &&& chain[0] == m
    &&& id_chain[0] == ids
    &&& forall|i: int| 0 <= i < steps.len() ==> #[trigger] step_effect(chain[i], id_chain[i], steps[i], chain[i + 1])
}

/// Steps act one after another: a run of the steps `a` from `m` followed by
/// a run of the steps `b` from where it ended is a run of `a` then `b`.
pub proof fn lemma_steps_chain_append(
    m: BlockMapView,
    ids: Seq<String>,
    a: Seq<Step>,
    b: Seq<Step>,
    c1: Seq<BlockMapView>,
    i1: Seq<Seq<String>>,
    c2: Seq<BlockMapView>,
    i2: Seq<Seq<String>>,
)
    requires
        steps_chain(m, ids, a, c1, i1),
        steps_chain(c1.last(), i1.last(), b, c2, i2),
    ensures
        steps_chain(m, ids, a + b, c1 + c2.skip(1), i1 + i2.skip(1)),
        (c1 + c2.skip(1)).last() == c2.last(),
        (i1 + i2.skip(1)).last() == i2.last(),
{
    let c = c1 + c2.skip(1);
    let ic = i1 + i2.skip(1);
    let s = a + b;
    assert forall|k: int| 0 <= k < s.len() implies #[trigger] step_effect(c[k], ic[k], s[k], c[k + 1]) by {
        if k < a.len() {
            assert(s[k] == a[k]);
            assert(c[k] == c1[k] && ic[k] == i1[k]);
            if k + 1 < c1.len() {
                assert(c[k + 1] == c1[k + 1]);
            }
        } else {
            let j = k - a.len();
            assert(s[k] == b[j]);
            if j == 0 {
                assert(c[k] == c1.last() && ic[k] == i1.last());
                assert(c2[0] == c1.last());
            } else {
                assert(c[k] == c2[j] && ic[k] == i2[j]);
            }
            assert(c[k + 1] == c2[j + 1]);
            assert(step_effect(c2[j], i2[j], b[j], c2[j + 1]));
            if j == 0 {
                assert(i2[0] == i1.last());
            }
        }
    }
    if b.len() == 0 {
        assert(c2.skip(1).len() == 0);
        assert(c =~= c1);
        assert(ic =~= i1);
    }
}

/// Applies each step in turn to the document, carrying the selection,
/// the blocks to redraw and the clipboard from one step to the next; the
/// clipboard comes back with the state. A step that does not fit the
/// document (it would run past the end of a text or a list of blocks) is
/// refused with an error.
pub fn actualise_steps(steps: Vec<Step>, block_map: BlockMap, new_ids: &mut NewIds, copy: CustomCopy) -> (r: Result<
    UpdatedState,
    StepError,
>)
    ensures
        steps@.len() == 0 ==> (r matches Ok(s) && s.block_map == block_map && s.selection is None && s.blocks_to_update@.len() == 0
            && s.copy == Some(copy)),
        r matches Ok(s) ==> s.copy is Some && s.blocks_to_remove@.len() == 0,
        steps@.len() == 1 && steps@[0] is ReplaceStep && replaces_within_block(block_map@, steps@[0]->ReplaceStep_0)
            ==> replaced_state(block_map@, steps@[0]->ReplaceStep_0, r),
        steps@.len() == 1 && is_mark_within_block(block_map@, steps@[0], old(new_ids).ids()) && r is Ok ==> text_of_parent(
            block_map@,
            r->Ok_0.block_map@,
            mark_of(steps@[0]).from@[0].block_id,
        ) == text_of_parent(block_map@, block_map@, mark_of(steps@[0]).from@[0].block_id),
        r matches Ok(s) ==> exists|chain: Seq<BlockMapView>, id_chain: Seq<Seq<String>>| #[trigger] steps_chain(
            block_map@,
            old(new_ids).ids(),
            steps@,
            chain,
            id_chain,
        ) && chain.last() == s.block_map@ && id_chain.last() == final(new_ids).ids(),
        steps@.len() == 1 && steps@[0] is ToggleCompleted ==> (r is Ok <==> is_todo(block_map@, steps@[0]->ToggleCompleted_0@)),
        steps@.len() == 1 && steps@[0] is ToggleCompleted && r is Ok ==> r->Ok_0.block_map@ == toggled(
            block_map@,
            steps@[0]->ToggleCompleted_0@,
        ),
        steps@.len() == 1 && steps@[0] is SplitStep && splits_within_block(block_map@, steps@[0]->SplitStep_0, old(new_ids).ids())
            && r is Ok ==> split_texts(block_map@, r->Ok_0.block_map@, steps@[0]->SplitStep_0, old(new_ids).ids()) == texts(
            block_map@,
            std_block_of(block_map@, inline_block_of(block_map@, steps@[0]->SplitStep_0.subselection@[0].block_id)->0.parent)->0.inline_blocks(),
        ),
{
    if steps.len() == 0 {
        proof {
            assert(steps_chain(block_map@, new_ids.ids(), steps@, seq![block_map@], seq![new_ids.ids()]));
        }
        return Ok(UpdatedState { block_map, selection: None, blocks_to_update: Vec::new(), blocks_to_remove: Vec::new(), copy: Some(copy) });
    }
    let ghost m0 = block_map@;
    let ghost ids0 = new_ids.ids();
    let mut updated_state = UpdatedState::new(block_map);
    let mut copy = copy;
    let ghost n = steps@.len();
    let ghost single = steps@.len() == 1 && steps@[0] is ReplaceStep && replaces_within_block(m0, steps@[0]->ReplaceStep_0);
    let mut remaining = steps;
    let ghost mut chain: Seq<BlockMapView> = seq![m0];
    let ghost mut id_chain: Seq<Seq<String>> = seq![ids0];
    while remaining.len() > 0
        invariant
            n > 0,
            remaining@ == steps@.skip(n - remaining@.len()),
            chain.len() == n - remaining@.len() + 1,
            chain[0] == m0,
            chain.last() == updated_state.block_map@,
            id_chain.len() == chain.len(),
            id_chain[0] == ids0,
            id_chain.last() == new_ids.ids(),
            forall|i: int| 0 <= i < n - remaining@.len() ==> #[trigger] step_effect(chain[i], id_chain[i], steps@[i], chain[i + 1]),
            n == steps@.len(),
            remaining@.len() <= n,
            m0 == block_map@,
            remaining@.len() == n ==> remaining@ == steps@ && updated_state.block_map@ == m0,
            single == (steps@.len() == 1 && steps@[0] is ReplaceStep && replaces_within_block(m0, steps@[0]->ReplaceStep_0)),
            single && remaining@.len() == 0 ==> replaced_state(m0, steps@[0]->ReplaceStep_0, Ok::<UpdatedState, StepError>(updated_state)),
            ids0 == old(new_ids).ids(),
            remaining@.len() == n ==> new_ids.ids() == ids0,
            steps@.len() == 1 && is_mark_within_block(m0, steps@[0], ids0) && remaining@.len() == 0 ==> text_of_parent(
                m0,
                updated_state.block_map@,
                mark_of(steps@[0]).from@[0].block_id,
            ) == text_of_parent(m0, m0, mark_of(steps@[0]).from@[0].block_id),
            steps@.len() == 1 && steps@[0] is SplitStep && splits_within_block(m0, steps@[0]->SplitStep_0, ids0) && remaining@.len() == 0
                ==> split_texts(m0, updated_state.block_map@, steps@[0]->SplitStep_0, ids0) == texts(
                m0,
                std_block_of(m0, inline_block_of(m0, steps@[0]->SplitStep_0.subselection@[0].block_id)->0.parent)->0.inline_blocks(),
            ),
            steps@.len() == 1 && steps@[0] is ToggleCompleted && remaining@.len() == 0 ==> is_todo(m0, steps@[0]->ToggleCompleted_0@)
                && updated_state.block_map@ == toggled(m0, steps@[0]->ToggleCompleted_0@),
            updated_state.copy is None,
            updated_state.blocks_to_remove@.len() == 0,
        decreases remaining@.len(),
    {
        let ghost first = remaining@.len() == n;
        let ghost done = n - remaining@.len();
        let step = remaining.remove(0);
        let ghost gstep = step;
        proof {
            assert(gstep == steps@[done]);
        }
        let UpdatedState { block_map, selection, blocks_to_update, blocks_to_remove: _, copy: _ } = updated_state;
        let ghost pre = block_map@;
        let ghost ids_pre = new_ids.ids();
        updated_state = match step {
            Step::ReplaceStep(replace_step) => {
                if !actualise_replace_steps::check_replace_step(&replace_step, &block_map) {
                    return Err(step_error_msg("Replace step does not fit the document"));
                }
                actualise_replace_steps::actualise_replace_step(replace_step, block_map, selection, blocks_to_update, new_ids)?
            },
            Step::SplitStep(split_step) => actualise_split_step::actualise_split_step(split_step, block_map, new_ids, blocks_to_update)?,
            Step::AddMarkStep(mark_step) => {
                if !check_mark_step(&mark_step, &block_map) {
                    return Err(step_error_msg("Mark step does not fit the document"));
                }
                actualise_mark_steps::actualise_mark_step(mark_step, block_map, true, new_ids, blocks_to_update)?
            },
            Step::RemoveMarkStep(mark_step) => {
                if !check_mark_step(&mark_step, &block_map) {
                    return Err(step_error_msg("Mark step does not fit the document"));
                }
                actualise_mark_steps::actualise_mark_step(mark_step, block_map, false, new_ids, blocks_to_update)?
            },
            Step::TurnToChild(turn_to_child_step) => actualise_child_steps::actualise_child_steps(block_map, turn_to_child_step, blocks_to_update)?,
            Step::TurnToParent(turn_to_parent_step) => actualise_parent_steps::actualise_parent_steps(block_map, turn_to_parent_step, blocks_to_update)?,
            Step::AddBlock(add_block_step) => {
                match block_map.get_block(&add_block_step.block_id) {
                    Ok(parent) => {
                        match parent.children() {
                            Ok(children) => {
                                if add_block_step.child_offset > children.len() {
                                    return Err(step_error_msg("Add block step does not fit the document"));
                                }
                            },
                            Err(_) => {},
                        }
                    },
                    Err(_) => {},
                }
                actualise_add_block::actualise_add_block(add_block_step, block_map, new_ids, blocks_to_update)?
            },
            Step::TurnInto(turn_into_step) => actualise_turn_into::actualise_turn_into_step(turn_into_step, block_map, blocks_to_update)?,
            Step::ToggleCompleted(_id) => actualise_toggle_completed::actualise_toggle_completed(_id, block_map, blocks_to_update)?,
            Step::Copy(from, to) => {
                let s = actualise_shortcuts::actualise_copy(copy, from, to, block_map, new_ids, blocks_to_update)?;
                let UpdatedState { block_map, selection, blocks_to_update, blocks_to_remove, copy: new_copy } = s;
                copy = match new_copy {
                    Some(c) => c,
                    None => return Err(step_error_msg("Copy step gave no clipboard")),
                };
                UpdatedState { block_map, selection, blocks_to_update, blocks_to_remove, copy: None }
            },
            Step::Paste(paste_step) => actualise_shortcuts::actualise_paste(
                CustomCopy::from(paste_step.copy_tree),
                paste_step.from,
                block_map,
                new_ids,
                blocks_to_update,
            )?,
            Step::DropBlock(drop_block_event) => actualise_drop_block::actualise_drop_block(drop_block_event, block_map, blocks_to_update, new_ids)?,
            Step::DeleteBlock(block_id) => actualise_delete_block::actualise_delete_block(block_id, block_map, blocks_to_update)?,
            Step::Duplicate(duplicate_step) => actualise_duplicate::actualise_duplicate(duplicate_step, block_map, new_ids, blocks_to_update)?,
            Step::ReplaceWithChildren(event) => actualise_replace_with_children::actualise_replace_with_children(event, block_map, blocks_to_update)?,
            Step::AddParagraphAtBottom(step) => actualise_add_paragraph_at_bottom::actualise_add_paragraph_at_bottom(step, block_map, new_ids, blocks_to_update)?,
        };
        updated_state.copy = None;
        updated_state.blocks_to_remove = Vec::new();
        proof {
            assert(step_effect(pre, ids_pre, gstep, updated_state.block_map@));
            let old_chain = chain;
            let old_ids = id_chain;
            chain = chain.push(updated_state.block_map@);
            id_chain = id_chain.push(new_ids.ids());
            assert forall|i: int| 0 <= i < n - remaining@.len() implies #[trigger] step_effect(chain[i], id_chain[i], steps@[i], chain[i + 1]) by {
                if i < done {
                    assert(chain[i] == old_chain[i] && chain[i + 1] == old_chain[i + 1]);
                    assert(id_chain[i] == old_ids[i]);
                }
            }
        }
    }
    updated_state.copy = Some(copy);
    proof {
        assert(steps_chain(m0, ids0, steps@, chain, id_chain));
    }
    return Ok(updated_state)
}

/// The mark step of `s`, where it adds or removes a mark.
pub open spec fn mark_of(s: Step) -> crate::step::MarkStep {
    match s {
        Step::AddMarkStep(ms) => ms,
        Step::RemoveMarkStep(ms) => ms,
        _ => arbitrary(),
    }
}

/// `s` adds or removes a mark within one inline block (see
/// `marks_within_block`).
pub open spec fn is_mark_within_block(m: BlockMapView, s: Step, ids: Seq<String>) -> bool {
    (s is AddMarkStep || s is RemoveMarkStep) && marks_within_block(m, mark_of(s), ids)
}

/// Whether a mark step within one inline block stays inside its text.
pub fn check_mark_step(mark_step: &crate::step::MarkStep, block_map: &BlockMap) -> (r: bool)
    ensures
        r == ({
            let f = inline_block_of(block_map@, mark_step.from@[0].block_id)->0;
            inline_block_of(block_map@, mark_step.from@[0].block_id) is Some && mark_step.from@[0].block_id == mark_step.to@[0].block_id
                ==> mark_step.from.offset <= mark_step.to.offset <= f.text.len()
        }),
{
    proof {
        lemma_layers_len(mark_step.from);
        lemma_layers_len(mark_step.to);
    }
    match block_map.get_inline_block(&mark_step.from.block_id) {
        Ok(f) => {
            if crate::text::str_eq(mark_step.from.block_id.as_str(), mark_step.to.block_id.as_str()) {
                let len = f.text().unwrap().len();
                return mark_step.from.offset <= mark_step.to.offset && mark_step.to.offset <= len;
            }
            true
        },
        Err(_) => true,
    }
}

/// Whether the two lists hold the same marks.
pub fn all_marks_are_identical(marks: &Vec<Mark>, other_marks: &Vec<Mark>) -> (r: bool)
    ensures
        r == marks_identical(marks@, other_marks@),
{
    if marks.len() != other_marks.len() {
        return false
    }
    let mut i: usize = 0;
    while i < marks.len()
        invariant
            i <= marks@.len(),
            marks@.len() == other_marks@.len(),
            forall|j: int| 0 <= j < i ==> other_marks@.contains(#[trigger] marks@[j]),
        decreases marks@.len() - i,
    {
        if !marks_contain(other_marks, &marks[i]) {
            return false
        }
        i += 1;
    }
    return true
}

/// Merges each inline block of `standard_block` into the one before it where
/// both have the same marks, until no two neighbours do. The merged text
/// goes to the earlier block, which keeps its id and marks; the block is
/// written back with the later ids left out.
pub fn merge_inline_blocks_with_identical_marks(
    standard_block: &StandardBlock,
    block_map: BlockMap,
    blocks_to_update: &mut Vec<String>,
) -> (r: Result<BlockMap, StepError>)
    ensures
        !standard_block@.has_content() ==> r is Err,
        extends(old(blocks_to_update)@, final(blocks_to_update)@),
        distinct_apart(standard_block@.inline_blocks(), standard_block@.id) ==> ({
            let ids = standard_block@.inline_blocks();
            let m = block_map@;
            let id = standard_block@.id;
            &&& r is Ok <==> standard_block@.has_content() && all_inline(m, ids)
            &&& r matches Ok(m2) ==> {
                &&& no_mergeable(m, ids) ==> m2@ == m && final(blocks_to_update)@ == old(
                    blocks_to_update,
                )@
                &&& !no_mergeable(m, ids) ==> merged_into(m, m2@, standard_block@.id, standard_block@)
            }
        }),
    decreases standard_block@.inline_blocks().len(),
{
    let ghost m = block_map@;
    let mut map = block_map;
    let ghost id = standard_block@.id;
    let ghost bt0 = ids_view(blocks_to_update@);
    let content_block = standard_block.content_block()?;
    let inline_blocks = &content_block.inline_blocks;
    let ghost ids = standard_block@.inline_blocks();
    let mut previous_marks: Vec<Mark> = Vec::new();
    let mut previous_type: Option<InlineBlockType> = None;  // CAN only be None for first round
    let mut i: usize = 0;
    while i < inline_blocks.len()
        invariant
            i <= inline_blocks@.len(),
            ids == ids_view(inline_blocks@),
            ids == standard_block@.inline_blocks(),
            m == map@,
            m == block_map@,
            id == standard_block@.id,
            bt0 == ids_view(blocks_to_update@),
            bt0 == ids_view(old(blocks_to_update)@),
            blocks_to_update@ == old(blocks_to_update)@,
            forall|j: int| 0 <= j < i ==> inline_block_of(m, #[trigger] ids[j]) is Some,
            forall|j: int| 1 <= j < i ==> !#[trigger] mergeable_at(m, ids, j),
            previous_type is Some <==> i > 0,
            i > 0 ==> previous_marks@ == marks_of(m, ids[i - 1]),
        decreases inline_blocks@.len() - i,
    {
        assert(ids[i as int] == inline_blocks@[i as int]@);
        let inline_block = match map.get_inline_block(&inline_blocks[i]) {
            Ok(b) => b,
            Err(e) => {
                proof {
                    assert(inline_block_of(m, ids[i as int]) is None);
                }
                return Err(e);
            },
        };
        if previous_type.is_some() {
            let previous = previous_type.unwrap();
            if all_marks_are_identical(&inline_block.marks, &previous_marks)
                && inline_block.is_same_type(&previous) {
                assert(mergeable_at(m, ids, i as int));
                assert(ids[i - 1] == inline_blocks@[i - 1]@);
                let previous_inline_block = map.get_inline_block(&inline_blocks[i - 1])?;
                let new_inline_block = previous_inline_block.merge(inline_block)?;
                let ghost merged = new_inline_block@;
                proof {
                    map.lemma_keys_are_ids();
                    assert(m[ids[i - 1]].id() == ids[i - 1]);
                    assert(merged.id == ids[i - 1]);
                }
                map.update_block(Block::InlineBlock(new_inline_block), blocks_to_update)?;
                let ghost m1 = map@;
                let mut new_ids = copy_ids(inline_blocks);
                new_ids.remove(i);
                let ghost ids1 = ids_view(new_ids@);
                proof {
                    assert(ids1 =~= ids.remove(i as int));
                }
                let copied = standard_block.copy();
                assert(copied@ == standard_block@);
                let updated = copied.update_block_content(
                    ContentBlock { inline_blocks: new_ids },
                )?;
                assert(updated@ == standard_block@.with_inline_blocks(ids1));
                map.update_block(Block::StandardBlock(updated.copy()), blocks_to_update)?;
                let ghost m_1 = map@;
                let ghost bt1 = ids_view(blocks_to_update@);
                proof {
                    assert(updated@.inline_blocks() == ids1);
                    assert(updated@.id == id);
                }
                let r = merge_inline_blocks_with_identical_marks(&updated, map, blocks_to_update);
                proof {
                    lemma_merge_step(m, m_1, id, standard_block@, updated@, ids, ids1, i as int, merged, r);
                }
                return r;
            }
        }
        previous_marks = copy_marks(&inline_block.marks);
        previous_type = Some(inline_block.content.clone());
        i += 1;
    }
    proof {
        assert(no_mergeable(m, ids));
        assert(all_inline(m, ids));
    }
    return Ok(map)
}


/// Removing the id at `i` from distinct ids keeps them distinct.
proof fn lemma_remove_distinct(ids: Seq<Seq<char>>, id: Seq<char>, i: int)
    requires
        distinct_apart(ids, id),
        0 <= i < ids.len(),
    ensures
        distinct_apart(ids.remove(i), id),
        forall|k: Seq<char>| #[trigger] ids.remove(i).contains(k) ==> ids.contains(k) && k != ids[i],
        forall|k: Seq<char>| ids.contains(k) && k != ids[i] ==> #[trigger] ids.remove(i).contains(k),
{
    let r = ids.remove(i);
    assert forall|a: int, b: int| 0 <= a < b < r.len() implies r[a] != r[b] by {
        let a1 = if a < i { a } else { a + 1 };
        let b1 = if b < i { b } else { b + 1 };
        assert(r[a] == ids[a1]);
        assert(r[b] == ids[b1]);
    }
    assert forall|k: Seq<char>| #[trigger] r.contains(k) implies ids.contains(k) && k != ids[i] by {
        let a = choose|a: int| 0 <= a < r.len() && r[a] == k;
        let a1 = if a < i { a } else { a + 1 };
        assert(ids[a1] == k);
    }
    assert forall|k: Seq<char>| ids.contains(k) && k != ids[i] implies #[trigger] r.contains(k) by {
        let a = choose|a: int| 0 <= a < ids.len() && ids[a] == k;
        if a < i {
            assert(r[a] == k);
        } else {
            assert(a != i);
            assert(r[a - 1] == k);
        }
    }
}

/// The texts read after one merge are those read before it.
proof fn lemma_merge_texts(
    m: BlockMapView,
    m_1: BlockMapView,
    id: Seq<char>,
    ids: Seq<Seq<char>>,
    i: int,
)
    requires
        distinct_apart(ids, id),
        1 <= i < ids.len(),
        text_of(m_1, ids[i - 1]) == text_of(m, ids[i - 1]) + text_of(m, ids[i]),
        forall|k: Seq<char>| k != ids[i - 1] && k != id ==> #[trigger] text_of(m_1, k) == text_of(m, k),
    ensures
        texts(m_1, ids.remove(i)) == texts(m, ids),
{
    let a = ids.take(i - 1);
    let c = ids.skip(i + 1);
    let x = ids[i - 1];
    let y = ids[i];
    assert(ids =~= a + seq![x, y] + c);
    assert(ids.remove(i) =~= a + seq![x] + c);
    lemma_texts_append(m, a + seq![x, y], c);
    lemma_texts_append(m, a, seq![x, y]);
    lemma_texts_append(m_1, a + seq![x], c);
    lemma_texts_append(m_1, a, seq![x]);
    assert forall|j: int| 0 <= j < a.len() implies text_of(m_1, #[trigger] a[j]) == text_of(m, a[j]) by {
        assert(a[j] == ids[j]);
        assert(ids.contains(ids[j]));
    }
    assert forall|j: int| 0 <= j < c.len() implies text_of(m_1, #[trigger] c[j]) == text_of(m, c[j]) by {
        assert(c[j] == ids[i + 1 + j]);
        assert(ids.contains(ids[i + 1 + j]));
    }
    lemma_texts_frame(m_1, m, a);
    lemma_texts_frame(m_1, m, c);
    assert(texts(m, seq![x, y]) =~= text_of(m, x) + text_of(m, y)) by {
        assert(seq![x, y].drop_last() =~= seq![x]);
        lemma_texts_single(m, x);
    }
    lemma_texts_single(m_1, x);
    assert(texts(m_1, a) + texts(m_1, seq![x]) + texts(m_1, c) =~= texts(m, a) + texts(m, seq![x, y]) + texts(m, c));
}

/// One merge followed by the rest gives what the whole does.
proof fn lemma_merge_step(
    m: BlockMapView,
    m_1: BlockMapView,
    id: Seq<char>,
    b: crate::blocks::standard_blocks::StandardBlockView,
    b1: crate::blocks::standard_blocks::StandardBlockView,
    ids: Seq<Seq<char>>,
    ids1: Seq<Seq<char>>,
    i: int,
    merged: crate::blocks::inline_blocks::InlineBlockView,
    r: Result<BlockMap, StepError>,
)
    requires
        ids == b.inline_blocks(),
        b.has_content(),
        b.id == id,
        1 <= i < ids.len(),
        forall|j: int| 0 <= j <= i ==> inline_block_of(m, #[trigger] ids[j]) is Some,
        mergeable_at(m, ids, i),
        merged == inline_block_of(m, ids[i - 1])->0.with_text(
            text_of(m, ids[i - 1]) + text_of(m, ids[i]),
        ),
        m_1 == m.insert(ids[i - 1], BlockView::Inline(merged)).insert(id, BlockView::Standard(b1)),
        ids1 == ids.remove(i),
        b1 == b.with_inline_blocks(ids1),
        distinct_apart(ids1, id) ==> ({
            &&& r is Ok <==> b1.has_content() && all_inline(m_1, ids1)
            &&& r matches Ok(m2) ==> {
                &&& no_mergeable(m_1, ids1) ==> m2@ == m_1
                &&& !no_mergeable(m_1, ids1) ==> merged_into(m_1, m2@, id, b1)
            }
        }),
    ensures
        distinct_apart(ids, id) ==> ({
            &&& r is Ok <==> all_inline(m, ids)
            &&& r matches Ok(m2) ==> !no_mergeable(m, ids) && merged_into(m, m2@, id, b)
        }),
{
    if distinct_apart(ids, id) {
        let x = ids[i - 1];
        lemma_remove_distinct(ids, id, i);
        assert(ids.contains(x));
        assert(x != id);
        assert forall|k: Seq<char>| k != x && k != id implies #[trigger] m_1.contains_key(k) == m.contains_key(k) && (m.contains_key(k) ==> m_1[k] == m[k]) by {}
        assert(text_of(m_1, x) == text_of(m, x) + text_of(m, ids[i]));
        assert forall|k: Seq<char>| k != x && k != id implies #[trigger] text_of(m_1, k) == text_of(m, k) by {
            assert(inline_block_of(m_1, k) == inline_block_of(m, k));
        }
        lemma_merge_texts(m, m_1, id, ids, i);
        assert(all_inline(m_1, ids1) <==> all_inline(m, ids)) by {
            if all_inline(m, ids) {
                assert forall|j: int| 0 <= j < ids1.len() implies inline_block_of(m_1, #[trigger] ids1[j]) is Some by {
                    assert(ids1.contains(ids1[j]));
                    assert(ids.contains(ids1[j]));
                    let a = choose|a: int| 0 <= a < ids.len() && ids[a] == ids1[j];
                    assert(inline_block_of(m, ids[a]) is Some);
                }
            }
            if all_inline(m_1, ids1) {
                assert forall|j: int| 0 <= j < ids.len() implies inline_block_of(m, #[trigger] ids[j]) is Some by {
                    if j != i && ids[j] != x {
                        assert(ids.contains(ids[j]));
                        assert(ids1.contains(ids[j]));
                        let a = choose|a: int| 0 <= a < ids1.len() && ids1[a] == ids[j];
                        assert(inline_block_of(m_1, ids1[a]) is Some);
                    }
                    if ids[j] == x {
                        assert(inline_block_of(m, ids[i - 1]) is Some);
                    }
                }
            }
        }
        assert(!no_mergeable(m, ids));
        assert forall|j: int| 0 <= j < ids1.len() implies marks_of(m_1, #[trigger] ids1[j]) == marks_of(m, ids1[j]) by {
            assert(ids1.contains(ids1[j]));
            if ids1[j] != x {
                assert(inline_block_of(m_1, ids1[j]) == inline_block_of(m, ids1[j]));
            }
        }
        lemma_keeps_order_remove(ids, i);
        match r {
            Ok(m2) => {
                if !no_mergeable(m_1, ids1) {
                    let ids2 = std_block_of(m2@, id)->0.inline_blocks();
                    lemma_keeps_order_trans(ids2, ids1, ids);
                }
                if no_mergeable(m_1, ids1) {
                    assert(std_block_of(m_1, id) == Some(b1));
                    assert(std_block_of(m_1, id)->0.inline_blocks() == ids1);
                    assert forall|j: int| 0 <= j < ids1.len() implies ids.contains(#[trigger] ids1[j])
                        && marks_of(m_1, ids1[j]) == marks_of(m, ids1[j]) by {
                        assert(ids1.contains(ids1[j]));
                    }
                    assert(merged_into(m, m2@, id, b));
                } else {
                    let ids2 = std_block_of(m2@, id)->0.inline_blocks();
                    assert forall|j: int| 0 <= j < ids2.len() implies ids.contains(#[trigger] ids2[j])
                        && marks_of(m2@, ids2[j]) == marks_of(m, ids2[j]) by {
                        assert(ids1.contains(ids2[j]));
                        let a = choose|a: int| 0 <= a < ids1.len() && ids1[a] == ids2[j];
                        assert(marks_of(m_1, ids1[a]) == marks_of(m, ids1[a]));
                    }
                    assert forall|k: Seq<char>| m.contains_key(k) && k != id && !ids.contains(k) implies #[trigger] m2@[k] == m[k] by {
                        assert(!ids1.contains(k));
                        assert(k != x);
                    }
                    assert(merged_into(m, m2@, id, b));
                }
            },
            Err(_) => {},
        }
    }
}

/// The ids of `ids` whose inline blocks in `m` hold some text, in order.
pub open spec fn non_empty_ids(m: BlockMapView, ids: Seq<Seq<char>>) -> Seq<Seq<char>>
    decreases ids.len(),
{
    if ids.len() == 0 {
        Seq::empty()
    } else {
        let rest = non_empty_ids(m, ids.drop_last());
        if text_of(m, ids.last()).len() > 0 {
            rest.push(ids.last())
        } else {
            rest
        }
    }
}

proof fn lemma_non_empty_append(m: BlockMapView, a: Seq<Seq<char>>, b: Seq<Seq<char>>)
    ensures
        non_empty_ids(m, a + b) == non_empty_ids(m, a) + non_empty_ids(m, b),
    decreases b.len(),
{
    if b.len() == 0 {
        assert(a + b =~= a);
        assert(non_empty_ids(m, a) + non_empty_ids(m, b) =~= non_empty_ids(m, a));
    } else {
        lemma_non_empty_append(m, a, b.drop_last());
        assert((a + b).drop_last() =~= a + b.drop_last());
        if text_of(m, b.last()).len() > 0 {
            assert(non_empty_ids(m, a) + non_empty_ids(m, b.drop_last()).push(b.last())
                =~= (non_empty_ids(m, a) + non_empty_ids(m, b.drop_last())).push(b.last()));
        }
    }
}

proof fn lemma_non_empty_all(m: BlockMapView, a: Seq<Seq<char>>)
    requires
        forall|j: int| 0 <= j < a.len() ==> text_of(m, #[trigger] a[j]).len() > 0,
    ensures
        non_empty_ids(m, a) == a,
    decreases a.len(),
{
    if a.len() > 0 {
        lemma_non_empty_all(m, a.drop_last());
        assert(text_of(m, a[a.len() - 1]).len() > 0);
        assert(a.drop_last().push(a.last()) =~= a);
    }
}

proof fn lemma_non_empty_frame(m1: BlockMapView, m2: BlockMapView, s: Seq<Seq<char>>)
    requires
        forall|i: int| 0 <= i < s.len() ==> text_of(m1, #[trigger] s[i]) == text_of(m2, s[i]),
    ensures
        non_empty_ids(m1, s) == non_empty_ids(m2, s),
    decreases s.len(),
{
    if s.len() > 0 {
        lemma_non_empty_frame(m1, m2, s.drop_last());
        assert(text_of(m1, s[s.len() - 1]) == text_of(m2, s[s.len() - 1]));
    }
}

/// Leaving out blocks with no text leaves the texts as they read.
pub proof fn lemma_non_empty_texts(m: BlockMapView, ids: Seq<Seq<char>>)
    ensures
        texts(m, non_empty_ids(m, ids)) == texts(m, ids),
        forall|j: int| 0 <= j < non_empty_ids(m, ids).len() ==> text_of(m, #[trigger] non_empty_ids(m, ids)[j]).len() > 0,
        forall|j: int| 0 <= j < non_empty_ids(m, ids).len() ==> ids.contains(#[trigger] non_empty_ids(m, ids)[j]),
    decreases ids.len(),
{
    if ids.len() > 0 {
        let rest = ids.drop_last();
        lemma_non_empty_texts(m, rest);
        let r = non_empty_ids(m, rest);
        if text_of(m, ids.last()).len() > 0 {
            assert(r.push(ids.last()).drop_last() =~= r);
            assert forall|j: int| 0 <= j < r.push(ids.last()).len() implies ids.contains(#[trigger] r.push(ids.last())[j]) by {
                if j < r.len() {
                    assert(rest.contains(r[j]));
                    let a = choose|a: int| 0 <= a < rest.len() && rest[a] == r[j];
                    assert(ids[a] == r[j]);
                } else {
                    assert(ids[ids.len() - 1] == ids.last());
                }
            }
        } else {
            assert(text_of(m, ids.last()) =~= Seq::<u16>::empty());
            assert(texts(m, ids) =~= texts(m, rest));
            assert forall|j: int| 0 <= j < r.len() implies ids.contains(#[trigger] r[j]) by {
                assert(rest.contains(r[j]));
                let a = choose|a: int| 0 <= a < rest.len() && rest[a] == r[j];
                assert(ids[a] == r[j]);
            }
        }
    }
}

/// The map after `remove_empty_inline_blocks` on block `b` (whose id is not
/// among its inline blocks): unchanged where every inline block holds text;
/// else the block, written back with those that hold text, or with
/// `first` alone where none does.
pub open spec fn without_empty_inline_blocks(
    m: BlockMapView,
    b: crate::blocks::standard_blocks::StandardBlockView,
    first: Seq<char>,
) -> BlockMapView {
    let ids = b.inline_blocks();
    let kept = non_empty_ids(m, ids);
    if kept == ids && ids.len() > 0 {
        m
    } else if kept.len() > 0 {
        m.insert(b.id, BlockView::Standard(b.with_inline_blocks(kept)))
    } else {
        m.insert(b.id, BlockView::Standard(b.with_inline_blocks(seq![first])))
    }
}

/// Leaves out of `standard_block` each inline block with no text; where
/// none is left, puts `first_block_id` back as its only inline block.
pub fn remove_empty_inline_blocks(
    standard_block: &StandardBlock,
    block_map: BlockMap,
    first_block_id: &str,
    blocks_to_update: &mut Vec<String>,
) -> (r: Result<BlockMap, StepError>)
    ensures
        !standard_block@.has_content() ==> r is Err,
        extends(old(blocks_to_update)@, final(blocks_to_update)@),
        !standard_block@.inline_blocks().contains(standard_block@.id) ==> ({
            &&& r is Ok <==> standard_block@.has_content() && all_inline(block_map@, standard_block@.inline_blocks())
            &&& r matches Ok(m2) ==> m2@ == without_empty_inline_blocks(block_map@, standard_block@, first_block_id@)
            &&& r is Ok && m2_unchanged(block_map@, standard_block@) ==> final(blocks_to_update)@ == old(blocks_to_update)@
        }),
    decreases standard_block@.inline_blocks().len(),
{
    let ghost m = block_map@;
    let ghost id = standard_block@.id;
    let mut map = block_map;
    let content_block = standard_block.content_block()?;
    let inline_blocks = &content_block.inline_blocks;
    let ghost ids = standard_block@.inline_blocks();
    let mut i: usize = 0;
    while i < inline_blocks.len()
        invariant
            i <= inline_blocks@.len(),
            ids == ids_view(inline_blocks@),
            ids == standard_block@.inline_blocks(),
            standard_block@.has_content(),
            m == map@,
            m == block_map@,
            id == standard_block@.id,
            blocks_to_update@ == old(blocks_to_update)@,
            forall|j: int| 0 <= j < i ==> inline_block_of(m, #[trigger] ids[j]) is Some && text_of(m, ids[j]).len() > 0,
        decreases inline_blocks@.len() - i,
    {
        assert(ids[i as int] == inline_blocks@[i as int]@);
        let inline_block = match map.get_inline_block(&inline_blocks[i]) {
            Ok(b) => b,
            Err(e) => {
                proof {
                    assert(inline_block_of(m, ids[i as int]) is None);
                }
                return Err(e);
            },
        };
        if inline_block.text()?.len() == 0 {
            let mut new_ids = copy_ids(inline_blocks);
            new_ids.remove(i);
            let ghost ids1 = ids_view(new_ids@);
            proof {
                assert(ids1 =~= ids.remove(i as int));
            }
            let copied = standard_block.copy();
            let updated = copied.update_block_content(ContentBlock { inline_blocks: new_ids })?;
            assert(updated@ == standard_block@.with_inline_blocks(ids1));
            map.update_block(Block::StandardBlock(updated.copy()), blocks_to_update)?;
            let ghost m_1 = map@;
            let ghost bt1 = ids_view(blocks_to_update@);
            let r = remove_empty_inline_blocks(&updated, map, first_block_id, blocks_to_update);
            proof {
                if !ids.contains(id) {
                    let a = ids.take(i as int);
                    let c = ids.skip(i + 1);
                    let x = ids[i as int];
                    assert(ids =~= a + seq![x] + c);
                    assert(ids1 =~= a + c);
                    assert forall|k: Seq<char>| #[trigger] ids1.contains(k) implies ids.contains(k) by {
                        let j = choose|j: int| 0 <= j < ids1.len() && ids1[j] == k;
                        if j < i { assert(ids[j] == k); } else { assert(ids[j + 1] == k); }
                    }
                    assert(!ids1.contains(id));
                    assert forall|j: int| 0 <= j < ids.len() implies text_of(m_1, #[trigger] ids[j]) == text_of(m, ids[j]) && inline_block_of(m_1, ids[j]) == inline_block_of(m, ids[j]) by {
                        assert(ids.contains(ids[j]));
                    }
                    assert forall|j: int| 0 <= j < ids1.len() implies text_of(m_1, #[trigger] ids1[j]) == text_of(m, ids1[j]) && inline_block_of(m_1, ids1[j]) == inline_block_of(m, ids1[j]) by {
                        assert(ids1.contains(ids1[j]));
                        assert(ids.contains(ids1[j]));
                        let a2 = choose|a2: int| 0 <= a2 < ids.len() && ids[a2] == ids1[j];
                        assert(text_of(m_1, ids[a2]) == text_of(m, ids[a2]));
                    }
                    lemma_non_empty_frame(m_1, m, ids1);
                    lemma_non_empty_append(m, a + seq![x], c);
                    lemma_non_empty_append(m, a, seq![x]);
                    lemma_non_empty_append(m, a, c);
                    assert forall|j: int| 0 <= j < a.len() implies text_of(m, #[trigger] a[j]).len() > 0 by {
                        assert(a[j] == ids[j]);
                    }
                    lemma_non_empty_all(m, a);
                    assert(text_of(m, x).len() == 0);
                    assert(non_empty_ids(m, seq![x]) =~= Seq::<Seq<char>>::empty()) by {
                        reveal_with_fuel(non_empty_ids, 2);
                        assert(seq![x].drop_last() =~= Seq::<Seq<char>>::empty());
                        assert(seq![x].last() == x);
                    }
                    assert(non_empty_ids(m, ids) =~= non_empty_ids(m, ids1));
                    assert(non_empty_ids(m, ids) != ids) by {
                        lemma_non_empty_texts(m, ids);
                        if non_empty_ids(m, ids) == ids {
                            assert(text_of(m, non_empty_ids(m, ids)[i as int]).len() > 0);
                        }
                    }
                    assert(all_inline(m_1, ids1) <==> all_inline(m, ids)) by {
                        if all_inline(m, ids) {
                            assert forall|j: int| 0 <= j < ids1.len() implies inline_block_of(m_1, #[trigger] ids1[j]) is Some by {
                                assert(ids1.contains(ids1[j]));
                                assert(ids.contains(ids1[j]));
                                let a2 = choose|a2: int| 0 <= a2 < ids.len() && ids[a2] == ids1[j];
                                assert(inline_block_of(m, ids[a2]) is Some);
                            }
                        }
                        if all_inline(m_1, ids1) {
                            assert forall|j: int| 0 <= j < ids.len() implies inline_block_of(m, #[trigger] ids[j]) is Some by {
                                if j < i {
                                    assert(ids1[j] == ids[j]);
                                } else if j > i {
                                    assert(ids1[j - 1] == ids[j]);
                                }
                            }
                        }
                    }
                    if r is Ok {
                        let m2 = r->Ok_0;
                        if non_empty_ids(m_1, ids1) == ids1 && ids1.len() > 0 {
                            assert(m2@ =~= without_empty_inline_blocks(m, standard_block@, first_block_id@));
                        } else {
                            assert(m2@ =~= without_empty_inline_blocks(m, standard_block@, first_block_id@));
                        }
                    }
                }
            }
            return r;
        }
        i += 1;
    }
    proof {
        lemma_non_empty_all(m, ids);
    }
    // if content block is empty -> readd the first inline block
    if inline_blocks.len() == 0 {
        let mut first: Vec<String> = Vec::new();
        first.push(String::from_str(first_block_id));
        let updated_content_block = ContentBlock { inline_blocks: first };
        let updated = standard_block.copy().update_block_content(updated_content_block)?;
        proof {
            assert(ids_view(first@) =~= seq![first_block_id@]);
        }
        map.update_block(Block::StandardBlock(updated), blocks_to_update)?;
    }
    return Ok(map)
}

/// `remove_empty_inline_blocks` leaves the map as it is.
pub open spec fn m2_unchanged(m: BlockMapView, b: crate::blocks::standard_blocks::StandardBlockView) -> bool {
    non_empty_ids(m, b.inline_blocks()) == b.inline_blocks() && b.inline_blocks().len() > 0
}

/// Writes `block` into the map, then, where it has more than one inline
/// block, merges neighbours with the same marks and leaves out inline blocks
/// with no text.
pub fn clean_block_after_transform(
    block: StandardBlock,
    block_map: BlockMap,
    blocks_to_update: &mut Vec<String>,
) -> (r: Result<BlockMap, StepError>)
    ensures
        !block@.has_content() ==> r is Err,
        extends(old(blocks_to_update)@, final(blocks_to_update)@),
        block@.has_content() && distinct_apart(block@.inline_blocks(), block@.id) && all_inline(
            block_map@,
            block@.inline_blocks(),
        ) ==> (r matches Ok(m2) && cleaned(block_map@, m2@, block@)),
        block@.has_content() && distinct_apart(block@.inline_blocks(), block@.id) && all_inline(block_map@, block@.inline_blocks())
            && no_mergeable(block_map@, block@.inline_blocks()) && m2_unchanged(block_map@, block@) ==> (r matches Ok(m2)
            && m2@ == block_map@.insert(block@.id, BlockView::Standard(block@))),
{
    let ghost m = block_map@;
    let ghost ids = block@.inline_blocks();
    let ghost plain = block@.has_content() && distinct_apart(ids, block@.id) && all_inline(m, ids) && no_mergeable(m, ids)
        && m2_unchanged(m, block@);
    let ghost id = block@.id;
    let mut map = block_map;
    map.update_block(Block::StandardBlock(block.copy()), blocks_to_update)?;
    let ghost m0 = map@;
    proof {
        if plain {
            assert forall|j: int| 0 <= j < ids.len() implies #[trigger] m0.contains_key(ids[j]) == m.contains_key(ids[j])
                && m0[ids[j]] == m[ids[j]] by {
                assert(ids.contains(ids[j]));
            }
            assert forall|j: int| 1 <= j < ids.len() implies !#[trigger] mergeable_at(m0, ids, j) by {
                assert(!mergeable_at(m, ids, j));
                assert(m0[ids[j]] == m[ids[j]] && m0[ids[j - 1]] == m[ids[j - 1]]);
            }
            assert forall|j: int| 0 <= j < ids.len() implies text_of(m0, #[trigger] ids[j]) == text_of(m, ids[j]) by {
                assert(m0[ids[j]] == m[ids[j]]);
            }
            lemma_non_empty_frame(m0, m, ids);
        }
    }
    let n = block.inline_blocks_length()?;
    if n > 1 {
        let ghost bt_a = ids_view(blocks_to_update@);
        map = merge_inline_blocks_with_identical_marks(&block, map, blocks_to_update)?;
        let ghost m1 = map@;
        let block2 = map.get_standard_block(&block._id)?;
        let ghost ids1 = block2@.inline_blocks();
        let n2 = block2.inline_blocks_length()?;
        if n2 == 0 {
            return Err(crate::steps_generator::step_error_msg("Block has no inline blocks"));
        }
        let first = block2.get_inline_block_from_index(0)?;
        let ghost bt_b = ids_view(blocks_to_update@);
        map = remove_empty_inline_blocks(&block2, map, first.as_str(), blocks_to_update)?;
        proof {
            if distinct_apart(ids, id) && all_inline(m, ids) {
                lemma_clean(m, m0, m1, map@, block@, block2@, first@);
            }
        }
    } else {
        proof {
            if distinct_apart(ids, id) && all_inline(m, ids) {
                assert forall|j: int| 0 <= j < ids.len() implies text_of(m0, #[trigger] ids[j]) == text_of(m, ids[j]) && inline_block_of(m0, ids[j]) == inline_block_of(m, ids[j]) by {
                    assert(ids.contains(ids[j]));
                }
                lemma_texts_frame(m0, m, ids);
                assert(std_block_of(m0, id) == Some(block@));
                assert(block@.with_inline_blocks(ids) == block@);
            }
        }
    }
    return Ok(map)
}

/// `m2` is `m` with the standard block `b` written and cleaned: the block
/// now lists ids of `b` (at least one where `b` had some), whose texts read
/// as those of `b` did, and which all hold text where there are several.
pub open spec fn cleaned(m: BlockMapView, m2: BlockMapView, b: crate::blocks::standard_blocks::StandardBlockView) -> bool {
    let ids2 = std_block_of(m2, b.id)->0.inline_blocks();
    &&& std_block_of(m2, b.id) == Some(b.with_inline_blocks(ids2))
    &&& texts(m2, ids2) == texts(m, b.inline_blocks())
    &&& b.inline_blocks().len() > 0 ==> ids2.len() > 0
    &&& forall|j: int| 0 <= j < ids2.len() ==> b.inline_blocks().contains(#[trigger] ids2[j])
    &&& ids2.len() > 1 ==> forall|j: int| 0 <= j < ids2.len() ==> text_of(m2, #[trigger] ids2[j]).len() > 0
    &&& forall|k: Seq<char>|
        #[trigger] m.contains_key(k) && k != b.id && !b.inline_blocks().contains(k) ==> m2.contains_key(k) && m2[k] == m[k]
    &&& all_inline(m2, ids2)
}

proof fn lemma_clean(
    m: BlockMapView,
    m0: BlockMapView,
    m1: BlockMapView,
    m2: BlockMapView,
    b: crate::blocks::standard_blocks::StandardBlockView,
    b2: crate::blocks::standard_blocks::StandardBlockView,
    first: Seq<char>,
)
    requires
        distinct_apart(b.inline_blocks(), b.id),
        all_inline(m, b.inline_blocks()),
        b.has_content(),
        b.inline_blocks().len() > 1,
        m0 == m.insert(b.id, BlockView::Standard(b)),
        no_mergeable(m0, b.inline_blocks()) ==> m1 == m0,
        !no_mergeable(m0, b.inline_blocks()) ==> merged_into(m0, m1, b.id, b),
        std_block_of(m1, b.id) == Some(b2),
        b2.inline_blocks().len() > 0,
        first == b2.inline_blocks()[0],
        !b2.inline_blocks().contains(b2.id) ==> m2 == without_empty_inline_blocks(m1, b2, first),
    ensures
        cleaned(m, m2, b),
{
    let ids = b.inline_blocks();
    let id = b.id;
    assert forall|j: int| 0 <= j < ids.len() implies text_of(m0, #[trigger] ids[j]) == text_of(m, ids[j]) && inline_block_of(m0, ids[j]) == inline_block_of(m, ids[j]) by {
        assert(ids.contains(ids[j]));
    }
    lemma_texts_frame(m0, m, ids);
    let ids1 = b2.inline_blocks();
    // After the merge: the block lists ids1, distinct, of ids, with the same texts.
    if no_mergeable(m0, ids) {
        assert(b2 == b);
        assert(texts(m1, ids1) == texts(m, ids));
    } else {
        assert(texts(m1, ids1) == texts(m0, ids));
    }
    assert(distinct_apart(ids1, id));
    assert(b2.id == id);
    assert(b2 == b.with_inline_blocks(ids1));
    assert forall|j: int| 0 <= j < ids1.len() implies ids.contains(#[trigger] ids1[j]) by {
        if no_mergeable(m0, ids) {
            assert(ids1[j] == ids[j]);
        }
    }
    let kept = non_empty_ids(m1, ids1);
    lemma_non_empty_texts(m1, ids1);
    assert forall|j: int| 0 <= j < ids1.len() implies text_of(m2, #[trigger] ids1[j]) == text_of(m1, ids1[j]) by {
        assert(ids1.contains(ids1[j]));
    }
    assert forall|j: int| 0 <= j < kept.len() implies text_of(m2, #[trigger] kept[j]) == text_of(m1, kept[j]) by {
        assert(ids1.contains(kept[j]));
    }
    if kept == ids1 && ids1.len() > 0 {
        assert(m2 == m1);
    } else if kept.len() > 0 {
        lemma_texts_frame(m2, m1, kept);
        assert(std_block_of(m2, id) == Some(b.with_inline_blocks(kept)));
        assert forall|j: int| 0 <= j < kept.len() implies ids.contains(#[trigger] kept[j]) by {
            assert(ids1.contains(kept[j]));
            let a = choose|a: int| 0 <= a < ids1.len() && ids1[a] == kept[j];
            assert(ids.contains(ids1[a]));
        }
    } else {
        assert(std_block_of(m2, id) == Some(b.with_inline_blocks(seq![first])));
        lemma_texts_append(m1, seq![first], ids1.skip(1));
        assert(seq![first] + ids1.skip(1) =~= ids1);
        assert(texts(m1, kept) =~= Seq::<u16>::empty());
        lemma_texts_single(m1, first);
        lemma_texts_single(m2, first);
        assert(ids1.contains(first));
        assert(text_of(m2, first) == text_of(m1, first));
        assert(seq![first][0] == first);
        assert(ids.contains(ids1[0]));
    }
}

/// `f` places each id of `a` at a position of `b` holding it, earlier ids
/// at earlier positions.
pub open spec fn order_witness(a: Seq<Seq<char>>, b: Seq<Seq<char>>, f: spec_fn(int) -> int) -> bool {
    &&& forall|j: int| 0 <= j < a.len() ==> 0 <= #[trigger] f(j) < b.len() && a[j] == b[f(j)]
    &&& forall|j: int, k: int| 0 <= j < k < a.len() ==> #[trigger] f(j) < #[trigger] f(k)
}

/// The ids of `a` appear in `b` in the same order.
pub open spec fn keeps_order(a: Seq<Seq<char>>, b: Seq<Seq<char>>) -> bool {
    exists|f: spec_fn(int) -> int| #[trigger] order_witness(a, b, f)
}

/// Leaving one id out keeps the order of the others.
proof fn lemma_keeps_order_remove(s: Seq<Seq<char>>, i: int)
    requires
        0 <= i < s.len(),
    ensures
        keeps_order(s.remove(i), s),
{
    let f = |j: int| if j < i { j } else { j + 1 };
    assert(order_witness(s.remove(i), s, f));
}

/// Keeping order composes.
proof fn lemma_keeps_order_trans(a: Seq<Seq<char>>, b: Seq<Seq<char>>, c: Seq<Seq<char>>)
    requires
        keeps_order(a, b),
        keeps_order(b, c),
    ensures
        keeps_order(a, c),
{
    let f = choose|f: spec_fn(int) -> int| #[trigger] order_witness(a, b, f);
    let g = choose|g: spec_fn(int) -> int| #[trigger] order_witness(b, c, g);
    let h = |j: int| g(f(j));
    assert forall|j: int| 0 <= j < a.len() implies 0 <= #[trigger] h(j) < c.len() && a[j] == c[h(j)] by {
        assert(0 <= f(j) < b.len());
    }
    assert forall|j: int, k: int| 0 <= j < k < a.len() implies #[trigger] h(j) < #[trigger] h(k) by {
        assert(f(j) < f(k));
        assert(0 <= f(j) < b.len() && 0 <= f(k) < b.len());
    }
    assert(order_witness(a, c, h));
}

/// `m2` is `m` after merging inline blocks of the standard block `id`, which
/// was `b`: the block now lists ids of `b` that no two neighbours of share
/// marks, whose texts read as those of `b` did, each with the marks it had;
/// every other block but those of `b` is as it was.
pub open spec fn merged_into(m: BlockMapView, m2: BlockMapView, id: Seq<char>, b: crate::blocks::standard_blocks::StandardBlockView) -> bool {
    let ids2 = std_block_of(m2, id)->0.inline_blocks();
    &&& std_block_of(m2, id) == Some(b.with_inline_blocks(ids2))
    &&& ids2.len() > 0
    &&& no_mergeable(m2, ids2)
    &&& texts(m2, ids2) == texts(m, b.inline_blocks())
    &&& all_inline(m2, ids2)
    &&& forall|j: int| 0 <= j < ids2.len() ==> b.inline_blocks().contains(#[trigger] ids2[j])
        && marks_of(m2, ids2[j]) == marks_of(m, ids2[j])
    &&& distinct_apart(ids2, id)
    &&& keeps_order(ids2, b.inline_blocks())
    &&& forall|k: Seq<char>| #[trigger] m2.contains_key(k) <==> m.contains_key(k) || k == id
    &&& forall|k: Seq<char>| m.contains_key(k) && k != id && !b.inline_blocks().contains(k) ==> #[trigger] m2[k] == m[k]
}

} // verus!
