use vstd::prelude::*;

use crate::blocks::{Block, BlockMap, BlockMapView, BlockView, inline_block_of, nearest_standard};
use crate::blocks::standard_blocks::{StandardBlock, StandardBlockKind, StandardBlockType, StandardBlockTypeView, StandardBlockView, kind_has_content};
use crate::blocks::tree::child_index;
use crate::blocks::standard_blocks::content_block::ContentBlock;
use crate::blocks::standard_blocks::list_block::ListBlock;
use crate::blocks::standard_blocks::page_block::PageBlock;
use crate::step::{AddBlockStep, ReplaceSlice, ReplaceStep, Step};
use crate::steps_generator::{StepError, step_error, step_error_msg};
use crate::steps_generator::event::SlashScrimEvent;
use crate::steps_generator::selection::{Layer, SubSelection, lemma_layers_len};
use crate::text::str_eq;

verus! {

/// A UTF-16 unit that is half of a surrogate pair.
pub open spec fn is_surrogate(u: u16) -> bool {
    0xD800 <= u <= 0xDFFF
}

/// Some "/" comes before `to` in `text`, with no half surrogate pair after
/// it up to `to`.
pub open spec fn slash_before(text: Seq<u16>, to: int) -> bool {
    to <= text.len() && exists|k: int| 0 <= k < to && #[trigger] text[k] == 0x2Fu16 && forall|j: int| k < j < to ==> !is_surrogate(text[j])
}

/// Whether the slash command can be read back from the caret: where the
/// selection starts in an inline block, a "/" lies before the caret in its
/// text, with no half surrogate pair between.
pub fn check_slash_before(block_map: &BlockMap, from: &SubSelection, to: &SubSelection) -> (r: bool)
    ensures
        r <==> (inline_block_of(block_map@, from@[0].block_id) is Some ==> slash_before(
            inline_block_of(block_map@, from@[0].block_id)->0.text,
            to.offset as int,
        )),
{
    proof {
        lemma_layers_len(*from);
    }
    let inline_block = match block_map.get_inline_block(&from.block_id) {
        Ok(b) => b,
        Err(_) => return true,
    };
    let text = match inline_block.text() {
        Ok(t) => t,
        Err(_) => return true,
    };
    let ghost t = text@;
    if to.offset > text.0.len() {
        return false;
    }
    assert(inline_block_of(block_map@, from@[0].block_id)->0.text == t);
    let mut j = to.offset;
    while j > 0
        invariant
            t == text@,
            t.len() == text.0@.len(),
            inline_block_of(block_map@, from@[0].block_id) is Some,
            inline_block_of(block_map@, from@[0].block_id)->0.text == t,
            j <= to.offset <= t.len(),
            forall|i: int| j <= i < to.offset ==> t[i] != 0x2Fu16 && !is_surrogate(t[i]),
        decreases j,
    {
        let u = text.0[j - 1];
        if u == 0x2F {
            assert(t[j - 1] == 0x2Fu16);
            return true;
        }
        if 0xD800 <= u && u <= 0xDFFF {
            assert forall|k: int| 0 <= k < to.offset && #[trigger] t[k] == 0x2Fu16 implies !(forall|i: int|
                k < i < to.offset ==> !is_surrogate(t[i])) by {
                assert(k < j - 1);
                assert(is_surrogate(t[j - 1]));
            }
            return false;
        }
        j = j - 1;
    }
    false
}

/// The kind of block that a slash command names.
pub open spec fn slash_kind(name: Seq<char>) -> Option<StandardBlockKind> {
    if name == "paragraph"@ { Some(StandardBlockKind::Paragraph) }
    else if name == "heading 1"@ { Some(StandardBlockKind::H1) }
    else if name == "heading 2"@ { Some(StandardBlockKind::H2) }
    else if name == "heading 3"@ { Some(StandardBlockKind::H3) }
    else if name == "to-do list"@ { Some(StandardBlockKind::TodoList) }
    else if name == "numbered list"@ { Some(StandardBlockKind::NumberedList) }
    else if name == "dotpoint list"@ { Some(StandardBlockKind::DotPointList) }
    else if name == "inline page"@ { Some(StandardBlockKind::InlinePage) }
    else if name == "square page"@ { Some(StandardBlockKind::SquarePage) }
    else if name == "link page"@ { Some(StandardBlockKind::LinkBlock) }
    else { None }
}

/// The slash command names the kinds of block it can add by their menu
/// names: the command named after a kind (any kind but a layout or an arrow
/// list) adds a block of that kind, and a command adds a block of kind `k`
/// only when it is named after `k`.
pub proof fn lemma_slash_names(k: StandardBlockKind, name: Seq<char>)
    ensures
        !(k is Layout || k is ArrowList) ==> slash_kind(crate::blocks::standard_blocks::menu_name(k)) == Some(k),
        slash_kind(name) == Some(k) ==> name == crate::blocks::standard_blocks::menu_name(k),
{
    reveal_strlit("paragraph");
    reveal_strlit("heading 1");
    reveal_strlit("heading 2");
    reveal_strlit("heading 3");
    reveal_strlit("to-do list");
    reveal_strlit("numbered list");
    reveal_strlit("dotpoint list");
    reveal_strlit("inline page");
    reveal_strlit("square page");
    reveal_strlit("link page");
    let p = "paragraph"@;
    let h1 = "heading 1"@;
    let h2 = "heading 2"@;
    let h3 = "heading 3"@;
    let nl = "numbered list"@;
    let dl = "dotpoint list"@;
    let ip = "inline page"@;
    let sp = "square page"@;
    let lp = "link page"@;
    crate::blocks::standard_blocks::lemma_differ_at(h1, p, 0);
    crate::blocks::standard_blocks::lemma_differ_at(h2, p, 0);
    crate::blocks::standard_blocks::lemma_differ_at(h3, p, 0);
    crate::blocks::standard_blocks::lemma_differ_at(h2, h1, 8);
    crate::blocks::standard_blocks::lemma_differ_at(h3, h1, 8);
    crate::blocks::standard_blocks::lemma_differ_at(h3, h2, 8);
    crate::blocks::standard_blocks::lemma_differ_at(dl, nl, 0);
    crate::blocks::standard_blocks::lemma_differ_at(sp, ip, 0);
    crate::blocks::standard_blocks::lemma_differ_at(lp, p, 0);
    crate::blocks::standard_blocks::lemma_differ_at(lp, h1, 0);
    crate::blocks::standard_blocks::lemma_differ_at(lp, h2, 0);
    crate::blocks::standard_blocks::lemma_differ_at(lp, h3, 0);
}

/// The empty block type that a slash command names.
fn slash_block_type(name: &str) -> (r: Result<StandardBlockType, StepError>)
    ensures
        r is Err <==> slash_kind(name@) is None,
        r is Err ==> r->Err_0.0@ == "There is no valid block type: "@ + name@,
        r matches Ok(t) ==> t@ == StandardBlockTypeView::empty_of_kind(slash_kind(name@)->0),
{
    let t = if str_eq(name, "paragraph") {
        StandardBlockType::Paragraph(ContentBlock::new(Vec::new()))
    } else if str_eq(name, "heading 1") {
        StandardBlockType::H1(ContentBlock::new(Vec::new()))
    } else if str_eq(name, "heading 2") {
        StandardBlockType::H2(ContentBlock::new(Vec::new()))
    } else if str_eq(name, "heading 3") {
        StandardBlockType::H3(ContentBlock::new(Vec::new()))
    } else if str_eq(name, "to-do list") {
        StandardBlockType::TodoList(ListBlock::new())
    } else if str_eq(name, "numbered list") {
        StandardBlockType::NumberedList(ListBlock::new())
    } else if str_eq(name, "dotpoint list") {
        StandardBlockType::DotPointList(ListBlock::new())
    } else if str_eq(name, "inline page") {
        StandardBlockType::InlinePage(PageBlock::new())
    } else if str_eq(name, "square page") {
        StandardBlockType::SquarePage(PageBlock::new())
    } else if str_eq(name, "link page") {
        StandardBlockType::LinkBlock(PageBlock::new())
    } else {
        return Err(step_error("There is no valid block type: ", name))
    };
    proof {
        assert(crate::blocks::ids_view(Seq::<String>::empty()) =~= Seq::<Seq<char>>::empty());
    }
    Ok(t)
}

/// An add-block step under `block_id` at `child_offset`.
fn add_block_step(block_id: String, child_offset: usize, block_type: StandardBlockType) -> (s: Step)
    ensures
        s matches Step::AddBlock(a) && a.block_id == block_id && a.child_offset == child_offset && a.block_type == block_type
            && !a.focus_block_below,
{
    Step::AddBlock(AddBlockStep {
        block_id,
        new_std_block_id: String::new(),
        new_inline_block_id: String::new(),
        child_offset,
        block_type,
        focus_block_below: false,
    })
}

/// `s` adds, under `parent` at `offset`, an empty block of type `t`.
pub open spec fn adds_block(s: Step, parent: Seq<char>, offset: int, t: StandardBlockTypeView) -> bool {
    s matches Step::AddBlock(a) && a.block_id@ == parent && a.child_offset == offset && a.block_type@ == t
        && !a.focus_block_below
}

/// `s` removes the units `from..to` of the inline block `id` of the
/// standard block `parent`.
pub open spec fn removes_text(s: Step, parent: Seq<char>, id: Seq<char>, from: int, to: int) -> bool {
    &&& s matches Step::ReplaceStep(r)
    &&& r.block_id@ == parent
    &&& r.from@ == seq![Layer { block_id: id, offset: from as usize }]
    &&& r.to@ == seq![Layer { block_id: id, offset: to as usize }]
    &&& r.slice matches ReplaceSlice::String(x)
    &&& x@.len() == 0
}

/// `p` is the position of the last "/" before `to` in `t`.
pub open spec fn last_slash(t: Seq<u16>, to: int, p: int) -> bool {
    0 <= p < to && t[p] == 0x2Fu16 && forall|j: int| p < j < to ==> t[j] != 0x2Fu16
}

/// The type of an empty paragraph.
pub open spec fn empty_paragraph() -> StandardBlockTypeView {
    StandardBlockTypeView::empty_of_kind(StandardBlockKind::Paragraph)
}

/// The steps add, below the block `b` (the `index`th child of its parent),
/// an empty block of type `t`, and below that an empty paragraph where `t`
/// holds no text.
pub open spec fn adds_below(steps: Seq<Step>, b: StandardBlockView, index: int, t: StandardBlockTypeView) -> bool {
    if t.has_content() {
        steps.len() == 1 && adds_block(steps[0], b.parent, index + 1, t)
    } else {
        steps.len() == 2 && adds_block(steps[0], b.parent, index + 1, t) && adds_block(
            steps[1],
            b.parent,
            index + 2,
            empty_paragraph(),
        )
    }
}

/// The steps delete the block `b` (the `index`th child of its parent) and
/// put an empty block of type `t` in its place, with an empty paragraph
/// below it where `t` holds no text.
pub open spec fn replaces_block(steps: Seq<Step>, b: StandardBlockView, index: int, t: StandardBlockTypeView) -> bool {
    &&& steps.len() == if t.has_content() { 2int } else { 3int }
    &&& steps[0] matches Step::DeleteBlock(d) && d@ == b.id
    &&& adds_block(steps[1], b.parent, index, t)
    &&& !t.has_content() ==> adds_block(steps[2], b.parent, index + 1, empty_paragraph())
}

/// Where the command was typed in the inline block `ib` of `b`, up to
/// `to`: the "/" at `p` and the search text after it go, and the new block
/// is added below `b`; where that text was all that `b` held, `b` is
/// replaced instead.
pub open spec fn slash_inline_steps(
    m: BlockMapView,
    steps: Seq<Step>,
    ib: crate::blocks::inline_blocks::InlineBlockView,
    b: StandardBlockView,
    index: int,
    to: int,
    t: StandardBlockTypeView,
) -> bool {
    let p = choose|p: int| last_slash(ib.text, to, p);
    let whole = b.inline_blocks().len() == 1 && p == 0 && to == inline_block_of(m, b.inline_blocks()[0])->0.text.len();
    if whole {
        replaces_block(steps, b, index, t)
    } else {
        steps.len() >= 1 && removes_text(steps[0], ib.parent, ib.id, p, to) && adds_below(steps.drop_first(), b, index, t)
    }
}

/// When the slash command can be carried out: the caret is in a block (not
/// the root) under a standard block that is a child of its parent, the
/// command names a block type, and where the caret is in text, that block
/// holds text whose single inline block, if it has one, exists.
pub open spec fn slash_ok(m: BlockMapView, id: Seq<char>, name: Seq<char>) -> bool {
    let b = nearest_standard(m, id)->0;
    &&& m.contains_key(id)
    &&& !(m[id] is Root)
    &&& slash_kind(name) is Some
    &&& nearest_standard(m, id) is Some
    &&& child_index(m, b.parent, b.id) >= 0
    &&& m[id] is Inline ==> b.has_content() && (b.inline_blocks().len() == 1 ==> inline_block_of(m, b.inline_blocks()[0]) is Some)
}

/// The steps for choosing a block type from the slash menu: the "/" and
/// the search text after it go, and a block of the chosen type is added
/// below (with an empty paragraph below it where it holds no text); where
/// the block held nothing but the command, it is replaced.
pub fn generate_slash_scrim_steps(
    slash_scrim_event: &SlashScrimEvent,
    from: SubSelection,
    to: SubSelection,
    block_map: &BlockMap,
) -> (r: Result<Vec<Step>, StepError>)
    requires
        inline_block_of(block_map@, from@[0].block_id) is Some ==> slash_before(
            inline_block_of(block_map@, from@[0].block_id)->0.text,
            to.offset as int,
        ),
    ensures
        r is Ok ==> slash_ok(block_map@, from@[0].block_id, slash_scrim_event.block_type@),
        block_map@.contains_key(from@[0].block_id) && !(block_map@[from@[0].block_id] is Root) && slash_kind(
            slash_scrim_event.block_type@,
        ) is None ==> r is Err && r->Err_0.0@ == "There is no valid block type: "@ + slash_scrim_event.block_type@,
        slash_ok(block_map@, from@[0].block_id, slash_scrim_event.block_type@) && ({
            let b = nearest_standard(block_map@, from@[0].block_id)->0;
            child_index(block_map@, b.parent, b.id) + 2 <= usize::MAX
        }) ==> r is Ok,
        r matches Ok(steps) ==> ({
            let m = block_map@;
            let b = nearest_standard(m, from@[0].block_id)->0;
            let index = child_index(m, b.parent, b.id);
            let t = StandardBlockTypeView::empty_of_kind(slash_kind(slash_scrim_event.block_type@)->0);
            &&& m[from@[0].block_id] is Standard ==> adds_below(steps@, b, index, t)
            &&& m[from@[0].block_id] matches BlockView::Inline(ib) ==> slash_inline_steps(m, steps@, ib, b, index, to.offset as int, t)
        }),
{
    proof {
        lemma_layers_len(from);
    }
    let ghost m = block_map@;
    let ghost id = from@[0].block_id;
    let mut replace_slash_scrim_text_step: Option<ReplaceStep> = None;
    let ghost mut slash_at: int = 0;
    let from_block = block_map.get_block(&from.block_id)?;
    match from_block {
        Block::InlineBlock(inline_block) => {
            let text = inline_block.text()?;
            let ghost t = text@;
            assert(inline_block_of(m, id) == Some(inline_block@));
            let mut i = to.offset;
            let mut found = false;
            while !found
                invariant
                    t == text@,
                    i <= to.offset <= t.len(),
                    slash_before(t, to.offset as int),
                    forall|j: int| i <= j < to.offset && !(found && j == i) ==> t[j] != 0x2Fu16,
                    forall|j: int| i <= j < to.offset ==> !is_surrogate(t[j]) || (found && j == i),
                    found ==> i < to.offset && t[i as int] == 0x2Fu16,
                    found ==> (replace_slash_scrim_text_step matches Some(rs) && removes_text(
                        Step::ReplaceStep(rs),
                        inline_block@.parent,
                        inline_block@.id,
                        i as int,
                        to.offset as int,
                    ) && rs.from.offset == i && rs.to.offset == to.offset),
                decreases i,
            {
                if i == 0 {
                    return Err(step_error_msg("No slash before the caret"));
                }
                let u = text.0[i - 1];
                i = i - 1;
                found = u == 0x2F;
                let rs = ReplaceStep {
                    block_id: inline_block.parent.clone(),
                    from: SubSelection { block_id: inline_block.id(), offset: i, subselection: None },
                    to: SubSelection { block_id: inline_block.id(), offset: to.offset, subselection: None },
                    slice: ReplaceSlice::String(String::new()),
                };
                proof {
                    reveal_with_fuel(crate::steps_generator::selection::layers, 2);
                    assert(rs.from@ =~= seq![Layer { block_id: inline_block@.id, offset: i }]);
                    assert(rs.to@ =~= seq![Layer { block_id: inline_block@.id, offset: to.offset }]);
                }
                replace_slash_scrim_text_step = Some(rs);
            }
            proof {
                slash_at = i as int;
                assert(last_slash(t, to.offset as int, i as int));
                let p = choose|p: int| last_slash(t, to.offset as int, p);
                if p != i as int {
                    if p < i {
                        assert(t[i as int] != 0x2Fu16);
                    } else {
                        assert(t[p] != 0x2Fu16);
                    }
                }
                assert(m[id] == BlockView::Inline(inline_block@));
                assert(inline_block@.text == t);
                assert((choose|p: int| last_slash(inline_block@.text, to.offset as int, p)) == i as int);
            }
        },
        Block::StandardBlock(_) => {},
        Block::Root(_) => return Err(step_error_msg("Cannot perform slash scrim event directly on root block")),
    }
    proof {
        assert(m[id] is Inline <==> replace_slash_scrim_text_step is Some);
        if m[id] is Inline {
            let ib = m[id]->Inline_0;
            assert((choose|p: int| last_slash(ib.text, to.offset as int, p)) == slash_at);
            assert(removes_text(Step::ReplaceStep(replace_slash_scrim_text_step->0), ib.parent, ib.id, slash_at, to.offset as int));
            assert(replace_slash_scrim_text_step->0.from.offset == slash_at);
            assert(replace_slash_scrim_text_step->0.to.offset == to.offset);
        }
    }
    let new_block_type = slash_block_type(slash_scrim_event.block_type.as_str())?;
    let mut steps: Vec<Step> = Vec::new();
    let nearest_standard_block = block_map.get_nearest_ancestor_standard_block_incl_self(from.block_id.as_str())?;
    let index = nearest_standard_block.index(block_map)?;
    let ghost b = nearest_standard_block@;
    let ghost tv = new_block_type@;
    let block_is_being_replaced = false;
    let empty_paragraph_type = StandardBlockType::Paragraph(ContentBlock::new(Vec::new()));
    proof {
        assert(crate::blocks::ids_view(Seq::<String>::empty()) =~= Seq::<Seq<char>>::empty());
        assert(empty_paragraph_type@ == empty_paragraph());
    }
    if replace_slash_scrim_text_step.is_some() {
        let replace_step = replace_slash_scrim_text_step.unwrap();
        let empty = block_is_empty_other_than_slash_and_search(&nearest_standard_block, block_map, &replace_step)?;
        if empty && new_block_type.has_content() {
            let mut out: Vec<Step> = Vec::new();
            out.push(Step::DeleteBlock(nearest_standard_block.id()));
            out.push(add_block_step(nearest_standard_block.parent(), index, new_block_type));
            return Ok(out)
        } else if empty {
            let next = match index.checked_add(1) {
                Some(v) => v,
                None => return Err(step_error_msg("Block index is too large")),
            };
            let mut out: Vec<Step> = Vec::new();
            out.push(Step::DeleteBlock(nearest_standard_block.id()));
            out.push(add_block_step(nearest_standard_block.parent(), index, new_block_type));
            out.push(add_block_step(nearest_standard_block.parent(), next, empty_paragraph_type));
            return Ok(out)
        } else {
            let ghost first = Step::ReplaceStep(replace_step);
            steps.push(Step::ReplaceStep(replace_step));
            assert(steps@[0] == first);
        }
    }
    let ghost k = steps@.len() as int;
    let add_paragraph_block_below_new_block = !new_block_type.has_content();
    let mut offset_to_add_at = index;
    if !block_is_being_replaced {
        offset_to_add_at = match offset_to_add_at.checked_add(1) {
            Some(v) => v,
            None => return Err(step_error_msg("Block index is too large")),
        };
    }
    steps.push(add_block_step(nearest_standard_block.parent.clone(), offset_to_add_at, new_block_type));
    if add_paragraph_block_below_new_block {
        let next = match offset_to_add_at.checked_add(1) {
            Some(v) => v,
            None => return Err(step_error_msg("Block index is too large")),
        };
        steps.push(add_block_step(nearest_standard_block.parent.clone(), next, empty_paragraph_type));
    }
    proof {
        assert(steps@.skip(k) =~= steps@.subrange(k, steps@.len() as int));
        if k == 1 {
            assert(steps@.drop_first() =~= steps@.skip(1));
            let ib = m[id]->Inline_0;
            assert(removes_text(steps@[0], ib.parent, ib.id, slash_at, to.offset as int));
        }
    }
    return Ok(steps)
}

/// Whether the block holds nothing but the text that the step removes.
fn block_is_empty_other_than_slash_and_search(
    nearest_standard_block: &StandardBlock,
    block_map: &BlockMap,
    replace_step: &ReplaceStep,
) -> (r: Result<bool, StepError>)
    ensures
        r is Ok <==> nearest_standard_block@.has_content() && (nearest_standard_block@.inline_blocks().len() == 1
            ==> inline_block_of(block_map@, nearest_standard_block@.inline_blocks()[0]) is Some),
        r matches Ok(v) ==> v == (nearest_standard_block@.inline_blocks().len() == 1 && replace_step.from.offset == 0
            && replace_step.to.offset == inline_block_of(block_map@, nearest_standard_block@.inline_blocks()[0])->0.text.len()),
{
    let content_block = nearest_standard_block.content_block()?;
    if content_block.inline_blocks.len() == 1 {
        let inline_block = block_map.get_inline_block(&content_block.inline_blocks[0])?;
        return Ok(replace_step.from.offset == 0 && replace_step.to.offset == inline_block.text()?.len())
    } else {
        return Ok(false)
    }
}

} // verus!
