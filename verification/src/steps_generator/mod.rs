use vstd::prelude::*;

pub mod mark_steps;
pub mod selection;
pub mod event;
pub mod generate_replace_selected_steps;
pub mod turn_into;
pub mod keypress_step_generator;
pub mod clipboard_steps;
pub mod slash_scrim;

use crate::blocks::BlockMap;
use crate::mark::Mark;
use crate::new_ids::NewIds;
use crate::step::{AddParagraphAtBottomStep, DuplicateStep, Step};
use crate::steps_actualisor::CustomCopy;
use crate::steps_generator::clipboard_steps::{generate_cut_steps, generate_paste_steps};
use crate::steps_generator::event::{ContextMenuEvent, DropBlockEvent, Event, FormatBarEvent, ReplaceWithChildrenEvent};
use crate::steps_generator::keypress_step_generator::{generate_keyboard_event_steps, shortcut, types_text, unsupported_key};
use crate::steps_generator::keypress_step_generator::backspace::deletes_between;
use crate::blocks::inline_block_of;
use crate::steps_generator::mark_steps::{generate_mark_steps, is_mark_step};
use crate::steps_generator::selection::{Selection, SubSelection, anchor_first, block_index};
use crate::steps_generator::slash_scrim::{check_slash_before, generate_slash_scrim_steps};
use crate::steps_generator::turn_into::generate_turn_into_step;
use crate::blocks::BlockMapView;

verus! {

/// The error that every fallible operation of the editor reports, with a
/// message for the user.
#[derive(Debug, PartialEq, Clone)]
pub struct StepError(pub String);

/// An error whose message is `msg` followed by `detail`.
pub fn step_error(msg: &str, detail: &str) -> (e: StepError)
    ensures
        e.0@ == msg@ + detail@,
{
    let mut s = String::from_str(msg);
    s.append(detail);
    StepError(s)
}

/// An error with the message `msg`.
pub fn step_error_msg(msg: &str) -> (e: StepError)
    ensures
        e.0@ == msg@,
{
    StepError(String::from_str(msg))
}

/// The two ends of `selection` can be put in document order.
pub open spec fn selection_resolves(m: BlockMapView, selection: Selection) -> bool {
    selection.anchor@[0].block_id == selection.head@[0].block_id || (m.contains_key(selection.anchor@[0].block_id)
        && m.contains_key(selection.head@[0].block_id) && block_index(m, m[selection.anchor@[0].block_id]) >= 0
        && block_index(m, m[selection.head@[0].block_id]) >= 0)
}

/// What the steps for `event` are, for the events that need no reading of
/// the document: a step that carries the event's block ids, or the copy of
/// the selection; a duplicate or a new paragraph takes the last fresh id
/// of `ids`, and fails where there is none.
pub open spec fn simple_event_steps(event: Event, selection: Selection, ids: Seq<String>, r: Result<Vec<Step>, StepError>) -> bool {
    match event {
        Event::ToggleCompleted(id) => r matches Ok(steps) && steps@ == seq![Step::ToggleCompleted(id)],
        Event::DeleteBlock(id) => r matches Ok(steps) && steps@ == seq![Step::DeleteBlock(id)],
        Event::DropBlock(e) => {
            &&& r is Ok
            &&& r->Ok_0@.len() == 1
            &&& r->Ok_0@[0] is DropBlock
            &&& r->Ok_0@[0]->DropBlock_0.drag_block_id@ == e.drag_block_id@
            &&& r->Ok_0@[0]->DropBlock_0.drop_block_id@ == e.drop_block_id@
            &&& r->Ok_0@[0]->DropBlock_0.side_dropped == e.side_dropped
        },
        Event::ReplaceWithChildren(e) => {
            &&& r is Ok
            &&& r->Ok_0@.len() == 1
            &&& r->Ok_0@[0] is ReplaceWithChildren
            &&& r->Ok_0@[0]->ReplaceWithChildren_0.block_id@ == e.block_id@
        },
        Event::Duplicate(id) => if ids.len() > 0 {
            r matches Ok(steps) && steps@ == seq![Step::Duplicate(DuplicateStep { duplicate_block_id: id, new_block_id: ids.last() })]
        } else {
            r is Err
        },
        Event::AddParagraphAtBottom(id) => if ids.len() > 0 {
            r matches Ok(steps) && steps@ == seq![
                Step::AddParagraphAtBottom(AddParagraphAtBottomStep { root_block_id: id, new_block_id: ids.last() }),
            ]
        } else {
            r is Err
        },
        Event::ContextMenu(ContextMenuEvent::Copy) => {
            &&& r is Ok
            &&& r->Ok_0@.len() == 1
            &&& r->Ok_0@[0] is Copy
            &&& (r->Ok_0@[0] == Step::Copy(selection.anchor, selection.head) || r->Ok_0@[0] == Step::Copy(
                selection.head,
                selection.anchor,
            ))
        },
        _ => true,
    }
}

/// The mark that a format bar command sets, where it sets one.
pub open spec fn format_mark(e: FormatBarEvent) -> Option<Mark> {
    match e {
        FormatBarEvent::Bold => Some(Mark::Bold),
        FormatBarEvent::Italic => Some(Mark::Italic),
        FormatBarEvent::Underline => Some(Mark::Underline),
        FormatBarEvent::Strikethrough => Some(Mark::Strikethrough),
        FormatBarEvent::ForeColor(c) => Some(Mark::ForeColor(c)),
        FormatBarEvent::BackColor(c) => Some(Mark::BackColor(c)),
        FormatBarEvent::TurnInto(_) => None,
    }
}

/// The two ends of `selection` in document order, as `get_from_to` gives
/// them.
pub open spec fn ordered_ends(m: BlockMapView, selection: Selection) -> (SubSelection, SubSelection) {
    if anchor_first(m, selection.anchor@, selection.head@) {
        (selection.anchor, selection.head)
    } else {
        (selection.head, selection.anchor)
    }
}

/// The steps for what the user did, against the document `block_map` and
/// the current selection; a new block's id comes from `new_ids`.
pub fn generate_steps(
    event: &Event,
    block_map: &BlockMap,
    selection: Selection,
    copy: &CustomCopy,
    new_ids: &mut NewIds,
) -> (r: Result<Vec<Step>, StepError>)
    requires
        *event matches Event::KeyPress(k) ==> !unsupported_key(k),
    ensures
        !selection_resolves(block_map@, selection) ==> r is Err,
        selection_resolves(block_map@, selection) ==> simple_event_steps(*event, selection, old(new_ids).ids(), r),
        (*event is Duplicate || *event is AddParagraphAtBottom) && r is Ok ==> final(new_ids).ids()
            == old(new_ids).ids().drop_last(),
        !(*event is Duplicate || *event is AddParagraphAtBottom) ==> final(new_ids).ids() == old(new_ids).ids(),
        *event is KeyPress && selection_resolves(block_map@, selection) ==> ({
            let (from, to) = ordered_ends(block_map@, selection);
            let k = event->KeyPress_0;
            &&& shortcut(k, 'c', 'C') ==> (r matches Ok(steps) && steps@.len() == 1 && steps@[0] == Step::Copy(from, to))
            &&& shortcut(k, 'b', 'B') && r is Ok ==> r->Ok_0@.len() == 1 && (is_mark_step(r->Ok_0@[0], true, Mark::Bold, from, to)
                || is_mark_step(r->Ok_0@[0], false, Mark::Bold, from, to))
            &&& shortcut(k, 'i', 'I') && r is Ok ==> r->Ok_0@.len() == 1 && (is_mark_step(r->Ok_0@[0], true, Mark::Italic, from, to)
                || is_mark_step(r->Ok_0@[0], false, Mark::Italic, from, to))
            &&& shortcut(k, 'u', 'U') && r is Ok ==> r->Ok_0@.len() == 1 && (is_mark_step(r->Ok_0@[0], true, Mark::Underline, from, to)
                || is_mark_step(r->Ok_0@[0], false, Mark::Underline, from, to))
            &&& types_text(k) && inline_block_of(block_map@, from@[0].block_id) is Some ==> r is Ok && r->Ok_0@.len() == 1
                && r->Ok_0@[0] is ReplaceStep && r->Ok_0@[0]->ReplaceStep_0.block_id@ == inline_block_of(block_map@, from@[0].block_id)->0.parent
                && r->Ok_0@[0]->ReplaceStep_0.from == from && r->Ok_0@[0]->ReplaceStep_0.to == to
                && r->Ok_0@[0]->ReplaceStep_0.slice is String && r->Ok_0@[0]->ReplaceStep_0.slice->String_0@ == seq![k.key->Standard_0]
        }),
        *event is ContextMenu && event->ContextMenu_0 is Cut && selection_resolves(block_map@, selection) ==> ({
            let (from, to) = ordered_ends(block_map@, selection);
            &&& r matches Ok(steps) ==> steps@.len() >= 1 && (steps@[0] matches Step::Copy(a, b) && a@ == from@ && b@ == to@)
            &&& from@ != to@ && inline_block_of(block_map@, from@[0].block_id) is Some ==> r is Ok && deletes_between(
                r->Ok_0@.drop_first(),
                inline_block_of(block_map@, from@[0].block_id)->0.parent,
                from,
                to,
            )
        }),
        *event is ContextMenu && event->ContextMenu_0 is Paste && selection_resolves(block_map@, selection) ==> ({
            let (from, to) = ordered_ends(block_map@, selection);
            &&& r matches Ok(steps) ==> steps@.len() >= 1 && steps@.last() is Paste
            &&& from@ != to@ && inline_block_of(block_map@, from@[0].block_id) is Some ==> r is Ok && deletes_between(
                r->Ok_0@.drop_last(),
                inline_block_of(block_map@, from@[0].block_id)->0.parent,
                from,
                to,
            )
        }),
        *event is SlashScrim && r is Ok ==> crate::steps_generator::slash_scrim::slash_ok(
            block_map@,
            ordered_ends(block_map@, selection).0@[0].block_id,
            event->SlashScrim_0.block_type@,
        ),
        *event is FormatBar && format_mark(event->FormatBar_0) is Some && r is Ok ==> ({
            let fb = event->FormatBar_0;
            let (from, to) = ordered_ends(block_map@, selection);
            r->Ok_0@.len() == 1 && (is_mark_step(r->Ok_0@[0], true, format_mark(fb)->0, from, to) || is_mark_step(
                r->Ok_0@[0],
                false,
                format_mark(fb)->0,
                from,
                to,
            ))
        }),
{
    let (from, to) = selection.get_from_to(block_map)?;
    match event {
        Event::KeyPress(key_press) => generate_keyboard_event_steps(key_press, block_map, from, to, copy),
        Event::FormatBar(event) => match event {
            FormatBarEvent::Bold => generate_mark_steps(Mark::Bold, from, to, block_map),
            FormatBarEvent::Italic => generate_mark_steps(Mark::Italic, from, to, block_map),
            FormatBarEvent::Underline => generate_mark_steps(Mark::Underline, from, to, block_map),
            FormatBarEvent::Strikethrough => generate_mark_steps(Mark::Strikethrough, from, to, block_map),
            FormatBarEvent::ForeColor(color) => generate_mark_steps(Mark::ForeColor(*color), from, to, block_map),
            FormatBarEvent::BackColor(color) => generate_mark_steps(Mark::BackColor(*color), from, to, block_map),
            FormatBarEvent::TurnInto(new_block_type) => generate_turn_into_step(new_block_type, from, block_map),
        },
        Event::ContextMenu(context_menu_event) => match context_menu_event {
            ContextMenuEvent::Copy => Ok(one_step(Step::Copy(from, to))),
            ContextMenuEvent::Cut => generate_cut_steps(from, to, block_map),
            ContextMenuEvent::Paste => generate_paste_steps(from, to, block_map, copy.copy()),
        },
        Event::SlashScrim(slash_scrim_event) => {
            if !check_slash_before(block_map, &from, &to) {
                return Err(step_error_msg("No slash before the caret"));
            }
            generate_slash_scrim_steps(slash_scrim_event, from, to, block_map)
        },
        Event::ToggleCompleted(id) => Ok(one_step(Step::ToggleCompleted(id.clone()))),
        Event::DropBlock(drop_block_event) => Ok(one_step(Step::DropBlock(drop_block_event.copy()))),
        Event::DeleteBlock(block_id) => Ok(one_step(Step::DeleteBlock(block_id.clone()))),
        Event::Duplicate(block_id) => {
            let new_block_id = new_ids.get_id()?;
            Ok(one_step(Step::Duplicate(DuplicateStep { duplicate_block_id: block_id.clone(), new_block_id })))
        },
        Event::ReplaceWithChildren(e) => Ok(
            one_step(Step::ReplaceWithChildren(ReplaceWithChildrenEvent { block_id: e.block_id.clone() })),
        ),
        Event::AddParagraphAtBottom(root_block_id) => {
            let new_block_id = new_ids.get_id()?;
            Ok(one_step(Step::AddParagraphAtBottom(AddParagraphAtBottomStep { root_block_id: root_block_id.clone(), new_block_id })))
        },
    }
}

/// A vector holding `step` alone.
fn one_step(step: Step) -> (v: Vec<Step>)
    ensures
        v@ == seq![step],
{
    let mut v: Vec<Step> = Vec::new();
    v.push(step);
    v
}

} // verus!
