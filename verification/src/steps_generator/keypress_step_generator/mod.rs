use vstd::prelude::*;

use crate::blocks::{BlockMap, inline_block_of};
use crate::mark::Mark;
use crate::step::Step;
use crate::steps_actualisor::CustomCopy;
use crate::steps_generator::{StepError, step_error_msg};
use crate::steps_generator::clipboard_steps::{generate_cut_steps, generate_paste_steps};
use crate::steps_generator::event::{Key, KeyPress};
use crate::steps_generator::generate_replace_selected_steps::generate_replace_selected_steps;
use crate::steps_generator::mark_steps::{generate_mark_steps, is_mark_step};
use crate::steps_generator::selection::SubSelection;
use crate::text::string_push;

use self::backspace::{check_backspace, generate_steps_for_backspace};
use self::delete::generate_steps_for_delete;
use self::enter::generate_steps_for_enter;
use self::tab::generate_steps_for_tab;

pub mod backspace;
pub mod delete;
pub mod enter;
pub mod tab;

verus! {

/// A key press that the editor does not handle: undo, and escape.
pub open spec fn unsupported_key(key_press: KeyPress) -> bool {
    ||| key_press.key == Key::Escape
    ||| (key_press.key == Key::Standard('z') || key_press.key == Key::Standard('Z')) && (key_press.metadata.ctrl_down
        || key_press.metadata.meta_down)
}

/// The key is the character `c` or `C` with control or command held.
pub open spec fn shortcut(key_press: KeyPress, lower: char, upper: char) -> bool {
    (key_press.key == Key::Standard(lower) || key_press.key == Key::Standard(upper)) && (key_press.metadata.ctrl_down
        || key_press.metadata.meta_down)
}

/// A character key that types itself: no shortcut of the editor.
pub open spec fn types_text(key_press: KeyPress) -> bool {
    &&& key_press.key is Standard
    &&& !shortcut(key_press, 'b', 'B')
    &&& !shortcut(key_press, 'i', 'I')
    &&& !shortcut(key_press, 'u', 'U')
    &&& !shortcut(key_press, 'c', 'C')
    &&& !shortcut(key_press, 'x', 'X')
    &&& !shortcut(key_press, 'v', 'V')
}

/// The steps for a key press: the shortcuts for bold, italic, underline,
/// copy, cut and paste; a character replaces the selection; backspace,
/// delete, enter and tab each have their own.
pub fn generate_keyboard_event_steps(
    key_press: &KeyPress,
    block_map: &BlockMap,
    from: SubSelection,
    to: SubSelection,
    copy: &CustomCopy,
) -> (r: Result<Vec<Step>, StepError>)
    requires
        !unsupported_key(*key_press),
    ensures
        shortcut(*key_press, 'c', 'C') ==> (r matches Ok(steps) && steps@.len() == 1 && steps@[0] == Step::Copy(from, to)),
        shortcut(*key_press, 'b', 'B') && r is Ok ==> r->Ok_0@.len() == 1 && (is_mark_step(r->Ok_0@[0], true, Mark::Bold, from, to)
            || is_mark_step(r->Ok_0@[0], false, Mark::Bold, from, to)),
        shortcut(*key_press, 'i', 'I') && r is Ok ==> r->Ok_0@.len() == 1 && (is_mark_step(r->Ok_0@[0], true, Mark::Italic, from, to)
            || is_mark_step(r->Ok_0@[0], false, Mark::Italic, from, to)),
        shortcut(*key_press, 'u', 'U') && r is Ok ==> r->Ok_0@.len() == 1 && (is_mark_step(r->Ok_0@[0], true, Mark::Underline, from, to)
            || is_mark_step(r->Ok_0@[0], false, Mark::Underline, from, to)),
        types_text(*key_press) && inline_block_of(block_map@, from@[0].block_id) is Some ==> r is Ok && r->Ok_0@.len() == 1
            && r->Ok_0@[0] is ReplaceStep && r->Ok_0@[0]->ReplaceStep_0.block_id@ == inline_block_of(block_map@, from@[0].block_id)->0.parent
            && r->Ok_0@[0]->ReplaceStep_0.from == from && r->Ok_0@[0]->ReplaceStep_0.to == to
            && r->Ok_0@[0]->ReplaceStep_0.slice is String && r->Ok_0@[0]->ReplaceStep_0.slice->String_0@ == seq![key_press.key->Standard_0],
{
    let modifier = key_press.metadata.ctrl_down || key_press.metadata.meta_down;
    match key_press.key {
        Key::Standard(key) => {
            if modifier && (key == 'b' || key == 'B') {
                generate_mark_steps(Mark::Bold, from, to, block_map)
            } else if modifier && (key == 'i' || key == 'I') {
                generate_mark_steps(Mark::Italic, from, to, block_map)
            } else if modifier && (key == 'u' || key == 'U') {
                generate_mark_steps(Mark::Underline, from, to, block_map)
            } else if modifier && (key == 'c' || key == 'C') {
                let mut steps: Vec<Step> = Vec::new();
                steps.push(Step::Copy(from, to));
                Ok(steps)
            } else if modifier && (key == 'x' || key == 'X') {
                generate_cut_steps(from, to, block_map)
            } else if modifier && (key == 'v' || key == 'V') {
                generate_paste_steps(from, to, block_map, copy.copy())
            } else {
                let mut s = String::new();
                string_push(&mut s, key);
                generate_replace_selected_steps(block_map, from, to, s)
            }
        },
        Key::Backspace => {
            if !check_backspace(block_map, &from, &to) {
                return Err(step_error_msg("Backspace does not fit the document"));
            }
            generate_steps_for_backspace(block_map, from, to)
        },
        Key::Delete => generate_steps_for_delete(block_map, from, to),
        Key::Enter => generate_steps_for_enter(block_map, from, to),
        Key::Tab => generate_steps_for_tab(block_map, from, to, key_press.metadata),
        Key::Escape => Err(step_error_msg("Escape is not handled")),
    }
}

} // verus!
