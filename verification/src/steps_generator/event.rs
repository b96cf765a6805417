use vstd::prelude::*;

use crate::blocks::standard_blocks::{StandardBlockKind, StandardBlockType, StandardBlockTypeView};
use crate::blocks::standard_blocks::content_block::ContentBlock;
use crate::blocks::standard_blocks::list_block::ListBlock;
use crate::mark::{Color, Mark, spec_color_mark_from_str};
use crate::steps_generator::{StepError, step_error, step_error_msg};
use crate::text::{chars_contain, seq_contains_sub, str_eq, str_to_chars};

verus! {

/// What the user did.
pub enum Event {
    KeyPress(KeyPress),
    FormatBar(FormatBarEvent),
    SlashScrim(SlashScrimEvent),
    ToggleCompleted(String),  //block id
    ContextMenu(ContextMenuEvent),
    DropBlock(DropBlockEvent),
    DeleteBlock(String),
    Duplicate(String),
    ReplaceWithChildren(ReplaceWithChildrenEvent),
    AddParagraphAtBottom(String),  // (root block id)
}

pub struct KeyPress {
    pub key: Key,
    pub metadata: KeyPressMetadata,
}

impl KeyPress {
    /// A key press, with no modifier held where no metadata is given.
    pub fn new(key: Key, metadata: Option<KeyPressMetadata>) -> (k: Self)
        ensures
            k.key == key,
            k.metadata == (match metadata {
                Some(m) => m,
                None => KeyPressMetadata {
                    shift_down: false,
                    meta_down: false,
                    ctrl_down: false,
                    alt_down: false,
                },
            }),
    {
        return match metadata {
            Some(metadata) => KeyPress { key, metadata },
            None => KeyPress {
                key,
                metadata: KeyPressMetadata {
                    shift_down: false,
                    meta_down: false,
                    ctrl_down: false,
                    alt_down: false,
                },
            },
        }
    }
}

/// The modifier keys held during a key press.
#[derive(Clone, Copy, PartialEq, Eq, Debug, Structural)]
pub struct KeyPressMetadata {
    pub shift_down: bool,
    pub meta_down: bool,
    pub ctrl_down: bool,
    pub alt_down: bool,
}

#[derive(Clone, Copy, PartialEq, Eq, Debug, Structural)]
pub enum Key {
    Backspace,
    Delete,
    Enter,
    Tab,
    Escape,
    Standard(char),
}

/// The key that a key name stands for: a named key, or the single character
/// of a one-character name.
pub open spec fn spec_key_from_str(key: Seq<char>) -> Option<Key> {
    if key == "Backspace"@ {
        Some(Key::Backspace)
    } else if key == "Delete"@ {
        Some(Key::Delete)
    } else if key == "Enter"@ {
        Some(Key::Enter)
    } else if key == "Tab"@ {
        Some(Key::Tab)
    } else if key == "Escape"@ {
        Some(Key::Escape)
    } else if key.len() == 1 {
        Some(Key::Standard(key[0]))
    } else {
        None
    }
}

/// The name the editor sends for a key: the key's own name for a named
/// key, the character itself for a standard key.
pub open spec fn key_name(k: Key) -> Seq<char> {
    match k {
        Key::Backspace => "Backspace"@,
        Key::Delete => "Delete"@,
        Key::Enter => "Enter"@,
        Key::Tab => "Tab"@,
        Key::Escape => "Escape"@,
        Key::Standard(c) => seq![c],
    }
}

/// Every key reads back from its name, and a name reads as a key only when
/// it is that key's name.
pub proof fn lemma_key_names(k: Key, name: Seq<char>)
    ensures
        spec_key_from_str(key_name(k)) == Some(k),
        spec_key_from_str(name) == Some(k) ==> name =~= key_name(k),
{
    reveal_strlit("Backspace");
    reveal_strlit("Delete");
    reveal_strlit("Enter");
    reveal_strlit("Tab");
    reveal_strlit("Escape");
    assert("Backspace"@.len() == 9 && "Delete"@.len() == 6 && "Enter"@.len() == 5 && "Tab"@.len() == 3
        && "Escape"@.len() == 6);
    crate::blocks::standard_blocks::lemma_differ_at("Escape"@, "Delete"@, 0);
}

impl Key {
    pub fn from_str(key: &str) -> (r: Result<Self, StepError>)
        requires
            key@.len() > 0,
        ensures
            r matches Ok(k) ==> spec_key_from_str(key@) == Some(k),
            r is Err <==> spec_key_from_str(key@) is None,
            r is Err ==> r->Err_0.0@ == "Standard key should only contain a single char"@,
    {
        if str_eq(key, "Backspace") {
            return Ok(Key::Backspace)
        } else if str_eq(key, "Delete") {
            return Ok(Key::Delete)
        } else if str_eq(key, "Enter") {
            return Ok(Key::Enter)
        } else if str_eq(key, "Tab") {
            return Ok(Key::Tab)
        } else if str_eq(key, "Escape") {
            return Ok(Key::Escape)
        } else {
            let chars = str_to_chars(key);
            if chars.len() > 1 {
                return Err(step_error_msg("Standard key should only contain a single char"))
            } else {
                return Ok(Key::Standard(chars[0]))
            }
        }
    }
}

pub enum FormatBarEvent {
    Bold,
    Italic,
    Underline,
    Strikethrough,
    ForeColor(Color),
    BackColor(Color),
    TurnInto(StandardBlockType),
}

/// The kind of block that a "turn_into(..)" command names.
pub open spec fn spec_turn_into_kind(value: Seq<char>) -> Option<StandardBlockKind> {
    if value == "turn_into(paragraph)"@ {
        Some(StandardBlockKind::Paragraph)
    } else if value == "turn_into(heading 1)"@ {
        Some(StandardBlockKind::H1)
    } else if value == "turn_into(heading 2)"@ {
        Some(StandardBlockKind::H2)
    } else if value == "turn_into(heading 3)"@ {
        Some(StandardBlockKind::H3)
    } else if value == "turn_into(to-do list)"@ {
        Some(StandardBlockKind::TodoList)
    } else if value == "turn_into(dotpoint list)"@ {
        Some(StandardBlockKind::DotPointList)
    } else if value == "turn_into(numbered list)"@ {
        Some(StandardBlockKind::NumberedList)
    } else if value == "turn_into(arrow list)"@ {
        Some(StandardBlockKind::ArrowList)
    } else {
        None
    }
}

/// The format bar value that turns a block into one of kind `k`:
/// "turn_into(" then the kind's menu name then ")".
pub open spec fn turn_into_value(k: StandardBlockKind) -> Seq<char> {
    "turn_into("@ + crate::blocks::standard_blocks::menu_name(k) + ")"@
}

/// The turn-into command names the kinds of block that hold text by their
/// menu names: the command for a kind that holds text turns a block into
/// that kind, and a command turns a block into kind `k` only when it is the
/// command for `k`.
pub proof fn lemma_turn_into_names(k: StandardBlockKind, value: Seq<char>)
    ensures
        crate::blocks::standard_blocks::kind_has_content(k) ==> spec_turn_into_kind(turn_into_value(k)) == Some(k),
        spec_turn_into_kind(value) == Some(k) ==> value == turn_into_value(k),
{
    reveal_strlit("turn_into(");
    reveal_strlit(")");
    reveal_strlit("paragraph");
    reveal_strlit("heading 1");
    reveal_strlit("heading 2");
    reveal_strlit("heading 3");
    reveal_strlit("to-do list");
    reveal_strlit("dotpoint list");
    reveal_strlit("numbered list");
    reveal_strlit("arrow list");
    reveal_strlit("turn_into(paragraph)");
    reveal_strlit("turn_into(heading 1)");
    reveal_strlit("turn_into(heading 2)");
    reveal_strlit("turn_into(heading 3)");
    reveal_strlit("turn_into(to-do list)");
    reveal_strlit("turn_into(dotpoint list)");
    reveal_strlit("turn_into(numbered list)");
    reveal_strlit("turn_into(arrow list)");
    let tp = "turn_into(paragraph)"@;
    let t1 = "turn_into(heading 1)"@;
    let t2 = "turn_into(heading 2)"@;
    let t3 = "turn_into(heading 3)"@;
    let tt = "turn_into(to-do list)"@;
    let td = "turn_into(dotpoint list)"@;
    let tn = "turn_into(numbered list)"@;
    let ta = "turn_into(arrow list)"@;
    assert(turn_into_value(StandardBlockKind::Paragraph) =~= tp);
    assert(turn_into_value(StandardBlockKind::H1) =~= t1);
    assert(turn_into_value(StandardBlockKind::H2) =~= t2);
    assert(turn_into_value(StandardBlockKind::H3) =~= t3);
    assert(turn_into_value(StandardBlockKind::TodoList) =~= tt);
    assert(turn_into_value(StandardBlockKind::DotPointList) =~= td);
    assert(turn_into_value(StandardBlockKind::NumberedList) =~= tn);
    assert(turn_into_value(StandardBlockKind::ArrowList) =~= ta);
    crate::blocks::standard_blocks::lemma_differ_at(t1, tp, 10);
    crate::blocks::standard_blocks::lemma_differ_at(t2, tp, 10);
    crate::blocks::standard_blocks::lemma_differ_at(t3, tp, 10);
    crate::blocks::standard_blocks::lemma_differ_at(t2, t1, 18);
    crate::blocks::standard_blocks::lemma_differ_at(t3, t1, 18);
    crate::blocks::standard_blocks::lemma_differ_at(t3, t2, 18);
    crate::blocks::standard_blocks::lemma_differ_at(tn, td, 10);
    crate::blocks::standard_blocks::lemma_differ_at(ta, tt, 10);
}

/// The empty block type that a "turn_into(..)" command names.
pub fn parse_turn_into_str(value: &str) -> (r: Result<StandardBlockType, StepError>)
    ensures
        r matches Ok(t) ==> spec_turn_into_kind(value@) matches Some(k) && t@
            == StandardBlockTypeView::empty_of_kind(k),
        r is Err <==> spec_turn_into_kind(value@) is None,
{
    let r = if str_eq(value, "turn_into(paragraph)") {
        StandardBlockType::Paragraph(ContentBlock::new(Vec::new()))
    } else if str_eq(value, "turn_into(heading 1)") {
        StandardBlockType::H1(ContentBlock::new(Vec::new()))
    } else if str_eq(value, "turn_into(heading 2)") {
        StandardBlockType::H2(ContentBlock::new(Vec::new()))
    } else if str_eq(value, "turn_into(heading 3)") {
        StandardBlockType::H3(ContentBlock::new(Vec::new()))
    } else if str_eq(value, "turn_into(to-do list)") {
        StandardBlockType::TodoList(ListBlock { content: ContentBlock::new(Vec::new()), completed: false })
    } else if str_eq(value, "turn_into(dotpoint list)") {
        StandardBlockType::DotPointList(
            ListBlock { content: ContentBlock::new(Vec::new()), completed: false },
        )
    } else if str_eq(value, "turn_into(numbered list)") {
        StandardBlockType::NumberedList(
            ListBlock { content: ContentBlock::new(Vec::new()), completed: false },
        )
    } else if str_eq(value, "turn_into(arrow list)") {
        StandardBlockType::ArrowList(ListBlock { content: ContentBlock::new(Vec::new()), completed: false })
    } else {
        return Err(step_error("Not a valid turn into statement. Got: ", value))
    };
    proof {
        ids_empty();
    }
    Ok(r)
}

proof fn ids_empty()
    ensures
        crate::blocks::ids_view(Seq::<String>::empty()) == Seq::<Seq<char>>::empty(),
{
    assert(crate::blocks::ids_view(Seq::<String>::empty()) =~= Seq::<Seq<char>>::empty());
}

/// The format bar event that a format bar value names.
pub open spec fn spec_format_bar_kind(value: Seq<char>) -> Option<FormatBarKind> {
    if value == "bold"@ {
        Some(FormatBarKind::Bold)
    } else if value == "italic"@ {
        Some(FormatBarKind::Italic)
    } else if value == "underline"@ {
        Some(FormatBarKind::Underline)
    } else if value == "strikethrough"@ {
        Some(FormatBarKind::Strikethrough)
    } else if seq_contains_sub(value, "turn_into"@) {
        match spec_turn_into_kind(value) {
            Some(k) => Some(FormatBarKind::TurnInto(k)),
            None => None,
        }
    } else {
        match spec_color_mark_from_str(value) {
            Some(Mark::ForeColor(c)) => Some(FormatBarKind::ForeColor(c)),
            Some(Mark::BackColor(c)) => Some(FormatBarKind::BackColor(c)),
            _ => None,
        }
    }
}

/// The format bar names the plain marks by their own names: the value that
/// names one of bold, italic, underline or strikethrough is an event, and
/// any event it reads as applies exactly that mark.
pub proof fn lemma_format_bar_names(m: Mark, e: FormatBarEvent)
    ensures
        (m is Bold || m is Italic || m is Underline || m is Strikethrough) ==> spec_format_bar_kind(crate::mark::mark_chars(m))
            is Some,
        (m is Bold || m is Italic || m is Underline || m is Strikethrough) && spec_format_bar_kind(crate::mark::mark_chars(m))
            == Some(e.kind()) ==> crate::steps_generator::format_mark(e) == Some(m),
{
    reveal_strlit("bold");
    reveal_strlit("italic");
    reveal_strlit("underline");
    reveal_strlit("strikethrough");
}

/// The format bar events, with a block type given by its kind alone.
pub enum FormatBarKind {
    Bold,
    Italic,
    Underline,
    Strikethrough,
    ForeColor(Color),
    BackColor(Color),
    TurnInto(StandardBlockKind),
}

impl FormatBarEvent {
    /// The kind of this event.
    pub open spec fn kind(&self) -> FormatBarKind {
        match self {
            FormatBarEvent::Bold => FormatBarKind::Bold,
            FormatBarEvent::Italic => FormatBarKind::Italic,
            FormatBarEvent::Underline => FormatBarKind::Underline,
            FormatBarEvent::Strikethrough => FormatBarKind::Strikethrough,
            FormatBarEvent::ForeColor(c) => FormatBarKind::ForeColor(*c),
            FormatBarEvent::BackColor(c) => FormatBarKind::BackColor(*c),
            FormatBarEvent::TurnInto(t) => FormatBarKind::TurnInto(t@.kind),
        }
    }

    /// The event that the format bar sends as `value`.
    pub fn from_value(value: &str) -> (r: Result<Self, StepError>)
        ensures
            r matches Ok(e) ==> spec_format_bar_kind(value@) == Some(e.kind()) && (e matches FormatBarEvent::TurnInto(t) ==> t@ == StandardBlockTypeView::empty_of_kind(t@.kind)),
            r is Err <==> spec_format_bar_kind(value@) is None,
    {
        if str_eq(value, "bold") {
            Ok(FormatBarEvent::Bold)
        } else if str_eq(value, "italic") {
            Ok(FormatBarEvent::Italic)
        } else if str_eq(value, "underline") {
            Ok(FormatBarEvent::Underline)
        } else if str_eq(value, "strikethrough") {
            Ok(FormatBarEvent::Strikethrough)
        } else if chars_contain(&str_to_chars(value), &str_to_chars("turn_into")) {
            Ok(FormatBarEvent::TurnInto(parse_turn_into_str(value)?))
        } else {
            let as_mark = Mark::color_mark_from_str(value)?;
            match as_mark {
                Mark::ForeColor(color) => Ok(FormatBarEvent::ForeColor(color)),
                Mark::BackColor(color) => Ok(FormatBarEvent::BackColor(color)),
                _ => Err(step_error_msg("Should parse as either a fore color or back color mark")),
            }
        }
    }
}

pub struct SlashScrimEvent {
    pub block_type: String,
}

pub enum ContextMenuEvent {
    Copy,
    Cut,
    Paste,
}

impl ContextMenuEvent {
    /// The event that the context menu sends as `value`.
    pub fn from_value(value: &str) -> (r: Result<Self, StepError>)
        ensures
            r matches Ok(e) ==> (e is Copy && value@ == "copy"@) || (e is Cut && value@ == "cut"@)
                || (e is Paste && value@ == "paste"@),
            r is Err <==> value@ != "copy"@ && value@ != "cut"@ && value@ != "paste"@,
    {
        if str_eq(value, "copy") {
            Ok(Self::Copy)
        } else if str_eq(value, "cut") {
            Ok(Self::Cut)
        } else if str_eq(value, "paste") {
            Ok(Self::Paste)
        } else {
            Err(step_error("Expected valid context menu event. Got: ", value))
        }
    }
}

#[derive(Debug, PartialEq, Clone)]
pub struct DropBlockEvent {
    pub drag_block_id: String,
    pub drop_block_id: String,
    pub side_dropped: Side,
}

impl DropBlockEvent {
    pub fn copy(&self) -> (e: Self)
        ensures
            e.drag_block_id@ == self.drag_block_id@,
            e.drop_block_id@ == self.drop_block_id@,
            e.side_dropped == self.side_dropped,
    {
        DropBlockEvent {
            drag_block_id: self.drag_block_id.clone(),
            drop_block_id: self.drop_block_id.clone(),
            side_dropped: self.side_dropped,
        }
    }
}

#[derive(Debug, PartialEq, Eq, Clone, Copy, Structural)]
pub enum Side {
    Top,
    Bottom,
    Left,
    Right,
}

/// The side that a side name stands for.
pub open spec fn spec_side_from_str(s: Seq<char>) -> Option<Side> {
    if s == "top"@ {
        Some(Side::Top)
    } else if s == "left"@ {
        Some(Side::Left)
    } else if s == "right"@ {
        Some(Side::Right)
    } else if s == "bottom"@ {
        Some(Side::Bottom)
    } else {
        None
    }
}

/// The name of each side.
pub open spec fn side_name(s: Side) -> Seq<char> {
    match s {
        Side::Top => "top"@,
        Side::Bottom => "bottom"@,
        Side::Left => "left"@,
        Side::Right => "right"@,
    }
}

/// A side read back from its name is the same side.
pub proof fn lemma_side_round_trip(s: Side)
    ensures
        spec_side_from_str(side_name(s)) == Some(s),
{
    reveal_strlit("top");
    reveal_strlit("left");
    reveal_strlit("right");
    reveal_strlit("bottom");
    assert("top"@.len() == 3 && "left"@.len() == 4 && "right"@.len() == 5 && "bottom"@.len() == 6);
    match s {
        Side::Top => {},
        Side::Left => {},
        Side::Right => {},
        Side::Bottom => {},
    }
}

impl Side {
    pub fn from_str(string: &str) -> (r: Result<Self, StepError>)
        ensures
            r matches Ok(s) ==> spec_side_from_str(string@) == Some(s),
            r is Err <==> spec_side_from_str(string@) is None,
            r is Err ==> r->Err_0.0@ == "Not a valid side: "@ + string@,
    {
        if str_eq(string, "top") {
            Ok(Self::Top)
        } else if str_eq(string, "left") {
            Ok(Self::Left)
        } else if str_eq(string, "right") {
            Ok(Self::Right)
        } else if str_eq(string, "bottom") {
            Ok(Self::Bottom)
        } else {
            Err(step_error("Not a valid side: ", string))
        }
    }

    /// The name of the side, which `from_str` reads back.
    pub fn name(&self) -> (s: String)
        ensures
            s@ == side_name(*self),
    {
        match self {
            Side::Top => String::from_str("top"),
            Side::Bottom => String::from_str("bottom"),
            Side::Left => String::from_str("left"),
            Side::Right => String::from_str("right"),
        }
    }
}

#[derive(Debug, PartialEq, Clone)]
pub struct ReplaceWithChildrenEvent {
    pub block_id: String,
}

} // verus!
