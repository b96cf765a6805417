//! The JSON form in which the editor's backend stores blocks and sends
//! steps: a JSON value as plain data, the fields that the formats read from
//! it, and the readers of those formats.

use vstd::prelude::*;

use crate::blocks::{Block, BlockMap, BlockMapView, BlockView, RootBlock, RootBlockView, ids_view, index_of_id, insert_blocks};
use crate::blocks::inline_blocks::{InlineBlock, InlineBlockType, InlineBlockView};
use crate::blocks::inline_blocks::text_block::{StringUTF16, TextBlock, utf16_encode};
use crate::blocks::standard_blocks::{StandardBlock, StandardBlockKind, StandardBlockType, StandardBlockTypeView, StandardBlockView};
use crate::blocks::standard_blocks::content_block::ContentBlock;
use crate::blocks::standard_blocks::list_block::ListBlock;
use crate::mark::{Mark, spec_mark_from_str};
use crate::step::{AddBlockStep, AddParagraphAtBottomStep, DuplicateStep, MarkStep, ReplaceSlice, ReplaceStep, SplitStep, Step, TurnInto, TurnToChild, TurnToParent};
use crate::steps_generator::event::{DropBlockEvent, ReplaceWithChildrenEvent, Side, spec_side_from_str};
use crate::steps_generator::selection::{Layer, SubSelection};
use crate::steps_generator::{StepError, step_error, step_error_msg};

verus! {

#[verifier::external_type_specification]
#[verifier::external_body]
pub struct ExSerdeValue(serde_json::Value);

/// A JSON value. A number keeps what it reads as when taken as an `i64`
/// and as a `u64` (`None` where it is not such an integer); an object keeps
/// its entries in the order that the parser lists them.
pub enum JsonValue {
    Null,
    Bool(bool),
    Number(Option<i64>, Option<u64>),
    Str(String),
    Array(Vec<JsonValue>),
    Object(Vec<(String, JsonValue)>),
}

/// The value that `serde_json` parses out of the text `text`, or `None`
/// where the text is not JSON.
pub uninterp spec fn parsed_json(text: Seq<char>) -> Option<JsonValue>;

/// Parses `text` with `serde_json::from_str` into a `serde_json::Value` and
/// converts it. The contract claims only that the result is a function of
/// the text: what `serde_json` makes of a text is not written out here.
#[verifier::external_body]
pub(crate) fn parse_json(text: &str) -> (r: Option<JsonValue>)
    ensures
        r == parsed_json(text@),
{
    match serde_json::from_str::<serde_json::Value>(text) {
        Ok(v) => Some(json_value_from(v)),
        Err(_) => None,
    }
}

/// Converts a `serde_json::Value` into a `JsonValue`, one variant for one,
/// numbers by `serde_json::Number::as_i64` and `as_u64`.
#[verifier::external_body]
fn json_value_from(v: serde_json::Value) -> JsonValue {
    match v {
        serde_json::Value::Null => JsonValue::Null,
        serde_json::Value::Bool(b) => JsonValue::Bool(b),
        serde_json::Value::Number(n) => JsonValue::Number(n.as_i64(), n.as_u64()),
        serde_json::Value::String(s) => JsonValue::Str(s),
        serde_json::Value::Array(a) => JsonValue::Array(a.into_iter().map(json_value_from).collect()),
        serde_json::Value::Object(m) => JsonValue::Object(m.into_iter().map(|(k, x)| (k, json_value_from(x))).collect()),
    }
}

/// The keys of the entries of an object.
pub open spec fn json_keys(fs: Seq<(String, JsonValue)>) -> Seq<Seq<char>> {
    fs.map_values(|p: (String, JsonValue)| p.0@)
}

/// The value of the field `name` of an object (its first entry under that
/// key); `None` for a value that is not an object or has no such field.
pub open spec fn json_get(v: JsonValue, name: Seq<char>) -> Option<JsonValue> {
    match v {
        JsonValue::Object(fs) => {
            let i = index_of_id(json_keys(fs@), name);
            if i >= 0 {
                Some(fs@[i].1)
            } else {
                None
            }
        },
        _ => None,
    }
}

/// The string of a string value.
pub open spec fn json_as_str(v: Option<JsonValue>) -> Option<Seq<char>> {
    match v {
        Some(JsonValue::Str(s)) => Some(s@),
        _ => None,
    }
}

/// The string in the field `name` of `v`.
pub open spec fn json_str_field(v: JsonValue, name: Seq<char>) -> Option<Seq<char>> {
    json_as_str(json_get(v, name))
}

/// The `i64` in the field `name` of `v`.
pub open spec fn json_int_field(v: JsonValue, name: Seq<char>) -> Option<i64> {
    match json_get(v, name) {
        Some(JsonValue::Number(Some(i), _)) => Some(i),
        _ => None,
    }
}

/// The `u64` in the field `name` of `v`.
pub open spec fn json_uint_field(v: JsonValue, name: Seq<char>) -> Option<u64> {
    match json_get(v, name) {
        Some(JsonValue::Number(_, Some(u))) => Some(u),
        _ => None,
    }
}

/// The `bool` in the field `name` of `v`.
pub open spec fn json_bool_field(v: JsonValue, name: Seq<char>) -> Option<bool> {
    match json_get(v, name) {
        Some(JsonValue::Bool(b)) => Some(b),
        _ => None,
    }
}

/// The strings of an array of strings.
pub open spec fn json_strings(v: Option<JsonValue>) -> Option<Seq<Seq<char>>> {
    match v {
        Some(JsonValue::Array(items)) => if forall|i: int| 0 <= i < items@.len() ==> #[trigger] items@[i] is Str {
            Some(Seq::new(items@.len(), |i: int| items@[i]->Str_0@))
        } else {
            None
        },
        _ => None,
    }
}

/// The field `name` of `json`.
pub fn json_field<'a>(json: &'a JsonValue, name: &str) -> (r: Option<&'a JsonValue>)
    ensures
        r matches Some(x) ==> json_get(*json, name@) == Some(*x),
        r is None <==> json_get(*json, name@) is None,
{
    match json {
        JsonValue::Object(fs) => {
            let ghost keys = json_keys(fs@);
            let mut i: usize = 0;
            while i < fs.len()
                invariant
                    i <= fs@.len(),
                    *json == JsonValue::Object(*fs),
                    keys == json_keys(fs@),
                    forall|j: int| 0 <= j < i ==> keys[j] != name@,
                decreases fs@.len() - i,
            {
                assert(keys[i as int] == fs@[i as int].0@);
                if crate::text::str_eq(fs[i].0.as_str(), name) {
                    proof {
                        assert(keys[i as int] == fs@[i as int].0@);
                        crate::blocks::lemma_index_of_id_first(keys, name@, i as int);
                    }
                    return Some(&fs[i].1);
                }
                i += 1;
            }
            proof {
                crate::blocks::lemma_index_of_id_absent(keys, name@);
            }
            None
        },
        _ => None,
    }
}

/// The string in the field `field` of `json`.
pub fn get_json_field_as_string(json: &JsonValue, field: &str) -> (r: Result<String, StepError>)
    ensures
        r is Ok <==> json_str_field(*json, field@) is Some,
        r matches Ok(s) ==> s@ == json_str_field(*json, field@)->0,
{
    match json_field(json, field) {
        Some(JsonValue::Str(s)) => Ok(s.clone()),
        Some(_) => Err(step_error_msg("field is not a string in json")),
        None => Err(step_error_msg("json does not have the field")),
    }
}

/// The `i64` in the field `field` of `json`.
pub fn get_json_field_as_int(json: &JsonValue, field: &str) -> (r: Result<i64, StepError>)
    ensures
        r is Ok <==> json_int_field(*json, field@) is Some,
        r matches Ok(i) ==> i == json_int_field(*json, field@)->0,
{
    match json_field(json, field) {
        Some(JsonValue::Number(Some(i), _)) => Ok(*i),
        Some(_) => Err(step_error_msg("field is not an i64 in json")),
        None => Err(step_error_msg("json does not have the field")),
    }
}

/// The `bool` in the field `field` of `json`.
pub fn get_json_field_as_bool(json: &JsonValue, field: &str) -> (r: Result<bool, StepError>)
    ensures
        r is Ok <==> json_bool_field(*json, field@) is Some,
        r matches Ok(b) ==> b == json_bool_field(*json, field@)->0,
{
    match json_field(json, field) {
        Some(JsonValue::Bool(b)) => Ok(*b),
        Some(_) => Err(step_error_msg("field is not a bool in json")),
        None => Err(step_error_msg("json does not have the field")),
    }
}

/// The strings of the array in the field `field` of `json`.
pub fn get_json_field_as_strings(json: &JsonValue, field: &str) -> (r: Result<Vec<String>, StepError>)
    ensures
        r is Ok <==> json_strings(json_get(*json, field@)) is Some,
        r matches Ok(v) ==> crate::blocks::ids_view(v@) == json_strings(json_get(*json, field@))->0,
{
    match json_field(json, field) {
        Some(JsonValue::Array(items)) => {
            let mut out: Vec<String> = Vec::new();
            let mut i: usize = 0;
            while i < items.len()
                invariant
                    i <= items@.len(),
                    json_get(*json, field@) == Some(JsonValue::Array(*items)),
                    out@.len() == i,
                    forall|j: int| 0 <= j < i ==> #[trigger] items@[j] is Str && out@[j]@ == items@[j]->Str_0@,
                decreases items@.len() - i,
            {
                match &items[i] {
                    JsonValue::Str(s) => out.push(s.clone()),
                    _ => {
                        assert(!(items@[i as int] is Str));
                        return Err(step_error_msg("field is not an array of strings"));
                    },
                }
                i += 1;
            }
            proof {
                assert(crate::blocks::ids_view(out@) =~= Seq::new(items@.len(), |k: int| items@[k]->Str_0@));
            }
            Ok(out)
        },
        _ => Err(step_error_msg("field is not an array of strings")),
    }
}

/// The marks named in the array of strings in the field `marks` of a block.
pub open spec fn json_marks(v: JsonValue) -> Option<Seq<Mark>> {
    match json_strings(json_get(v, "marks"@)) {
        Some(names) => if forall|i: int| 0 <= i < names.len() ==> #[trigger] spec_mark_from_str(names[i]) is Some {
            Some(Seq::new(names.len(), |i: int| spec_mark_from_str(names[i])->0))
        } else {
            None
        },
        None => None,
    }
}

/// The kind that a `_type` names among the types a standard block is read
/// back as.
pub open spec fn json_kind(t: Seq<char>) -> Option<StandardBlockKind> {
    if t == "paragraph"@ {
        Some(StandardBlockKind::Paragraph)
    } else if t == "h1"@ {
        Some(StandardBlockKind::H1)
    } else if t == "h2"@ {
        Some(StandardBlockKind::H2)
    } else if t == "h3"@ {
        Some(StandardBlockKind::H3)
    } else if t == "to-do list"@ {
        Some(StandardBlockKind::TodoList)
    } else if t == "dotpoint list"@ {
        Some(StandardBlockKind::DotPointList)
    } else if t == "numbered list"@ {
        Some(StandardBlockKind::NumberedList)
    } else if t == "arrow list"@ {
        Some(StandardBlockKind::ArrowList)
    } else {
        None
    }
}

/// A standard block's `_type` is read back as the kind whose `_type` name it
/// is: every kind that holds text reads back from its name, and a name reads
/// as a kind only when it is that kind's name.
pub proof fn lemma_json_kind_names(k: StandardBlockKind, t: Seq<char>)
    ensures
        crate::blocks::standard_blocks::kind_has_content(k) ==> json_kind(crate::blocks::standard_blocks::kind_name(k)) == Some(k),
        json_kind(t) == Some(k) ==> t == crate::blocks::standard_blocks::kind_name(k),
{
    reveal_strlit("paragraph");
    reveal_strlit("h1");
    reveal_strlit("h2");
    reveal_strlit("h3");
    reveal_strlit("to-do list");
    reveal_strlit("dotpoint list");
    reveal_strlit("numbered list");
    reveal_strlit("arrow list");
    assert("paragraph"@.len() == 9 && "h1"@.len() == 2 && "h2"@.len() == 2 && "h3"@.len() == 2 && "to-do list"@.len() == 10
        && "dotpoint list"@.len() == 13 && "numbered list"@.len() == 13 && "arrow list"@.len() == 10);
    crate::blocks::standard_blocks::lemma_differ_at("h2"@, "h1"@, 1);
    crate::blocks::standard_blocks::lemma_differ_at("h3"@, "h1"@, 1);
    crate::blocks::standard_blocks::lemma_differ_at("h3"@, "h2"@, 1);
    crate::blocks::standard_blocks::lemma_differ_at("numbered list"@, "dotpoint list"@, 0);
    crate::blocks::standard_blocks::lemma_differ_at("arrow list"@, "to-do list"@, 0);
}

/// The type of a standard block: its `_type`, and in its `content` the
/// ids of its inline blocks and, for a list, whether it is ticked.
pub open spec fn json_block_type(v: JsonValue) -> Option<StandardBlockTypeView> {
    match (json_str_field(v, "_type"@), json_get(v, "content"@)) {
        (Some(t), Some(c)) => match (json_kind(t), json_strings(json_get(c, "inline_blocks"@))) {
            (Some(k), Some(ids)) => if crate::blocks::standard_blocks::kind_is_list(k) {
                match json_bool_field(c, "completed"@) {
                    Some(done) => Some(StandardBlockTypeView { completed: done, ..StandardBlockTypeView::empty_of_kind(k).with_inline_blocks(ids) }),
                    None => None,
                }
            } else {
                Some(StandardBlockTypeView::empty_of_kind(k).with_inline_blocks(ids))
            },
            _ => None,
        },
        _ => None,
    }
}

/// The text of an inline block: `_type` "text" and a string in the field
/// `text` of its `content`, as UTF-16.
pub open spec fn json_text(v: JsonValue) -> Option<Seq<u16>> {
    if json_str_field(v, "_type"@) == Some("text"@) {
        match json_get(v, "content"@) {
            Some(c) => match json_str_field(c, "text"@) {
                Some(t) => Some(utf16_encode(t)),
                None => None,
            },
            None => None,
        }
    } else {
        None
    }
}

/// The block that a JSON value describes: by its `kind`, a standard block
/// (`_id`, type, `children`, `parent`, `marks`), an inline block (`_id`,
/// text, `parent`, `marks`) or the root (`_id`, `children`).
pub open spec fn json_block(v: JsonValue) -> Option<BlockView> {
    let id = json_str_field(v, "_id"@);
    let children = json_strings(json_get(v, "children"@));
    let parent = json_str_field(v, "parent"@);
    let marks = json_marks(v);
    match json_str_field(v, "kind"@) {
        Some(k) => if k == "standard"@ {
            match (id, json_block_type(v), children, parent, marks) {
                (Some(i), Some(t), Some(c), Some(p), Some(m)) => Some(
                    BlockView::Standard(StandardBlockView { id: i, content: t, children: c, parent: p, marks: m }),
                ),
                _ => None,
            }
        } else if k == "inline"@ {
            match (id, json_text(v), parent, marks) {
                (Some(i), Some(t), Some(p), Some(m)) => Some(
                    BlockView::Inline(InlineBlockView { id: i, text: t, marks: m, parent: p }),
                ),
                _ => None,
            }
        } else if k == "root"@ {
            match (id, children) {
                (Some(i), Some(c)) => Some(BlockView::Root(RootBlockView { id: i, children: c })),
                _ => None,
            }
        } else {
            None
        },
        None => None,
    }
}

/// The `_id` of a block.
pub fn id_from_json_block(json: &JsonValue) -> (r: Result<String, StepError>)
    ensures
        r is Ok <==> json_str_field(*json, "_id"@) is Some,
        r matches Ok(s) ==> s@ == json_str_field(*json, "_id"@)->0,
{
    get_json_field_as_string(json, "_id")
}

/// The `children` of a block.
pub fn children_from_json_block(json: &JsonValue) -> (r: Result<Vec<String>, StepError>)
    ensures
        r is Ok <==> json_strings(json_get(*json, "children"@)) is Some,
        r matches Ok(v) ==> ids_view(v@) == json_strings(json_get(*json, "children"@))->0,
{
    get_json_field_as_strings(json, "children")
}

/// The `parent` of a block.
pub fn parent_from_json_block(json: &JsonValue) -> (r: Result<String, StepError>)
    ensures
        r is Ok <==> json_str_field(*json, "parent"@) is Some,
        r matches Ok(s) ==> s@ == json_str_field(*json, "parent"@)->0,
{
    get_json_field_as_string(json, "parent")
}

/// The `marks` of a block, each read by `Mark::from_str`.
pub fn marks_from_json_block(json: &JsonValue) -> (r: Result<Vec<Mark>, StepError>)
    ensures
        r is Ok <==> json_marks(*json) is Some,
        r matches Ok(v) ==> v@ == json_marks(*json)->0,
{
    let names = get_json_field_as_strings(json, "marks")?;
    let ghost ns = ids_view(names@);
    let mut out: Vec<Mark> = Vec::new();
    let mut i: usize = 0;
    while i < names.len()
        invariant
            i <= names@.len(),
            ns == ids_view(names@),
            json_strings(json_get(*json, "marks"@)) == Some(ns),
            out@.len() == i,
            forall|j: int| 0 <= j < i ==> #[trigger] spec_mark_from_str(ns[j]) == Some(out@[j]),
        decreases names@.len() - i,
    {
        match Mark::from_str(names[i].as_str()) {
            Ok(m) => {
                assert(ns[i as int] == names@[i as int]@);
                out.push(m);
            },
            Err(_) => {
                assert(ns[i as int] == names@[i as int]@);
                assert(spec_mark_from_str(ns[i as int]) is None);
                return Err(step_error_msg("Block marks field is not an array of valid Mark strings"));
            },
        }
        i += 1;
    }
    proof {
        assert(out@ =~= Seq::new(ns.len(), |k: int| spec_mark_from_str(ns[k])->0));
    }
    Ok(out)
}

impl StandardBlockType {
    /// The type of a standard block from its JSON.
    pub fn from_json_block(json: &JsonValue) -> (r: Result<Self, StepError>)
        ensures
            r is Ok <==> json_block_type(*json) is Some,
            r matches Ok(t) ==> t@ == json_block_type(*json)->0,
    {
        let block_type = get_json_field_as_string(json, "_type")?;
        let content = match json_field(json, "content") {
            Some(c) => c,
            None => return Err(step_error_msg("Block does not have block field")),
        };
        let s = block_type.as_str();
        let ghost t = block_type@;
        proof {
            reveal_strlit("paragraph");
            reveal_strlit("h1");
            reveal_strlit("h2");
            reveal_strlit("h3");
            reveal_strlit("to-do list");
            reveal_strlit("dotpoint list");
            reveal_strlit("numbered list");
            reveal_strlit("arrow list");
        }
        let is_list = crate::text::str_eq(s, "to-do list") || crate::text::str_eq(s, "dotpoint list")
            || crate::text::str_eq(s, "numbered list") || crate::text::str_eq(s, "arrow list");
        let is_text = crate::text::str_eq(s, "paragraph") || crate::text::str_eq(s, "h1") || crate::text::str_eq(s, "h2")
            || crate::text::str_eq(s, "h3");
        if !is_list && !is_text {
            return Err(step_error_msg("Block type not found"));
        }
        let ids = get_json_field_as_strings(content, "inline_blocks")?;
        let c = ContentBlock::new(ids);
        if crate::text::str_eq(s, "paragraph") {
            Ok(StandardBlockType::Paragraph(c))
        } else if crate::text::str_eq(s, "h1") {
            Ok(StandardBlockType::H1(c))
        } else if crate::text::str_eq(s, "h2") {
            Ok(StandardBlockType::H2(c))
        } else if crate::text::str_eq(s, "h3") {
            Ok(StandardBlockType::H3(c))
        } else {
            let completed = match get_json_field_as_bool(content, "completed") {
                Ok(b) => b,
                Err(_) => return Err(step_error_msg("'Completed' value is not a bool")),
            };
            let l = ListBlock { content: c, completed };
            if crate::text::str_eq(s, "to-do list") {
                Ok(StandardBlockType::TodoList(l))
            } else if crate::text::str_eq(s, "dotpoint list") {
                Ok(StandardBlockType::DotPointList(l))
            } else if crate::text::str_eq(s, "numbered list") {
                Ok(StandardBlockType::NumberedList(l))
            } else {
                Ok(StandardBlockType::ArrowList(l))
            }
        }
    }
}

impl Block {
    /// The block that a JSON value describes.
    pub fn from_json_value(json: &JsonValue) -> (r: Result<Self, StepError>)
        ensures
            r is Ok <==> json_block(*json) is Some,
            r matches Ok(b) ==> b@ == json_block(*json)->0,
    {
        let kind = get_json_field_as_string(json, "kind")?;
        proof {
            reveal_strlit("standard");
            reveal_strlit("inline");
            reveal_strlit("root");
            reveal_strlit("text");
        }
        if crate::text::str_eq(kind.as_str(), "standard") {
            let _id = id_from_json_block(json)?;
            let content = StandardBlockType::from_json_block(json)?;
            let children = children_from_json_block(json)?;
            let parent = parent_from_json_block(json)?;
            let marks = marks_from_json_block(json)?;
            Ok(Block::StandardBlock(StandardBlock { _id, content, children, parent, marks }))
        } else if crate::text::str_eq(kind.as_str(), "inline") {
            let _id = id_from_json_block(json)?;
            let _type = get_json_field_as_string(json, "_type")?;
            if !crate::text::str_eq(_type.as_str(), "text") {
                return Err(step_error("Block kind not found: ", _type.as_str()));
            }
            let text_block = match json_field(json, "content") {
                Some(c) => c,
                None => return Err(step_error_msg("Block does not have block field")),
            };
            let text = get_json_field_as_string(text_block, "text")?;
            let content = InlineBlockType::TextBlock(TextBlock(StringUTF16::from_str(text.as_str())));
            let parent = parent_from_json_block(json)?;
            let marks = marks_from_json_block(json)?;
            Ok(Block::InlineBlock(InlineBlock { _id, content, marks, parent }))
        } else if crate::text::str_eq(kind.as_str(), "root") {
            let _id = id_from_json_block(json)?;
            let children = children_from_json_block(json)?;
            Ok(Block::Root(RootBlock::from(_id, children)))
        } else {
            Err(step_error("Block kind not found: ", kind.as_str()))
        }
    }

    /// The block that the JSON text `json_str` describes; an error where
    /// the text is not JSON or does not describe a block.
    pub fn from_json(json_str: &str) -> (r: Result<Self, StepError>)
        ensures
            parsed_json(json_str@) is None ==> r is Err && r->Err_0.0@ == "Could not parse json block from str: "@
                + json_str@,
            parsed_json(json_str@) matches Some(v) ==> (r is Ok <==> json_block(v) is Some),
            r matches Ok(b) ==> b@ == json_block(parsed_json(json_str@)->0)->0,
    {
        match parse_json(json_str) {
            Some(json) => Block::from_json_value(&json),
            None => Err(step_error("Could not parse json block from str: ", json_str)),
        }
    }
}

/// The blocks that the texts of `blocks` describe, in turn.
pub open spec fn json_blocks(blocks: Seq<String>) -> Option<Seq<BlockView>> {
    if forall|i: int| 0 <= i < blocks.len() ==> #[trigger] parsed_json(blocks[i]@) is Some && json_block(
        parsed_json(blocks[i]@)->0,
    ) is Some {
        Some(Seq::new(blocks.len(), |i: int| json_block(parsed_json(blocks[i]@)->0)->0))
    } else {
        None
    }
}

impl BlockMap {
    /// The document made of the blocks whose JSON texts `blocks` lists, each
    /// stored under its id (a later block under an id replaces an earlier
    /// one); an error where a text is not a block.
    pub fn from(blocks: Vec<String>) -> (r: Result<Self, StepError>)
        ensures
            r is Ok <==> json_blocks(blocks@) is Some,
            r matches Ok(m) ==> m@ == insert_blocks(Map::empty(), json_blocks(blocks@)->0),
    {
        let mut block_map = BlockMap::new();
        let mut touched: Vec<String> = Vec::new();
        let ghost bs = Seq::new(blocks@.len(), |i: int| json_block(parsed_json(blocks@[i]@)->0)->0);
        let mut i: usize = 0;
        while i < blocks.len()
            invariant
                i <= blocks@.len(),
                bs == Seq::new(blocks@.len(), |k: int| json_block(parsed_json(blocks@[k]@)->0)->0),
                forall|j: int| 0 <= j < i ==> #[trigger] parsed_json(blocks@[j]@) is Some && json_block(
                    parsed_json(blocks@[j]@)->0,
                ) is Some,
                block_map@ == insert_blocks(Map::empty(), bs.take(i as int)),
            decreases blocks@.len() - i,
        {
            let block = match Block::from_json(blocks[i].as_str()) {
                Ok(b) => b,
                Err(e) => {
                    assert(!(parsed_json(blocks@[i as int]@) is Some && json_block(parsed_json(blocks@[i as int]@)->0) is Some));
                    return Err(e);
                },
            };
            block_map.update_block(block, &mut touched)?;
            proof {
                assert(bs.take(i + 1).drop_last() =~= bs.take(i as int));
            }
            i += 1;
        }
        proof {
            assert(bs.take(blocks@.len() as int) =~= bs);
        }
        Ok(block_map)
    }
}

/// The layers of a subselection: its `block_id`, its `offset` (as a
/// `u64`) and, unless `subselection` is null, the layers inside it.
pub open spec fn json_subselection(v: JsonValue) -> Option<Seq<Layer>>
    decreases v,
{
    match v {
        JsonValue::Object(fs) => {
            let k = index_of_id(json_keys(fs@), "subselection"@);
            match (json_str_field(v, "block_id"@), json_uint_field(v, "offset"@)) {
                (Some(id), Some(o)) => if 0 <= k < fs@.len() {
                    let layer = Layer { block_id: id, offset: o as usize };
                    let inner = fs@[k].1;
                    if inner is Null {
                        Some(seq![layer])
                    } else {
                        proof {
                            assert(decreases_to!(v => fs));
                            assert(decreases_to!(fs => fs@));
                            assert(decreases_to!(fs@ => fs@[k]));
                            assert(decreases_to!(fs@[k] => fs@[k].1));
                        }
                        match json_subselection(inner) {
                            Some(rest) => Some(seq![layer] + rest),
                            None => None,
                        }
                    }
                } else {
                    None
                },
                _ => None,
            }
        },
        _ => None,
    }
}

impl SubSelection {
    /// The subselection that a JSON value describes.
    pub fn from_json_value(json: &JsonValue) -> (r: Result<Self, StepError>)
        ensures
            r is Ok <==> json_subselection(*json) is Some,
            r matches Ok(s) ==> s@ == json_subselection(*json)->0,
        decreases *json,
    {
        let block_id = match json_field(json, "block_id") {
            Some(JsonValue::Str(s)) => s.clone(),
            Some(_) => return Err(step_error_msg("Block id is not a string")),
            None => return Err(step_error_msg("Block id not found")),
        };
        let offset = match json_field(json, "offset") {
            Some(JsonValue::Number(_, Some(o))) => *o as usize,
            Some(_) => return Err(step_error_msg("Offset is not a u64")),
            None => return Err(step_error_msg("Offset not found")),
        };
        match json {
            JsonValue::Object(fs) => {
                let ghost k = index_of_id(json_keys(fs@), "subselection"@);
                let inner = match json_field(json, "subselection") {
                    Some(inner) => inner,
                    None => return Err(step_error_msg("Subselection not found")),
                };
                proof {
                    crate::blocks::lemma_index_of_id(json_keys(fs@), "subselection"@);
                    assert(*inner == fs@[k].1);
                }
                match inner {
                    JsonValue::Null => Ok(SubSelection::from(block_id, offset, None)),
                    _ => {
                        proof {
                            assert(decreases_to!(*json => *fs));
                            assert(decreases_to!(*fs => fs@));
                            assert(decreases_to!(fs@ => fs@[k]));
                            assert(decreases_to!(fs@[k] => fs@[k].1));
                        }
                        let rest = SubSelection::from_json_value(inner)?;
                        Ok(SubSelection::from(block_id, offset, Some(Box::new(rest))))
                    },
                }
            },
            _ => Err(step_error_msg("Block id not found")),
        }
    }
}

/// The subselection in the field `name` of `v`.
pub open spec fn json_sub_field(v: JsonValue, name: Seq<char>) -> Option<Seq<Layer>> {
    match json_get(v, name) {
        Some(x) => json_subselection(x),
        None => None,
    }
}

/// The block type in the field `name` of `v`.
pub open spec fn json_type_field(v: JsonValue, name: Seq<char>) -> Option<StandardBlockTypeView> {
    match json_get(v, name) {
        Some(x) => json_block_type(x),
        None => None,
    }
}

/// Every field that the step of type name `t` reads from its data `v` is
/// there and reads. A remove-mark name reads as an add-mark step; a name of
/// no step reads as nothing.
pub open spec fn json_step_ok(t: Seq<char>, v: JsonValue) -> bool {
    let id = json_str_field(v, "block_id"@) is Some;
    if t == "AddBlock"@ {
        &&& id
        &&& json_str_field(v, "new_std_block_id"@) is Some
        &&& json_str_field(v, "new_inline_block_id"@) is Some
        &&& json_int_field(v, "child_offset"@) is Some
        &&& json_type_field(v, "block_type"@) is Some
        &&& json_bool_field(v, "focus_block_below"@) is Some
    } else if t == "AddMarkStep"@ || t == "RemoveMarkStep"@ {
        &&& json_sub_field(v, "from"@) is Some
        &&& json_sub_field(v, "to"@) is Some
        &&& json_str_field(v, "mark"@) is Some
        &&& spec_mark_from_str(json_str_field(v, "mark"@)->0) is Some
        &&& id
        &&& json_str_field(v, "from_new_inline_id"@) is Some
        &&& json_str_field(v, "to_new_inline_id"@) is Some
    } else if t == "ReplaceStep"@ {
        &&& id
        &&& json_sub_field(v, "from"@) is Some
        &&& json_sub_field(v, "to"@) is Some
        &&& json_str_field(v, "slice"@) is Some
    } else if t == "SplitStep"@ {
        &&& json_sub_field(v, "subselection"@) is Some
        &&& json_str_field(v, "new_std_block_id"@) is Some
        &&& json_str_field(v, "new_inline_block_id"@) is Some
    } else if t == "TurnToChild"@ || t == "TurnToParent"@ || t == "ToggleCompleted"@ || t == "DeleteBlock"@ || t
        == "ReplaceWithChildren"@ {
        id
    } else if t == "TurnInto"@ {
        id && json_type_field(v, "new_block_type"@) is Some
    } else if t == "DropBlock"@ {
        &&& json_str_field(v, "drag_block_id"@) is Some
        &&& json_str_field(v, "drop_block_id"@) is Some
        &&& json_str_field(v, "side_dropped"@) is Some
        &&& spec_side_from_str(json_str_field(v, "side_dropped"@)->0) is Some
    } else if t == "Duplicate"@ {
        json_str_field(v, "duplicate_block_id"@) is Some && json_str_field(v, "new_block_id"@) is Some
    } else if t == "AddParagraphAtBottom"@ {
        json_str_field(v, "root_block_id"@) is Some && json_str_field(v, "new_block_id"@) is Some
    } else {
        false
    }
}

/// The step `s` is the step of type name `t` with each field read from the
/// field of its data `v` of the same name.
pub open spec fn json_step(t: Seq<char>, v: JsonValue, s: Step) -> bool {
    let id = json_str_field(v, "block_id"@)->0;
    let str = |name: Seq<char>| json_str_field(v, name)->0;
    if t == "AddBlock"@ {
        &&& s is AddBlock
        &&& s->AddBlock_0.block_id@ == id
        &&& s->AddBlock_0.new_std_block_id@ == str("new_std_block_id"@)
        &&& s->AddBlock_0.new_inline_block_id@ == str("new_inline_block_id"@)
        &&& s->AddBlock_0.child_offset == (json_int_field(v, "child_offset"@)->0 as usize)
        &&& s->AddBlock_0.block_type@ == json_type_field(v, "block_type"@)->0
        &&& s->AddBlock_0.focus_block_below == json_bool_field(v, "focus_block_below"@)->0
    } else if t == "AddMarkStep"@ || t == "RemoveMarkStep"@ {
        &&& s is AddMarkStep
        &&& s->AddMarkStep_0.block_id@ == id
        &&& s->AddMarkStep_0.from@ == json_sub_field(v, "from"@)->0
        &&& s->AddMarkStep_0.to@ == json_sub_field(v, "to"@)->0
        &&& Some(s->AddMarkStep_0.mark) == spec_mark_from_str(str("mark"@))
        &&& s->AddMarkStep_0.from_new_inline_id@ == str("from_new_inline_id"@)
        &&& s->AddMarkStep_0.to_new_inline_id@ == str("to_new_inline_id"@)
    } else if t == "ReplaceStep"@ {
        &&& s is ReplaceStep
        &&& s->ReplaceStep_0.block_id@ == id
        &&& s->ReplaceStep_0.from@ == json_sub_field(v, "from"@)->0
        &&& s->ReplaceStep_0.to@ == json_sub_field(v, "to"@)->0
        &&& s->ReplaceStep_0.slice is String
        &&& s->ReplaceStep_0.slice->String_0@ == str("slice"@)
    } else if t == "SplitStep"@ {
        &&& s is SplitStep
        &&& s->SplitStep_0.subselection@ == json_sub_field(v, "subselection"@)->0
        &&& s->SplitStep_0.new_std_block_id@ == str("new_std_block_id"@)
        &&& s->SplitStep_0.new_inline_block_id@ == str("new_inline_block_id"@)
    } else if t == "TurnToChild"@ {
        s is TurnToChild && s->TurnToChild_0.block_id@ == id
    } else if t == "TurnToParent"@ {
        s is TurnToParent && s->TurnToParent_0.block_id@ == id
    } else if t == "TurnInto"@ {
        &&& s is TurnInto
        &&& s->TurnInto_0.block_id@ == id
        &&& s->TurnInto_0.new_block_type@ == json_type_field(v, "new_block_type"@)->0
    } else if t == "ToggleCompleted"@ {
        s is ToggleCompleted && s->ToggleCompleted_0@ == id
    } else if t == "DropBlock"@ {
        &&& s is DropBlock
        &&& s->DropBlock_0.drag_block_id@ == str("drag_block_id"@)
        &&& s->DropBlock_0.drop_block_id@ == str("drop_block_id"@)
        &&& Some(s->DropBlock_0.side_dropped) == spec_side_from_str(str("side_dropped"@))
    } else if t == "DeleteBlock"@ {
        s is DeleteBlock && s->DeleteBlock_0@ == id
    } else if t == "Duplicate"@ {
        &&& s is Duplicate
        &&& s->Duplicate_0.duplicate_block_id@ == str("duplicate_block_id"@)
        &&& s->Duplicate_0.new_block_id@ == str("new_block_id"@)
    } else if t == "ReplaceWithChildren"@ {
        s is ReplaceWithChildren && s->ReplaceWithChildren_0.block_id@ == id
    } else if t == "AddParagraphAtBottom"@ {
        &&& s is AddParagraphAtBottom
        &&& s->AddParagraphAtBottom_0.root_block_id@ == str("root_block_id"@)
        &&& s->AddParagraphAtBottom_0.new_block_id@ == str("new_block_id"@)
    } else {
        false
    }
}

/// The subselection in the field `name` of `json`.
fn sub_field(json: &JsonValue, name: &str) -> (r: Result<SubSelection, StepError>)
    ensures
        r is Ok <==> json_sub_field(*json, name@) is Some,
        r matches Ok(s) ==> s@ == json_sub_field(*json, name@)->0,
{
    match json_field(json, name) {
        Some(x) => SubSelection::from_json_value(x),
        None => Err(step_error("Step does not have the field: ", name)),
    }
}

/// The block type in the field `name` of `json`.
fn type_field(json: &JsonValue, name: &str) -> (r: Result<StandardBlockType, StepError>)
    ensures
        r is Ok <==> json_type_field(*json, name@) is Some,
        r matches Ok(t) ==> t@ == json_type_field(*json, name@)->0,
{
    match json_field(json, name) {
        Some(x) => StandardBlockType::from_json_block(x),
        None => Err(step_error("Step does not have the field: ", name)),
    }
}

/// A mark step from its JSON data.
fn mark_step_from_json(json: &JsonValue) -> (r: Result<MarkStep, StepError>)
    ensures
        r is Ok <==> json_step_ok("AddMarkStep"@, *json),
        r matches Ok(m) ==> json_step("AddMarkStep"@, *json, Step::AddMarkStep(m)),
{
    proof {
        reveal_strlit("AddMarkStep");
        reveal_strlit("AddBlock");
        assert("AddMarkStep"@.len() != "AddBlock"@.len());
    }
    let from = sub_field(json, "from")?;
    let to = sub_field(json, "to")?;
    let mark = Mark::from_str(get_json_field_as_string(json, "mark")?.as_str())?;
    Ok(MarkStep {
        block_id: get_json_field_as_string(json, "block_id")?,
        from,
        to,
        mark,
        from_new_inline_id: get_json_field_as_string(json, "from_new_inline_id")?,
        to_new_inline_id: get_json_field_as_string(json, "to_new_inline_id")?,
    })
}

/// The id in the field `block_id` of `json`.
fn block_id_field(json: &JsonValue) -> (r: Result<String, StepError>)
    ensures
        r is Ok <==> json_str_field(*json, "block_id"@) is Some,
        r matches Ok(s) ==> s@ == json_str_field(*json, "block_id"@)->0,
{
    get_json_field_as_string(json, "block_id")
}

impl Step {
    /// The step of type name `step_type` that the JSON text `json` describes.
    /// A copy is applied by the editor alone and a paste is never sent, so
    /// neither name comes here.
    pub fn from_json(step_type: &str, json: &str) -> (r: Result<Self, StepError>)
        requires
            step_type@ != "Copy"@,
            step_type@ != "Paste"@,
        ensures
            parsed_json(json@) is None ==> r is Err && r->Err_0.0@ == "Could not parse json block from str: "@ + json@,
            parsed_json(json@) matches Some(v) ==> (r is Ok <==> json_step_ok(step_type@, v)),
            r matches Ok(s) ==> json_step(step_type@, parsed_json(json@)->0, s),
    {
        let v = match parse_json(json) {
            Some(v) => v,
            None => return Err(step_error("Could not parse json block from str: ", json)),
        };
        let json = &v;
        let t = step_type;
        proof {
            reveal_strlit("AddMarkStep");
            reveal_strlit("AddBlock");
            assert("AddMarkStep"@.len() != "AddBlock"@.len());
            reveal_strlit("TurnInto");
            reveal_strlit("DropBlock");
            reveal_strlit("ToggleCompleted");
            reveal_strlit("DeleteBlock");
            reveal_strlit("ReplaceWithChildren");
            assert("TurnInto"@.len() != "ToggleCompleted"@.len() && "TurnInto"@.len() != "DeleteBlock"@.len()
                && "TurnInto"@.len() != "ReplaceWithChildren"@.len());
            assert("DropBlock"@.len() != "ToggleCompleted"@.len() && "DropBlock"@.len() != "DeleteBlock"@.len()
                && "DropBlock"@.len() != "ReplaceWithChildren"@.len());
            reveal_strlit("Duplicate");
            assert("Duplicate"@.len() != "ReplaceWithChildren"@.len());
        }
        if crate::text::str_eq(t, "AddBlock") {
            let block_type = type_field(json, "block_type")?;
            Ok(Step::AddBlock(AddBlockStep {
                block_id: block_id_field(json)?,
                new_std_block_id: get_json_field_as_string(json, "new_std_block_id")?,
                new_inline_block_id: get_json_field_as_string(json, "new_inline_block_id")?,
                child_offset: get_json_field_as_int(json, "child_offset")? as usize,
                block_type,
                focus_block_below: get_json_field_as_bool(json, "focus_block_below")?,
            }))
        } else if crate::text::str_eq(t, "AddMarkStep") || crate::text::str_eq(t, "RemoveMarkStep") {
            Ok(Step::AddMarkStep(mark_step_from_json(json)?))
        } else if crate::text::str_eq(t, "ReplaceStep") {
            let block_id = block_id_field(json)?;
            let from = sub_field(json, "from")?;
            let to = sub_field(json, "to")?;
            let slice = ReplaceSlice::String(get_json_field_as_string(json, "slice")?);
            Ok(Step::ReplaceStep(ReplaceStep { block_id, from, to, slice }))
        } else if crate::text::str_eq(t, "SplitStep") {
            let subselection = sub_field(json, "subselection")?;
            Ok(Step::SplitStep(SplitStep {
                subselection,
                new_std_block_id: get_json_field_as_string(json, "new_std_block_id")?,
                new_inline_block_id: get_json_field_as_string(json, "new_inline_block_id")?,
            }))
        } else if crate::text::str_eq(t, "TurnToChild") {
            Ok(Step::TurnToChild(TurnToChild { block_id: block_id_field(json)? }))
        } else if crate::text::str_eq(t, "TurnToParent") {
            Ok(Step::TurnToParent(TurnToParent { block_id: block_id_field(json)? }))
        } else if crate::text::str_eq(t, "TurnInto") {
            let block_id = block_id_field(json)?;
            let new_block_type = type_field(json, "new_block_type")?;
            Ok(Step::TurnInto(TurnInto { block_id, new_block_type }))
        } else if crate::text::str_eq(t, "ToggleCompleted") {
            Ok(Step::ToggleCompleted(block_id_field(json)?))
        } else if crate::text::str_eq(t, "DropBlock") {
            let drag_block_id = get_json_field_as_string(json, "drag_block_id")?;
            let drop_block_id = get_json_field_as_string(json, "drop_block_id")?;
            let side_dropped = Side::from_str(get_json_field_as_string(json, "side_dropped")?.as_str())?;
            Ok(Step::DropBlock(DropBlockEvent { drag_block_id, drop_block_id, side_dropped }))
        } else if crate::text::str_eq(t, "DeleteBlock") {
            Ok(Step::DeleteBlock(block_id_field(json)?))
        } else if crate::text::str_eq(t, "Duplicate") {
            Ok(Step::Duplicate(DuplicateStep {
                duplicate_block_id: get_json_field_as_string(json, "duplicate_block_id")?,
                new_block_id: get_json_field_as_string(json, "new_block_id")?,
            }))
        } else if crate::text::str_eq(t, "ReplaceWithChildren") {
            Ok(Step::ReplaceWithChildren(ReplaceWithChildrenEvent { block_id: block_id_field(json)? }))
        } else if crate::text::str_eq(t, "AddParagraphAtBottom") {
            Ok(Step::AddParagraphAtBottom(AddParagraphAtBottomStep {
                root_block_id: get_json_field_as_string(json, "root_block_id")?,
                new_block_id: get_json_field_as_string(json, "new_block_id")?,
            }))
        } else {
            Err(step_error("is not a valid step type: ", t))
        }
    }
}

} // verus!
