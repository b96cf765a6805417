use vstd::prelude::*;

use crate::blocks::standard_blocks::StandardBlockType;
use crate::mark::Mark;
use crate::steps_generator::StepError;
use crate::steps_generator::event::{DropBlockEvent, ReplaceWithChildrenEvent};
use crate::steps_generator::selection::SubSelection;
use crate::utilities::Tree;

verus! {

/// A change to the document, as the editor records and replays it.
pub enum Step {
    ReplaceStep(ReplaceStep),
    SplitStep(SplitStep),
    AddMarkStep(MarkStep),
    RemoveMarkStep(MarkStep),
    TurnToChild(TurnToChild),
    TurnToParent(TurnToParent),
    AddBlock(AddBlockStep),
    TurnInto(TurnInto),
    ToggleCompleted(String),  //block id
    Copy(SubSelection, SubSelection),
    Paste(PasteStep),
    DropBlock(DropBlockEvent),
    DeleteBlock(String),  //ID
    Duplicate(DuplicateStep),
    ReplaceWithChildren(ReplaceWithChildrenEvent),
    AddParagraphAtBottom(AddParagraphAtBottomStep),  // (Root block id)
}

/// `s` is a replace step with these fields.
pub open spec fn is_replace_step(s: Step, block_id: Seq<char>, from: SubSelection, to: SubSelection, slice: ReplaceSlice) -> bool {
    match s {
        Step::ReplaceStep(rs) => rs.block_id@ == block_id && rs.from == from && rs.to == to && rs.slice == slice,
        _ => false,
    }
}

/// `s` turns block `block_id` into a block of type `t`.
pub open spec fn is_turn_into(s: Step, block_id: Seq<char>, t: crate::blocks::standard_blocks::StandardBlockTypeView) -> bool {
    match s {
        Step::TurnInto(ti) => ti.block_id@ == block_id && ti.new_block_type@ == t,
        _ => false,
    }
}

/// Replaces what lies between `from` and `to` with `slice`.
pub struct ReplaceStep {
    pub block_id: String,
    pub from: SubSelection,
    pub to: SubSelection,
    pub slice: ReplaceSlice,
}

#[derive(Debug, PartialEq, Clone)]
pub enum ReplaceSlice {
    Blocks(Vec<String>),  // Vec<Id>
    String(String),
}

impl ReplaceSlice {
    /// The text of a text slice.
    pub fn to_string(self) -> (r: Result<String, StepError>)
        requires
            self is String,
        ensures
            r matches Ok(s) && self matches ReplaceSlice::String(t) && s@ == t@,
    {
        return Ok(
            match self {
                Self::String(string) => string,
                Self::Blocks(_) => String::new(),
            },
        )
    }
}

/// Adds or removes `mark` between `from` and `to`.
pub struct MarkStep {
    pub block_id: String,
    pub from: SubSelection,
    pub to: SubSelection,
    pub mark: Mark,
    pub from_new_inline_id: String,
    pub to_new_inline_id: String,
}

/// Splits the block at `subselection` into two.
pub struct SplitStep {
    pub subselection: SubSelection,
    pub new_std_block_id: String,
    pub new_inline_block_id: String,
}

/// Makes the block a child of the sibling before it.
pub struct TurnToChild {
    pub block_id: String,
}

/// Moves the block up one level, after its parent.
pub struct TurnToParent {
    pub block_id: String,
}

/// Adds a new block of `block_type` beside or below `block_id`.
pub struct AddBlockStep {
    pub block_id: String,
    pub new_std_block_id: String,
    pub new_inline_block_id: String,
    pub child_offset: usize,
    pub block_type: StandardBlockType,
    pub focus_block_below: bool,
}

/// Changes the type of a block.
pub struct TurnInto {
    pub block_id: String,
    pub new_block_type: StandardBlockType,
}

/// Inserts a copied tree of blocks at `from`.
pub struct PasteStep {
    pub from: SubSelection,
    pub to: SubSelection,
    pub copy_tree: Tree,
}

/// Copies the block `duplicate_block_id` under the id `new_block_id`.
pub struct DuplicateStep {
    pub duplicate_block_id: String,
    pub new_block_id: String,
}

/// Adds an empty paragraph at the bottom of the page.
pub struct AddParagraphAtBottomStep {
    pub root_block_id: String,
    pub new_block_id: String,
}

} // verus!
