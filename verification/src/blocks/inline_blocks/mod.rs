use vstd::prelude::*;

use crate::mark::{Mark, spec_same_type};
use crate::new_ids::NewIds;
use crate::steps_generator::{StepError, step_error_msg};
use crate::text::chars_to_string;

use self::text_block::{StringUTF16, TextBlock, utf16_encode};

pub mod text_block;

verus! {

/// What an inline block holds: its id, its UTF-16 text, its marks and the id
/// of the standard block that holds it.
pub struct InlineBlockView {
    pub id: Seq<char>,
    pub text: Seq<u16>,
    pub marks: Seq<Mark>,
    pub parent: Seq<char>,
}

impl InlineBlockView {
    pub open spec fn with_text(self, text: Seq<u16>) -> InlineBlockView {
        InlineBlockView { text, ..self }
    }

    pub open spec fn with_marks(self, marks: Seq<Mark>) -> InlineBlockView {
        InlineBlockView { marks, ..self }
    }

    pub open spec fn with_parent(self, parent: Seq<char>) -> InlineBlockView {
        InlineBlockView { parent, ..self }
    }

    pub open spec fn with_id(self, id: Seq<char>) -> InlineBlockView {
        InlineBlockView { id, ..self }
    }

    /// The marks after `apply_mark(mark, add_mark)`.
    pub open spec fn marks_after(self, mark: Mark, add_mark: bool) -> Seq<Mark> {
        if add_mark {
            marks_without_type(self.marks, mark).push(mark)
        } else {
            marks_without_type(self.marks, mark)
        }
    }
}

#[derive(Debug, PartialEq, Clone)]
pub struct InlineBlock {
    pub _id: String,
    pub content: InlineBlockType,
    pub marks: Vec<Mark>,
    pub parent: String,  //StandardBlock
}

/// `marks` without any mark of the same type as `mark`.
pub open spec fn marks_without_type(marks: Seq<Mark>, mark: Mark) -> Seq<Mark> {
    marks.filter(other_type(mark))
}

/// Holds of the marks that are not of the same type as `mark`.
pub open spec fn other_type(mark: Mark) -> spec_fn(Mark) -> bool {
    |m: Mark| !spec_same_type(m, mark)
}

/// Dropping the marks of one type twice drops no more than once.
pub proof fn lemma_marks_without_type_idempotent(s: Seq<Mark>, mark: Mark)
    ensures
        marks_without_type(marks_without_type(s, mark), mark) == marks_without_type(s, mark),
    decreases s.len(),
{
    if s.len() > 0 {
        let rest = s.drop_last();
        lemma_marks_without_type_idempotent(rest, mark);
        assert(s =~= rest.push(s.last()));
        rest.lemma_filter_push(s.last(), other_type(mark));
        marks_without_type(rest, mark).lemma_filter_push(s.last(), other_type(mark));
    } else {
        reveal(Seq::filter);
        assert(marks_without_type(s, mark) =~= s);
    }
}

/// Applying a mark a second time changes nothing.
pub proof fn lemma_marks_after_idempotent(b: InlineBlockView, mark: Mark, add_mark: bool)
    ensures
        b.with_marks(b.marks_after(mark, add_mark)).marks_after(mark, add_mark) == b.marks_after(
            mark,
            add_mark,
        ),
{
    let s = marks_without_type(b.marks, mark);
    lemma_marks_without_type_idempotent(b.marks, mark);
    assert(spec_same_type(mark, mark));
    s.lemma_filter_push(mark, other_type(mark));
}

/// A copy of the marks.
pub fn copy_marks(marks: &Vec<Mark>) -> (r: Vec<Mark>)
    ensures
        r@ == marks@,
{
    let mut out: Vec<Mark> = Vec::new();
    let mut i: usize = 0;
    while i < marks.len()
        invariant
            i <= marks@.len(),
            out@ == marks@.take(i as int),
        decreases marks@.len() - i,
    {
        proof {
            assert(marks@.take(i + 1) =~= marks@.take(i as int).push(marks@[i as int]));
        }
        out.push(marks[i]);
        i += 1;
    }
    proof {
        assert(marks@.take(marks@.len() as int) =~= marks@);
    }
    out
}

/// Keeps the marks that are not of the same type as `mark`, in order.
fn retain_other_types(marks: Vec<Mark>, mark: Mark) -> (r: Vec<Mark>)
    ensures
        r@ == marks_without_type(marks@, mark),
{
    let mut out: Vec<Mark> = Vec::new();
    let mut i: usize = 0;
    while i < marks.len()
        invariant
            i <= marks@.len(),
            out@ == marks_without_type(marks@.take(i as int), mark),
        decreases marks@.len() - i,
    {
        proof {
            reveal(Seq::filter);
            assert(marks@.take(i + 1).drop_last() =~= marks@.take(i as int));
        }
        let m = marks[i];
        if !m.is_same_type(&mark) {
            out.push(m);
        }
        i += 1;
    }
    proof {
        assert(marks@.take(marks@.len() as int) =~= marks@);
    }
    out
}

impl View for InlineBlock {
    type V = InlineBlockView;

    open spec fn view(&self) -> InlineBlockView {
        InlineBlockView {
            id: self._id@,
            text: self.content.text_view(),
            marks: self.marks@,
            parent: self.parent@,
        }
    }
}

impl InlineBlock {
    /// The UTF-16 text of the block.
    pub open spec fn text_view(&self) -> Seq<u16> {
        self.content.text_view()
    }

    /// A copy of the block.
    pub fn copy(&self) -> (b: Self)
        ensures
            b@ == self@,
    {
        InlineBlock {
            _id: self._id.clone(),
            content: InlineBlockType::TextBlock(TextBlock(self.content.text_ref().copy())),
            marks: copy_marks(&self.marks),
            parent: self.parent.clone(),
        }
    }

    /// A new empty text block under `parent`, with the next fresh id.
    pub fn new(new_ids: &mut NewIds, parent: String) -> (r: Result<Self, StepError>)
        ensures
            old(new_ids).ids().len() == 0 ==> r is Err && final(new_ids).ids() == old(
                new_ids,
            ).ids(),
            old(new_ids).ids().len() > 0 ==> final(new_ids).ids() == old(new_ids).ids().drop_last()
                && (r matches Ok(b) && b@ == (InlineBlockView {
                id: old(new_ids).ids().last()@,
                text: Seq::empty(),
                marks: Seq::empty(),
                parent: parent@,
            })),
    {
        return Ok(Self {
            _id: new_ids.get_id()?,
            content: InlineBlockType::TextBlock(TextBlock(StringUTF16::new())),
            marks: Vec::new(),
            parent,
        })
    }

    /// A new text block holding `text`, with the next fresh id.
    pub fn new_text_block(text: &str, marks: Vec<Mark>, parent: String, new_ids: &mut NewIds) -> (r:
        Result<Self, StepError>)
        ensures
            old(new_ids).ids().len() == 0 ==> r is Err && final(new_ids).ids() == old(
                new_ids,
            ).ids(),
            old(new_ids).ids().len() > 0 ==> final(new_ids).ids() == old(new_ids).ids().drop_last()
                && (r matches Ok(b) && b@ == (InlineBlockView {
                id: old(new_ids).ids().last()@,
                text: utf16_encode(text@),
                marks: marks@,
                parent: parent@,
            })),
    {
        Ok(InlineBlock {
            _id: new_ids.get_id()?,
            content: InlineBlockType::TextBlock(TextBlock(StringUTF16::from_str(text))),
            marks,
            parent,
        })
    }

    pub fn id(&self) -> (id: String)
        ensures
            id@ == self@.id,
    {
        return self._id.clone()
    }

    pub fn text(&self) -> (r: Result<&StringUTF16, StepError>)
        ensures
            r matches Ok(t) && t@ == self.text_view(),
    {
        match &self.content {
            InlineBlockType::TextBlock(block) => Ok(&block.0),
        }
    }

    pub fn update_text(self, text: StringUTF16) -> (r: Result<Self, StepError>)
        ensures
            r matches Ok(b) && b@ == self@.with_text(text@),
    {
        Ok(InlineBlock {
            _id: self._id,
            content: self.content.update_text(text),
            marks: self.marks,
            parent: self.parent,
        })
    }

    pub fn is_same_type(&self, block_type: &InlineBlockType) -> (r: bool)
        ensures
            r,
    {
        match self.content {
            InlineBlockType::TextBlock(_) => match block_type {
                InlineBlockType::TextBlock(_) => true,
            },
        }
    }

    /// This block with the text of `merge_with` appended.
    pub fn merge(self, merge_with: Self) -> (r: Result<Self, StepError>)
        ensures
            r matches Ok(b) && b@ == self@.with_text(self@.text + merge_with@.text),
    {
        let text = self.text()?.copy().concat(merge_with.text()?.copy());
        Ok(InlineBlock {
            _id: self.id(),
            content: self.content.update_text(text),
            marks: self.marks,
            parent: self.parent,
        })
    }

    /// The same block under the next fresh id.
    pub fn to_new_block(self, new_ids: &mut NewIds) -> (r: Result<Self, StepError>)
        ensures
            old(new_ids).ids().len() == 0 ==> r is Err && final(new_ids).ids() == old(
                new_ids,
            ).ids(),
            old(new_ids).ids().len() > 0 ==> final(new_ids).ids() == old(new_ids).ids().drop_last()
                && (r matches Ok(b) && b@ == self@.with_id(old(new_ids).ids().last()@)),
    {
        Ok(InlineBlock {
            _id: new_ids.get_id()?,
            content: self.content,
            marks: self.marks,
            parent: self.parent,
        })
    }

    /// Splits the text at `offset`: this block keeps the text before it, and
    /// a copy under the next fresh id gets the rest.
    pub fn split(self, offset: usize, new_ids: &mut NewIds) -> (r: Result<(Self, Self), StepError>)
        ensures
            offset > self@.text.len() ==> r is Err && final(new_ids).ids() == old(new_ids).ids(),
            offset <= self@.text.len() && old(new_ids).ids().len() == 0 ==> r is Err
                && final(new_ids).ids() == old(new_ids).ids(),
            offset <= self@.text.len() && old(new_ids).ids().len() > 0 ==> final(new_ids).ids()
                == old(new_ids).ids().drop_last() && (r matches Ok((a, b)) && a@ == self@.with_text(
                self@.text.take(offset as int),
            ) && b@ == self@.with_text(self@.text.skip(offset as int)).with_id(
                old(new_ids).ids().last()@,
            )),
    {
        let text = self.text()?;
        if offset > text.len() {
            return Err(step_error_msg("Offset is larger than text size"))
        }
        let (first_half, second_half) = text.split(offset);
        let first = self.update_text(first_half)?;
        let new_block = first.copy().to_new_block(new_ids)?.update_text(second_half)?;
        return Ok((first, new_block))
    }

    /// -> Remove any marks of the same type that exist
    /// -> add mark
    pub fn add_mark(self, mark: Mark) -> (b: Self)
        ensures
            b@ == self@.with_marks(marks_without_type(self@.marks, mark).push(mark)),
    {
        let mut marks = retain_other_types(self.marks, mark);
        marks.push(mark);
        InlineBlock { _id: self._id, content: self.content, marks, parent: self.parent }
    }

    pub fn remove_mark(self, mark: Mark) -> (b: Self)
        ensures
            b@ == self@.with_marks(marks_without_type(self@.marks, mark)),
    {
        let marks = retain_other_types(self.marks, mark);
        InlineBlock { _id: self._id, content: self.content, marks, parent: self.parent }
    }

    pub fn apply_mark(self, mark: Mark, add_mark: bool) -> (b: Self)
        ensures
            b@ == self@.with_marks(self@.marks_after(mark, add_mark)),
    {
        if add_mark {
            return self.add_mark(mark);
        } else {
            return self.remove_mark(mark);
        }
    }
}

#[derive(Debug, PartialEq, Clone)]
pub enum InlineBlockType {
    TextBlock(TextBlock),
}

impl InlineBlockType {
    pub open spec fn text_view(&self) -> Seq<u16> {
        match self {
            InlineBlockType::TextBlock(t) => t.0@,
        }
    }

    pub fn text(&self) -> (r: Result<&StringUTF16, StepError>)
        ensures
            r matches Ok(t) && t@ == self.text_view(),
    {
        Ok(self.text_ref())
    }

    pub fn text_ref(&self) -> (t: &StringUTF16)
        ensures
            t@ == self.text_view(),
    {
        match self {
            InlineBlockType::TextBlock(block) => &block.0,
        }
    }

    pub fn update_text(self, text: StringUTF16) -> (t: Self)
        ensures
            t == InlineBlockType::TextBlock(TextBlock(text)),
    {
        match self {
            InlineBlockType::TextBlock(_) => InlineBlockType::TextBlock(TextBlock(text)),
        }
    }

    pub fn _type_as_string(&self) -> (r: Result<String, StepError>)
        ensures
            r matches Ok(s) && s@ == "text"@,
    {
        match self {
            InlineBlockType::TextBlock(_) => return Ok(String::from_str("text")),
        }
    }
}

} // verus!
