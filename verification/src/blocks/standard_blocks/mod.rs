use vstd::prelude::*;

use crate::blocks::{copy_ids, ids_view, index_of_id, position_of};
use crate::blocks::inline_blocks::copy_marks;
use crate::mark::Mark;
use crate::new_ids::NewIds;
use crate::steps_generator::{StepError, step_error_msg};

use self::content_block::ContentBlock;
use self::layout_block::LayoutBlock;
use self::list_block::ListBlock;
use self::page_block::PageBlock;

pub mod content_block;
pub mod layout_block;
pub mod list_block;
pub mod page_block;

verus! {

/// The kinds of standard block.
#[derive(Debug, PartialEq, Eq, Clone, Copy, Structural)]
pub enum StandardBlockKind {
    Paragraph,
    H1,
    H2,
    H3,
    TodoList,
    DotPointList,
    NumberedList,
    ArrowList,
    Layout,
    InlinePage,
    SquarePage,
    LinkBlock,
}

/// Kinds whose blocks hold inline blocks.
pub open spec fn kind_has_content(k: StandardBlockKind) -> bool {
    !(k is Layout || k is InlinePage || k is SquarePage || k is LinkBlock)
}

pub open spec fn kind_is_list(k: StandardBlockKind) -> bool {
    k is TodoList || k is DotPointList || k is NumberedList || k is ArrowList
}

pub open spec fn kind_is_page(k: StandardBlockKind) -> bool {
    k is InlinePage || k is SquarePage || k is LinkBlock
}

/// What the type of a standard block holds. Fields that a kind does not use
/// are empty or false.
pub struct StandardBlockTypeView {
    pub kind: StandardBlockKind,
    pub inline_blocks: Seq<Seq<char>>,
    pub completed: bool,
    pub horizontal: bool,
    pub page_id: Seq<char>,
}

impl StandardBlockTypeView {
    pub open spec fn has_content(self) -> bool {
        kind_has_content(self.kind)
    }

    pub open spec fn with_inline_blocks(self, ids: Seq<Seq<char>>) -> StandardBlockTypeView {
        StandardBlockTypeView { inline_blocks: ids, ..self }
    }

    /// The type of a block made with this type's kind and no inline blocks
    /// (the type of block that enter makes below it).
    pub open spec fn empty_of_kind(k: StandardBlockKind) -> StandardBlockTypeView {
        StandardBlockTypeView {
            kind: k,
            inline_blocks: Seq::empty(),
            completed: false,
            horizontal: false,
            page_id: Seq::empty(),
        }
    }
}

#[derive(Debug, PartialEq, Clone)]
pub enum StandardBlockType {
    Paragraph(ContentBlock),
    H1(ContentBlock),
    H2(ContentBlock),
    H3(ContentBlock),
    TodoList(ListBlock),
    DotPointList(ListBlock),
    NumberedList(ListBlock),
    ArrowList(ListBlock),
    Layout(LayoutBlock),
    InlinePage(PageBlock),
    SquarePage(PageBlock),
    LinkBlock(PageBlock),
}

impl View for StandardBlockType {
    type V = StandardBlockTypeView;

    open spec fn view(&self) -> StandardBlockTypeView {
        match self {
            StandardBlockType::Paragraph(c) => StandardBlockTypeView::empty_of_kind(
                StandardBlockKind::Paragraph,
            ).with_inline_blocks(ids_view(c.inline_blocks@)),
            StandardBlockType::H1(c) => StandardBlockTypeView::empty_of_kind(
                StandardBlockKind::H1,
            ).with_inline_blocks(ids_view(c.inline_blocks@)),
            StandardBlockType::H2(c) => StandardBlockTypeView::empty_of_kind(
                StandardBlockKind::H2,
            ).with_inline_blocks(ids_view(c.inline_blocks@)),
            StandardBlockType::H3(c) => StandardBlockTypeView::empty_of_kind(
                StandardBlockKind::H3,
            ).with_inline_blocks(ids_view(c.inline_blocks@)),
            StandardBlockType::TodoList(l) => StandardBlockTypeView {
                completed: l.completed,
                ..StandardBlockTypeView::empty_of_kind(StandardBlockKind::TodoList).with_inline_blocks(
                    ids_view(l.content.inline_blocks@),
                )
            },
            StandardBlockType::DotPointList(l) => StandardBlockTypeView {
                completed: l.completed,
                ..StandardBlockTypeView::empty_of_kind(
                    StandardBlockKind::DotPointList,
                ).with_inline_blocks(ids_view(l.content.inline_blocks@))
            },
            StandardBlockType::NumberedList(l) => StandardBlockTypeView {
                completed: l.completed,
                ..StandardBlockTypeView::empty_of_kind(
                    StandardBlockKind::NumberedList,
                ).with_inline_blocks(ids_view(l.content.inline_blocks@))
            },
            StandardBlockType::ArrowList(l) => StandardBlockTypeView {
                completed: l.completed,
                ..StandardBlockTypeView::empty_of_kind(StandardBlockKind::ArrowList).with_inline_blocks(
                    ids_view(l.content.inline_blocks@),
                )
            },
            StandardBlockType::Layout(l) => StandardBlockTypeView {
                horizontal: l.horizontal,
                ..StandardBlockTypeView::empty_of_kind(StandardBlockKind::Layout)
            },
            StandardBlockType::InlinePage(p) => StandardBlockTypeView {
                page_id: p.page_id@,
                ..StandardBlockTypeView::empty_of_kind(StandardBlockKind::InlinePage)
            },
            StandardBlockType::SquarePage(p) => StandardBlockTypeView {
                page_id: p.page_id@,
                ..StandardBlockTypeView::empty_of_kind(StandardBlockKind::SquarePage)
            },
            StandardBlockType::LinkBlock(p) => StandardBlockTypeView {
                page_id: p.page_id@,
                ..StandardBlockTypeView::empty_of_kind(StandardBlockKind::LinkBlock)
            },
        }
    }
}

impl StandardBlockType {
    pub fn kind(&self) -> (k: StandardBlockKind)
        ensures
            k == self@.kind,
    {
        match self {
            StandardBlockType::Paragraph(_) => StandardBlockKind::Paragraph,
            StandardBlockType::H1(_) => StandardBlockKind::H1,
            StandardBlockType::H2(_) => StandardBlockKind::H2,
            StandardBlockType::H3(_) => StandardBlockKind::H3,
            StandardBlockType::TodoList(_) => StandardBlockKind::TodoList,
            StandardBlockType::DotPointList(_) => StandardBlockKind::DotPointList,
            StandardBlockType::NumberedList(_) => StandardBlockKind::NumberedList,
            StandardBlockType::ArrowList(_) => StandardBlockKind::ArrowList,
            StandardBlockType::Layout(_) => StandardBlockKind::Layout,
            StandardBlockType::InlinePage(_) => StandardBlockKind::InlinePage,
            StandardBlockType::SquarePage(_) => StandardBlockKind::SquarePage,
            StandardBlockType::LinkBlock(_) => StandardBlockKind::LinkBlock,
        }
    }

    /// Whether blocks of this type hold inline blocks.
    pub fn has_content(&self) -> (r: bool)
        ensures
            r == self@.has_content(),
    {
        match self {
            StandardBlockType::Layout(_) | StandardBlockType::InlinePage(_)
            | StandardBlockType::SquarePage(_) | StandardBlockType::LinkBlock(_) => false,
            _ => true,
        }
    }

    /// A copy of the type.
    pub fn copy(&self) -> (t: Self)
        ensures
            t@ == self@,
    {
        match self {
            StandardBlockType::Paragraph(c) => StandardBlockType::Paragraph(
                ContentBlock { inline_blocks: copy_ids(&c.inline_blocks) },
            ),
            StandardBlockType::H1(c) => StandardBlockType::H1(
                ContentBlock { inline_blocks: copy_ids(&c.inline_blocks) },
            ),
            StandardBlockType::H2(c) => StandardBlockType::H2(
                ContentBlock { inline_blocks: copy_ids(&c.inline_blocks) },
            ),
            StandardBlockType::H3(c) => StandardBlockType::H3(
                ContentBlock { inline_blocks: copy_ids(&c.inline_blocks) },
            ),
            StandardBlockType::TodoList(l) => StandardBlockType::TodoList(
                ListBlock {
                    content: ContentBlock { inline_blocks: copy_ids(&l.content.inline_blocks) },
                    completed: l.completed,
                },
            ),
            StandardBlockType::DotPointList(l) => StandardBlockType::DotPointList(
                ListBlock {
                    content: ContentBlock { inline_blocks: copy_ids(&l.content.inline_blocks) },
                    completed: l.completed,
                },
            ),
            StandardBlockType::NumberedList(l) => StandardBlockType::NumberedList(
                ListBlock {
                    content: ContentBlock { inline_blocks: copy_ids(&l.content.inline_blocks) },
                    completed: l.completed,
                },
            ),
            StandardBlockType::ArrowList(l) => StandardBlockType::ArrowList(
                ListBlock {
                    content: ContentBlock { inline_blocks: copy_ids(&l.content.inline_blocks) },
                    completed: l.completed,
                },
            ),
            StandardBlockType::Layout(l) => StandardBlockType::Layout(
                LayoutBlock { horizontal: l.horizontal },
            ),
            StandardBlockType::InlinePage(p) => StandardBlockType::InlinePage(
                PageBlock { page_id: p.page_id.clone() },
            ),
            StandardBlockType::SquarePage(p) => StandardBlockType::SquarePage(
                PageBlock { page_id: p.page_id.clone() },
            ),
            StandardBlockType::LinkBlock(p) => StandardBlockType::LinkBlock(
                PageBlock { page_id: p.page_id.clone() },
            ),
        }
    }

    /// The inline blocks of the type, where it holds some.
    pub fn content_block(&self) -> (r: Result<&ContentBlock, StepError>)
        ensures
            r matches Ok(c) ==> ids_view(c.inline_blocks@) == self@.inline_blocks,
            r is Err <==> !self@.has_content(),
    {
        match self {
            StandardBlockType::Paragraph(block) | StandardBlockType::H1(block)
            | StandardBlockType::H2(block) | StandardBlockType::H3(block) => Ok(block),
            StandardBlockType::TodoList(content) | StandardBlockType::ArrowList(content)
            | StandardBlockType::DotPointList(content) | StandardBlockType::NumberedList(
                content,
            ) => Ok(&content.content),
            _ => Err(step_error_msg("Block does not have a content block")),
        }
    }

    /// The same type with other inline blocks; list types keep `completed`.
    pub fn update_block_content(&self, content_block: ContentBlock) -> (r: Result<Self, StepError>)
        ensures
            r matches Ok(t) ==> t@ == self@.with_inline_blocks(
                ids_view(content_block.inline_blocks@),
            ),
            r is Err <==> !self@.has_content(),
    {
        match self {
            StandardBlockType::Paragraph(_) => Ok(StandardBlockType::Paragraph(content_block)),
            StandardBlockType::H1(_) => Ok(StandardBlockType::H1(content_block)),
            StandardBlockType::H2(_) => Ok(StandardBlockType::H2(content_block)),
            StandardBlockType::H3(_) => Ok(StandardBlockType::H3(content_block)),
            StandardBlockType::TodoList(list_block) => Ok(
                StandardBlockType::TodoList(
                    ListBlock { content: content_block, completed: list_block.completed },
                ),
            ),
            StandardBlockType::DotPointList(list_block) => Ok(
                StandardBlockType::DotPointList(
                    ListBlock { content: content_block, completed: list_block.completed },
                ),
            ),
            StandardBlockType::NumberedList(list_block) => Ok(
                StandardBlockType::NumberedList(
                    ListBlock { content: content_block, completed: list_block.completed },
                ),
            ),
            StandardBlockType::ArrowList(list_block) => Ok(
                StandardBlockType::ArrowList(
                    ListBlock { content: content_block, completed: list_block.completed },
                ),
            ),
            _ => Err(step_error_msg("Block does not have a content block")),
        }
    }

    /// The same type with `new_inline_blocks` appended to its inline blocks.
    pub fn push_to_content(self, new_inline_blocks: Vec<String>) -> (r: Result<Self, StepError>)
        ensures
            r matches Ok(t) ==> t@ == self@.with_inline_blocks(
                self@.inline_blocks + ids_view(new_inline_blocks@),
            ),
            r is Err <==> !self@.has_content(),
    {
        let ids = match self.content_block() {
            Ok(c) => {
                let mut ids = copy_ids(&c.inline_blocks);
                let mut more = new_inline_blocks;
                let ghost before = ids@;
                ids.append(&mut more);
                proof {
                    assert(ids_view(ids@) =~= ids_view(before) + ids_view(new_inline_blocks@));
                }
                ids
            },
            Err(e) => return Err(e),
        };
        self.update_block_content(ContentBlock { inline_blocks: ids })
    }

    pub fn _type_as_string(&self) -> (r: Result<String, StepError>)
        ensures
            r matches Ok(s) && s@ == kind_name(self@.kind),
    {
        let name = match self {
            StandardBlockType::Paragraph(_) => "paragraph",
            StandardBlockType::H1(_) => "h1",
            StandardBlockType::H2(_) => "h2",
            StandardBlockType::H3(_) => "h3",
            StandardBlockType::TodoList(_) => "to-do list",
            StandardBlockType::DotPointList(_) => "dotpoint list",
            StandardBlockType::NumberedList(_) => "numbered list",
            StandardBlockType::ArrowList(_) => "arrow list",
            StandardBlockType::Layout(_) => "layout",
            StandardBlockType::InlinePage(_) => "inline page",
            StandardBlockType::SquarePage(_) => "square page",
            StandardBlockType::LinkBlock(_) => "link page",
        };
        Ok(String::from_str(name))
    }
}

/// What a standard block holds.
pub struct StandardBlockView {
    pub id: Seq<char>,
    pub content: StandardBlockTypeView,
    pub children: Seq<Seq<char>>,
    pub parent: Seq<char>,
    pub marks: Seq<Mark>,
}

impl StandardBlockView {
    pub open spec fn inline_blocks(self) -> Seq<Seq<char>> {
        self.content.inline_blocks
    }

    pub open spec fn has_content(self) -> bool {
        self.content.has_content()
    }

    pub open spec fn with_inline_blocks(self, ids: Seq<Seq<char>>) -> StandardBlockView {
        StandardBlockView { content: self.content.with_inline_blocks(ids), ..self }
    }

    pub open spec fn with_children(self, children: Seq<Seq<char>>) -> StandardBlockView {
        StandardBlockView { children, ..self }
    }

    pub open spec fn with_parent(self, parent: Seq<char>) -> StandardBlockView {
        StandardBlockView { parent, ..self }
    }

    pub open spec fn with_content(self, content: StandardBlockTypeView) -> StandardBlockView {
        StandardBlockView { content, ..self }
    }
}

#[derive(Debug, PartialEq, Clone)]
pub struct StandardBlock {
    pub _id: String,
    pub content: StandardBlockType,
    pub children: Vec<String>,  //Vec<StandardBlock>
    pub parent: String,  //StandardBlock
    pub marks: Vec<Mark>,
}

impl View for StandardBlock {
    type V = StandardBlockView;

    open spec fn view(&self) -> StandardBlockView {
        StandardBlockView {
            id: self._id@,
            content: self.content@,
            children: ids_view(self.children@),
            parent: self.parent@,
            marks: self.marks@,
        }
    }
}

impl StandardBlock {
    /// A copy of the block.
    pub fn copy(&self) -> (b: Self)
        ensures
            b@ == self@,
    {
        StandardBlock {
            _id: self._id.clone(),
            content: self.content.copy(),
            children: copy_ids(&self.children),
            parent: self.parent.clone(),
            marks: copy_marks(&self.marks),
        }
    }

    pub fn id(&self) -> (id: String)
        ensures
            id@ == self@.id,
    {
        return self._id.clone()
    }

    pub fn parent(&self) -> (p: String)
        ensures
            p@ == self@.parent,
    {
        return self.parent.clone()
    }

    /// A new block of type `content` under `parent`, with the next fresh id,
    /// no children and no marks.
    pub fn from(content: StandardBlockType, parent: String, new_ids: &mut NewIds) -> (r: Result<
        Self,
        StepError,
    >)
        ensures
            old(new_ids).ids().len() == 0 ==> r is Err && final(new_ids).ids() == old(
                new_ids,
            ).ids(),
            old(new_ids).ids().len() > 0 ==> final(new_ids).ids() == old(new_ids).ids().drop_last()
                && (r matches Ok(b) && b@ == (StandardBlockView {
                id: old(new_ids).ids().last()@,
                content: content@,
                children: Seq::empty(),
                parent: parent@,
                marks: Seq::empty(),
            })),
    {
        let id = new_ids.get_id()?;
        let b = Self { _id: id, content, children: Vec::new(), parent, marks: Vec::new() };
        proof {
            assert(ids_view(b.children@) =~= Seq::<Seq<char>>::empty());
        }
        return Ok(b)
    }

    pub fn new_paragraph_block(
        _id: String,
        inline_blocks: Vec<String>,
        marks: Vec<Mark>,
        children: Vec<String>,
        parent: String,
    ) -> (b: Self)
        ensures
            b@ == (StandardBlockView {
                id: _id@,
                content: StandardBlockTypeView::empty_of_kind(
                    StandardBlockKind::Paragraph,
                ).with_inline_blocks(ids_view(inline_blocks@)),
                children: ids_view(children@),
                parent: parent@,
                marks: marks@,
            }),
    {
        StandardBlock {
            _id,
            content: StandardBlockType::Paragraph(ContentBlock::new(inline_blocks)),
            parent,
            children,
            marks,
        }
    }

    /// A layout block: a row when `horizontal`, else a column.
    pub fn new_layout_block(_id: String, horizontal: bool, children: Vec<String>, parent: String) -> (r:
        Result<Self, StepError>)
        ensures
            r matches Ok(b) && b@ == (StandardBlockView {
                id: _id@,
                content: StandardBlockTypeView {
                    horizontal,
                    ..StandardBlockTypeView::empty_of_kind(StandardBlockKind::Layout)
                },
                children: ids_view(children@),
                parent: parent@,
                marks: Seq::empty(),
            }),
    {
        Ok(StandardBlock {
            _id,
            content: StandardBlockType::Layout(LayoutBlock { horizontal }),
            children,
            parent,
            marks: Vec::new(),
        })
    }

    pub fn update_block_content(self, content_block: ContentBlock) -> (r: Result<Self, StepError>)
        ensures
            r matches Ok(b) ==> b@ == self@.with_inline_blocks(
                ids_view(content_block.inline_blocks@),
            ),
            r is Err <==> !self@.has_content(),
    {
        Ok(StandardBlock {
            _id: self._id,
            content: StandardBlockType::update_block_content(&self.content, content_block)?,
            parent: self.parent,
            children: self.children,
            marks: self.marks,
        })
    }

    pub fn has_content(&self) -> (r: bool)
        ensures
            r == self@.has_content(),
    {
        self.content.has_content()
    }

    pub fn content_block(&self) -> (r: Result<&ContentBlock, StepError>)
        ensures
            r matches Ok(c) ==> ids_view(c.inline_blocks@) == self@.inline_blocks(),
            r is Err <==> !self@.has_content(),
    {
        self.content.content_block()
    }

    pub fn inline_blocks_length(&self) -> (r: Result<usize, StepError>)
        ensures
            r matches Ok(n) ==> n == self@.inline_blocks().len(),
            r is Err <==> !self@.has_content(),
    {
        let content_block = self.content_block()?;
        Ok(content_block.inline_blocks.len())
    }

    /// The position of the inline block `id` among this block's inline blocks.
    pub fn index_of(&self, id: &str) -> (r: Result<usize, StepError>)
        ensures
            r matches Ok(i) ==> i == index_of_id(self@.inline_blocks(), id@),
            r is Err <==> !self@.has_content() || index_of_id(self@.inline_blocks(), id@) < 0,
    {
        let content_block = self.content_block()?;
        content_block.index_of(id)
    }

    /// The position of the child `id` among this block's children.
    pub fn index_of_child(&self, id: &str) -> (r: Result<usize, StepError>)
        ensures
            r matches Ok(i) ==> i == index_of_id(self@.children, id@),
            r is Err <==> index_of_id(self@.children, id@) < 0,
    {
        match position_of(&self.children, id) {
            Some(index) => Ok(index),
            None => Err(step_error_msg("Block not found")),
        }
    }

    pub fn get_inline_block_from_index(&self, index: usize) -> (r: Result<String, StepError>)
        requires
            self@.has_content() ==> index < self@.inline_blocks().len(),
        ensures
            r matches Ok(id) ==> id@ == self@.inline_blocks()[index as int],
            r is Err <==> !self@.has_content(),
    {
        let c = self.content_block()?;
        return Ok(c.inline_blocks[index].clone())
    }

    pub fn get_child_from_index(&self, index: usize) -> (r: Result<String, StepError>)
        ensures
            r matches Ok(id) ==> id@ == self@.children[index as int],
            r is Err <==> index >= self@.children.len(),
    {
        if index < self.children.len() {
            Ok(self.children[index].clone())
        } else {
            Err(step_error_msg("Block not found"))
        }
    }

    /// Keeps the inline blocks strictly between the two offsets.
    pub fn remove_blocks_between_offsets(self, from_offset: usize, to_offset: usize) -> (r: Result<
        Self,
        StepError,
    >)
        requires
            self@.has_content() ==> from_offset < to_offset <= self@.inline_blocks().len(),
        ensures
            r matches Ok(b) ==> b@ == self@.with_inline_blocks(
                self@.inline_blocks().subrange(from_offset + 1, to_offset as int),
            ),
            r is Err <==> !self@.has_content(),
    {
        let content_block = self.content_block()?;
        let mut new_inline_blocks: Vec<String> = Vec::new();
        let mut i = from_offset + 1;
        while i < to_offset
            invariant
                from_offset + 1 <= i <= to_offset <= content_block.inline_blocks@.len(),
                ids_view(new_inline_blocks@) == ids_view(content_block.inline_blocks@).subrange(
                    from_offset + 1,
                    i as int,
                ),
            decreases to_offset - i,
        {
            let ghost before = new_inline_blocks@;
            new_inline_blocks.push(content_block.inline_blocks[i].clone());
            proof {
                assert(ids_view(new_inline_blocks@) =~= ids_view(before).push(
                    content_block.inline_blocks@[i as int]@,
                ));
                assert(ids_view(content_block.inline_blocks@).subrange(from_offset + 1, i + 1)
                    =~= ids_view(content_block.inline_blocks@).subrange(from_offset + 1, i as int).push(
                    content_block.inline_blocks@[i as int]@,
                ));
            }
            i += 1;
        }
        return self.update_block_content(ContentBlock { inline_blocks: new_inline_blocks })
    }

    /// Splits the inline blocks at `index`: this block keeps those before it
    /// and loses its children; a new block of type `new_block_content` gets
    /// those from `index` on (after its own) and the children.
    pub fn split(self, index: usize, new_block_content: StandardBlockType, new_ids: &mut NewIds) -> (r:
        Result<(Self, Self), StepError>)
        requires
            self@.has_content() ==> index <= self@.inline_blocks().len(),
        ensures
            r is Ok <==> self@.has_content() && old(new_ids).ids().len() > 0
                && new_block_content@.has_content(),
            self@.has_content() && old(new_ids).ids().len() > 0 ==> final(new_ids).ids() == old(
                new_ids,
            ).ids().drop_last(),
            !(self@.has_content() && old(new_ids).ids().len() > 0) ==> final(new_ids).ids() == old(
                new_ids,
            ).ids(),
            r matches Ok((a, b)) ==> a@ == self@.with_inline_blocks(
                self@.inline_blocks().take(index as int),
            ).with_children(Seq::empty()) && b@ == (StandardBlockView {
                id: old(new_ids).ids().last()@,
                content: new_block_content@.with_inline_blocks(
                    new_block_content@.inline_blocks + self@.inline_blocks().skip(index as int),
                ),
                children: self@.children,
                parent: self@.parent,
                marks: Seq::empty(),
            }),
    {
        let c = self.content_block()?;
        let mut first_half = copy_ids(&c.inline_blocks);
        let second_half = first_half.split_off(index);
        proof {
            assert(ids_view(first_half@) =~= self@.inline_blocks().take(index as int));
            assert(ids_view(second_half@) =~= self@.inline_blocks().skip(index as int));
        }
        let parent = self.parent.clone();
        let children = self.children;
        let updated = StandardBlock {
            _id: self._id,
            content: self.content.update_block_content(ContentBlock { inline_blocks: first_half })?,
            children: Vec::new(),
            parent: self.parent,
            marks: self.marks,
        };
        let new_block = StandardBlock::from(new_block_content, parent, new_ids)?;
        let new_block = new_block.push_to_content(second_half)?;
        let new_block = StandardBlock { children, ..new_block };
        proof {
            assert(ids_view(updated.children@) =~= Seq::<Seq<char>>::empty());
        }
        return Ok((updated, new_block))
    }

    fn push_to_content(self, new_inline_blocks: Vec<String>) -> (r: Result<Self, StepError>)
        ensures
            r matches Ok(b) ==> b@ == self@.with_inline_blocks(
                self@.inline_blocks() + ids_view(new_inline_blocks@),
            ),
            r is Err <==> !self@.has_content(),
    {
        let content = self.content.push_to_content(new_inline_blocks)?;
        return Ok(StandardBlock { content, ..self })
    }

    pub fn is_list(&self) -> (r: bool)
        ensures
            r == kind_is_list(self@.content.kind),
    {
        return match self.content {
            StandardBlockType::TodoList(_) | StandardBlockType::DotPointList(_)
            | StandardBlockType::ArrowList(_) | StandardBlockType::NumberedList(_) => true,
            _ => false,
        }
    }
}

/// The name that the editor's menus (the slash command and the turn-into
/// command) give a kind: "heading 1" to "heading 3" for headings, else its
/// `_type` name.
pub open spec fn menu_name(k: StandardBlockKind) -> Seq<char> {
    match k {
        StandardBlockKind::H1 => "heading 1"@,
        StandardBlockKind::H2 => "heading 2"@,
        StandardBlockKind::H3 => "heading 3"@,
        _ => kind_name(k),
    }
}

/// Two texts that differ at one position differ.
pub proof fn lemma_differ_at(a: Seq<char>, b: Seq<char>, i: int)
    requires
        0 <= i < a.len(),
        i < b.len(),
        a[i] != b[i],
    ensures
        a != b,
{
}

/// The `_type` name of each kind.
pub open spec fn kind_name(k: StandardBlockKind) -> Seq<char> {
    match k {
        StandardBlockKind::Paragraph => "paragraph"@,
        StandardBlockKind::H1 => "h1"@,
        StandardBlockKind::H2 => "h2"@,
        StandardBlockKind::H3 => "h3"@,
        StandardBlockKind::TodoList => "to-do list"@,
        StandardBlockKind::DotPointList => "dotpoint list"@,
        StandardBlockKind::NumberedList => "numbered list"@,
        StandardBlockKind::ArrowList => "arrow list"@,
        StandardBlockKind::Layout => "layout"@,
        StandardBlockKind::InlinePage => "inline page"@,
        StandardBlockKind::SquarePage => "square page"@,
        StandardBlockKind::LinkBlock => "link page"@,
    }
}

} // verus!
