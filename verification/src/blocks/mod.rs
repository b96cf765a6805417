use vstd::prelude::*;

use crate::blocks::inline_blocks::{InlineBlock, InlineBlockView, copy_marks};
use crate::blocks::standard_blocks::{StandardBlock, StandardBlockView};
use crate::mark::Mark;
use crate::steps_generator::{StepError, step_error, step_error_msg};
use crate::text::str_eq;

pub mod inline_blocks;
pub mod standard_blocks;
pub mod tree;

verus! {

/// The ids that a vector of ids holds.
pub open spec fn ids_view(v: Seq<String>) -> Seq<Seq<char>> {
    v.map_values(|s: String| s@)
}

/// `new` starts with the ids of `old`.
pub open spec fn extends(old: Seq<String>, new: Seq<String>) -> bool {
    old.len() <= new.len() && forall|i: int| 0 <= i < old.len() ==> #[trigger] new[i]@ == old[i]@
}

/// A copy of a vector of ids.
pub fn copy_ids(v: &Vec<String>) -> (r: Vec<String>)
    ensures
        ids_view(r@) == ids_view(v@),
{
    let mut out: Vec<String> = Vec::new();
    let mut i: usize = 0;
    while i < v.len()
        invariant
            i <= v@.len(),
            ids_view(out@) == ids_view(v@.take(i as int)),
        decreases v@.len() - i,
    {
        proof {
            assert(v@.take(i + 1) =~= v@.take(i as int).push(v@[i as int]));
        }
        let s = v[i].clone();
        let ghost before = out@;
        out.push(s);
        proof {
            assert(ids_view(out@) =~= ids_view(before).push(s@));
            assert(ids_view(v@.take(i + 1)) =~= ids_view(v@.take(i as int)).push(v@[i as int]@));
        }
        i += 1;
    }
    proof {
        assert(v@.take(v@.len() as int) =~= v@);
    }
    out
}

/// The first position of `id` in `s`, or -1 where it does not occur.
pub open spec fn index_of_id(s: Seq<Seq<char>>, id: Seq<char>) -> int
    decreases s.len(),
{
    if s.len() == 0 {
        -1
    } else {
        let k = index_of_id(s.drop_last(), id);
        if k >= 0 {
            k
        } else if s.last() == id {
            s.len() - 1
        } else {
            -1
        }
    }
}

/// `index_of_id` gives the first occurrence, and -1 exactly where there is none.
pub proof fn lemma_index_of_id(s: Seq<Seq<char>>, id: Seq<char>)
    ensures
        index_of_id(s, id) < s.len(),
        index_of_id(s, id) >= 0 ==> s[index_of_id(s, id)] == id,
        forall|j: int| 0 <= j < s.len() && (index_of_id(s, id) < 0 || j < index_of_id(s, id))
            ==> s[j] != id,
        index_of_id(s, id) >= -1,
    decreases s.len(),
{
    if s.len() > 0 {
        lemma_index_of_id(s.drop_last(), id);
        assert forall|j: int| 0 <= j < s.len() - 1 implies s.drop_last()[j] == s[j] by {}
    }
}

/// A position with `id` before which `id` does not occur is `index_of_id`.
pub proof fn lemma_index_of_id_first(s: Seq<Seq<char>>, id: Seq<char>, i: int)
    requires
        0 <= i < s.len(),
        s[i] == id,
        forall|j: int| 0 <= j < i ==> s[j] != id,
    ensures
        index_of_id(s, id) == i,
    decreases s.len(),
{
    lemma_index_of_id(s, id);
    if i < s.len() - 1 {
        lemma_index_of_id_first(s.drop_last(), id, i);
    } else {
        lemma_index_of_id(s.drop_last(), id);
    }
}

/// `index_of_id` of a sequence without `id` is -1.
pub proof fn lemma_index_of_id_absent(s: Seq<Seq<char>>, id: Seq<char>)
    requires
        forall|j: int| 0 <= j < s.len() ==> s[j] != id,
    ensures
        index_of_id(s, id) == -1,
    decreases s.len(),
{
    if s.len() > 0 {
        lemma_index_of_id_absent(s.drop_last(), id);
    }
}

/// The first position of `id` in `v`.
pub fn position_of(v: &Vec<String>, id: &str) -> (r: Option<usize>)
    ensures
        r matches Some(i) ==> i == index_of_id(ids_view(v@), id@),
        r is None <==> index_of_id(ids_view(v@), id@) < 0,
{
    let ghost s = ids_view(v@);
    let mut i: usize = 0;
    while i < v.len()
        invariant
            i <= v@.len(),
            s == ids_view(v@),
            forall|j: int| 0 <= j < i ==> s[j] != id@,
        decreases v@.len() - i,
    {
        if str_eq(v[i].as_str(), id) {
            proof {
                lemma_index_of_id_first(s, id@, i as int);
            }
            return Some(i);
        }
        i += 1;
    }
    proof {
        lemma_index_of_id_absent(s, id@);
    }
    None
}


/// What a root block holds: its id and the ids of its children.
pub struct RootBlockView {
    pub id: Seq<char>,
    pub children: Seq<Seq<char>>,
}

#[derive(Debug, PartialEq, Clone)]
pub struct RootBlock {
    pub _id: String,
    pub children: Vec<String>,
}

impl View for RootBlock {
    type V = RootBlockView;

    open spec fn view(&self) -> RootBlockView {
        RootBlockView { id: self._id@, children: ids_view(self.children@) }
    }
}

impl RootBlock {
    pub fn from(_id: String, children: Vec<String>) -> (r: Self)
        ensures
            r@ == (RootBlockView { id: _id@, children: ids_view(children@) }),
    {
        Self { _id, children }
    }

    pub fn copy(&self) -> (r: Self)
        ensures
            r@ == self@,
    {
        Self { _id: self._id.clone(), children: copy_ids(&self.children) }
    }

    pub fn id(&self) -> (id: String)
        ensures
            id@ == self@.id,
    {
        return self._id.clone()
    }

    pub fn index_of_child(&self, child_id: &str) -> (r: Result<usize, StepError>)
        ensures
            r matches Ok(i) ==> i == index_of_id(self@.children, child_id@),
            r is Err <==> index_of_id(self@.children, child_id@) < 0,
            r is Err ==> r->Err_0.0@ == "Child not found"@,
    {
        match position_of(&self.children, child_id) {
            Some(index) => Ok(index),
            None => Err(step_error_msg("Child not found")),
        }
    }

    pub fn get_child_from_index(&self, index: usize) -> (r: Result<String, StepError>)
        ensures
            r matches Ok(id) ==> id@ == self@.children[index as int],
            r is Err <==> index >= self@.children.len(),
    {
        if index < self.children.len() {
            Ok(self.children[index].clone())
        } else {
            Err(step_error_msg("Block not found"))
        }
    }
}

/// What a block holds.
pub enum BlockView {
    Standard(StandardBlockView),
    Inline(InlineBlockView),
    Root(RootBlockView),
}

impl BlockView {
    pub open spec fn id(self) -> Seq<char> {
        match self {
            BlockView::Standard(b) => b.id,
            BlockView::Inline(b) => b.id,
            BlockView::Root(b) => b.id,
        }
    }

    /// The children of a standard or root block.
    pub open spec fn children(self) -> Seq<Seq<char>> {
        match self {
            BlockView::Standard(b) => b.children,
            BlockView::Inline(_) => Seq::empty(),
            BlockView::Root(b) => b.children,
        }
    }

    pub open spec fn has_children(self) -> bool {
        !(self is Inline)
    }

    /// The same block with other children (an inline block stays as it is).
    pub open spec fn with_children(self, children: Seq<Seq<char>>) -> BlockView {
        match self {
            BlockView::Standard(b) => BlockView::Standard(b.with_children(children)),
            BlockView::Inline(b) => BlockView::Inline(b),
            BlockView::Root(b) => BlockView::Root(RootBlockView { children, ..b }),
        }
    }

    pub open spec fn parent(self) -> Seq<char> {
        match self {
            BlockView::Standard(b) => b.parent,
            BlockView::Inline(b) => b.parent,
            BlockView::Root(_) => Seq::empty(),
        }
    }
}

#[derive(Debug, PartialEq, Clone)]
pub enum Block {
    StandardBlock(StandardBlock),
    InlineBlock(InlineBlock),
    Root(RootBlock),
}

impl View for Block {
    type V = BlockView;

    open spec fn view(&self) -> BlockView {
        match self {
            Block::StandardBlock(b) => BlockView::Standard(b@),
            Block::InlineBlock(b) => BlockView::Inline(b@),
            Block::Root(b) => BlockView::Root(b@),
        }
    }
}

impl Block {
    pub fn copy(&self) -> (b: Self)
        ensures
            b@ == self@,
    {
        match self {
            Block::StandardBlock(b) => Block::StandardBlock(b.copy()),
            Block::InlineBlock(b) => Block::InlineBlock(b.copy()),
            Block::Root(b) => Block::Root(b.copy()),
        }
    }

    pub fn parent(&self) -> (r: Result<String, StepError>)
        ensures
            r matches Ok(p) ==> p@ == self@.parent(),
            r is Err <==> self@ is Root,
    {
        match self {
            Block::StandardBlock(block) => Ok(block.parent.clone()),
            Block::InlineBlock(block) => Ok(block.parent.clone()),
            Block::Root(_) => Err(step_error_msg("Root block does not have a parent")),
        }
    }

    pub fn id(&self) -> (id: String)
        ensures
            id@ == self@.id(),
    {
        match self {
            Block::StandardBlock(block) => block._id.clone(),
            Block::InlineBlock(block) => block._id.clone(),
            Block::Root(block) => block._id.clone(),
        }
    }

    pub fn id_ref(&self) -> (id: &String)
        ensures
            id@ == self@.id(),
    {
        match self {
            Block::StandardBlock(block) => &block._id,
            Block::InlineBlock(block) => &block._id,
            Block::Root(block) => &block._id,
        }
    }

    pub fn marks(&self) -> (r: Result<&Vec<Mark>, StepError>)
        ensures
            r matches Ok(m) ==> (self@ matches BlockView::Standard(b) && m@ == b.marks)
                || (self@ matches BlockView::Inline(b) && m@ == b.marks),
            r is Err <==> self@ is Root,
    {
        match self {
            Block::StandardBlock(block) => Ok(&block.marks),
            Block::InlineBlock(block) => Ok(&block.marks),
            Block::Root(_) => Err(step_error_msg("RootBlock does not have marks")),
        }
    }

    pub fn children(&self) -> (r: Result<&Vec<String>, StepError>)
        ensures
            r matches Ok(c) ==> ids_view(c@) == self@.children(),
            r is Err <==> self@ is Inline,
    {
        match self {
            Block::StandardBlock(block) => Ok(&block.children),
            Block::InlineBlock(_) => Err(step_error_msg("InlineBlock does not have children")),
            Block::Root(block) => Ok(&block.children),
        }
    }

    pub fn update_children(&mut self, children: Vec<String>) -> (r: Result<(), StepError>)
        ensures
            r is Err <==> old(self)@ is Inline,
            final(self)@ == old(self)@.with_children(ids_view(children@)),
    {
        self.set_children(children)
    }

    pub fn set_children(&mut self, new_children: Vec<String>) -> (r: Result<(), StepError>)
        ensures
            r is Err <==> old(self)@ is Inline,
            final(self)@ == old(self)@.with_children(ids_view(new_children@)),
    {
        match self {
            Self::StandardBlock(block) => block.children = new_children,
            Self::Root(block) => block.children = new_children,
            Self::InlineBlock(_) => return Err(step_error_msg("Inline blocks cannot have children.")),
        };
        return Ok(())
    }

    pub fn index_of_child(&self, id: &str) -> (r: Result<usize, StepError>)
        ensures
            r matches Ok(i) ==> i == index_of_id(self@.children(), id@),
            r is Err <==> self@ is Inline || index_of_id(self@.children(), id@) < 0,
    {
        match self {
            Block::StandardBlock(block) => block.index_of_child(id),
            Block::Root(block) => block.index_of_child(id),
            Block::InlineBlock(_) => Err(step_error_msg("InlineBlock does not have children")),
        }
    }

    pub fn get_child_from_index(&self, index: usize) -> (r: Result<String, StepError>)
        ensures
            r matches Ok(id) ==> id@ == self@.children()[index as int],
            r is Err <==> self@ is Inline || index >= self@.children().len(),
    {
        match self {
            Block::StandardBlock(block) => block.get_child_from_index(index),
            Block::Root(block) => block.get_child_from_index(index),
            Block::InlineBlock(_) => Err(step_error_msg("InlineBlock does not have children")),
        }
    }

    /// Replaces the children in `from..to` with `insert`.
    pub fn splice_children(&mut self, from: usize, to: usize, insert: Vec<String>) -> (r: Result<
        (),
        StepError,
    >)
        requires
            old(self)@.has_children() ==> from <= to <= old(self)@.children().len(),
        ensures
            r is Err <==> old(self)@ is Inline,
            final(self)@ == old(self)@.with_children(
                splice_spec(old(self)@.children(), from as int, to as int, ids_view(insert@)),
            ),
    {
        match self {
            Block::StandardBlock(block) => {
                splice_ids(&mut block.children, from, to, insert);
            },
            Block::Root(block) => {
                splice_ids(&mut block.children, from, to, insert);
            },
            Block::InlineBlock(_) => return Err(
                step_error_msg("InlineBlock does not have children"),
            ),
        };
        Ok(())
    }

    /// This block without its child `id`.
    pub fn remove_child_from_id(self, id: &str) -> (r: Result<Self, StepError>)
        ensures
            r is Err <==> self@ is Inline || index_of_id(self@.children(), id@) < 0,
            r matches Ok(b) ==> b@ == self@.with_children(
                self@.children().remove(index_of_id(self@.children(), id@)),
            ),
    {
        let mut block = self;
        let child_index = block.index_of_child(id)?;
        proof {
            lemma_index_of_id(block@.children(), id@);
        }
        let ghost old_children = block@.children();
        let n = block.children()?.len();
        assert(child_index < n);
        block.splice_children(child_index, child_index + 1, Vec::new())?;
        proof {
            assert(splice_spec(old_children, child_index as int, child_index + 1, ids_view(Seq::<String>::empty()))
                =~= old_children.remove(child_index as int));
        }
        return Ok(block)
    }

    pub fn insert_child(&mut self, child_id: String, index: usize) -> (r: Result<(), StepError>)
        requires
            old(self)@.has_children() ==> index <= old(self)@.children().len(),
        ensures
            r is Err <==> old(self)@ is Inline,
            final(self)@ == old(self)@.with_children(
                old(self)@.children().insert(index as int, child_id@),
            ),
    {
        match self {
            Self::StandardBlock(block) => {
                let ghost before = block.children@;
                block.children.insert(index, child_id);
                proof {
                    assert(ids_view(block.children@) =~= ids_view(before).insert(
                        index as int,
                        child_id@,
                    ));
                }
            },
            Self::Root(block) => {
                let ghost before = block.children@;
                block.children.insert(index, child_id);
                proof {
                    assert(ids_view(block.children@) =~= ids_view(before).insert(
                        index as int,
                        child_id@,
                    ));
                }
            },
            Self::InlineBlock(_) => return Err(
                step_error_msg("Inline blocks cannot have children.."),
            ),
        };
        return Ok(())
    }

    pub fn is_root(&self) -> (r: bool)
        ensures
            r == (self@ is Root),
    {
        match self {
            Self::Root(_) => true,
            _ => false,
        }
    }
}

/// `s` with the elements in `from..to` replaced by `insert`.
pub open spec fn splice_spec<T>(s: Seq<T>, from: int, to: int, insert: Seq<T>) -> Seq<T> {
    s.take(from) + insert + s.skip(to)
}

/// Replaces the ids in `from..to` with `insert`.
pub fn splice_ids(v: &mut Vec<String>, from: usize, to: usize, insert: Vec<String>)
    requires
        from <= to <= old(v)@.len(),
    ensures
        ids_view(final(v)@) == splice_spec(ids_view(old(v)@), from as int, to as int, ids_view(insert@)),
        final(v)@ == splice_spec(old(v)@, from as int, to as int, insert@),
{
    let mut ins = insert;
    let mut tail = v.split_off(to);
    v.truncate(from);
    v.append(&mut ins);
    v.append(&mut tail);
    proof {
        assert(v@ =~= splice_spec(old(v)@, from as int, to as int, insert@));
        assert(ids_view(v@) =~= splice_spec(ids_view(old(v)@), from as int, to as int, ids_view(insert@)));
    }
}


/// The blocks of a map, by id.
pub type BlockMapView = Map<Seq<char>, BlockView>;

/// The standard block `id` of the map, if there is one.
pub open spec fn std_block_of(m: BlockMapView, id: Seq<char>) -> Option<StandardBlockView> {
    if m.contains_key(id) && m[id] is Standard {
        Some(m[id]->Standard_0)
    } else {
        None
    }
}

/// The inline block `id` of the map, if there is one.
pub open spec fn inline_block_of(m: BlockMapView, id: Seq<char>) -> Option<InlineBlockView> {
    if m.contains_key(id) && m[id] is Inline {
        Some(m[id]->Inline_0)
    } else {
        None
    }
}

/// The root block `id` of the map, if there is one.
pub open spec fn root_block_of(m: BlockMapView, id: Seq<char>) -> Option<RootBlockView> {
    if m.contains_key(id) && m[id] is Root {
        Some(m[id]->Root_0)
    } else {
        None
    }
}

/// The map after writing each block of `bs` in turn.
pub open spec fn insert_blocks(m: BlockMapView, bs: Seq<BlockView>) -> BlockMapView
    decreases bs.len(),
{
    if bs.len() == 0 {
        m
    } else {
        insert_blocks(m, bs.drop_last()).insert(bs.last().id(), bs.last())
    }
}

/// The ids of a sequence of blocks.
pub open spec fn block_ids(bs: Seq<BlockView>) -> Seq<Seq<char>> {
    bs.map_values(|b: BlockView| b.id())
}

/// The blocks of a document by id. No two blocks share an id.
pub struct BlockMap {
    blocks: Vec<Block>,
}

impl View for BlockMap {
    type V = BlockMapView;

    closed spec fn view(&self) -> BlockMapView {
        Map::new(
            |k: Seq<char>| exists|i: int| 0 <= i < self.blocks@.len() && self.blocks@[i]@.id() == k,
            |k: Seq<char>|
                self.blocks@[choose|i: int|
                    0 <= i < self.blocks@.len() && self.blocks@[i]@.id() == k]@,
        )
    }
}

impl BlockMap {
    #[verifier::type_invariant]
    closed spec fn ids_unique(&self) -> bool {
        forall|i: int, j: int|
            0 <= i < self.blocks@.len() && 0 <= j < self.blocks@.len() && i != j
                ==> #[trigger] self.blocks@[i]@.id() != #[trigger] self.blocks@[j]@.id()
    }

    proof fn lemma_at(&self, i: int)
        requires
            self.ids_unique(),
            0 <= i < self.blocks@.len(),
        ensures
            self@.contains_key(self.blocks@[i]@.id()),
            self@[self.blocks@[i]@.id()] == self.blocks@[i]@,
    {
        let k = self.blocks@[i]@.id();
        assert(exists|j: int| 0 <= j < self.blocks@.len() && self.blocks@[j]@.id() == k);
        let c = choose|j: int| 0 <= j < self.blocks@.len() && self.blocks@[j]@.id() == k;
        assert(c == i);
    }

    /// Each block of the map is stored under its own id.
    pub proof fn lemma_keys_are_ids(&self)
        ensures
            forall|k: Seq<char>| #[trigger] self@.contains_key(k) ==> self@[k].id() == k,
    {
        assert forall|k: Seq<char>| #[trigger] self@.contains_key(k) implies self@[k].id() == k by {
            let c = choose|j: int| 0 <= j < self.blocks@.len() && self.blocks@[j]@.id() == k;
        }
    }

    /// A copy of the map.
    pub fn copy(&self) -> (m: Self)
        ensures
            m@ == self@,
    {
        proof {
            use_type_invariant(self);
        }
        let mut blocks: Vec<Block> = Vec::new();
        let mut i: usize = 0;
        while i < self.blocks.len()
            invariant
                i <= self.blocks@.len(),
                blocks@.len() == i,
                forall|j: int| 0 <= j < i ==> #[trigger] blocks@[j]@ == self.blocks@[j]@,
            decreases self.blocks@.len() - i,
        {
            blocks.push(self.blocks[i].copy());
            i += 1;
        }
        let m = BlockMap { blocks };
        proof {
            assert(m.blocks@.len() == self.blocks@.len());
            assert forall|k: Seq<char>| #[trigger] m@.contains_key(k) == self@.contains_key(k) by {
                if m@.contains_key(k) {
                    let j = choose|j: int| 0 <= j < m.blocks@.len() && m.blocks@[j]@.id() == k;
                    assert(self.blocks@[j]@.id() == k);
                }
                if self@.contains_key(k) {
                    let j = choose|j: int| 0 <= j < self.blocks@.len() && self.blocks@[j]@.id() == k;
                    assert(m.blocks@[j]@.id() == k);
                }
            }
            assert forall|k: Seq<char>| #[trigger] m@.contains_key(k) implies m@[k] == self@[k] by {
                let j = choose|j: int| 0 <= j < m.blocks@.len() && m.blocks@[j]@.id() == k;
                let j2 = choose|j2: int| 0 <= j2 < self.blocks@.len() && self.blocks@[j2]@.id() == k;
                assert(self.blocks@[j]@.id() == k);
                assert(j == j2);
            }
            assert(m@ =~= self@);
        }
        m
    }

    /// Copies of all the blocks of the map, each once.
    pub fn blocks(&self) -> (v: Vec<Block>)
        ensures
            forall|i: int| 0 <= i < v@.len() ==> self@.contains_key(#[trigger] v@[i]@.id()) && self@[v@[i]@.id()] == v@[i]@,
            forall|k: Seq<char>| #[trigger] self@.contains_key(k) ==> exists|i: int| 0 <= i < v@.len() && v@[i]@.id() == k,
            forall|i: int, j: int| 0 <= i < v@.len() && 0 <= j < v@.len() && i != j ==> #[trigger] v@[i]@.id() != #[trigger] v@[j]@.id(),
    {
        proof {
            use_type_invariant(self);
        }
        let mut v: Vec<Block> = Vec::new();
        let mut i: usize = 0;
        while i < self.blocks.len()
            invariant
                i <= self.blocks@.len(),
                self.ids_unique(),
                v@.len() == i,
                forall|j: int| 0 <= j < i ==> #[trigger] v@[j]@ == self.blocks@[j]@,
            decreases self.blocks@.len() - i,
        {
            v.push(self.blocks[i].copy());
            i += 1;
        }
        proof {
            assert forall|j: int| 0 <= j < v@.len() implies self@.contains_key(#[trigger] v@[j]@.id()) && self@[v@[j]@.id()]
                == v@[j]@ by {
                self.lemma_at(j);
            }
            assert forall|k: Seq<char>| #[trigger] self@.contains_key(k) implies exists|j: int|
                0 <= j < v@.len() && v@[j]@.id() == k by {
                let j = choose|j: int| 0 <= j < self.blocks@.len() && self.blocks@[j]@.id() == k;
                assert(v@[j]@.id() == k);
            }
        }
        v
    }

    /// How many blocks the map holds.
    pub(crate) fn block_count(&self) -> (n: usize)
        ensures
            n == self@.dom().len(),
    {
        proof {
            use_type_invariant(self);
            let ids = self.blocks@.map_values(|b: Block| b@.id());
            assert(ids.no_duplicates()) by {
                assert forall|i: int, j: int| 0 <= i < ids.len() && 0 <= j < ids.len() && i != j implies ids[i] != ids[j] by {
                    assert(self.blocks@[i]@.id() != self.blocks@[j]@.id());
                }
            }
            assert(ids.to_set() =~= self@.dom()) by {
                assert forall|k: Seq<char>| ids.to_set().contains(k) implies self@.dom().contains(k) by {
                    let i = choose|i: int| 0 <= i < ids.len() && ids[i] == k;
                    assert(self.blocks@[i]@.id() == k);
                }
                assert forall|k: Seq<char>| self@.dom().contains(k) implies ids.to_set().contains(k) by {
                    let i = choose|i: int| 0 <= i < self.blocks@.len() && self.blocks@[i]@.id() == k;
                    assert(ids[i] == k);
                }
            }
            ids.unique_seq_to_set();
        }
        self.blocks.len()
    }

    pub fn new() -> (m: Self)
        ensures
            m@ == Map::<Seq<char>, BlockView>::empty(),
    {
        let m = BlockMap { blocks: Vec::new() };
        proof {
            assert(m@ =~= Map::<Seq<char>, BlockView>::empty());
        }
        m
    }

    /// The position of block `id` in the store.
    fn find(&self, id: &str) -> (r: Option<usize>)
        ensures
            r matches Some(i) ==> i < self.blocks@.len() && self.blocks@[i as int]@.id() == id@
                && self@.contains_key(id@) && self@[id@] == self.blocks@[i as int]@,
            r is None ==> !self@.contains_key(id@),
    {
        proof {
            use_type_invariant(self);
        }
        let mut i: usize = 0;
        while i < self.blocks.len()
            invariant
                i <= self.blocks@.len(),
                self.ids_unique(),
                forall|j: int| 0 <= j < i ==> self.blocks@[j]@.id() != id@,
            decreases self.blocks@.len() - i,
        {
            if str_eq(self.blocks[i].id_ref().as_str(), id) {
                proof {
                    self.lemma_at(i as int);
                }
                return Some(i);
            }
            i += 1;
        }
        None
    }

    pub fn contains(&self, key: &str) -> (r: bool)
        ensures
            r == self@.contains_key(key@),
    {
        self.find(key).is_some()
    }

    pub fn get_block(&self, id: &str) -> (r: Result<Block, StepError>)
        ensures
            self@.contains_key(id@) ==> (r matches Ok(b) && b@ == self@[id@]),
            !self@.contains_key(id@) ==> r is Err,
    {
        match self.find(id) {
            Some(i) => Ok(self.blocks[i].copy()),
            None => Err(step_error("Block does not exist. Id: ", id)),
        }
    }

    pub fn get_standard_block(&self, id: &str) -> (r: Result<StandardBlock, StepError>)
        ensures
            r matches Ok(b) ==> std_block_of(self@, id@) == Some(b@),
            r is Err <==> std_block_of(self@, id@) is None,
    {
        let block = self.get_block(id)?;
        match block {
            Block::StandardBlock(block) => Ok(block),
            Block::InlineBlock(_) => Err(
                step_error("Block is an inline block, not a standard block. Id: ", id),
            ),
            Block::Root(_) => Err(step_error("Block is a root block, not a standard block. Id: ", id)),
        }
    }

    pub fn get_inline_block(&self, id: &str) -> (r: Result<InlineBlock, StepError>)
        ensures
            r matches Ok(b) ==> inline_block_of(self@, id@) == Some(b@),
            r is Err <==> inline_block_of(self@, id@) is None,
    {
        let block = self.get_block(id)?;
        match block {
            Block::StandardBlock(_) => Err(
                step_error("Block is a standard block, not an inline block. Id: ", id),
            ),
            Block::InlineBlock(block) => Ok(block),
            Block::Root(_) => Err(step_error("Block is a root block, not an inline block. Id: ", id)),
        }
    }

    pub fn get_root_block(&self, id: &str) -> (r: Result<RootBlock, StepError>)
        ensures
            r matches Ok(b) ==> root_block_of(self@, id@) == Some(b@),
            r is Err <==> root_block_of(self@, id@) is None,
    {
        let block = self.get_block(id)?;
        match block {
            Block::StandardBlock(_) => Err(
                step_error("Block is a standard block, not a root block. Id: ", id),
            ),
            Block::InlineBlock(_) => Err(step_error("Block is an inline block, not a root block. Id: ", id)),
            Block::Root(block) => Ok(block),
        }
    }

    /// Writes `block` under its id, and records the id in `blocks_to_update`.
    /// Returns the block it replaced.
    pub fn update_block(&mut self, block: Block, blocks_to_update: &mut Vec<String>) -> (r: Result<
        Option<Block>,
        StepError,
    >)
        ensures
            final(self)@ == old(self)@.insert(block@.id(), block@),
            ids_view(final(blocks_to_update)@) == ids_view(old(blocks_to_update)@).push(block@.id()),
            final(blocks_to_update)@ == old(blocks_to_update)@.push(final(blocks_to_update)@.last()),
            r matches Ok(prev) && (old(self)@.contains_key(block@.id()) ==> (prev matches Some(p)
                && p@ == old(self)@[block@.id()])) && (!old(self)@.contains_key(block@.id())
                ==> prev is None),
    {
        proof {
            use_type_invariant(&*self);
        }
        let id = block.id();
        let ghost bt = blocks_to_update@;
        blocks_to_update.push(block.id());
        proof {
            assert(ids_view(blocks_to_update@) =~= ids_view(bt).push(block@.id()));
        }
        let ghost old_map = self@;
        let ghost old_blocks = self.blocks@;
        match self.find(id.as_str()) {
            Some(i) => {
                let prev = self.blocks[i].copy();
                let ghost bb = block;
                let ghost bv = block@;
                let mut blocks: Vec<Block> = Vec::new();
                std::mem::swap(&mut blocks, &mut self.blocks);
                blocks.set(i, block);
                self.blocks = blocks;
                proof {
                    assert(self.blocks@ == old_blocks.update(i as int, bb));
                    assert forall|k: Seq<char>|
                        #![auto]
                        self@.contains_key(k) == old_map.insert(bv.id(), bv).contains_key(k) by {
                        if self@.contains_key(k) {
                            let j = choose|j: int| 0 <= j < self.blocks@.len() && self.blocks@[j]@.id() == k;
                            if j != i {
                                assert(old_blocks[j]@.id() == k);
                            }
                        }
                        if old_map.contains_key(k) && k != bv.id() {
                            let j = choose|j: int| 0 <= j < old_blocks.len() && old_blocks[j]@.id() == k;
                            assert(self.blocks@[j]@.id() == k);
                        }
                        if k == bv.id() {
                            assert(self.blocks@[i as int]@.id() == k);
                        }
                    }
                    assert(self.ids_unique());
                    assert forall|k: Seq<char>| #[trigger] self@.contains_key(k) implies self@[k]
                        == old_map.insert(bv.id(), bv)[k] by {
                        let j = choose|j: int| 0 <= j < self.blocks@.len() && self.blocks@[j]@.id() == k;
                        self.lemma_at(j);
                        if j != i {
                            assert(old_blocks[j]@.id() == k);
                            let oj = choose|oj: int| 0 <= oj < old_blocks.len() && old_blocks[oj]@.id() == k;
                            assert(oj == j);
                        }
                    }
                    assert(self@ =~= old_map.insert(bv.id(), bv));
                }
                Ok(Some(prev))
            },
            None => {
                let ghost bb = block;
                let ghost bv = block@;
                let mut blocks: Vec<Block> = Vec::new();
                std::mem::swap(&mut blocks, &mut self.blocks);
                blocks.push(block);
                self.blocks = blocks;
                proof {
                    assert(self.blocks@ == old_blocks.push(bb));
                    assert forall|k: Seq<char>|
                        #![auto]
                        self@.contains_key(k) == old_map.insert(bv.id(), bv).contains_key(k) by {
                        if self@.contains_key(k) {
                            let j = choose|j: int| 0 <= j < self.blocks@.len() && self.blocks@[j]@.id() == k;
                            if j < old_blocks.len() {
                                assert(old_blocks[j]@.id() == k);
                            }
                        }
                        if old_map.contains_key(k) {
                            let j = choose|j: int| 0 <= j < old_blocks.len() && old_blocks[j]@.id() == k;
                            assert(self.blocks@[j]@.id() == k);
                        }
                        if k == bv.id() {
                            assert(self.blocks@[old_blocks.len() as int]@.id() == k);
                        }
                    }
                    assert forall|a: int, b: int|
                        0 <= a < self.blocks@.len() && 0 <= b < self.blocks@.len() && a != b
                            implies #[trigger] self.blocks@[a]@.id() != #[trigger] self.blocks@[b]@.id() by {
                        if a == old_blocks.len() {
                            assert(old_map.contains_key(self.blocks@[b]@.id()));
                        } else if b == old_blocks.len() {
                            assert(old_map.contains_key(self.blocks@[a]@.id()));
                        }
                    }
                    assert forall|k: Seq<char>| #[trigger] self@.contains_key(k) implies self@[k]
                        == old_map.insert(bv.id(), bv)[k] by {
                        let j = choose|j: int| 0 <= j < self.blocks@.len() && self.blocks@[j]@.id() == k;
                        self.lemma_at(j);
                        if j < old_blocks.len() {
                            assert(old_blocks[j]@.id() == k);
                            let oj = choose|oj: int| 0 <= oj < old_blocks.len() && old_blocks[oj]@.id() == k;
                            assert(oj == j);
                        }
                    }
                    assert(self@ =~= old_map.insert(bv.id(), bv));
                }
                Ok(None)
            },
        }
    }

    /// Writes each block in turn.
    pub fn update_blocks(&mut self, blocks: Vec<Block>, blocks_to_update: &mut Vec<String>) -> (r:
        Result<Vec<Option<Block>>, StepError>)
        ensures
            r is Ok,
            final(self)@ == insert_blocks(old(self)@, blocks@.map_values(|b: Block| b@)),
            ids_view(final(blocks_to_update)@) == ids_view(old(blocks_to_update)@) + block_ids(
                blocks@.map_values(|b: Block| b@),
            ),
    {
        let ghost bs = blocks@.map_values(|b: Block| b@);
        let ghost m0 = self@;
        let ghost bt0 = ids_view(blocks_to_update@);
        let mut return_values: Vec<Option<Block>> = Vec::new();
        let mut i: usize = 0;
        let mut blocks = blocks;
        let n = blocks.len();
        let mut rest: Vec<Block> = Vec::new();
        // take the blocks in order
        while blocks.len() > 0
            invariant
                blocks@.len() + rest@.len() == n,
                n == bs.len(),
                forall|j: int| 0 <= j < blocks@.len() ==> #[trigger] blocks@[j]@ == bs[j],
                forall|j: int| 0 <= j < rest@.len() ==> #[trigger] rest@[j]@ == bs[n - 1 - j],
            decreases blocks@.len(),
        {
            let b = blocks.pop().unwrap();
            rest.push(b);
        }
        while rest.len() > 0
            invariant
                i + rest@.len() == n,
                n == bs.len(),
                forall|j: int| 0 <= j < rest@.len() ==> #[trigger] rest@[j]@ == bs[n - 1 - j],
                self@ == insert_blocks(m0, bs.take(i as int)),
                ids_view(blocks_to_update@) == bt0 + block_ids(bs.take(i as int)),
            decreases rest@.len(),
        {
            let b = rest.pop().unwrap();
            proof {
                assert(b@ == bs[i as int]);
                assert(bs.take(i + 1).drop_last() =~= bs.take(i as int));
                assert(block_ids(bs.take(i + 1)) =~= block_ids(bs.take(i as int)).push(b@.id()));
            }
            let prev = self.update_block(b, blocks_to_update)?;
            return_values.push(prev);
            i += 1;
        }
        proof {
            assert(bs.take(n as int) =~= bs);
        }
        return Ok(return_values)
    }

    /// Removes block `id`, returning it.
    pub fn remove_block(&mut self, id: &str) -> (r: Result<Option<Block>, StepError>)
        ensures
            final(self)@ == old(self)@.remove(id@),
            r matches Ok(prev) && (old(self)@.contains_key(id@) ==> (prev matches Some(p) && p@
                == old(self)@[id@])) && (!old(self)@.contains_key(id@) ==> prev is None),
    {
        proof {
            use_type_invariant(&*self);
        }
        let ghost old_map = self@;
        let ghost old_blocks = self.blocks@;
        match self.find(id) {
            Some(i) => {
                let mut blocks: Vec<Block> = Vec::new();
                std::mem::swap(&mut blocks, &mut self.blocks);
                let removed = blocks.remove(i);
                self.blocks = blocks;
                proof {
                    assert(self.blocks@ == old_blocks.remove(i as int));
                    assert forall|a: int, b: int|
                        0 <= a < self.blocks@.len() && 0 <= b < self.blocks@.len() && a != b
                            implies #[trigger] self.blocks@[a]@.id() != #[trigger] self.blocks@[b]@.id() by {
                        let oa = if a < i { a } else { a + 1 };
                        let ob = if b < i { b } else { b + 1 };
                        assert(self.blocks@[a] == old_blocks[oa]);
                        assert(self.blocks@[b] == old_blocks[ob]);
                    }
                    assert forall|k: Seq<char>|
                        #![auto]
                        self@.contains_key(k) == old_map.remove(id@).contains_key(k) by {
                        if self@.contains_key(k) {
                            let j = choose|j: int| 0 <= j < self.blocks@.len() && self.blocks@[j]@.id() == k;
                            let oj = if j < i { j } else { j + 1 };
                            assert(old_blocks[oj]@.id() == k);
                            assert(oj != i);
                        }
                        if old_map.contains_key(k) && k != id@ {
                            let j = choose|j: int| 0 <= j < old_blocks.len() && old_blocks[j]@.id() == k;
                            assert(j != i);
                            let nj = if j < i { j } else { j - 1 };
                            assert(self.blocks@[nj]@.id() == k);
                        }
                    }
                    assert forall|k: Seq<char>| #[trigger] self@.contains_key(k) implies self@[k]
                        == old_map.remove(id@)[k] by {
                        let j = choose|j: int| 0 <= j < self.blocks@.len() && self.blocks@[j]@.id() == k;
                        self.lemma_at(j);
                        let oj = if j < i { j } else { j + 1 };
                        assert(old_blocks[oj]@.id() == k);
                        let c = choose|c: int| 0 <= c < old_blocks.len() && old_blocks[c]@.id() == k;
                        assert(c == oj);
                    }
                    assert(self@ =~= old_map.remove(id@));
                }
                Ok(Some(removed))
            },
            None => {
                proof {
                    assert(self@ =~= old_map.remove(id@));
                }
                Ok(None)
            },
        }
    }

    /// The standard block `id`, or the standard block that holds the inline
    /// block `id`.
    pub fn get_nearest_ancestor_standard_block_incl_self(&self, id: &str) -> (r: Result<
        StandardBlock,
        StepError,
    >)
        ensures
            r matches Ok(b) ==> nearest_standard(self@, id@) == Some(b@),
            r is Err <==> nearest_standard(self@, id@) is None,
    {
        let from_block = self.get_block(id)?;
        return match from_block {
            Block::StandardBlock(block) => Ok(block),
            Block::InlineBlock(block) => {
                let parent_block = self.get_block(block.parent.as_str())?;
                match parent_block {
                    Block::StandardBlock(block) => Ok(block),
                    _ => return Err(step_error_msg("Invalid block structure")),
                }
            },
            Block::Root(_) => return Err(step_error_msg("Cannot enter on root block")),
        }
    }

    /// The blocks with the given ids, in order.
    pub fn ids_to_blocks(&self, ids: &Vec<String>) -> (r: Result<Vec<Block>, StepError>)
        ensures
            r is Ok <==> forall|i: int| 0 <= i < ids@.len() ==> self@.contains_key(#[trigger] ids@[i]@),
            r matches Ok(bs) ==> bs@.len() == ids@.len() && forall|i: int|
                0 <= i < ids@.len() ==> #[trigger] bs@[i]@ == self@[ids@[i]@],
    {
        let mut out: Vec<Block> = Vec::new();
        let mut i: usize = 0;
        while i < ids.len()
            invariant
                i <= ids@.len(),
                out@.len() == i,
                forall|j: int| 0 <= j < i ==> self@.contains_key(#[trigger] ids@[j]@),
                forall|j: int| 0 <= j < i ==> #[trigger] out@[j]@ == self@[ids@[j]@],
            decreases ids@.len() - i,
        {
            let b = self.get_block(ids[i].as_str())?;
            out.push(b);
            i += 1;
        }
        Ok(out)
    }

    /// Whether `any_std_block_id` is the only child of the root and has no
    /// children.
    pub fn only_one_std_block(&self, any_std_block_id: &str) -> (r: Result<bool, StepError>)
        ensures
            r is Err <==> std_block_of(self@, any_std_block_id@) is None || !self@.contains_key(
                std_block_of(self@, any_std_block_id@)->0.parent,
            ),
            r matches Ok(v) ==> v == ({
                let b = std_block_of(self@, any_std_block_id@)->0;
                self@[b.parent] is Root && self@[b.parent].children().len() == 1
                    && b.children.len() == 0
            }),
    {
        let block = self.get_standard_block(any_std_block_id)?;
        let parent = self.get_block(block.parent.as_str())?;
        match parent {
            Block::Root(root_block) => {
                return Ok(root_block.children.len() == 1 && block.children.len() == 0)
            },
            _ => return Ok(false),
        }
    }

    /// Writes every block of `block_map_to_add` into this map.
    pub fn add_block_map(&mut self, block_map_to_add: BlockMap) -> (r: Result<(), StepError>)
        ensures
            r is Ok,
            final(self)@ == old(self)@.union_prefer_right(block_map_to_add@),
    {
        proof {
            use_type_invariant(&block_map_to_add);
        }
        let other = block_map_to_add;
        let ghost om = other@;
        let ghost m0 = self@;
        let mut i: usize = 0;
        while i < other.blocks.len()
            invariant
                i <= other.blocks@.len(),
                other.ids_unique(),
                om == other@,
                forall|k: Seq<char>| #[trigger]
                    self@.contains_key(k) <==> (m0.contains_key(k) || exists|j: int|
                        0 <= j < i && other.blocks@[j]@.id() == k),
                forall|k: Seq<char>| #[trigger]
                    self@.contains_key(k) ==> self@[k] == (if exists|j: int|
                        0 <= j < i && other.blocks@[j]@.id() == k {
                        om[k]
                    } else {
                        m0[k]
                    }),
            decreases other.blocks@.len() - i,
        {
            proof {
                other.lemma_at(i as int);
            }
            let b = other.blocks[i].copy();
            let mut scratch: Vec<String> = Vec::new();
            let ghost before = self@;
            self.update_block(b, &mut scratch)?;
            proof {
                assert forall|k: Seq<char>| #[trigger]
                    self@.contains_key(k) <==> (m0.contains_key(k) || exists|j: int|
                        0 <= j < i + 1 && other.blocks@[j]@.id() == k) by {
                    if k == b@.id() {
                        assert(other.blocks@[i as int]@.id() == k);
                    }
                }
                assert forall|k: Seq<char>| #[trigger]
                    self@.contains_key(k) implies self@[k] == (if exists|j: int|
                        0 <= j < i + 1 && other.blocks@[j]@.id() == k {
                        om[k]
                    } else {
                        m0[k]
                    }) by {
                    if k == b@.id() {
                        assert(other.blocks@[i as int]@.id() == k);
                    } else if exists|j: int| 0 <= j < i + 1 && other.blocks@[j]@.id() == k {
                        let j = choose|j: int| 0 <= j < i + 1 && other.blocks@[j]@.id() == k;
                        assert(j != i);
                    }
                }
            }
            i += 1;
        }
        proof {
            assert forall|k: Seq<char>| #![auto] om.contains_key(k) implies exists|j: int|
                0 <= j < other.blocks@.len() && other.blocks@[j]@.id() == k by {}
            assert(self@ =~= m0.union_prefer_right(om));
        }
        return Ok(())
    }

    /// The blocks whose ids are not in `previously_used_ids`.
    pub fn get_newly_added_blocks(&self, previously_used_ids: Vec<String>) -> (r: Result<
        Vec<Block>,
        StepError,
    >)
        ensures
            r matches Ok(bs) && lists_new_blocks(self@, ids_view(previously_used_ids@), bs@),
    {
        proof {
            use_type_invariant(self);
        }
        let ghost used = ids_view(previously_used_ids@);
        let mut newly_added_blocks: Vec<Block> = Vec::new();
        let mut i: usize = 0;
        while i < self.blocks.len()
            invariant
                i <= self.blocks@.len(),
                self.ids_unique(),
                used == ids_view(previously_used_ids@),
                forall|j: int|
                    0 <= j < newly_added_blocks@.len() ==> is_new_block(
                        self@,
                        used,
                        #[trigger] newly_added_blocks@[j]@,
                    ),
                forall|j: int|
                    0 <= j < i && !used.contains(#[trigger] self.blocks@[j]@.id()) ==> lists_id(
                        newly_added_blocks@,
                        self.blocks@[j]@.id(),
                    ),
            decreases self.blocks@.len() - i,
        {
            proof {
                self.lemma_at(i as int);
            }
            let id = self.blocks[i].id();
            let used_before = position_of(&previously_used_ids, id.as_str()).is_some();
            proof {
                lemma_index_of_id(used, id@);
            }
            let ghost old_new = newly_added_blocks@;
            if !used_before {
                let b = self.blocks[i].copy();
                newly_added_blocks.push(b);
                proof {
                    assert(newly_added_blocks@[newly_added_blocks@.len() - 1]@.id()
                        == self.blocks@[i as int]@.id());
                }
            }
            proof {
                assert forall|j: int|
                    0 <= j < i + 1 && !used.contains(
                        #[trigger] self.blocks@[j]@.id(),
                    ) implies lists_id(newly_added_blocks@, self.blocks@[j]@.id()) by {
                    if j < i {
                        let m = choose|m: int|
                            0 <= m < old_new.len() && old_new[m]@.id() == self.blocks@[j]@.id();
                        assert(newly_added_blocks@[m] == old_new[m]);
                    } else {
                        assert(newly_added_blocks@[newly_added_blocks@.len() - 1]@.id()
                            == self.blocks@[j]@.id());
                    }
                }
            }
            i += 1;
        }
        proof {
            assert forall|k: Seq<char>|
                self@.contains_key(k) && !used.contains(k) implies #[trigger] lists_id(
                newly_added_blocks@,
                k,
            ) by {
                let j = choose|j: int| 0 <= j < self.blocks@.len() && self.blocks@[j]@.id() == k;
                assert(!used.contains(self.blocks@[j]@.id()));
            }
        }
        return Ok(newly_added_blocks)
    }

    /// The standard blocks whose ids are not in `previously_used_ids`.
    pub fn get_newly_added_standard_blocks(&self, previously_used_ids: Vec<String>) -> (r: Result<
        Vec<StandardBlock>,
        StepError,
    >)
        ensures
            r matches Ok(bs) && lists_new_standard_blocks(
                self@,
                ids_view(previously_used_ids@),
                bs@,
            ),
    {
        let ghost used = ids_view(previously_used_ids@);
        let newly_added_blocks = self.get_newly_added_blocks(previously_used_ids)?;
        let mut newly_added_standard_blocks: Vec<StandardBlock> = Vec::new();
        let mut i: usize = 0;
        while i < newly_added_blocks.len()
            invariant
                i <= newly_added_blocks@.len(),
                lists_new_blocks(self@, used, newly_added_blocks@),
                forall|j: int|
                    0 <= j < newly_added_standard_blocks@.len() ==> is_new_block(
                        self@,
                        used,
                        BlockView::Standard(#[trigger] newly_added_standard_blocks@[j]@),
                    ),
                forall|j: int|
                    0 <= j < i && #[trigger] newly_added_blocks@[j]@ is Standard
                        ==> lists_standard_id(
                        newly_added_standard_blocks@,
                        newly_added_blocks@[j]@.id(),
                    ),
            decreases newly_added_blocks@.len() - i,
        {
            let ghost old_new = newly_added_standard_blocks@;
            assert(is_new_block(self@, used, newly_added_blocks@[i as int]@));
            match &newly_added_blocks[i] {
                Block::StandardBlock(std_block) => {
                    newly_added_standard_blocks.push(std_block.copy());
                    proof {
                        let m = newly_added_standard_blocks@.len() - 1;
                        assert(newly_added_standard_blocks@[m]@.id
                            == newly_added_blocks@[i as int]@.id());
                    }
                },
                _ => {},
            };
            proof {
                assert forall|j: int|
                    0 <= j < i + 1 && #[trigger] newly_added_blocks@[j]@ is Standard implies lists_standard_id(
                    newly_added_standard_blocks@,
                    newly_added_blocks@[j]@.id(),
                ) by {
                    if j < i {
                        let m = choose|m: int|
                            0 <= m < old_new.len() && old_new[m]@.id
                                == newly_added_blocks@[j]@.id();
                        assert(newly_added_standard_blocks@[m] == old_new[m]);
                    } else {
                        let m = newly_added_standard_blocks@.len() - 1;
                        assert(newly_added_standard_blocks@[m]@.id
                            == newly_added_blocks@[j]@.id());
                    }
                }
            }
            i += 1;
        }
        proof {
            assert forall|k: Seq<char>|
                self@.contains_key(k) && self@[k] is Standard && !used.contains(
                    k,
                ) implies #[trigger] lists_standard_id(newly_added_standard_blocks@, k) by {
                assert(lists_id(newly_added_blocks@, k));
                let j = choose|j: int|
                    0 <= j < newly_added_blocks@.len() && newly_added_blocks@[j]@.id() == k;
                assert(is_new_block(self@, used, newly_added_blocks@[j]@));
                assert(newly_added_blocks@[j]@ is Standard);
            }
        }
        return Ok(newly_added_standard_blocks)
    }
}

/// `b` is the block of `m` under its id, and that id is not in `used`.
pub open spec fn is_new_block(m: BlockMapView, used: Seq<Seq<char>>, b: BlockView) -> bool {
    m.contains_key(b.id()) && m[b.id()] == b && !used.contains(b.id())
}

/// Some block of `bs` has id `k`.
pub open spec fn lists_id(bs: Seq<Block>, k: Seq<char>) -> bool {
    exists|i: int| 0 <= i < bs.len() && bs[i]@.id() == k
}

/// Some standard block of `bs` has id `k`.
pub open spec fn lists_standard_id(bs: Seq<StandardBlock>, k: Seq<char>) -> bool {
    exists|i: int| 0 <= i < bs.len() && bs[i]@.id == k
}

/// `bs` holds blocks of `m` whose ids are not in `used`, and every such block
/// of `m` is among them.
pub open spec fn lists_new_blocks(m: BlockMapView, used: Seq<Seq<char>>, bs: Seq<Block>) -> bool {
    &&& forall|i: int| 0 <= i < bs.len() ==> is_new_block(m, used, #[trigger] bs[i]@)
    &&& forall|k: Seq<char>|
        m.contains_key(k) && !used.contains(k) ==> #[trigger] lists_id(bs, k)
}

/// `bs` holds standard blocks of `m` whose ids are not in `used`, and every
/// such standard block of `m` is among them.
pub open spec fn lists_new_standard_blocks(
    m: BlockMapView,
    used: Seq<Seq<char>>,
    bs: Seq<StandardBlock>,
) -> bool {
    &&& forall|i: int|
        0 <= i < bs.len() ==> is_new_block(m, used, BlockView::Standard(#[trigger] bs[i]@))
    &&& forall|k: Seq<char>|
        m.contains_key(k) && m[k] is Standard && !used.contains(k) ==> #[trigger] lists_standard_id(
            bs,
            k,
        )
}

/// The standard block `id`, or the standard block that holds the inline block
/// `id`.
pub open spec fn nearest_standard(m: BlockMapView, id: Seq<char>) -> Option<StandardBlockView> {
    if !m.contains_key(id) {
        None
    } else {
        match m[id] {
            BlockView::Standard(b) => Some(b),
            BlockView::Inline(b) => std_block_of(m, b.parent),
            BlockView::Root(_) => None,
        }
    }
}

} // verus!
