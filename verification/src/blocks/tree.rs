use vstd::prelude::*;

use crate::blocks::{
    Block, BlockMap, BlockMapView, BlockView, extends, ids_view, index_of_id, inline_block_of,
    lemma_index_of_id, root_block_of, std_block_of,
};
use crate::blocks::inline_blocks::{InlineBlock, InlineBlockView, lemma_marks_after_idempotent};
use crate::blocks::standard_blocks::{StandardBlock, StandardBlockView};
use crate::mark::Mark;
use crate::steps_generator::{StepError, step_error_msg};
use crate::steps_generator::mark_steps::ForSelection;

verus! {

/// The position of `id` among the children of block `parent` of `m`, or -1
/// where `parent` is missing, is an inline block, or lacks that child.
pub open spec fn child_index(m: BlockMapView, parent: Seq<char>, id: Seq<char>) -> int {
    if m.contains_key(parent) && m[parent].has_children() {
        index_of_id(m[parent].children(), id)
    } else {
        -1
    }
}

/// The position of the inline block `id` among the inline blocks of the
/// standard block `parent` of `m`, or -1.
pub open spec fn inline_index(m: BlockMapView, parent: Seq<char>, id: Seq<char>) -> int {
    if std_block_of(m, parent) is Some && std_block_of(m, parent)->0.has_content() {
        index_of_id(std_block_of(m, parent)->0.inline_blocks(), id)
    } else {
        -1
    }
}

/// The sibling at `offset` places from the standard block `b` under its
/// parent, where that position exists.
pub open spec fn sibling_id(m: BlockMapView, b: StandardBlockView, offset: int) -> Option<
    Seq<char>,
> {
    let i = child_index(m, b.parent, b.id);
    let siblings = m[b.parent].children();
    if i >= 0 && 0 <= i + offset < siblings.len() {
        Some(siblings[i + offset])
    } else {
        None
    }
}

pub proof fn lemma_child_index(m: BlockMapView, parent: Seq<char>, id: Seq<char>)
    ensures
        child_index(m, parent, id) >= -1,
        child_index(m, parent, id) >= 0 ==> child_index(m, parent, id) < m[parent].children().len()
            && m[parent].children()[child_index(m, parent, id)] == id,
{
    if m.contains_key(parent) && m[parent].has_children() {
        lemma_index_of_id(m[parent].children(), id);
    }
}

pub proof fn lemma_inline_index(m: BlockMapView, parent: Seq<char>, id: Seq<char>)
    ensures
        inline_index(m, parent, id) >= -1,
        inline_index(m, parent, id) >= 0 ==> inline_index(m, parent, id) < std_block_of(
            m,
            parent,
        )->0.inline_blocks().len() && std_block_of(m, parent)->0.inline_blocks()[inline_index(
            m,
            parent,
            id,
        )] == id,
{
    if std_block_of(m, parent) is Some && std_block_of(m, parent)->0.has_content() {
        lemma_index_of_id(std_block_of(m, parent)->0.inline_blocks(), id);
    }
}

/// The parent of the standard block `b` is a root block of `m`.
pub open spec fn root_block_of_parent(m: BlockMapView, b: StandardBlockView) -> bool {
    root_block_of(m, b.parent) is Some
}

/// The block with its parent set to `p` (a root block stays as it is).
pub open spec fn with_parent(b: BlockView, p: Seq<char>) -> BlockView {
    match b {
        BlockView::Standard(s) => BlockView::Standard(s.with_parent(p)),
        BlockView::Inline(i) => BlockView::Inline(i.with_parent(p)),
        BlockView::Root(r) => BlockView::Root(r),
    }
}

/// `m` with the parent of each block listed in `ids` set to `p`.
pub open spec fn reparent(m: BlockMapView, ids: Seq<Seq<char>>, p: Seq<char>) -> BlockMapView {
    Map::new(
        |k: Seq<char>| m.contains_key(k),
        |k: Seq<char>|
            if ids.contains(k) {
                with_parent(m[k], p)
            } else {
                m[k]
            },
    )
}

/// Block `k` of `m` is an inline block (when `inline`) or a standard block.
pub open spec fn has_kind(m: BlockMapView, k: Seq<char>, inline: bool) -> bool {
    if inline {
        inline_block_of(m, k) is Some
    } else {
        std_block_of(m, k) is Some
    }
}

/// Sets the parent of each listed block, which must all be inline blocks
/// (when `inline`) or all standard blocks, to `parent`.
pub(crate) fn reparent_blocks(
    block_map: &mut BlockMap,
    ids: &Vec<String>,
    parent: &String,
    inline: bool,
    blocks_to_update: &mut Vec<String>,
) -> (r: Result<(), StepError>)
    ensures
        extends(old(blocks_to_update)@, final(blocks_to_update)@),
        r is Ok <==> forall|i: int|
            0 <= i < ids@.len() ==> has_kind(old(block_map)@, #[trigger] ids@[i]@, inline),
        r is Ok ==> final(block_map)@ == reparent(old(block_map)@, ids_view(ids@), parent@)
            && ids_view(final(blocks_to_update)@) == ids_view(old(blocks_to_update)@) + ids_view(
            ids@,
        ),
{
    let ghost m0 = block_map@;
    let ghost b0 = ids_view(blocks_to_update@);
    let ghost idsv = ids_view(ids@);
    let mut i: usize = 0;
    proof {
        assert(block_map@ =~= reparent(m0, idsv.take(0), parent@));
        assert(ids_view(blocks_to_update@) =~= b0 + idsv.take(0));
    }
    while i < ids.len()
        invariant
            i <= ids@.len(),
            idsv == ids_view(ids@),
            m0 == old(block_map)@,
            b0 == ids_view(old(blocks_to_update)@),
            extends(old(blocks_to_update)@, blocks_to_update@),
            block_map@ == reparent(m0, idsv.take(i as int), parent@),
            ids_view(blocks_to_update@) == b0 + idsv.take(i as int),
            forall|j: int| 0 <= j < i ==> has_kind(m0, #[trigger] ids@[j]@, inline),
        decreases ids@.len() - i,
    {
        let ghost cur = block_map@;
        let ghost k = ids@[i as int]@;
        assert(idsv[i as int] == k);
        assert(cur.contains_key(k) == m0.contains_key(k));
        proof {
            if cur.contains_key(k) {
                assert(cur[k] == (if idsv.take(i as int).contains(k) {
                    with_parent(m0[k], parent@)
                } else {
                    m0[k]
                }));
            }
        }
        let block = if inline {
            match block_map.get_inline_block(&ids[i]) {
                Ok(b) => {
                    let mut b = b;
                    b.parent = parent.clone();
                    Block::InlineBlock(b)
                },
                Err(e) => {
                    proof {
                        assert(!has_kind(m0, ids@[i as int]@, inline));
                    }
                    return Err(e);
                },
            }
        } else {
            match block_map.get_standard_block(&ids[i]) {
                Ok(b) => {
                    let mut b = b;
                    b.parent = parent.clone();
                    Block::StandardBlock(b)
                },
                Err(e) => {
                    proof {
                        assert(!has_kind(m0, ids@[i as int]@, inline));
                    }
                    return Err(e);
                },
            }
        };
        let ghost bv = block@;
        block_map.update_block(block, blocks_to_update)?;
        proof {
            assert(idsv.take(i + 1) =~= idsv.take(i as int).push(k));
            assert(bv == with_parent(m0[k], parent@));
            let t0 = idsv.take(i as int);
            let t1 = idsv.take(i + 1);
            assert forall|x: Seq<char>| x != k implies t1.contains(x) == t0.contains(x) by {
                if t1.contains(x) {
                    let j = choose|j: int| 0 <= j < t1.len() && t1[j] == x;
                    assert(t0[j] == x);
                }
                if t0.contains(x) {
                    let j = choose|j: int| 0 <= j < t0.len() && t0[j] == x;
                    assert(t1[j] == x);
                }
            }
            assert(t1[i as int] == k);
            assert(block_map@ =~= reparent(m0, t1, parent@));
            assert(ids_view(blocks_to_update@) =~= b0 + idsv.take(i + 1));
        }
        i += 1;
    }
    proof {
        assert(idsv.take(ids@.len() as int) =~= idsv);
    }
    Ok(())
}

/// `m` with `mark` applied (added when `add_mark`, else removed) to each
/// inline block listed in `ids`.
pub open spec fn mark_inline(m: BlockMapView, ids: Seq<Seq<char>>, mark: Mark, add_mark: bool) -> BlockMapView {
    Map::new(
        |k: Seq<char>| m.contains_key(k),
        |k: Seq<char>|
            if ids.contains(k) && m[k] is Inline {
                BlockView::Inline(
                    m[k]->Inline_0.with_marks(m[k]->Inline_0.marks_after(mark, add_mark)),
                )
            } else {
                m[k]
            },
    )
}

/// Applies `mark` to the inline blocks `ids[from..to]`.
pub(crate) fn mark_blocks(
    block_map: &mut BlockMap,
    ids: &Vec<String>,
    from: usize,
    to: usize,
    mark: Mark,
    add_mark: bool,
    blocks_to_update: &mut Vec<String>,
) -> (r: Result<(), StepError>)
    requires
        from <= to <= ids@.len(),
    ensures
        extends(old(blocks_to_update)@, final(blocks_to_update)@),
        r is Ok <==> forall|i: int|
            from <= i < to ==> inline_block_of(old(block_map)@, #[trigger] ids@[i]@) is Some,
        r is Ok ==> final(block_map)@ == mark_inline(
            old(block_map)@,
            ids_view(ids@).subrange(from as int, to as int),
            mark,
            add_mark,
        ) && ids_view(final(blocks_to_update)@) == ids_view(old(blocks_to_update)@) + ids_view(
            ids@,
        ).subrange(from as int, to as int),
{
    let ghost m0 = block_map@;
    let ghost b0 = ids_view(blocks_to_update@);
    let ghost idsv = ids_view(ids@);
    let mut i: usize = from;
    proof {
        assert(block_map@ =~= mark_inline(m0, idsv.subrange(from as int, from as int), mark, add_mark));
        assert(ids_view(blocks_to_update@) =~= b0 + idsv.subrange(from as int, from as int));
    }
    while i < to
        invariant
            from <= i <= to <= ids@.len(),
            idsv == ids_view(ids@),
            m0 == old(block_map)@,
            b0 == ids_view(old(blocks_to_update)@),
            extends(old(blocks_to_update)@, blocks_to_update@),
            block_map@ == mark_inline(m0, idsv.subrange(from as int, i as int), mark, add_mark),
            ids_view(blocks_to_update@) == b0 + idsv.subrange(from as int, i as int),
            forall|j: int| from <= j < i ==> inline_block_of(m0, #[trigger] ids@[j]@) is Some,
        decreases to - i,
    {
        let ghost k = ids@[i as int]@;
        let ghost t0 = idsv.subrange(from as int, i as int);
        let ghost t1 = idsv.subrange(from as int, i + 1);
        assert(idsv[i as int] == k);
        let inline_block = match block_map.get_inline_block(&ids[i]) {
            Ok(b) => b,
            Err(e) => {
                proof {
                    assert(inline_block_of(m0, ids@[i as int]@) is None);
                }
                return Err(e);
            },
        };
        proof {
            if t0.contains(k) {
                lemma_marks_after_idempotent(m0[k]->Inline_0, mark, add_mark);
            }
        }
        let inline_block = inline_block.apply_mark(mark, add_mark);
        block_map.update_block(Block::InlineBlock(inline_block), blocks_to_update)?;
        proof {
            assert forall|x: Seq<char>| x != k implies t1.contains(x) == t0.contains(x) by {
                if t1.contains(x) {
                    let j = choose|j: int| 0 <= j < t1.len() && t1[j] == x;
                    assert(t0[j] == x);
                }
                if t0.contains(x) {
                    let j = choose|j: int| 0 <= j < t0.len() && t0[j] == x;
                    assert(t1[j] == x);
                }
            }
            assert(t1[i - from] == k);
            assert(block_map@ =~= mark_inline(m0, t1, mark, add_mark));
            assert(ids_view(blocks_to_update@) =~= b0 + t1);
        }
        i += 1;
    }
    Ok(())
}

/// Whether `marks` holds `mark`.
pub fn marks_contain(marks: &Vec<Mark>, mark: &Mark) -> (r: bool)
    ensures
        r == marks@.contains(*mark),
{
    let mut i: usize = 0;
    while i < marks.len()
        invariant
            i <= marks@.len(),
            forall|j: int| 0 <= j < i ==> marks@[j] != *mark,
        decreases marks@.len() - i,
    {
        if marks[i] == *mark {
            return true;
        }
        i += 1;
    }
    false
}

/// The inline block `k` of `m` exists and holds `mark`.
pub open spec fn has_mark(m: BlockMapView, k: Seq<char>, mark: Mark) -> bool {
    inline_block_of(m, k) is Some && inline_block_of(m, k)->0.marks.contains(mark)
}

/// The offset of the selection's start within the block, where it starts
/// in it.
pub open spec fn start_offset(_for: ForSelection) -> int {
    match _for {
        ForSelection::From(o) => o as int,
        ForSelection::Both(o, _) => o as int,
        ForSelection::To(_) => -1,
    }
}

/// Where the selection starts in the block, its first inline block exists.
pub open spec fn start_known(m: BlockMapView, ids: Seq<Seq<char>>, from: usize, _for: ForSelection) -> bool {
    !(_for is From || _for is Both) || inline_block_of(m, ids[from as int]) is Some
}

/// The first inline block that a mark check looks at: `from`, or the one
/// after it where the selection starts at the end of `from`.
pub open spec fn range_start(m: BlockMapView, ids: Seq<Seq<char>>, from: usize, _for: ForSelection) -> int {
    if (_for is From || _for is Both) && start_offset(_for) == inline_block_of(
        m,
        ids[from as int],
    )->0.text.len() {
        from + 1
    } else {
        from as int
    }
}

/// One past the last inline block that a mark check looks at.
pub open spec fn range_end(ids: Seq<Seq<char>>, to: usize) -> int {
    if to < ids.len() {
        to + 1
    } else {
        ids.len() as int
    }
}

/// The inline block `to` is left out of a mark check where the selection
/// ends at its very start.
pub open spec fn left_out(k: int, to: usize, _for: ForSelection) -> bool {
    k == to && _for == ForSelection::To(0)
}

/// The standard block `n` steps up from the standard block `id`, going
/// from each block to its parent.
pub open spec fn up(m: BlockMapView, id: Seq<char>, n: nat) -> Option<StandardBlockView>
    decreases n,
{
    if n == 0 {
        std_block_of(m, id)
    } else {
        match up(m, id, (n - 1) as nat) {
            Some(b) => std_block_of(m, b.parent),
            None => None,
        }
    }
}

/// `d` steps up from block `id` reach a block under the root.
pub open spec fn reaches_root(m: BlockMapView, id: Seq<char>, d: nat) -> bool {
    up(m, id, d) is Some && root_block_of(m, up(m, id, d)->0.parent) is Some
}

/// Where `n` steps up reach a block, fewer steps do too.
pub proof fn lemma_up_prefix(m: BlockMapView, id: Seq<char>, n: nat, k: nat)
    requires
        up(m, id, n) is Some,
        k <= n,
    ensures
        up(m, id, k) is Some,
    decreases n,
{
    if k < n {
        lemma_up_prefix(m, id, (n - 1) as nat, k);
    }
}

/// The standard block `n` steps down from `b`, going from each block to its
/// last child.
pub open spec fn down_last(m: BlockMapView, b: StandardBlockView, n: nat) -> Option<
    StandardBlockView,
>
    decreases n,
{
    if n == 0 {
        Some(b)
    } else {
        match down_last(m, b, (n - 1) as nat) {
            Some(c) => if c.children.len() > 0 {
                std_block_of(m, c.children.last())
            } else {
                None
            },
            None => None,
        }
    }
}

impl StandardBlock {
    pub fn get_parent(&self, block_map: &BlockMap) -> (r: Result<Block, StepError>)
        ensures
            r is Ok <==> block_map@.contains_key(self@.parent),
            r matches Ok(p) ==> p@ == block_map@[self@.parent],
    {
        return block_map.get_block(&self.parent)
    }

    /// The position of this block among its parent's children.
    pub fn index(&self, block_map: &BlockMap) -> (r: Result<usize, StepError>)
        ensures
            r is Ok <==> child_index(block_map@, self@.parent, self@.id) >= 0,
            r matches Ok(i) ==> i == child_index(block_map@, self@.parent, self@.id),
    {
        let parent: Block = self.get_parent(block_map)?;
        return parent.index_of_child(&self._id)
    }

    /// The sibling just before this block, if any.
    pub fn get_previous(&self, block_map: &BlockMap) -> (r: Result<Option<StandardBlock>, StepError>)
        ensures
            r is Ok <==> child_index(block_map@, self@.parent, self@.id) >= 0 && (child_index(
                block_map@,
                self@.parent,
                self@.id,
            ) > 0 ==> std_block_of(block_map@, sibling_id(block_map@, self@, -1)->0) is Some),
            r matches Ok(None) ==> child_index(block_map@, self@.parent, self@.id) == 0,
            r matches Ok(Some(b)) ==> child_index(block_map@, self@.parent, self@.id) > 0
                && std_block_of(block_map@, sibling_id(block_map@, self@, -1)->0) == Some(b@),
    {
        let index = self.index(block_map)?;
        proof {
            lemma_child_index(block_map@, self@.parent, self@.id);
        }
        if index == 0 {
            return Ok(None)
        } else {
            let parent: Block = self.get_parent(block_map)?;
            let id = parent.get_child_from_index(index - 1)?;
            return Ok(Some(block_map.get_standard_block(&id)?))
        }
    }

    /// The sibling just after this block, if any.
    pub fn next_sibling(&self, block_map: &BlockMap) -> (r: Result<Option<StandardBlock>, StepError>)
        ensures
            r is Ok <==> child_index(block_map@, self@.parent, self@.id) >= 0 && (sibling_id(
                block_map@,
                self@,
                1,
            ) is Some ==> std_block_of(block_map@, sibling_id(block_map@, self@, 1)->0) is Some),
            r matches Ok(None) ==> sibling_id(block_map@, self@, 1) is None,
            r matches Ok(Some(b)) ==> sibling_id(block_map@, self@, 1) is Some && std_block_of(
                block_map@,
                sibling_id(block_map@, self@, 1)->0,
            ) == Some(b@),
    {
        let index = self.index(block_map)?;
        proof {
            lemma_child_index(block_map@, self@.parent, self@.id);
        }
        let parent = self.get_parent(block_map)?;
        let n = parent.children()?.len();
        assert(index < n);
        let next_sibling = parent.get_child_from_index(index + 1);
        return match next_sibling {
            Ok(id) => Ok(Some(block_map.get_standard_block(&id)?)),
            Err(_) => Ok(None),
        }
    }

    /// The ids of the siblings after this block.
    pub fn get_siblings_after(&self, block_map: &BlockMap) -> (r: Result<Vec<String>, StepError>)
        ensures
            r is Ok <==> child_index(block_map@, self@.parent, self@.id) >= 0,
            r matches Ok(ids) ==> ids_view(ids@) == block_map@[self@.parent].children().skip(
                child_index(block_map@, self@.parent, self@.id) + 1,
            ),
    {
        let index = self.index(block_map)?;
        proof {
            lemma_child_index(block_map@, self@.parent, self@.id);
        }
        let parent = self.get_parent(block_map)?;
        let children = parent.children()?;
        let n = children.len();
        assert(index < n);
        let mut out: Vec<String> = Vec::new();
        let mut i: usize = index + 1;
        while i < children.len()
            invariant
                index + 1 <= i <= children@.len(),
                ids_view(out@) == ids_view(children@).subrange(index + 1, i as int),
            decreases children@.len() - i,
        {
            let ghost before = out@;
            out.push(children[i].clone());
            proof {
                assert(ids_view(out@) =~= ids_view(before).push(children@[i as int]@));
                assert(ids_view(children@).subrange(index + 1, i + 1) =~= ids_view(
                    children@,
                ).subrange(index + 1, i as int).push(children@[i as int]@));
            }
            i += 1;
        }
        proof {
            assert(ids_view(children@).subrange(index + 1, children@.len() as int) =~= ids_view(
                children@,
            ).skip(index + 1));
        }
        return Ok(out)
    }

    /// The sibling just after this block's parent, if any.
    pub fn parents_next_sibling(&self, block_map: &BlockMap) -> (r: Result<
        Option<StandardBlock>,
        StepError,
    >)
        ensures
            r is Ok ==> std_block_of(block_map@, self@.parent) is Some,
            r matches Ok(None) ==> sibling_id(
                block_map@,
                std_block_of(block_map@, self@.parent)->0,
                1,
            ) is None,
            r matches Ok(Some(b)) ==> sibling_id(block_map@, std_block_of(block_map@, self@.parent)->0, 1) is Some
                && std_block_of(
                block_map@,
                sibling_id(block_map@, std_block_of(block_map@, self@.parent)->0, 1)->0,
            ) == Some(b@),
            std_block_of(block_map@, self@.parent) is Some ==> (r is Ok <==> ({
                let p = std_block_of(block_map@, self@.parent)->0;
                child_index(block_map@, p.parent, p.id) >= 0 && (sibling_id(block_map@, p, 1) is Some
                    ==> std_block_of(block_map@, sibling_id(block_map@, p, 1)->0) is Some)
            })),
    {
        let parent = block_map.get_standard_block(&self.parent)?;
        parent.next_sibling(block_map)
    }

    pub fn parent_is_root(&self, block_map: &BlockMap) -> (r: bool)
        ensures
            r == (root_block_of(block_map@, self@.parent) is Some),
    {
        return block_map.get_root_block(&self.parent).is_ok()
    }

    /// The last inline block of this block.
    pub fn get_last_inline_block(&self, block_map: &BlockMap) -> (r: Result<InlineBlock, StepError>)
        ensures
            r is Ok <==> self@.has_content() && self@.inline_blocks().len() > 0 && inline_block_of(
                block_map@,
                self@.inline_blocks().last(),
            ) is Some,
            r matches Ok(b) ==> inline_block_of(block_map@, self@.inline_blocks().last()) == Some(b@),
    {
        let inline_blocks = &self.content_block()?.inline_blocks;
        if inline_blocks.len() == 0 {
            return Err(step_error_msg("Block has no inline blocks"))
        }
        let last_block_id = inline_blocks[inline_blocks.len() - 1].clone();
        return block_map.get_inline_block(&last_block_id)
    }

    /// Whether this block holds a single inline block with no text.
    pub fn text_is_empty(&self, block_map: &BlockMap) -> (r: Result<bool, StepError>)
        ensures
            r is Ok <==> self@.has_content() && (self@.inline_blocks().len() == 1 ==> inline_block_of(
                block_map@,
                self@.inline_blocks()[0],
            ) is Some),
            r matches Ok(v) ==> v == (self@.inline_blocks().len() == 1 && inline_block_of(
                block_map@,
                self@.inline_blocks()[0],
            )->0.text.len() == 0),
    {
        let content = self.content_block()?;
        if content.inline_blocks.len() == 1 {
            let inline_block = block_map.get_inline_block(&content.inline_blocks[0])?;
            return Ok(inline_block.text()?.len() == 0)
        } else {
            return Ok(false)
        }
    }

    /// Makes this block the parent of each of its inline blocks.
    pub fn set_as_parent_for_all_inline_blocks(
        &self,
        block_map: BlockMap,
        blocks_to_update: &mut Vec<String>,
    ) -> (r: Result<BlockMap, StepError>)
        ensures
            extends(old(blocks_to_update)@, final(blocks_to_update)@),
            r is Ok <==> self@.has_content() && forall|i: int|
                0 <= i < self@.inline_blocks().len() ==> inline_block_of(
                    block_map@,
                    #[trigger] self@.inline_blocks()[i],
                ) is Some,
            r matches Ok(m) ==> m@ == reparent(block_map@, self@.inline_blocks(), self@.id)
                && ids_view(final(blocks_to_update)@) == ids_view(old(blocks_to_update)@)
                + self@.inline_blocks(),
    {
        let mut block_map = block_map;
        let ghost m0 = block_map@;
        let content = self.content_block()?;
        let r = reparent_blocks(&mut block_map, &content.inline_blocks, &self._id, true, blocks_to_update);
        match r {
            Ok(()) => Ok(block_map),
            Err(e) => {
                proof {
                    let j = choose|j: int|
                        !(0 <= j < content.inline_blocks@.len() ==> has_kind(
                            m0,
                            #[trigger] content.inline_blocks@[j]@,
                            true,
                        ));
                    assert(self@.inline_blocks()[j] == content.inline_blocks@[j]@);
                }
                Err(e)
            },
        }
    }

    /// Makes this block the parent of each of its children.
    pub fn set_new_parent_of_children(
        &self,
        block_map: &mut BlockMap,
        blocks_to_update: &mut Vec<String>,
    ) -> (r: Result<(), StepError>)
        ensures
            extends(old(blocks_to_update)@, final(blocks_to_update)@),
            r is Ok <==> forall|i: int|
                0 <= i < self@.children.len() ==> std_block_of(
                    old(block_map)@,
                    #[trigger] self@.children[i],
                ) is Some,
            r is Ok ==> final(block_map)@ == reparent(old(block_map)@, self@.children, self@.id)
                && ids_view(final(blocks_to_update)@) == ids_view(old(blocks_to_update)@)
                + self@.children,
    {
        let ghost m0 = block_map@;
        let r = reparent_blocks(block_map, &self.children, &self._id, false, blocks_to_update);
        proof {
            if r is Err {
                let j = choose|j: int|
                    !(0 <= j < self.children@.len() ==> has_kind(
                        m0,
                        #[trigger] self.children@[j]@,
                        false,
                    ));
                assert(self@.children[j] == self.children@[j]@);
            }
        }
        r
    }

    /// Applies `mark` to the inline blocks from `from` to `to`, both included
    /// (those past the last inline block are ignored).
    pub fn apply_mark_to_all_inline_blocks_in_range(
        &self,
        mark: Mark,
        from: usize,
        to: usize,
        block_map: &mut BlockMap,
        add_mark: bool,
        blocks_to_update: &mut Vec<String>,
    ) -> (r: Result<(), StepError>)
        ensures
            extends(old(blocks_to_update)@, final(blocks_to_update)@),
            r is Ok <==> self@.has_content() && forall|i: int|
                from <= i <= to && i < self@.inline_blocks().len() ==> inline_block_of(
                    old(block_map)@,
                    #[trigger] self@.inline_blocks()[i],
                ) is Some,
            r is Ok ==> ({
                let ids = self@.inline_blocks();
                let end = if to < ids.len() { to + 1 } else { ids.len() as int };
                let start = if from < end { from as int } else { end };
                &&& final(block_map)@ == mark_inline(old(block_map)@, ids.subrange(start, end), mark, add_mark)
                &&& ids_view(final(blocks_to_update)@) == ids_view(old(blocks_to_update)@) + ids.subrange(start, end)
            }),
            !self@.has_content() ==> final(block_map)@ == old(block_map)@ && final(blocks_to_update)@
                == old(blocks_to_update)@,
    {
        let inline_blocks = &self.content_block()?.inline_blocks;
        let len = inline_blocks.len();
        let end = if to < len { to + 1 } else { len };
        let start = if from < end { from } else { end };
        let ghost m0 = block_map@;
        let r = mark_blocks(block_map, inline_blocks, start, end, mark, add_mark, blocks_to_update);
        proof {
            if r is Err {
                let j = choose|j: int|
                    !(start <= j < end ==> inline_block_of(m0, #[trigger] inline_blocks@[j]@) is Some);
                assert(self@.inline_blocks()[j] == inline_blocks@[j]@);
            }
        }
        r
    }

    /// Applies `mark` to every inline block of this block.
    pub fn apply_mark_to_all_inline_blocks(
        &self,
        mark: Mark,
        block_map: &mut BlockMap,
        add_mark: bool,
        blocks_to_update: &mut Vec<String>,
    ) -> (r: Result<(), StepError>)
        ensures
            extends(old(blocks_to_update)@, final(blocks_to_update)@),
            r is Ok <==> self@.has_content() && forall|i: int|
                0 <= i < self@.inline_blocks().len() ==> inline_block_of(
                    old(block_map)@,
                    #[trigger] self@.inline_blocks()[i],
                ) is Some,
            r is Ok ==> final(block_map)@ == mark_inline(
                old(block_map)@,
                self@.inline_blocks(),
                mark,
                add_mark,
            ) && ids_view(final(blocks_to_update)@) == ids_view(old(blocks_to_update)@)
                + self@.inline_blocks(),
            !self@.has_content() ==> final(block_map)@ == old(block_map)@ && final(blocks_to_update)@
                == old(blocks_to_update)@,
    {
        let inline_blocks = &self.content_block()?.inline_blocks;
        let ghost m0 = block_map@;
        let r = mark_blocks(block_map, inline_blocks, 0, inline_blocks.len(), mark, add_mark, blocks_to_update);
        proof {
            assert(ids_view(inline_blocks@).subrange(0, inline_blocks@.len() as int) =~= ids_view(inline_blocks@));
            if r is Err {
                let j = choose|j: int|
                    !(0 <= j < inline_blocks@.len() ==> inline_block_of(m0, #[trigger] inline_blocks@[j]@) is Some);
                assert(self@.inline_blocks()[j] == inline_blocks@[j]@);
            }
        }
        r
    }

    /// Whether every inline block of this block holds `mark`.
    pub fn all_inline_blocks_have_identical_mark(&self, mark: &Mark, block_map: &BlockMap) -> (r:
        Result<bool, StepError>)
        ensures
            (self@.has_content() && forall|i: int|
                0 <= i < self@.inline_blocks().len() ==> has_mark(
                    block_map@,
                    #[trigger] self@.inline_blocks()[i],
                    *mark,
                )) ==> r == Ok::<bool, StepError>(true),
            r == Ok::<bool, StepError>(true) ==> self@.has_content() && forall|i: int|
                0 <= i < self@.inline_blocks().len() ==> has_mark(
                    block_map@,
                    #[trigger] self@.inline_blocks()[i],
                    *mark,
                ),
            r == Ok::<bool, StepError>(false) ==> exists|i: int|
                0 <= i < self@.inline_blocks().len() && inline_block_of(
                    block_map@,
                    #[trigger] self@.inline_blocks()[i],
                ) is Some && !has_mark(block_map@, self@.inline_blocks()[i], *mark),
            r is Err ==> !self@.has_content() || exists|i: int|
                0 <= i < self@.inline_blocks().len() && inline_block_of(
                    block_map@,
                    #[trigger] self@.inline_blocks()[i],
                ) is None,
    {
        let inline_blocks = &self.content_block()?.inline_blocks;
        let mut i: usize = 0;
        while i < inline_blocks.len()
            invariant
                i <= inline_blocks@.len(),
                ids_view(inline_blocks@) == self@.inline_blocks(),
                forall|j: int| 0 <= j < i ==> has_mark(block_map@, #[trigger] self@.inline_blocks()[j], *mark),
            decreases inline_blocks@.len() - i,
        {
            assert(self@.inline_blocks()[i as int] == inline_blocks@[i as int]@);
            let inline_block = block_map.get_inline_block(&inline_blocks[i])?;
            if !marks_contain(&inline_block.marks, mark) {
                return Ok(false)
            }
            i += 1;
        }
        return Ok(true)
    }

    /// Whether the inline blocks from `from` to `to` (both included, and those
    /// past the last ignored) all hold `mark`. Where the selection starts in
    /// this block at the very end of inline block `from`, that block is left
    /// out; where it ends in this block at offset 0 of inline block `to`, that
    /// block is left out.
    pub fn all_inline_blocks_in_range_have_identical_mark(
        &self,
        mark: &Mark,
        from: usize,
        to: usize,
        _for: ForSelection,
        block_map: &BlockMap,
    ) -> (r: Result<bool, StepError>)
        requires
            (_for is From || _for is Both) && self@.has_content() ==> from
                < self@.inline_blocks().len(),
        ensures
            ({
                let ids = self@.inline_blocks();
                let start = range_start(block_map@, ids, from, _for);
                let end = range_end(ids, to);
                &&& (self@.has_content() && start_known(block_map@, ids, from, _for) && forall|k: int|
                    start <= k < end ==> inline_block_of(block_map@, #[trigger] ids[k]) is Some
                        && (left_out(k, to, _for) || has_mark(block_map@, ids[k], *mark)))
                    ==> r == Ok::<bool, StepError>(true)
                &&& r == Ok::<bool, StepError>(true) ==> forall|k: int|
                    start <= k < end ==> (left_out(k, to, _for) || has_mark(
                        block_map@,
                        #[trigger] ids[k],
                        *mark,
                    ))
                &&& r == Ok::<bool, StepError>(false) ==> exists|k: int|
                    start <= k < end && inline_block_of(block_map@, #[trigger] ids[k]) is Some
                        && !left_out(k, to, _for) && !has_mark(block_map@, ids[k], *mark)
                &&& r is Err ==> !self@.has_content() || !start_known(block_map@, ids, from, _for)
                    || exists|k: int|
                    start <= k < end && inline_block_of(block_map@, #[trigger] ids[k]) is None
            }),
    {
        let inline_blocks = &self.content_block()?.inline_blocks;
        let ghost ids = self@.inline_blocks();
        let ghost start = range_start(block_map@, ids, from, _for);
        let mut i = from;
        match _for {
            ForSelection::Both(offset, _) | ForSelection::From(offset) => {
                assert(ids[from as int] == inline_blocks@[from as int]@);
                let from_block = block_map.get_inline_block(&inline_blocks[i])?;
                assert(from < inline_blocks.len());
                if offset == from_block.text()?.len() {
                    i += 1;
                }
            },
            _ => {},
        };
        assert(i == start);
        let len = inline_blocks.len();
        let end = if to < len { to + 1 } else { len };
        while i < end
            invariant
                start <= i,
                start == range_start(block_map@, ids, from, _for),
                ids == self@.inline_blocks(),
                self@.has_content(),
                start_known(block_map@, ids, from, _for),
                end <= inline_blocks@.len(),
                end == range_end(ids, to),
                ids == ids_view(inline_blocks@),
                forall|k: int|
                    start <= k < i ==> inline_block_of(block_map@, #[trigger] ids[k]) is Some
                        && (left_out(k, to, _for) || has_mark(block_map@, ids[k], *mark)),
            decreases end - i,
        {
            assert(ids[i as int] == inline_blocks@[i as int]@);
            let inline_block = match block_map.get_inline_block(&inline_blocks[i]) {
                Ok(b) => b,
                Err(e) => {
                    proof {
                        assert(inline_block_of(block_map@, ids[i as int]) is None);
                    }
                    return Err(e);
                },
            };
            if i == to {
                match _for {
                    ForSelection::To(0) => {
                        return Ok(true)
                    },
                    _ => {},
                };
            }
            if !marks_contain(&inline_block.marks, mark) {
                return Ok(false)
            }
            i += 1;
        }
        return Ok(true)
    }

    /// How many standard blocks stand between this block and the root: 0
    /// where its parent is the root. Where the parent links of the map loop,
    /// the walk reports an error.
    pub fn depth_from_root(&self, block_map: &BlockMap) -> (r: Result<usize, StepError>)
        ensures
            r matches Ok(d) ==> (d == 0 <==> root_block_of(block_map@, self@.parent) is Some) && (d
                > 0 ==> up(block_map@, self@.id, d as nat) is Some && root_block_of(
                block_map@,
                up(block_map@, self@.id, d as nat)->0.parent,
            ) is Some && forall|j: nat|
                1 <= j < d ==> up(block_map@, self@.id, j) is Some && root_block_of(
                    block_map@,
                    #[trigger] up(block_map@, self@.id, j)->0.parent,
                ) is None),
            root_block_of(block_map@, self@.parent) is Some ==> r == Ok::<usize, StepError>(0),
            std_block_of(block_map@, self@.id) == Some(self@) && (exists|d: nat| d <= block_map@.dom().len()
                && #[trigger] reaches_root(block_map@, self@.id, d)) ==> r is Ok,
    {
        let mut i: usize = 0;
        let mut fuel = block_map.block_count();
        let mut current_block = self.copy();
        let ghost ok = std_block_of(block_map@, self@.id) == Some(self@) && (exists|d: nat| d <= block_map@.dom().len()
            && #[trigger] reaches_root(block_map@, self@.id, d));
        let ghost dd: nat = if ok {
            choose|d: nat| d <= block_map@.dom().len() && #[trigger] reaches_root(block_map@, self@.id, d)
        } else {
            0
        };
        proof {
            block_map.lemma_keys_are_ids();
        }
        while !current_block.parent_is_root(block_map)
            invariant
                i + fuel == block_map@.dom().len(),
                block_map@.dom().len() <= usize::MAX,
                ok == (std_block_of(block_map@, self@.id) == Some(self@) && (exists|d: nat| d <= block_map@.dom().len()
                    && #[trigger] reaches_root(block_map@, self@.id, d))),
                ok ==> i <= dd && dd <= block_map@.dom().len() && reaches_root(block_map@, self@.id, dd)
                    && std_block_of(block_map@, self@.id) == Some(self@),
                i == 0 ==> current_block@ == self@,
                i > 0 ==> up(block_map@, self@.id, i as nat) == Some(current_block@),
                forall|j: nat|
                    1 <= j < i ==> up(block_map@, self@.id, j) is Some && root_block_of(
                        block_map@,
                        #[trigger] up(block_map@, self@.id, j)->0.parent,
                    ) is None,
                i > 0 ==> root_block_of(block_map@, self@.parent) is None,
                i > 0 ==> block_map@.contains_key(current_block@.id) && block_map@[current_block@.id]
                    == BlockView::Standard(current_block@),
                forall|k: Seq<char>| #[trigger] block_map@.contains_key(k) ==> block_map@[k].id() == k,
            decreases fuel,
        {
            proof {
                if ok {
                    if i == dd {
                        assert(up(block_map@, self@.id, dd) == Some(current_block@));
                        assert(false);
                    }
                    assert(i < dd);
                }
            }
            if fuel == 0 {
                return Err(step_error_msg("Parent links loop"));
            }
            fuel -= 1;
            let ghost prev = current_block@;
            proof {
                if ok {
                    lemma_up_prefix(block_map@, self@.id, dd, (i + 1) as nat);
                }
            }
            let refreshed = block_map.get_standard_block(&current_block._id)?;
            proof {
                if i > 0 {
                    assert(refreshed@ == prev);
                }
                if ok {
                    assert(up(block_map@, self@.id, i as nat) == Some(refreshed@));
                    assert(up(block_map@, self@.id, (i + 1) as nat) == std_block_of(block_map@, refreshed@.parent));
                }
            }
            if i == usize::MAX {
                return Err(step_error_msg("Parent links loop"));
            }
            proof {
                if ok {
                    assert(up(block_map@, self@.id, (i + 1) as nat) is Some);
                    assert(std_block_of(block_map@, refreshed@.parent) is Some);
                }
            }
            i += 1;
            current_block = block_map.get_standard_block(&refreshed.parent)?;
            proof {
                assert(block_map@[refreshed@.parent].id() == refreshed@.parent);
                if i == 1 {
                    assert(up(block_map@, self@.id, 0) == Some(refreshed@));
                }
                assert(up(block_map@, self@.id, i as nat) == Some(current_block@));
            }
        }
        return Ok(i)
    }

    /// The last child on the deepest layer below this block, or this block
    /// where it has no children. Where the child links of the map loop, the
    /// walk reports an error.
    pub fn get_youngest_descendant(self, block_map: &BlockMap) -> (r: Result<Self, StepError>)
        ensures
            r matches Ok(y) ==> y@.children.len() == 0 && exists|n: nat|
                down_last(block_map@, self@, n) == Some(y@),
            self@.children.len() == 0 ==> (r matches Ok(y) && y@ == self@),
    {
        let mut current = self;
        let ghost start = current@;
        let ghost mut n: nat = 0;
        let mut fuel = block_map.block_count();
        while current.children.len() > 0
            invariant
                down_last(block_map@, start, n) == Some(current@),
                n == 0 ==> current@ == start,
                start == self@,
                n > 0 ==> start.children.len() > 0,
            decreases fuel,
        {
            if fuel == 0 {
                return Err(step_error_msg("Child links loop"));
            }
            fuel -= 1;
            let youngest_child = block_map.get_standard_block(
                &current.children[current.children.len() - 1],
            )?;
            proof {
                assert(current@.children.last() == current.children@[current.children@.len() - 1]@);
                n = n + 1;
            }
            current = youngest_child;
        }
        return Ok(current)
    }

    /// The inline blocks of this block, in order.
    pub fn get_inline_blocks(&self, block_map: &BlockMap) -> (r: Result<Vec<InlineBlock>, StepError>)
        ensures
            r is Ok <==> self@.has_content() && forall|i: int|
                0 <= i < self@.inline_blocks().len() ==> inline_block_of(
                    block_map@,
                    #[trigger] self@.inline_blocks()[i],
                ) is Some,
            r matches Ok(bs) ==> bs@.len() == self@.inline_blocks().len() && forall|i: int|
                0 <= i < bs@.len() ==> inline_block_of(block_map@, self@.inline_blocks()[i])
                    == Some(#[trigger] bs@[i]@),
    {
        let inline_blocks_ids = &self.content_block()?.inline_blocks;
        let mut inline_blocks: Vec<InlineBlock> = Vec::new();
        let mut i: usize = 0;
        while i < inline_blocks_ids.len()
            invariant
                i <= inline_blocks_ids@.len(),
                ids_view(inline_blocks_ids@) == self@.inline_blocks(),
                inline_blocks@.len() == i,
                forall|j: int|
                    0 <= j < i ==> inline_block_of(block_map@, self@.inline_blocks()[j]) == Some(
                        #[trigger] inline_blocks@[j]@,
                    ),
            decreases inline_blocks_ids@.len() - i,
        {
            let b = block_map.get_inline_block(&inline_blocks_ids[i]);
            match b {
                Ok(b) => inline_blocks.push(b),
                Err(e) => {
                    proof {
                        assert(inline_block_of(block_map@, self@.inline_blocks()[i as int]) is None);
                    }
                    return Err(e);
                },
            }
            i += 1;
        }
        proof {
            assert forall|i: int| 0 <= i < self@.inline_blocks().len() implies inline_block_of(
                block_map@,
                #[trigger] self@.inline_blocks()[i],
            ) is Some by {
                assert(inline_block_of(block_map@, self@.inline_blocks()[i]) == Some(
                    inline_blocks@[i]@,
                ));
            }
        }
        return Ok(inline_blocks)
    }
}

impl InlineBlock {
    pub fn get_parent(&self, block_map: &BlockMap) -> (r: Result<StandardBlock, StepError>)
        ensures
            r matches Ok(b) ==> std_block_of(block_map@, self@.parent) == Some(b@),
            r is Err <==> std_block_of(block_map@, self@.parent) is None,
    {
        return block_map.get_standard_block(&self.parent)
    }

    /// The position of this block among its parent's inline blocks.
    pub fn index(&self, block_map: &BlockMap) -> (r: Result<usize, StepError>)
        ensures
            r is Ok <==> inline_index(block_map@, self@.parent, self@.id) >= 0,
            r matches Ok(i) ==> i == inline_index(block_map@, self@.parent, self@.id),
    {
        let parent = block_map.get_standard_block(&self.parent)?;
        return parent.index_of(&self._id)
    }

    /// The inline block just before this one in its parent.
    pub fn previous_block(&self, block_map: &BlockMap) -> (r: Result<InlineBlock, StepError>)
        ensures
            r is Ok <==> inline_index(block_map@, self@.parent, self@.id) > 0 && inline_block_of(
                block_map@,
                std_block_of(block_map@, self@.parent)->0.inline_blocks()[inline_index(
                    block_map@,
                    self@.parent,
                    self@.id,
                ) - 1],
            ) is Some,
            r matches Ok(b) ==> inline_block_of(
                block_map@,
                std_block_of(block_map@, self@.parent)->0.inline_blocks()[inline_index(
                    block_map@,
                    self@.parent,
                    self@.id,
                ) - 1],
            ) == Some(b@),
    {
        let parent_block = self.get_parent(block_map)?;
        let index = parent_block.index_of(&self._id)?;
        proof {
            lemma_inline_index(block_map@, self@.parent, self@.id);
        }
        if index == 0 {
            return Err(step_error_msg("Block is the first inline block"))
        }
        let previous_block_id = parent_block.get_inline_block_from_index(index - 1)?;
        return block_map.get_inline_block(&previous_block_id)
    }

    /// The inline block just after this one in its parent.
    pub fn next_block(&self, block_map: &BlockMap) -> (r: Result<InlineBlock, StepError>)
        ensures
            r is Ok <==> 0 <= inline_index(block_map@, self@.parent, self@.id) < std_block_of(
                block_map@,
                self@.parent,
            )->0.inline_blocks().len() - 1 && inline_block_of(
                block_map@,
                std_block_of(block_map@, self@.parent)->0.inline_blocks()[inline_index(
                    block_map@,
                    self@.parent,
                    self@.id,
                ) + 1],
            ) is Some,
            r matches Ok(b) ==> inline_block_of(
                block_map@,
                std_block_of(block_map@, self@.parent)->0.inline_blocks()[inline_index(
                    block_map@,
                    self@.parent,
                    self@.id,
                ) + 1],
            ) == Some(b@),
    {
        let parent_block = self.get_parent(block_map)?;
        let index = parent_block.index_of(&self._id)?;
        proof {
            lemma_inline_index(block_map@, self@.parent, self@.id);
        }
        let n = parent_block.inline_blocks_length()?;
        if index + 1 >= n {
            return Err(step_error_msg("Block is the last inline block"))
        }
        let next_block_id = parent_block.get_inline_block_from_index(index + 1)?;
        return block_map.get_inline_block(&next_block_id)
    }

    /// Whether this block is the last inline block of its parent.
    pub fn is_last_inline_block(&self, block_map: &BlockMap) -> (r: Result<bool, StepError>)
        ensures
            r is Ok <==> inline_index(block_map@, self@.parent, self@.id) >= 0,
            r matches Ok(v) ==> v == (inline_index(block_map@, self@.parent, self@.id)
                == std_block_of(block_map@, self@.parent)->0.inline_blocks().len() - 1),
    {
        let parent_block = self.get_parent(block_map)?;
        let index = parent_block.index_of(&self._id)?;
        proof {
            lemma_inline_index(block_map@, self@.parent, self@.id);
        }
        return Ok(index == parent_block.inline_blocks_length()? - 1)
    }
}

impl Block {
    /// Makes this block the parent of each of its children.
    pub fn set_new_parent_of_children(
        &self,
        block_map: &mut BlockMap,
        blocks_to_update: &mut Vec<String>,
    ) -> (r: Result<(), StepError>)
        ensures
            extends(old(blocks_to_update)@, final(blocks_to_update)@),
            self@ is Inline ==> r is Err && final(block_map)@ == old(block_map)@,
            !(self@ is Inline) ==> (r is Ok <==> forall|i: int|
                0 <= i < self@.children().len() ==> std_block_of(
                    old(block_map)@,
                    #[trigger] self@.children()[i],
                ) is Some),
            r is Ok ==> final(block_map)@ == reparent(old(block_map)@, self@.children(), self@.id())
                && ids_view(final(blocks_to_update)@) == ids_view(old(blocks_to_update)@)
                + self@.children(),
    {
        match self {
            Self::StandardBlock(std_block) => return std_block.set_new_parent_of_children(
                block_map,
                blocks_to_update,
            ),
            Self::Root(root) => {
                let ghost m0 = block_map@;
                let r = reparent_blocks(block_map, &root.children, &root._id, false, blocks_to_update);
                proof {
                    if r is Err {
                        let j = choose|j: int|
                            !(0 <= j < root.children@.len() ==> has_kind(
                                m0,
                                #[trigger] root.children@[j]@,
                                false,
                            ));
                        assert(self@.children()[j] == root.children@[j]@);
                    }
                }
                return r;
            },
            Self::InlineBlock(_) => return Err(
                step_error_msg("Inline blocks do not contain children"),
            ),
        };
    }

    /// The position of this block under its parent.
    pub fn index(&self, block_map: &BlockMap) -> (r: Result<usize, StepError>)
        ensures
            self@ matches BlockView::Standard(b) ==> (r is Ok <==> child_index(
                block_map@,
                b.parent,
                b.id,
            ) >= 0) && (r matches Ok(i) ==> i == child_index(block_map@, b.parent, b.id)),
            self@ matches BlockView::Inline(b) ==> (r is Ok <==> inline_index(
                block_map@,
                b.parent,
                b.id,
            ) >= 0) && (r matches Ok(i) ==> i == inline_index(block_map@, b.parent, b.id)),
            self@ is Root ==> r is Err,
    {
        match self {
            Block::InlineBlock(block) => return block.index(block_map),
            Block::StandardBlock(block) => return block.index(block_map),
            Block::Root(_) => return Err(
                step_error_msg("Should not try to get index of the root block"),
            ),
        }
    }
}

} // verus!
