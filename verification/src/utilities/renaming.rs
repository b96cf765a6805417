use vstd::prelude::*;

use crate::blocks::{Block, BlockMap, BlockMapView, BlockView, ids_view, index_of_id, insert_blocks, lemma_index_of_id_first, position_of, RootBlock, RootBlockView};
use crate::blocks::inline_blocks::{InlineBlock, InlineBlockView, copy_marks};
use crate::blocks::standard_blocks::{StandardBlock, StandardBlockView};
use crate::blocks::standard_blocks::content_block::ContentBlock;
use crate::new_ids::NewIds;
use crate::blocks::tree::down_last;
use crate::steps_generator::{StepError, step_error_msg};
use crate::utilities::Tree;

verus! {

/// `id` renamed by the pairs `olds[i]` to `news[i]`: the new id paired with
/// the first old id equal to `id`, or `id` itself where none is.
pub open spec fn renamed(olds: Seq<Seq<char>>, news: Seq<Seq<char>>, id: Seq<char>) -> Seq<char> {
    let i = index_of_id(olds, id);
    if i >= 0 {
        news[i]
    } else {
        id
    }
}

/// Each id of `ids` renamed.
pub open spec fn renamed_all(olds: Seq<Seq<char>>, news: Seq<Seq<char>>, ids: Seq<Seq<char>>) -> Seq<Seq<char>> {
    ids.map_values(|id: Seq<char>| renamed(olds, news, id))
}

/// A standard block with its id and every id it holds renamed.
pub open spec fn renamed_standard(olds: Seq<Seq<char>>, news: Seq<Seq<char>>, b: StandardBlockView) -> StandardBlockView {
    StandardBlockView {
        id: renamed(olds, news, b.id),
        content: b.content.with_inline_blocks(renamed_all(olds, news, b.inline_blocks())),
        children: renamed_all(olds, news, b.children),
        parent: renamed(olds, news, b.parent),
        marks: b.marks,
    }
}

/// A block with its id and every id it holds renamed.
pub open spec fn renamed_block(olds: Seq<Seq<char>>, news: Seq<Seq<char>>, b: BlockView) -> BlockView {
    match b {
        BlockView::Standard(s) => BlockView::Standard(renamed_standard(olds, news, s)),
        BlockView::Inline(i) => BlockView::Inline(
            InlineBlockView { id: renamed(olds, news, i.id), parent: renamed(olds, news, i.parent), ..i },
        ),
        BlockView::Root(r) => BlockView::Root(
            RootBlockView { id: renamed(olds, news, r.id), children: renamed_all(olds, news, r.children) },
        ),
    }
}

/// The map holding the blocks `olds` of `m`, renamed, written in that order.
pub open spec fn renamed_map(m: BlockMapView, olds: Seq<Seq<char>>, news: Seq<Seq<char>>) -> BlockMapView {
    insert_blocks(
        Map::empty(),
        olds.map_values(|k: Seq<char>| renamed_block(olds, news, m[k])),
    )
}

/// The fresh ids that `n` calls of `get_id` hand out, in that order.
pub open spec fn taken_ids(ids: Seq<String>, n: nat) -> Seq<Seq<char>> {
    Seq::new(n, |i: int| ids[ids.len() - 1 - i]@)
}

/// The ids that the next `n` calls of `get_id` hand out are not ids of
/// blocks of `m`, and differ from each other.
pub open spec fn fresh_for(ids: Seq<String>, n: nat, m: BlockMapView) -> bool {
    let t = taken_ids(ids, n);
    &&& t.no_duplicates()
    &&& forall|i: int| 0 <= i < t.len() ==> !m.contains_key(#[trigger] t[i])
}

/// The keys of `insert_blocks(m, bs)` are those of `m` and the ids of `bs`.
pub proof fn lemma_insert_blocks_keys(m: BlockMapView, bs: Seq<BlockView>, k: Seq<char>)
    ensures
        insert_blocks(m, bs).contains_key(k) <==> m.contains_key(k) || exists|i: int| 0 <= i < bs.len() && #[trigger] bs[i].id() == k,
    decreases bs.len(),
{
    if bs.len() > 0 {
        let rest = bs.drop_last();
        lemma_insert_blocks_keys(m, rest, k);
        if exists|i: int| 0 <= i < rest.len() && #[trigger] rest[i].id() == k {
            let i = choose|i: int| 0 <= i < rest.len() && #[trigger] rest[i].id() == k;
            assert(bs[i].id() == k);
        }
        if exists|i: int| 0 <= i < bs.len() && #[trigger] bs[i].id() == k {
            let i = choose|i: int| 0 <= i < bs.len() && #[trigger] bs[i].id() == k;
            if i < bs.len() - 1 {
                assert(rest[i] == bs[i]);
            }
        }
    }
}

/// An old id is renamed to the new id at its position.
pub proof fn lemma_renamed_old(olds: Seq<Seq<char>>, news: Seq<Seq<char>>, i: int)
    requires
        olds.no_duplicates(),
        0 <= i < olds.len(),
    ensures
        renamed(olds, news, olds[i]) == news[i],
{
    lemma_index_of_id_first(olds, olds[i], i);
}

/// A renamed block keeps its place: its id is its old id renamed.
pub proof fn lemma_renamed_block_id(olds: Seq<Seq<char>>, news: Seq<Seq<char>>, b: BlockView)
    ensures
        renamed_block(olds, news, b).id() == renamed(olds, news, b.id()),
        renamed_block(olds, news, b) is Inline <==> b is Inline,
{
}

/// Each block of a renamed map is stored under one of the new ids.
pub proof fn lemma_renamed_map_keys(m: BlockMapView, olds: Seq<Seq<char>>, news: Seq<Seq<char>>, k: Seq<char>)
    requires
        olds.no_duplicates(),
        olds.len() == news.len(),
        forall|x: Seq<char>| #[trigger] m.contains_key(x) ==> m[x].id() == x,
        forall|i: int| 0 <= i < olds.len() ==> m.contains_key(#[trigger] olds[i]),
        renamed_map(m, olds, news).contains_key(k),
    ensures
        news.contains(k),
{
    let bs = olds.map_values(|x: Seq<char>| renamed_block(olds, news, m[x]));
    lemma_insert_blocks_keys(Map::empty(), bs, k);
    let i = choose|i: int| 0 <= i < bs.len() && #[trigger] bs[i].id() == k;
    assert(m.contains_key(olds[i]));
    lemma_renamed_block_id(olds, news, m[olds[i]]);
    lemma_renamed_old(olds, news, i);
    assert(news[i] == k);
}

/// Where the blocks of `bs` have distinct ids, writing them in turn into
/// an empty map leaves each under its own id.
pub proof fn lemma_insert_blocks_at(bs: Seq<BlockView>, a: int)
    requires
        0 <= a < bs.len(),
        forall|x: int, y: int| 0 <= x < bs.len() && 0 <= y < bs.len() && x != y ==> #[trigger] bs[x].id() != #[trigger] bs[y].id(),
    ensures
        insert_blocks(Map::empty(), bs).contains_key(bs[a].id()),
        insert_blocks(Map::empty(), bs)[bs[a].id()] == bs[a],
    decreases bs.len(),
{
    if a < bs.len() - 1 {
        let rest = bs.drop_last();
        assert forall|x: int, y: int| 0 <= x < rest.len() && 0 <= y < rest.len() && x != y implies #[trigger] rest[x].id() != #[trigger] rest[y].id() by {
            assert(rest[x] == bs[x] && rest[y] == bs[y]);
        }
        assert(rest[a] == bs[a]);
        lemma_insert_blocks_at(rest, a);
        assert(bs.last().id() != bs[a].id());
    }
}

/// The renamed map holds, under the new id of each old block, that block
/// renamed.
pub proof fn lemma_renamed_map_at(m: BlockMapView, olds: Seq<Seq<char>>, news: Seq<Seq<char>>, a: int)
    requires
        olds.no_duplicates(),
        news.no_duplicates(),
        olds.len() == news.len(),
        0 <= a < olds.len(),
        forall|x: Seq<char>| #[trigger] m.contains_key(x) ==> m[x].id() == x,
        forall|i: int| 0 <= i < olds.len() ==> m.contains_key(#[trigger] olds[i]),
    ensures
        renamed_map(m, olds, news).contains_key(news[a]),
        renamed_map(m, olds, news)[news[a]] == renamed_block(olds, news, m[olds[a]]),
{
    let bs = olds.map_values(|x: Seq<char>| renamed_block(olds, news, m[x]));
    assert forall|i: int| 0 <= i < bs.len() implies #[trigger] bs[i].id() == news[i] by {
        assert(m.contains_key(olds[i]));
        lemma_renamed_block_id(olds, news, m[olds[i]]);
        lemma_renamed_old(olds, news, i);
    }
    assert forall|x: int, y: int| 0 <= x < bs.len() && 0 <= y < bs.len() && x != y implies #[trigger] bs[x].id() != #[trigger] bs[y].id() by {
        assert(bs[x].id() == news[x] && bs[y].id() == news[y]);
    }
    lemma_insert_blocks_at(bs, a);
    assert(bs[a].id() == news[a]);
}

/// Distinct ids of the tree, renamed, are distinct new ids.
pub proof fn lemma_renamed_all_fresh(olds: Seq<Seq<char>>, news: Seq<Seq<char>>, ids: Seq<Seq<char>>)
    requires
        olds.no_duplicates(),
        news.no_duplicates(),
        olds.len() == news.len(),
        ids.no_duplicates(),
        forall|j: int| 0 <= j < ids.len() ==> olds.contains(#[trigger] ids[j]),
    ensures
        renamed_all(olds, news, ids).no_duplicates(),
        forall|j: int| 0 <= j < ids.len() ==> news.contains(#[trigger] renamed_all(olds, news, ids)[j]),
{
    let r = renamed_all(olds, news, ids);
    assert forall|j: int| 0 <= j < ids.len() implies news.contains(#[trigger] r[j]) by {
        assert(olds.contains(ids[j]));
        let i = choose|i: int| 0 <= i < olds.len() && olds[i] == ids[j];
        lemma_renamed_old(olds, news, i);
        assert(news[i] == r[j]);
    }
    assert forall|a: int, b: int| 0 <= a < r.len() && 0 <= b < r.len() && a != b implies r[a] != r[b] by {
        assert(olds.contains(ids[a]));
        assert(olds.contains(ids[b]));
        let ia = choose|i: int| 0 <= i < olds.len() && olds[i] == ids[a];
        let ib = choose|i: int| 0 <= i < olds.len() && olds[i] == ids[b];
        lemma_renamed_old(olds, news, ia);
        lemma_renamed_old(olds, news, ib);
        assert(ids[a] != ids[b]);
    }
}

fn rename_id(olds: &Vec<String>, news: &Vec<String>, id: &String) -> (r: String)
    requires
        olds@.len() == news@.len(),
    ensures
        r@ == renamed(ids_view(olds@), ids_view(news@), id@),
{
    match position_of(olds, id.as_str()) {
        Some(i) => {
            proof {
                crate::blocks::lemma_index_of_id(ids_view(olds@), id@);
            }
            news[i].clone()
        },
        None => id.clone(),
    }
}

fn rename_ids(olds: &Vec<String>, news: &Vec<String>, ids: &Vec<String>) -> (r: Vec<String>)
    requires
        olds@.len() == news@.len(),
    ensures
        ids_view(r@) == renamed_all(ids_view(olds@), ids_view(news@), ids_view(ids@)),
{
    let mut r: Vec<String> = Vec::new();
    let mut i: usize = 0;
    while i < ids.len()
        invariant
            i <= ids@.len(),
            olds@.len() == news@.len(),
            r@.len() == i,
            forall|j: int| 0 <= j < i ==> #[trigger] r@[j]@ == renamed(ids_view(olds@), ids_view(news@), ids@[j]@),
        decreases ids@.len() - i,
    {
        r.push(rename_id(olds, news, &ids[i]));
        i += 1;
    }
    proof {
        assert(ids_view(r@) =~= renamed_all(ids_view(olds@), ids_view(news@), ids_view(ids@)));
    }
    r
}

fn rename_standard(olds: &Vec<String>, news: &Vec<String>, b: &StandardBlock) -> (r: StandardBlock)
    requires
        olds@.len() == news@.len(),
    ensures
        r@ == renamed_standard(ids_view(olds@), ids_view(news@), b@),
{
    let ghost o = ids_view(olds@);
    let ghost n = ids_view(news@);
    let content = match b.content_block() {
        Ok(c) => {
            let inline_blocks = rename_ids(olds, news, &c.inline_blocks);
            match b.content.update_block_content(ContentBlock { inline_blocks }) {
                Ok(t) => t,
                Err(_) => b.content.copy(),
            }
        },
        Err(_) => {
            proof {
                assert(b@.inline_blocks() =~= Seq::<Seq<char>>::empty());
                assert(renamed_all(o, n, b@.inline_blocks()) =~= Seq::<Seq<char>>::empty());
                assert(b@.content.with_inline_blocks(renamed_all(o, n, b@.inline_blocks())) == b@.content);
            }
            b.content.copy()
        },
    };
    StandardBlock {
        _id: rename_id(olds, news, &b._id),
        content,
        children: rename_ids(olds, news, &b.children),
        parent: rename_id(olds, news, &b.parent),
        marks: copy_marks(&b.marks),
    }
}

fn rename_block(olds: &Vec<String>, news: &Vec<String>, b: &Block) -> (r: Block)
    requires
        olds@.len() == news@.len(),
    ensures
        r@ == renamed_block(ids_view(olds@), ids_view(news@), b@),
{
    match b {
        Block::StandardBlock(s) => Block::StandardBlock(rename_standard(olds, news, s)),
        Block::InlineBlock(i) => {
            let c = i.copy();
            Block::InlineBlock(InlineBlock {
                _id: rename_id(olds, news, &i._id),
                content: c.content,
                marks: c.marks,
                parent: rename_id(olds, news, &i.parent),
            })
        },
        Block::Root(r) => Block::Root(RootBlock::from(rename_id(olds, news, &r._id), rename_ids(olds, news, &r.children))),
    }
}

/// The tree `(m2, tops2)` is the tree `(m, tops)` with each block `olds[i]`
/// of `m` renamed to `news[i]`, and every id the blocks hold renamed with it.
pub open spec fn reassigned(
    m: BlockMapView,
    tops: Seq<StandardBlock>,
    m2: BlockMapView,
    tops2: Seq<StandardBlock>,
    olds: Seq<Seq<char>>,
    news: Seq<Seq<char>>,
) -> bool {
    &&& olds.len() == news.len()
    &&& olds.no_duplicates()
    &&& olds.to_set() == m.dom()
    &&& m2 == renamed_map(m, olds, news)
    &&& tops2.len() == tops.len()
    &&& forall|i: int| 0 <= i < tops.len() ==> #[trigger] tops2[i]@ == renamed_standard(olds, news, tops[i]@)
}

impl Tree {
    /// Gives every block of the tree a fresh id from `new_ids`, and renames
    /// each id that the blocks hold (parents, children, inline blocks) to
    /// match, so that the copied blocks can stand in the document beside the
    /// blocks they were copied from. Where `new_ids` holds fewer ids than the
    /// tree has blocks, an error, and nothing changes.
    pub fn reassign_ids(&mut self, new_ids: &mut NewIds) -> (r: Result<(), StepError>)
        ensures
            r is Ok <==> old(new_ids).ids().len() >= old(self).block_map@.dom().len(),
            r is Err ==> *final(new_ids) == *old(new_ids) && *final(self) == *old(self),
            r is Ok ==> ({
                let n = old(self).block_map@.dom().len();
                &&& final(new_ids).ids() == old(new_ids).ids().take(old(new_ids).ids().len() - n)
                &&& exists|olds: Seq<Seq<char>>| #[trigger] reassigned(
                    old(self).block_map@,
                    old(self).top_blocks@,
                    final(self).block_map@,
                    final(self).top_blocks@,
                    olds,
                    taken_ids(old(new_ids).ids(), n),
                )
            }),
    {
        let blocks = self.block_map.blocks();
        let ghost m = self.block_map@;
        let ghost olds = blocks@.map_values(|b: Block| b@.id());
        let ghost ids0 = new_ids.ids();
        proof {
            assert(olds.no_duplicates()) by {
                assert forall|i: int, j: int| 0 <= i < olds.len() && 0 <= j < olds.len() && i != j implies olds[i] != olds[j] by {
                    assert(blocks@[i]@.id() != blocks@[j]@.id());
                }
            }
            assert(olds.to_set() =~= m.dom()) by {
                assert forall|k: Seq<char>| olds.to_set().contains(k) implies m.dom().contains(k) by {
                    let i = choose|i: int| 0 <= i < olds.len() && olds[i] == k;
                    assert(m.contains_key(blocks@[i]@.id()));
                }
                assert forall|k: Seq<char>| m.dom().contains(k) implies olds.to_set().contains(k) by {
                    assert(m.contains_key(k));
                    let i = choose|i: int| 0 <= i < blocks@.len() && blocks@[i]@.id() == k;
                    assert(olds[i] == k);
                }
            }
            olds.unique_seq_to_set();
        }
        if new_ids.len() < blocks.len() {
            return Err(step_error_msg("Not enough new ids for the copied blocks"));
        }
        let n: usize = blocks.len();
        let ghost news = taken_ids(ids0, n as nat);
        let mut old_ids: Vec<String> = Vec::new();
        let mut fresh: Vec<String> = Vec::new();
        let mut i: usize = 0;
        while i < n
            invariant
                n == blocks@.len(),
                olds == blocks@.map_values(|b: Block| b@.id()),
                news == taken_ids(ids0, n as nat),
                ids0.len() >= n,
                i <= n,
                ids_view(old_ids@) == olds.take(i as int),
                ids_view(fresh@) == news.take(i as int),
                new_ids.ids() == ids0.take(ids0.len() - i),
            decreases n - i,
        {
            let ghost prev_o = old_ids@;
            let ghost prev_f = fresh@;
            let oid = blocks[i].id();
            old_ids.push(oid);
            let id = match new_ids.get_id() {
                Ok(id) => id,
                Err(e) => return Err(e),
            };
            proof {
                assert(id@ == ids0[ids0.len() - 1 - i]@);
            }
            fresh.push(id);
            proof {
                assert(old_ids@ == prev_o.push(oid));
                assert(fresh@ == prev_f.push(id));
                assert(ids_view(prev_o.push(oid)) =~= ids_view(prev_o).push(oid@));
                assert(ids_view(prev_f.push(id)) =~= ids_view(prev_f).push(id@));
                assert(olds.take(i + 1) =~= olds.take(i as int).push(olds[i as int]));
                assert(news.take(i + 1) =~= news.take(i as int).push(news[i as int]));
                assert(ids_view(old_ids@) =~= olds.take(i + 1));
                assert(ids_view(fresh@) =~= news.take(i + 1));
                assert(new_ids.ids() =~= ids0.take(ids0.len() - (i + 1)));
            }
            i += 1;
        }
        proof {
            assert(ids_view(old_ids@) =~= olds);
            assert(ids_view(fresh@) =~= news);
        }
        let ghost rs = olds.map_values(|k: Seq<char>| renamed_block(olds, news, m[k]));
        let mut map = BlockMap::new();
        let mut scratch: Vec<String> = Vec::new();
        let mut k: usize = 0;
        while k < n
            invariant
                n == blocks@.len(),
                olds == blocks@.map_values(|b: Block| b@.id()),
                forall|j: int| 0 <= j < blocks@.len() ==> m.contains_key(#[trigger] blocks@[j]@.id()) && m[blocks@[j]@.id()] == blocks@[j]@,
                ids_view(old_ids@) == olds,
                ids_view(fresh@) == news,
                old_ids@.len() == fresh@.len(),
                rs == olds.map_values(|k: Seq<char>| renamed_block(olds, news, m[k])),
                k <= n,
                map@ == insert_blocks(Map::empty(), rs.take(k as int)),
            decreases n - k,
        {
            let b = rename_block(&old_ids, &fresh, &blocks[k]);
            proof {
                assert(m[blocks@[k as int]@.id()] == blocks@[k as int]@);
                assert(b@ == rs[k as int]);
                assert(rs.take(k + 1).drop_last() =~= rs.take(k as int));
            }
            map.update_block(b, &mut scratch)?;
            k += 1;
        }
        proof {
            assert(rs.take(n as int) =~= rs);
        }
        let mut tops: Vec<StandardBlock> = Vec::new();
        let mut t: usize = 0;
        while t < self.top_blocks.len()
            invariant
                old_ids@.len() == fresh@.len(),
                ids_view(old_ids@) == olds,
                ids_view(fresh@) == news,
                t <= self.top_blocks@.len(),
                tops@.len() == t,
                forall|j: int| 0 <= j < t ==> #[trigger] tops@[j]@ == renamed_standard(olds, news, self.top_blocks@[j]@),
            decreases self.top_blocks@.len() - t,
        {
            tops.push(rename_standard(&old_ids, &fresh, &self.top_blocks[t]));
            t += 1;
        }
        let ghost tops0 = self.top_blocks@;
        self.block_map = map;
        self.top_blocks = tops;
        proof {
            assert(reassigned(m, tops0, self.block_map@, self.top_blocks@, olds, news));
        }
        Ok(())
    }

    /// The last block of the tree in document order: the last top block, or
    /// going down from it through each last child, the first block without
    /// children. Where the tree has no top blocks, a child is missing from
    /// its map, or the child links loop, an error.
    pub fn get_last_block(&self) -> (r: Result<StandardBlock, StepError>)
        ensures
            self.top_blocks@.len() == 0 ==> r is Err,
            self.top_blocks@.len() > 0 && self.top_blocks@.last()@.children.len() == 0 ==> r is Ok,
            r matches Ok(b) ==> b@.children.len() == 0 && exists|n: nat| #[trigger] down_last(self.block_map@, self.top_blocks@.last()@, n) == Some(b@),
    {
        let k = self.top_blocks.len();
        if k == 0 {
            return Err(step_error_msg("No blocks were copied"));
        }
        let mut block = self.top_blocks[k - 1].copy();
        let fuel = self.block_map.block_count();
        let mut steps: usize = 0;
        while block.children.len() > 0
            invariant
                k == self.top_blocks@.len(),
                k > 0,
                steps <= fuel,
                down_last(self.block_map@, self.top_blocks@.last()@, steps as nat) == Some(block@),
                steps == 0 ==> block@ == self.top_blocks@.last()@,
                self.top_blocks@.last()@.children.len() == 0 ==> steps == 0,
            decreases fuel - steps,
        {
            if steps == fuel {
                return Err(step_error_msg("Child links loop"));
            }
            let n = block.children.len();
            let child = self.block_map.get_standard_block(&block.children[n - 1])?;
            proof {
                assert(block@.children.last() == block.children@[n - 1]@);
            }
            block = child;
            steps += 1;
        }
        proof {
            assert(down_last(self.block_map@, self.top_blocks@.last()@, steps as nat) == Some(block@));
        }
        Ok(block)
    }
}

} // verus!
