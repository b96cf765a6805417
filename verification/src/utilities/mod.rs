use vstd::prelude::*;

use crate::blocks::{Block, BlockMap, BlockMapView, BlockView, inline_block_of, root_block_of, std_block_of};
use crate::blocks::standard_blocks::{StandardBlock, StandardBlockView};
use crate::blocks::tree::{child_index, down_last, lemma_child_index, root_block_of_parent, sibling_id, up};
use crate::steps_generator::{StepError, step_error_msg};
use crate::steps_generator::selection::{SubSelection, lemma_layers_len};
use crate::text::str_eq;
use crate::utilities::walk::{lemma_walk_end, lemma_walk_push, walk_next, walk_reaches, walk_step, walked};

pub mod renaming;
pub mod walk;
pub mod update_state_tools;

verus! {

/// Copied blocks: the top blocks, and a map holding them with their inline
/// blocks and descendants.
pub struct Tree {
    pub top_blocks: Vec<StandardBlock>,
    pub block_map: BlockMap,
}

impl Tree {
    /// A copy of the tree.
    pub fn copy(&self) -> (t: Self)
        ensures
            t.block_map@ == self.block_map@,
            t.top_blocks@.len() == self.top_blocks@.len(),
            forall|i: int| 0 <= i < self.top_blocks@.len() ==> #[trigger] t.top_blocks@[i]@ == self.top_blocks@[i]@,
    {
        let mut top_blocks: Vec<StandardBlock> = Vec::new();
        let mut i: usize = 0;
        while i < self.top_blocks.len()
            invariant
                i <= self.top_blocks@.len(),
                top_blocks@.len() == i,
                forall|j: int| 0 <= j < i ==> #[trigger] top_blocks@[j]@ == self.top_blocks@[j]@,
            decreases self.top_blocks@.len() - i,
        {
            top_blocks.push(self.top_blocks[i].copy());
            i += 1;
        }
        Tree { top_blocks, block_map: self.block_map.copy() }
    }
}

/// How `get_blocks_between` hands the blocks back.
#[derive(PartialEq, Eq, Clone, Copy, Debug, Structural)]
pub enum BlockStructure {
    Flat,
    Tree,
}

/// The blocks between two positions: all of them in order, or the top ones
/// with a map of everything between.
pub enum BlocksBetween {
    Flat(Vec<StandardBlock>),
    Tree { top_blocks: Vec<StandardBlock>, block_map: BlockMap },
}

/// Both ends of the selection lie in the same standard block, a child of
/// the root, whose inline blocks are all there.
pub open spec fn one_block_under_root(m: BlockMapView, from: SubSelection, to: SubSelection) -> bool {
    let b = std_block_of(m, from@[from@.len() - 2].block_id)->0;
    &&& from@.len() >= 2 && to@.len() >= 2
    &&& from@[from@.len() - 2].block_id == to@[to@.len() - 2].block_id
    &&& std_block_of(m, from@[from@.len() - 2].block_id) is Some
    &&& root_block_of(m, b.parent) is Some
    &&& b.has_content()
    &&& forall|i: int| 0 <= i < b.inline_blocks().len() ==> inline_block_of(m, #[trigger] b.inline_blocks()[i]) is Some
}

/// The ends of the selection lie one layer into standard blocks; the block
/// of `from` climbs to the root, and the walk from it reaches the block of
/// `to`.
pub open spec fn spans_blocks(m: BlockMapView, from: SubSelection, to: SubSelection) -> bool {
    let f = std_block_of(m, from@[from@.len() - 2].block_id)->0;
    &&& from@.len() >= 2 && to@.len() >= 2
    &&& std_block_of(m, from@[from@.len() - 2].block_id) is Some
    &&& exists|d: nat| d <= m.dom().len() && #[trigger] crate::blocks::tree::reaches_root(m, f.id, d)
    &&& walk_reaches(m, f, to@[to@.len() - 2].block_id, m.dom().len())
}

/// Goes through and gets every standard block that is selected (even
/// partially), in document order from the block of `from` to the block of
/// `to` (each given by their second deepest layer): a block's first child
/// comes after it, else its next sibling, else its parent's next sibling.
/// Flat: every block on the way. Tree: the blocks no deeper than where the
/// walk started (and those under the root), with a map of every block on
/// the way and its inline blocks. The last block loses its children. Where
/// the walk runs out of blocks before `to`, or loops, an error.
pub fn get_blocks_between(
    from: &SubSelection,
    to: &SubSelection,
    block_structure: BlockStructure,
    block_map: &BlockMap,
) -> (r: Result<BlocksBetween, StepError>)
    ensures
        r matches Ok(BlocksBetween::Flat(_)) ==> block_structure == BlockStructure::Flat,
        r matches Ok(BlocksBetween::Tree { .. }) ==> block_structure == BlockStructure::Tree,
        from@.len() < 2 || to@.len() < 2 ==> r is Err,
        r matches Ok(BlocksBetween::Flat(bs)) ==> bs@.len() >= 1 && forall|i: int|
            0 <= i < bs@.len() - 1 ==> std_block_of(block_map@, #[trigger] bs@[i]@.id) == Some(bs@[i]@),
        r matches Ok(BlocksBetween::Flat(bs)) ==> bs@[0]@.id == from@[from@.len() - 2].block_id && bs@.last()@.id == to@[to@.len() - 2].block_id,
        r matches Ok(BlocksBetween::Flat(bs)) ==> walked(
            block_map@,
            bs@.map_values(|b: StandardBlock| b@),
            from@[from@.len() - 2].block_id,
            to@[to@.len() - 2].block_id,
        ),
        block_structure == BlockStructure::Flat && from@.len() >= 2 && to@.len() >= 2 && from@[from@.len() - 2].block_id
            == to@[to@.len() - 2].block_id && std_block_of(block_map@, from@[from@.len() - 2].block_id) is Some
            && root_block_of(block_map@, std_block_of(block_map@, from@[from@.len() - 2].block_id)->0.parent) is Some ==> r is Ok,
        one_block_under_root(block_map@, *from, *to) ==> r is Ok,
        spans_blocks(block_map@, *from, *to) && block_structure == BlockStructure::Flat ==> r is Ok,
{
    let ghost reach = spans_blocks(block_map@, *from, *to) && block_structure == BlockStructure::Flat;
    let mut blocks: Vec<StandardBlock> = Vec::new();
    let mut new_block_map = BlockMap::new();
    let from2 = from.copy().get_two_deepest_layers()?;
    proof {
        lemma_layers_len(*from);
        lemma_layers_len(from2);
    }
    let current_node = match block_map.get_standard_block(&from2.block_id) {
        Ok(current_node) => current_node,
        Err(_) => return Err(step_error_msg("Expected from block to be std block. Got inline block. Not allowed in this fn")),
    };
    proof {
        block_map.lemma_keys_are_ids();
    }
    let mut current_node = current_node;
    proof {
        if reach {
            assert(current_node@.id == from@[from@.len() - 2].block_id);
        }
    }
    let mut depth_from_root = current_node.depth_from_root(block_map)?;
    let to_second_deepest = to.copy().get_two_deepest_layers()?;
    proof {
        lemma_layers_len(*to);
        lemma_layers_len(to_second_deepest);
    }
    let mut fuel = block_map.block_count();
    let ghost mut vs: Seq<StandardBlockView> = Seq::empty();
    let ghost same = from@[from@.len() - 2].block_id == to@[to@.len() - 2].block_id;
    proof {
        assert(vs =~= blocks@.map_values(|b: StandardBlock| b@));
    }
    while !str_eq(current_node._id.as_str(), to_second_deepest.block_id.as_str())
        invariant
            std_block_of(block_map@, current_node@.id) == Some(current_node@),
            from@.len() >= 2,
            forall|i: int| 0 <= i < blocks@.len() ==> std_block_of(block_map@, #[trigger] blocks@[i]@.id) == Some(blocks@[i]@),
            block_structure == BlockStructure::Flat ==> blocks@.len() > 0 || current_node@.id == from@[from@.len() - 2].block_id,
            block_structure == BlockStructure::Flat && blocks@.len() > 0 ==> blocks@[0]@.id == from@[from@.len() - 2].block_id,
            forall|k: Seq<char>| #[trigger] block_map@.contains_key(k) ==> block_map@[k].id() == k,
            to_second_deepest@ == to@.subrange(to@.len() - 2, to@.len() as int),
            from2@ == from@.subrange(from@.len() - 2, from@.len() as int),
            same == (from@[from@.len() - 2].block_id == to@[to@.len() - 2].block_id),
            same ==> current_node@.id == to_second_deepest.block_id@,
            to@.len() >= 2,
            block_structure == BlockStructure::Flat && blocks@.len() == 0 ==> current_node@.id == from2@[0].block_id,
            vs == blocks@.map_values(|b: StandardBlock| b@),
            block_structure == BlockStructure::Flat ==> forall|i: int| 0 <= i < vs.len() - 1 ==> #[trigger] walk_next(block_map@, vs[i]) == std_block_of(block_map@, vs[i + 1].id),
            block_structure == BlockStructure::Flat && vs.len() > 0 ==> walk_next(block_map@, vs.last()) == Some(current_node@),
            block_structure == BlockStructure::Flat ==> forall|i: int| 0 <= i < vs.len() ==> #[trigger] vs[i].id != to_second_deepest.block_id@,
            reach == (spans_blocks(block_map@, *from, *to) && block_structure == BlockStructure::Flat),
            reach ==> walk_reaches(block_map@, current_node@, to_second_deepest.block_id@, fuel as nat),
        decreases fuel,
    {
        if fuel == 0 {
            return Err(step_error_msg("Block links loop"));
        }
        fuel -= 1;
        let (next_node, back_at_top) = walk_step(&current_node, block_map)?;
        proof {
            if reach {
                assert(walk_next(block_map@, current_node@) == Some(next_node@));
                assert(walk_reaches(block_map@, next_node@, to_second_deepest.block_id@, fuel as nat));
            }
        }
        if back_at_top {
            depth_from_root = 0;
        }
        if block_structure == BlockStructure::Tree {
            add_block_and_inline_blocks_to_new_block_map(block_map, &mut new_block_map, current_node.copy())?;
        }
        let ghost before = blocks@;
        let ghost cur = current_node@;
        if should_add_block(&current_node, &block_structure, block_map, depth_from_root)? {
            blocks.push(current_node);
            proof {
                let old_vs = vs;
                vs = vs.push(cur);
                assert(vs =~= blocks@.map_values(|b: StandardBlock| b@));
                if block_structure == BlockStructure::Flat {
                    lemma_walk_push(block_map@, old_vs, vs, cur, next_node@, to_second_deepest.block_id@);
                }
            }
        }
        proof {
            block_map.lemma_keys_are_ids();
        }
        current_node = next_node;
    }
    let ghost full = current_node@;
    current_node.children = Vec::new();
    proof {
        assert(crate::blocks::ids_view(current_node.children@) =~= Seq::<Seq<char>>::empty());
        assert(current_node@ == full.with_children(Seq::empty()));
    }
    if block_structure == BlockStructure::Tree {
        add_block_and_inline_blocks_to_new_block_map(block_map, &mut new_block_map, current_node.copy())?;
    }
    let ghost last = current_node@;
    let ghost before_vs = vs;
    let ghost before_blocks = blocks@;
    if should_add_block(&current_node, &block_structure, block_map, depth_from_root)? {
        blocks.push(current_node);
    }
    proof {
        if block_structure == BlockStructure::Flat {
            assert(blocks@.map_values(|b: StandardBlock| b@) =~= before_vs.push(last));
            if before_vs.len() > 0 {
                assert(before_vs[0] == before_blocks[0]@);
                assert(std_block_of(block_map@, before_blocks[0]@.id) == Some(before_blocks[0]@));
            }
            lemma_walk_end(block_map@, before_vs, before_vs.push(last), full, from2@[0].block_id, to_second_deepest.block_id@);
        }
    }
    return match block_structure {
        BlockStructure::Tree => Ok(BlocksBetween::Tree { top_blocks: blocks, block_map: new_block_map }),
        BlockStructure::Flat => Ok(BlocksBetween::Flat(blocks)),
    }
}

/// Whether the selection is a caret at the very start of a standard block:
/// the two ends agree, at offset 0 of the first inline block of its block.
pub fn caret_is_at_start_of_block(from: &SubSelection, to: &SubSelection, block_map: &BlockMap) -> (r: Result<bool, StepError>)
    ensures
        r matches Ok(v) ==> (v <==> from@ == to@ && from@.last().offset == 0
            && crate::blocks::tree::inline_index(block_map@, inline_block_of(block_map@, from@.last().block_id)->0.parent, from@.last().block_id) == 0),
        r is Err ==> from@ == to@ && from@.last().offset == 0 && inline_block_of(block_map@, from@.last().block_id) is None,
{
    proof {
        lemma_layers_len(*from);
    }
    if !from.same_as(to) {
        return Ok(false)
    }
    let d = from.get_deepest_subselection();
    proof {
        lemma_layers_len(*d);
    }
    if d.offset != 0 {
        return Ok(false)
    }
    let inline_block = block_map.get_inline_block(&d.block_id)?;
    proof {
        block_map.lemma_keys_are_ids();
    }
    match inline_block.index(block_map) {
        Ok(i) => Ok(i == 0),
        Err(_) => Ok(false),
    }
}

/// `d` standard blocks stand between `b` and the root of `m`: `d` steps up
/// from `b` reach a block under the root, and no fewer do.
pub open spec fn is_depth(m: BlockMapView, b: StandardBlockView, d: nat) -> bool {
    &&& (d == 0 <==> root_block_of(m, b.parent) is Some)
    &&& d > 0 ==> up(m, b.id, d) is Some && root_block_of(m, up(m, b.id, d)->0.parent) is Some
    &&& forall|j: nat| 1 <= j < d ==> up(m, b.id, j) is Some && root_block_of(m, #[trigger] up(m, b.id, j)->0.parent) is None
}

/// Whether the walk keeps `current_node`: always when flat; else where its
/// parent is the root or it is no deeper than `depth_from_root`.
fn should_add_block(
    current_node: &StandardBlock,
    block_structure: &BlockStructure,
    block_map: &BlockMap,
    depth_from_root: usize,
) -> (r: Result<bool, StepError>)
    ensures
        *block_structure == BlockStructure::Flat ==> r == Ok::<bool, StepError>(true),
        root_block_of_parent(block_map@, current_node@) ==> r == Ok::<bool, StepError>(true),
        *block_structure != BlockStructure::Flat && !root_block_of_parent(block_map@, current_node@) && r is Ok
            ==> exists|d: nat| #[trigger] is_depth(block_map@, current_node@, d) && r->Ok_0 == (d <= depth_from_root),
{
    if *block_structure == BlockStructure::Flat || current_node.parent_is_root(block_map) {
        return Ok(true)
    }
    let d = current_node.depth_from_root(block_map)?;
    proof {
        assert(is_depth(block_map@, current_node@, d as nat));
    }
    Ok(d <= depth_from_root)
}

/// Writes `block` and each of its inline blocks into `new_block_map`.
fn add_block_and_inline_blocks_to_new_block_map(
    block_map: &BlockMap,
    new_block_map: &mut BlockMap,
    block: StandardBlock,
) -> (r: Result<(), StepError>)
    ensures
        r is Ok ==> final(new_block_map)@.contains_key(block@.id) && final(new_block_map)@[block@.id] == BlockView::Standard(block@),
        r is Ok <==> block@.has_content() && forall|i: int| 0 <= i < block@.inline_blocks().len() ==> inline_block_of(block_map@, #[trigger] block@.inline_blocks()[i]) is Some,
{
    let content_block = block.content_block()?;
    let mut i: usize = 0;
    while i < content_block.inline_blocks.len()
        invariant
            i <= content_block.inline_blocks@.len(),
            crate::blocks::ids_view(content_block.inline_blocks@) == block@.inline_blocks(),
            forall|j: int| 0 <= j < i ==> inline_block_of(block_map@, #[trigger] block@.inline_blocks()[j]) is Some,
        decreases content_block.inline_blocks@.len() - i,
    {
        assert(block@.inline_blocks()[i as int] == content_block.inline_blocks@[i as int]@);
        let inline_block = match block_map.get_inline_block(&content_block.inline_blocks[i]) {
            Ok(b) => b,
            Err(e) => return Err(e),
        };
        let mut scratch: Vec<String> = Vec::new();
        new_block_map.update_block(Block::InlineBlock(inline_block), &mut scratch)?;
        i += 1;
    }
    let mut scratch: Vec<String> = Vec::new();
    new_block_map.update_block(Block::StandardBlock(block), &mut scratch)?;
    return Ok(())
}

/// The block that follows `b` in document order when `b` has no children:
/// the next sibling of `b`, or else that of its nearest standard ancestor
/// that has one, climbing at most `k` times. Nothing where a block is not
/// found among its parent's children.
pub open spec fn next_after(m: BlockMapView, b: StandardBlockView, k: nat) -> Option<StandardBlockView>
    decreases k,
{
    if child_index(m, b.parent, b.id) < 0 {
        None
    } else {
        match sibling_id(m, b, 1) {
            Some(id) => std_block_of(m, id),
            None => if k == 0 {
                None
            } else {
                match std_block_of(m, b.parent) {
                    Some(p) => next_after(m, p, (k - 1) as nat),
                    None => None,
                }
            },
        }
    }
}

/// `n` follows `b` in document order: its first child, or else the block
/// after it.
pub open spec fn follows_in_tree(m: BlockMapView, b: StandardBlockView, n: StandardBlockView) -> bool {
    if b.children.len() > 0 {
        std_block_of(m, b.children[0]) == Some(n)
    } else {
        exists|k: nat| next_after(m, b, k) == Some(n)
    }
}

/// `p` comes just before `b` in document order: the youngest descendant
/// (following last children) of the sibling before `b`, or else the parent
/// of `b`.
pub open spec fn precedes_in_tree(m: BlockMapView, b: StandardBlockView, p: StandardBlockView) -> bool {
    let i = child_index(m, b.parent, b.id);
    if i > 0 {
        std_block_of(m, sibling_id(m, b, -1)->0) is Some && p.children.len() == 0 && exists|n: nat|
            #[trigger] down_last(m, std_block_of(m, sibling_id(m, b, -1)->0)->0, n) == Some(p)
    } else {
        i == 0 && std_block_of(m, b.parent) == Some(p)
    }
}

/// The standard block after `current_node` in document order. Where there
/// is none (the last block of the page), or the links of the map loop, an
/// error.
pub fn get_next_block_in_tree(current_node: &StandardBlock, block_map: &BlockMap) -> (r: Result<StandardBlock, StepError>)
    ensures
        r matches Ok(n) ==> follows_in_tree(block_map@, current_node@, n@),
        current_node@.children.len() > 0 ==> (r is Ok <==> std_block_of(block_map@, current_node@.children[0]) is Some),
        current_node@.children.len() == 0 && next_after(block_map@, current_node@, 0) is Some ==> r is Ok,
        current_node@.children.len() == 0 ==> (r is Ok <==> next_after(block_map@, current_node@, block_map@.dom().len()) is Some),
        current_node@.children.len() == 0 && r is Ok ==> next_after(block_map@, current_node@, block_map@.dom().len())
            == Some(r->Ok_0@),
{
    if current_node.children.len() > 0 {
        return block_map.get_standard_block(&current_node.children[0]);
    }
    let mut node = current_node.copy();
    let ghost mut k: nat = 0;
    let mut fuel = block_map.block_count();
    loop
        invariant
            current_node@.children.len() == 0,
            forall|j: nat| #[trigger] next_after(block_map@, node@, j) == next_after(block_map@, current_node@, k + j),
            k == 0 ==> node@ == current_node@,
            k + fuel == block_map@.dom().len(),
        decreases fuel,
    {
        proof {
            lemma_child_index(block_map@, node@.parent, node@.id);
        }
        let ghost f0 = fuel as nat;
        let sibling = match node.next_sibling(block_map) {
            Ok(s) => s,
            Err(e) => {
                proof {
                    assert(next_after(block_map@, node@, f0) is None);
                }
                return Err(e);
            },
        };
        match sibling {
            Some(b) => {
                assert(next_after(block_map@, node@, 0) == Some(b@));
                proof {
                    crate::utilities::walk::lemma_next_after_mono(block_map@, current_node@, k, block_map@.dom().len());
                }
                return Ok(b);
            },
            None => {},
        }
        if fuel == 0 {
            proof {
                assert(next_after(block_map@, node@, 0) is None);
            }
            return Err(step_error_msg("Block links loop"));
        }
        fuel -= 1;
        let parent = match block_map.get_standard_block(&node.parent) {
            Ok(p) => p,
            Err(_) => {
                proof {
                    assert(next_after(block_map@, node@, f0) is None);
                }
                return Err(step_error_msg("There is no block after this one"))
            },
        };
        proof {
            assert forall|j: nat| #[trigger] next_after(block_map@, parent@, j) == next_after(
                block_map@,
                current_node@,
                k + 1 + j,
            ) by {
                assert(next_after(block_map@, node@, j + 1) == next_after(block_map@, parent@, j));
            }
            k = k + 1;
        }
        node = parent;
    }
}

/// The standard block before `current_node` in document order. Where there
/// is none (the first block of the page), or the links of the map loop, an
/// error.
pub fn get_previous_block_in_tree(current_node: &StandardBlock, block_map: &BlockMap) -> (r: Result<StandardBlock, StepError>)
    ensures
        r matches Ok(p) ==> precedes_in_tree(block_map@, current_node@, p@),
        child_index(block_map@, current_node@.parent, current_node@.id) == 0 ==> (r is Ok <==> std_block_of(
            block_map@,
            current_node@.parent,
        ) is Some),
{
    proof {
        lemma_child_index(block_map@, current_node@.parent, current_node@.id);
    }
    match current_node.get_previous(block_map)? {
        Some(previous) => previous.get_youngest_descendant(block_map),
        None => block_map.get_standard_block(&current_node.parent),
    }
}

} // verus!
