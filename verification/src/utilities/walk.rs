use vstd::prelude::*;

use crate::blocks::{BlockMap, BlockMapView, root_block_of, std_block_of};
use crate::blocks::standard_blocks::{StandardBlock, StandardBlockView};
use crate::blocks::tree::{child_index, sibling_id};
use crate::steps_generator::{StepError, step_error_msg};
use crate::utilities::{get_next_block_in_tree, next_after};

verus! {

/// The block that the walk of `get_blocks_between` visits after `b`: its
/// first child, or else its next sibling, or else the next sibling of its
/// nearest standard ancestor that has one (climbing at most once per block
/// of the map).
#[verifier::opaque]
pub open spec fn walk_next(m: BlockMapView, b: StandardBlockView) -> Option<StandardBlockView> {
    if b.children.len() > 0 {
        std_block_of(m, b.children[0])
    } else {
        next_after(m, b, m.dom().len())
    }
}

/// The walk from `b` reaches the block `last` within `fuel` steps.
pub open spec fn walk_reaches(m: BlockMapView, b: StandardBlockView, last: Seq<char>, fuel: nat) -> bool
    decreases fuel,
{
    b.id == last || (fuel > 0 && walk_next(m, b) is Some && walk_reaches(m, walk_next(m, b)->0, last, (fuel - 1) as nat))
}

/// The walk facts carry over when the current block is kept and the walk
/// moves on to the block after it.
pub proof fn lemma_walk_push(
    m: BlockMapView,
    before: Seq<StandardBlockView>,
    after: Seq<StandardBlockView>,
    cur: StandardBlockView,
    next: StandardBlockView,
    last: Seq<char>,
)
    requires
        forall|i: int| 0 <= i < before.len() - 1 ==> #[trigger] walk_next(m, before[i]) == std_block_of(m, before[i + 1].id),
        before.len() > 0 ==> walk_next(m, before.last()) == Some(cur),
        forall|i: int| #![trigger before[i]] 0 <= i < before.len() ==> before[i].id != last,
        std_block_of(m, cur.id) == Some(cur),
        cur.id != last,
        after.len() == before.len() + 1,
        forall|i: int| #![trigger after[i]] 0 <= i < before.len() ==> after[i] == before[i],
        after[before.len() as int] == cur,
        walk_next(m, cur) == Some(next),
    ensures
        forall|i: int| 0 <= i < after.len() - 1 ==> #[trigger] walk_next(m, after[i]) == std_block_of(m, after[i + 1].id),
        walk_next(m, after.last()) == Some(next),
        forall|i: int| #![trigger after[i]] 0 <= i < after.len() ==> after[i].id != last,
{
    assert forall|i: int| 0 <= i < after.len() - 1 implies #[trigger] walk_next(m, after[i]) == std_block_of(m, after[i + 1].id) by {
        assert(after[i] == before[i]);
        if i < before.len() - 1 {
            assert(after[i + 1] == before[i + 1]);
        } else {
            assert(i == before.len() - 1);
        }
    }
    assert forall|i: int| #![trigger after[i]] 0 <= i < after.len() implies after[i].id != last by {
        if i < before.len() {
            assert(after[i] == before[i]);
        }
    }
}

/// The block that the walk visits after `current_node`, and whether the
/// walk climbed out of a block whose parent is the root.
pub fn walk_step(current_node: &StandardBlock, block_map: &BlockMap) -> (r: Result<(StandardBlock, bool), StepError>)
    ensures
        r matches Ok((n, _)) ==> walk_next(block_map@, current_node@) == Some(n@) && std_block_of(block_map@, n@.id) == Some(n@),
        r is Ok <==> walk_next(block_map@, current_node@) is Some,
        r matches Ok((_, back_at_top)) ==> (back_at_top ==> current_node@.children.len() == 0 && sibling_id(
            block_map@,
            current_node@,
            1,
        ) is None && root_block_of(block_map@, current_node@.parent) is Some),
{
    reveal(walk_next);
    proof {
        block_map.lemma_keys_are_ids();
    }
    if current_node.children.len() > 0 {
        assert(current_node@.children[0] == current_node.children@[0]@);
        let next = block_map.get_standard_block(&current_node.children[0])?;
        return Ok((next, false));
    }
    let sibling = match current_node.next_sibling(block_map) {
        Ok(s) => s,
        Err(_) => return Err(step_error_msg("Reached no end of nodes before we found the to block")),
    };
    match sibling {
        Some(sibling) => {
            proof {
                crate::blocks::tree::lemma_child_index(block_map@, current_node@.parent, current_node@.id);
                lemma_next_after_mono(block_map@, current_node@, 0, block_map@.dom().len());
            }
            Ok((sibling, false))
        },
        None => {
            let next = match get_next_block_in_tree(current_node, block_map) {
                Ok(n) => n,
                Err(_) => return Err(step_error_msg("Reached no end of nodes before we found the to block")),
            };
            proof {
                lemma_next_after_in_map(block_map@, current_node@, block_map@.dom().len());
            }
            let back_at_top = current_node.parent_is_root(block_map);
            Ok((next, back_at_top))
        },
    }
}

/// The block that the climb finds is stored under its own id.
pub proof fn lemma_next_after_in_map(m: BlockMapView, b: StandardBlockView, k: nat)
    requires
        forall|key: Seq<char>| #[trigger] m.contains_key(key) ==> m[key].id() == key,
    ensures
        next_after(m, b, k) matches Some(n) ==> std_block_of(m, n.id) == Some(n),
    decreases k,
{
    if child_index(m, b.parent, b.id) >= 0 && sibling_id(m, b, 1) is None && k > 0 && std_block_of(m, b.parent) is Some {
        lemma_next_after_in_map(m, std_block_of(m, b.parent)->0, (k - 1) as nat);
    }
}

/// Once the climb finds a block, more climbs find the same one.
pub proof fn lemma_next_after_mono(m: BlockMapView, b: StandardBlockView, k: nat, k2: nat)
    requires
        next_after(m, b, k) is Some,
        k <= k2,
    ensures
        next_after(m, b, k2) == next_after(m, b, k),
    decreases k,
{
    if child_index(m, b.parent, b.id) >= 0 && sibling_id(m, b, 1) is None {
        let p = std_block_of(m, b.parent)->0;
        lemma_next_after_mono(m, p, (k - 1) as nat, (k2 - 1) as nat);
    }
}

/// `bs` is the walk from the block `first` to the block `last` of `m`: each
/// block is the one visited after the block before it, none but the last
/// is `last`, and the last one is `last` without its children.
pub open spec fn walked(m: BlockMapView, bs: Seq<StandardBlockView>, first: Seq<char>, last: Seq<char>) -> bool {
    &&& bs.len() >= 1
    &&& bs.len() > 1 ==> std_block_of(m, first) == Some(bs[0])
    &&& bs.len() == 1 ==> first == last
    &&& forall|i: int| 0 <= i < bs.len() - 1 ==> std_block_of(m, #[trigger] bs[i].id) == Some(bs[i])
    &&& forall|i: int| 0 <= i < bs.len() - 1 ==> #[trigger] walk_next(m, bs[i]) == std_block_of(m, bs[i + 1].id)
    &&& forall|i: int| 0 <= i < bs.len() - 1 ==> #[trigger] bs[i].id != last
    &&& std_block_of(m, last) is Some && bs.last() == std_block_of(m, last)->0.with_children(Seq::empty())
}

/// The walk facts give `walked` once the last block, without its children,
/// is kept.
pub proof fn lemma_walk_end(
    m: BlockMapView,
    before: Seq<StandardBlockView>,
    after: Seq<StandardBlockView>,
    full: StandardBlockView,
    first: Seq<char>,
    last: Seq<char>,
)
    requires
        forall|i: int| 0 <= i < before.len() - 1 ==> #[trigger] walk_next(m, before[i]) == std_block_of(m, before[i + 1].id),
        before.len() > 0 ==> walk_next(m, before.last()) == Some(full),
        forall|i: int| #![trigger before[i]] 0 <= i < before.len() ==> before[i].id != last,
        forall|i: int| 0 <= i < before.len() ==> std_block_of(m, #[trigger] before[i].id) == Some(before[i]),
        before.len() > 0 ==> std_block_of(m, first) == Some(before[0]),
        before.len() == 0 ==> full.id == first,
        std_block_of(m, full.id) == Some(full),
        full.id == last,
        after.len() == before.len() + 1,
        forall|i: int| #![trigger after[i]] 0 <= i < before.len() ==> after[i] == before[i],
        after[before.len() as int] == full.with_children(Seq::empty()),
    ensures
        walked(m, after, first, last),
{
    assert forall|i: int| 0 <= i < after.len() - 1 implies #[trigger] walk_next(m, after[i]) == std_block_of(m, after[i + 1].id) by {
        assert(after[i] == before[i]);
        if i < before.len() - 1 {
            assert(after[i + 1] == before[i + 1]);
        } else {
            assert(after[i + 1].id == full.id);
        }
    }
    assert forall|i: int| #![trigger after[i]] 0 <= i < after.len() - 1 implies after[i].id != last by {
        assert(after[i] == before[i]);
    }
    assert forall|i: int| 0 <= i < after.len() - 1 implies std_block_of(m, #[trigger] after[i].id) == Some(after[i]) by {
        assert(after[i] == before[i]);
    }
    if before.len() > 0 {
        assert(after[0] == before[0]);
    }
}

} // verus!
