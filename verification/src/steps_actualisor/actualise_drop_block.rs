use vstd::prelude::*;

use crate::blocks::{Block, BlockMap, BlockMapView, BlockView, extends, std_block_of};
use crate::blocks::standard_blocks::{StandardBlock, StandardBlockKind, StandardBlockType, StandardBlockTypeView, StandardBlockView};
use crate::blocks::standard_blocks::layout_block::LayoutBlock;
use crate::blocks::tree::child_index;
use crate::new_ids::NewIds;
use crate::steps_actualisor::UpdatedState;
use crate::steps_generator::{StepError, step_error_msg};
use crate::steps_generator::event::{DropBlockEvent, Side};
use crate::utilities::update_state_tools;

verus! {

/// The document without the dragged block among its parent's children
/// (where its parent is in the document).
pub open spec fn without_dragged(m: BlockMapView, drag_id: Seq<char>) -> BlockMapView {
    let b = std_block_of(m, drag_id)->0;
    let p = m[b.parent];
    if m.contains_key(b.parent) {
        m.insert(p.id(), p.with_children(p.children().remove(crate::blocks::index_of_id(p.children(), b.id))))
    } else {
        m
    }
}

/// The document after dropping a block above (or below) another: the
/// dragged block leaves its parent and goes just before (or after) the drop
/// block, under the drop block's parent.
pub open spec fn dropped_beside(m: BlockMapView, e: DropBlockEvent) -> BlockMapView {
    let m1 = without_dragged(m, e.drag_block_id@);
    let d = std_block_of(m1, e.drop_block_id@)->0;
    let q = m1[d.parent];
    let i = child_index(m1, d.parent, d.id) + if e.side_dropped == Side::Bottom { 1int } else { 0 };
    crate::blocks::tree::reparent(m1, seq![e.drag_block_id@], q.id()).insert(
        q.id(),
        q.with_children(q.children().insert(i, e.drag_block_id@)),
    )
}

/// The block `drag` sits alone in a new column of `m`, whose id is one of
/// the next three fresh ids.
pub open spec fn in_a_new_column(m: BlockMapView, drag: Seq<char>, ids: Seq<String>) -> bool {
    let t = crate::utilities::renaming::taken_ids(ids, 3);
    in_new_column(m, drag, t[0]) || in_new_column(m, drag, t[1]) || in_new_column(m, drag, t[2])
}

/// The drop block `d` is a layout block or sits in one, in `m`.
pub open spec fn in_layout(m: BlockMapView, d: StandardBlockView) -> bool {
    d.content.kind == StandardBlockKind::Layout || (m.contains_key(d.parent) && m[d.parent] is Standard
        && m[d.parent]->Standard_0.content.kind == StandardBlockKind::Layout)
}

/// The row that a new column beside the drop block `d` goes into: `d`
/// itself where it is a row, its parent where it is a column, else its
/// grandparent.
pub open spec fn row_of(m: BlockMapView, d: StandardBlockView) -> Seq<char> {
    if d.content.kind == StandardBlockKind::Layout {
        if d.content.horizontal {
            d.id
        } else {
            d.parent
        }
    } else {
        std_block_of(m, d.parent)->0.parent
    }
}

/// Where in that row the new column goes: first or last in a row dropped
/// on; just before (left) or just after (right) the column dropped on, or
/// the column that holds the drop block.
pub open spec fn column_slot(m: BlockMapView, d: StandardBlockView, side: Side) -> int {
    let after = if side == Side::Left { 0int } else { 1int };
    if d.content.kind == StandardBlockKind::Layout {
        if d.content.horizontal {
            if side == Side::Left { 0 } else { d.children.len() as int }
        } else {
            child_index(m, d.parent, d.id) + after
        }
    } else {
        let q = std_block_of(m, d.parent)->0;
        child_index(m, q.parent, q.id) + after
    }
}

/// Where a block dropped beside another in no layout goes: a new row `t[0]`
/// of two columns `t[1]` and `t[2]` takes the drop block's place among its
/// parent's children; the dragged block sits alone in the left column when
/// dropped on the left, in the right one when dropped on the right, and the
/// drop block in the other.
pub open spec fn in_new_row(m: BlockMapView, m2: BlockMapView, e: DropBlockEvent, t: Seq<Seq<char>>) -> bool {
    let d = std_block_of(m, e.drop_block_id@)->0;
    let (left, right) = if e.side_dropped == Side::Left {
        (e.drag_block_id@, e.drop_block_id@)
    } else {
        (e.drop_block_id@, e.drag_block_id@)
    };
    &&& std_block_of(m2, t[0]) is Some
    &&& std_block_of(m2, t[0])->0.content.kind == StandardBlockKind::Layout
    &&& std_block_of(m2, t[0])->0.content.horizontal
    &&& std_block_of(m2, t[0])->0.children == seq![t[1], t[2]]
    &&& in_new_column(m2, left, t[1])
    &&& in_new_column(m2, right, t[2])
    &&& m2.contains_key(d.parent)
    &&& m2[d.parent].children() == m[d.parent].children().update(child_index(m, d.parent, d.id), t[0])
}

/// A drop beside the drop block can be made: the dragged block can leave
/// its parent; the drop block and its parent are in the document without
/// it; in a layout, there is a fresh id, and the row and the place in it are
/// found; elsewhere, the drop block is a child of its parent and there are
/// three fresh ids.
pub open spec fn side_drop_ok(m: BlockMapView, e: DropBlockEvent, ids: Seq<String>) -> bool {
    let b = std_block_of(m, e.drag_block_id@)->0;
    let m1 = without_dragged(m, e.drag_block_id@);
    let d = std_block_of(m1, e.drop_block_id@)->0;
    let h = row_of(m1, d);
    &&& (e.side_dropped == Side::Left || e.side_dropped == Side::Right)
    &&& std_block_of(m, e.drag_block_id@) is Some
    &&& (m.contains_key(b.parent) ==> !(m[b.parent] is Inline) && crate::blocks::index_of_id(m[b.parent].children(), b.id) >= 0)
    &&& std_block_of(m1, e.drop_block_id@) is Some
    &&& m1.contains_key(d.parent)
    &&& crate::utilities::renaming::fresh_for(ids, 3, m)
    &&& parents_present(m)
    &&& e.drag_block_id@ != e.drop_block_id@
    &&& d.parent != e.drag_block_id@
    &&& d.parent != d.id
    &&& if in_layout(m1, d) {
        &&& ids.len() >= 1
        &&& h != e.drag_block_id@
        &&& m1.contains_key(h) && !(m1[h] is Inline)
        &&& 0 <= column_slot(m1, d, e.side_dropped) <= m1[h].children().len()
        &&& d.content.kind == StandardBlockKind::Layout && !d.content.horizontal ==> child_index(m1, d.parent, d.id) >= 0
        &&& d.content.kind != StandardBlockKind::Layout ==> child_index(
            m1,
            std_block_of(m1, d.parent)->0.parent,
            std_block_of(m1, d.parent)->0.id,
        ) >= 0
    } else {
        ids.len() >= 3 && child_index(m1, d.parent, d.id) >= 0
    }
}

/// Where a block dropped beside another goes (see `in_layout`), given
/// fresh ids `ids` for the new column or row and a document `m` in which
/// every parent is present: in a layout, the new column (the first fresh
/// id) enters the row at the slot beside the drop block; elsewhere a new
/// row of two columns takes the drop block's place (`in_new_row`).
pub open spec fn dropped_aside(m: BlockMapView, e: DropBlockEvent, ids: Seq<String>, s: BlockMapView) -> bool {
    let m1 = without_dragged(m, e.drag_block_id@);
    let d = std_block_of(m1, e.drop_block_id@)->0;
    let t = crate::utilities::renaming::taken_ids(ids, 3);
    let h = row_of(m1, d);
    crate::utilities::renaming::fresh_for(ids, 3, m) && parents_present(m) && e.drag_block_id@ != e.drop_block_id@
        && d.parent != e.drag_block_id@ && d.parent != d.id ==> if in_layout(m1, d) {
        h != e.drag_block_id@ ==> s.contains_key(h) && s[h].children() == m1[h].children().insert(
            column_slot(m1, d, e.side_dropped),
            t[0],
        )
    } else {
        in_new_row(m1, s, e, t)
    }
}

/// Every standard block of `m` has its parent in `m`.
pub open spec fn parents_present(m: BlockMapView) -> bool {
    forall|k: Seq<char>| #[trigger] std_block_of(m, k) is Some ==> m.contains_key(std_block_of(m, k)->0.parent)
}

/// Moves the dragged block to where it was dropped: above or below the drop
/// block; or beside it, in a new column of the layout it is in, or in a new
/// row of two columns that takes its place.
pub fn actualise_drop_block(
    drop_block_event: DropBlockEvent,
    block_map: BlockMap,
    blocks_to_update: Vec<String>,
    new_ids: &mut NewIds,
) -> (r: Result<UpdatedState, StepError>)
    ensures
        std_block_of(block_map@, drop_block_event.drag_block_id@) is None ==> r is Err,
        ({
            let m = block_map@;
            let b = std_block_of(m, drop_block_event.drag_block_id@)->0;
            let m1 = without_dragged(m, drop_block_event.drag_block_id@);
            let d = std_block_of(m1, drop_block_event.drop_block_id@)->0;
            (drop_block_event.side_dropped == Side::Top || drop_block_event.side_dropped == Side::Bottom)
                && std_block_of(m, drop_block_event.drag_block_id@) is Some && (m.contains_key(b.parent) ==> !(m[b.parent] is Inline)
                && crate::blocks::index_of_id(m[b.parent].children(), b.id) >= 0) && std_block_of(m1, drop_block_event.drag_block_id@) is Some
                && std_block_of(m1, drop_block_event.drop_block_id@) is Some && m1.contains_key(d.parent)
                && child_index(m1, d.parent, d.id) >= 0 ==> r is Ok
        }),
        side_drop_ok(block_map@, drop_block_event, old(new_ids).ids()) ==> r is Ok,
        r matches Ok(s) ==> s.selection is None && extends(blocks_to_update@, s.blocks_to_update@)
            && s.blocks_to_remove@.len() == 0 && s.copy is None,
        (drop_block_event.side_dropped == Side::Top || drop_block_event.side_dropped == Side::Bottom) && r is Ok
            ==> r->Ok_0.block_map@ == dropped_beside(block_map@, drop_block_event),
        ({
            let d = std_block_of(block_map@, drop_block_event.drop_block_id@)->0;
            (drop_block_event.side_dropped == Side::Left || drop_block_event.side_dropped == Side::Right) && r is Ok
                && crate::utilities::renaming::fresh_for(old(new_ids).ids(), 3, block_map@) && parents_present(block_map@)
                && drop_block_event.drag_block_id@ != drop_block_event.drop_block_id@ && d.parent != drop_block_event.drag_block_id@
                && d.parent != d.id ==> in_a_new_column(r->Ok_0.block_map@, drop_block_event.drag_block_id@, old(new_ids).ids())
        }),
        (drop_block_event.side_dropped == Side::Left || drop_block_event.side_dropped == Side::Right) && r is Ok ==> dropped_aside(
            block_map@,
            drop_block_event,
            old(new_ids).ids(),
            r->Ok_0.block_map@,
        ),
{
    let ghost bt0 = blocks_to_update@;
    let ghost m0 = block_map@;
    proof {
        block_map.lemma_keys_are_ids();
    }
    let mut block_map = block_map;
    let mut blocks_to_update = blocks_to_update;
    let drag_block = block_map.get_standard_block(&drop_block_event.drag_block_id)?;
    if drag_block.get_parent(&block_map).is_ok() {
        remove_drag_block_from_current_place(&mut block_map, &drop_block_event, &mut blocks_to_update)?;
    }
    assert(block_map@ == without_dragged(m0, drop_block_event.drag_block_id@));
    let ghost m1 = block_map@;
    let ghost ids0 = new_ids.ids();
    let ghost side_law = crate::utilities::renaming::fresh_for(ids0, 3, m0) && parents_present(m0)
        && drop_block_event.drag_block_id@ != drop_block_event.drop_block_id@
        && std_block_of(m0, drop_block_event.drop_block_id@)->0.parent != drop_block_event.drag_block_id@
        && std_block_of(m0, drop_block_event.drop_block_id@)->0.parent != std_block_of(m0, drop_block_event.drop_block_id@)->0.id;
    proof {
        assert(m1.dom() =~= m0.dom());
    }
    let drop_block = block_map.get_standard_block(&drop_block_event.drop_block_id)?;
    let drop_parent = drop_block.get_parent(&block_map)?;
    proof {
        block_map.lemma_keys_are_ids();
        assert(drag_block@.id == drop_block_event.drag_block_id@);
        assert(drop_block@.id == drop_block_event.drop_block_id@);
        if m0.contains_key(drop_block_event.drop_block_id@) {
            assert(std_block_of(m0, drop_block_event.drop_block_id@)->0.parent == drop_block@.parent);
        }
    }
    proof {
        assert(ids0 == old(new_ids).ids());
    }
    match drop_block_event.side_dropped {
        Side::Top | Side::Bottom => {
            drop_block_top_or_bottom(drag_block, drop_block, drop_parent, drop_block_event, &mut block_map, &mut blocks_to_update)?;
        },
        Side::Left | Side::Right => {
            if is_layout_block_or_is_inside_layout_block(&drop_block, &drop_parent) {
                let new_column_id = new_ids.get_id()?;
                let horizontal_layout_id = get_horizontal_layout_id(&drop_block, &block_map)?;
                let mut column_children: Vec<String> = Vec::new();
                column_children.push(drag_block.id());
                let new_column_layout = StandardBlock::new_layout_block(
                    new_column_id.clone(),
                    false,
                    column_children,
                    horizontal_layout_id.clone(),
                )?;
                proof {
                    assert(crate::blocks::ids_view(column_children@) =~= seq![drag_block@.id]);
                    assert(new_column_layout@ == column_view(new_column_id@, drag_block@.id, horizontal_layout_id@));
                }
                let ghost dv = drag_block@;
                let mut drag_block = drag_block;
                drag_block.parent = new_column_id.clone();
                assert(drag_block@ == dv.with_parent(new_column_id@));
                block_map.update_block(Block::StandardBlock(drag_block), &mut blocks_to_update)?;
                block_map.update_block(Block::StandardBlock(new_column_layout), &mut blocks_to_update)?;
                proof {
                    if side_drop_ok(m0, drop_block_event, ids0) {
                        let t = crate::utilities::renaming::taken_ids(ids0, 3);
                        let c = new_column_id@;
                        let d = drop_block@;
                        let h = horizontal_layout_id@;
                        let drag = drop_block_event.drag_block_id@;
                        assert(c == t[0]);
                        assert(!m0.contains_key(c));
                        assert(m0.contains_key(d.parent));
                        assert(block_map@[d.parent] == m1[d.parent]);
                        assert(child_index(block_map@, d.parent, d.id) == child_index(m1, d.parent, d.id));
                        if d.content.kind != StandardBlockKind::Layout {
                            let q = std_block_of(m1, d.parent)->0;
                            assert(std_block_of(block_map@, d.parent) == std_block_of(m1, d.parent));
                            assert(q.parent == h);
                            assert(m1.contains_key(h));
                            assert(block_map@[h] == m1[h]);
                            assert(child_index(block_map@, q.parent, q.id) == child_index(m1, q.parent, q.id));
                        }
                    }
                }
                let new_column_index = get_index_of_new_layout_column(&drop_block, &drop_block_event.side_dropped, &block_map)?;
                let horizontal_layout_block = block_map.get_block(&horizontal_layout_id)?;
                let n = horizontal_layout_block.children()?.len();
                if new_column_index > n {
                    return Err(step_error_msg("Layout column index is out of range"));
                }
                let ghost c = new_column_id@;
                let ghost h = horizontal_layout_id@;
                let mut new_children: Vec<String> = Vec::new();
                new_children.push(new_column_id);
                proof {
                    block_map.lemma_keys_are_ids();
                    assert(crate::blocks::ids_view(new_children@) =~= seq![c]);
                }
                let ghost m2 = block_map@;
                let ghost hb = horizontal_layout_block@;
                update_state_tools::splice_children(
                    horizontal_layout_block,
                    new_column_index..new_column_index,
                    new_children,
                    &mut blocks_to_update,
                    &mut block_map,
                )?;
                proof {
                    if side_law {
                        let t = crate::utilities::renaming::taken_ids(ids0, 3);
                        assert(c == t[0]);
                        assert(!m0.contains_key(c));
                        assert(m2.contains_key(h));
                        assert(m0.contains_key(h)) by {
                            let d = drop_block@;
                            assert(m1.contains_key(d.id));
                            assert(m1.contains_key(d.parent));
                            if d.content.kind != StandardBlockKind::Layout {
                                let q = std_block_of(m1, d.parent)->0;
                                assert(m1[d.parent].id() == d.parent);
                                assert(std_block_of(m0, d.parent) is Some);
                                assert(std_block_of(m0, d.parent)->0.parent == q.parent);
                            }
                        }
                        assert(h != c);
                        let drag = drop_block_event.drag_block_id@;
                        assert(drag != c);
                        assert(hb.id() == h);
                        assert(m2[c] == BlockView::Standard(column_view(c, drag, h)));
                        assert(std_block_of(block_map@, c) == Some(column_view(c, drag, h)));
                        assert(std_block_of(block_map@, drag) is Some && std_block_of(block_map@, drag)->0.parent == c);
                        assert(block_map@.contains_key(h));
                        assert(block_map@[h].children().contains(c)) by {
                            let ch = hb.children().insert(new_column_index as int, c);
                            assert(crate::blocks::splice_spec(hb.children(), new_column_index as int, new_column_index as int, seq![c]) =~= ch);
                            assert(ch[new_column_index as int] == c);
                        }
                        assert(in_new_column(block_map@, drop_block_event.drag_block_id@, t[0]));
                        assert(in_a_new_column(block_map@, drop_block_event.drag_block_id@, ids0));
                    }
                    let drag = drop_block_event.drag_block_id@;
                    let d = drop_block@;
                    if side_law && h != drag {
                        let t = crate::utilities::renaming::taken_ids(ids0, 3);
                        assert(c == t[0]);
                        assert(m1.contains_key(h));
                        assert(h != c);
                        assert(hb == m2[h]);
                        assert(m2[h] == m1[h]);
                        assert(crate::blocks::splice_spec(hb.children(), new_column_index as int, new_column_index as int, seq![c])
                            =~= hb.children().insert(new_column_index as int, c));
                        assert(d.parent != drag);
                        assert(d.parent != c) by {
                            assert(m0.contains_key(d.parent));
                        }
                        if d.content.kind != StandardBlockKind::Layout {
                            let q = std_block_of(m1, d.parent)->0;
                            assert(m2[d.parent] == m1[d.parent]);
                            assert(std_block_of(m2, d.parent) == std_block_of(m1, d.parent));
                            assert(q.parent == h);
                            assert(m2[h] == m1[h]);
                            assert(child_index(m2, q.parent, q.id) == child_index(m1, q.parent, q.id));
                        } else if !d.content.horizontal {
                            assert(m2[d.parent] == m1[d.parent]);
                            assert(child_index(m2, d.parent, d.id) == child_index(m1, d.parent, d.id));
                        }
                        assert(new_column_index == column_slot(m1, d, drop_block_event.side_dropped));
                    }
                }
            } else {
                let ghost drag_v = drag_block@;
                let ghost dbv = drop_block@;
                create_new_horizontal_layout_block(drag_block, drop_block, drop_parent, drop_block_event, &mut block_map, &mut blocks_to_update, new_ids)?;
                proof {
                    if side_law {
                        assert(m1.contains_key(drop_block_event.drag_block_id@));
                        assert(m1.contains_key(dbv.id));
                        assert(crate::utilities::renaming::fresh_for(ids0, 3, m1));
                    }
                }
                proof {
                    if side_law {
                        let t = crate::utilities::renaming::taken_ids(ids0, 3);
                        assert(crate::utilities::renaming::fresh_for(ids0, 3, m1));
                        if drop_block_event.side_dropped == Side::Left {
                            assert(in_new_column(block_map@, drop_block_event.drag_block_id@, t[1]));
                        } else {
                            assert(in_new_column(block_map@, drop_block_event.drag_block_id@, t[2]));
                        }
                        assert(in_a_new_column(block_map@, drop_block_event.drag_block_id@, ids0));
                    }
                }
            }
        },
    };
    return Ok(UpdatedState { block_map, selection: None, blocks_to_update, blocks_to_remove: Vec::new(), copy: None })
}

/// Takes the dragged block out of its parent's children.
fn remove_drag_block_from_current_place(
    block_map: &mut BlockMap,
    drop_block_event: &DropBlockEvent,
    blocks_to_update: &mut Vec<String>,
) -> (r: Result<(), StepError>)
    ensures
        extends(old(blocks_to_update)@, final(blocks_to_update)@),
        r is Ok ==> ({
            let m = old(block_map)@;
            let b = std_block_of(m, drop_block_event.drag_block_id@)->0;
            let p = m[b.parent];
            &&& std_block_of(m, drop_block_event.drag_block_id@) is Some && m.contains_key(b.parent)
            &&& final(block_map)@ == m.insert(p.id(), p.with_children(p.children().remove(crate::blocks::index_of_id(p.children(), b.id))))
        }),
        ({
            let m = old(block_map)@;
            let b = std_block_of(m, drop_block_event.drag_block_id@)->0;
            std_block_of(m, drop_block_event.drag_block_id@) is Some && m.contains_key(b.parent) && !(m[b.parent] is Inline)
                && crate::blocks::index_of_id(m[b.parent].children(), b.id) >= 0 ==> r is Ok
        }),
{
    let drag_block = block_map.get_standard_block(&drop_block_event.drag_block_id)?;
    proof {
        block_map.lemma_keys_are_ids();
    }
    let drag_parent = drag_block.get_parent(block_map)?;
    let drag_parent = drag_parent.remove_child_from_id(drag_block._id.as_str())?;
    block_map.update_block(drag_parent, blocks_to_update)?;
    return Ok(())
}

/// Whether the drop block is a layout block or sits in one.
fn is_layout_block_or_is_inside_layout_block(drop_block: &StandardBlock, drop_parent: &Block) -> (r: bool)
    ensures
        r == (drop_block@.content.kind == StandardBlockKind::Layout || (drop_parent@ matches BlockView::Standard(p)
            && p.content.kind == StandardBlockKind::Layout)),
{
    return match drop_block.content {
        StandardBlockType::Layout(_) => true,
        _ => match drop_parent {
            Block::StandardBlock(parent) => {
                match &parent.content {
                    StandardBlockType::Layout(_) => true,
                    _ => false,
                }
            },
            _ => return false,
        },
    }
}

/// Puts the dragged block just above or below the drop block.
fn drop_block_top_or_bottom(
    drag_block: StandardBlock,
    drop_block: StandardBlock,
    drop_parent: Block,
    drop_block_event: DropBlockEvent,
    block_map: &mut BlockMap,
    blocks_to_update: &mut Vec<String>,
) -> (r: Result<(), StepError>)
    requires
        drop_parent@ == old(block_map)@[drop_block@.parent],
        old(block_map)@.contains_key(drop_block@.parent),
    ensures
        extends(old(blocks_to_update)@, final(blocks_to_update)@),
        r is Ok ==> ({
            let m = old(block_map)@;
            let i = child_index(m, drop_block@.parent, drop_block@.id) + if drop_block_event.side_dropped == Side::Bottom { 1int } else { 0 };
            let p = drop_parent@;
            &&& child_index(m, drop_block@.parent, drop_block@.id) >= 0
            &&& final(block_map)@ == crate::blocks::tree::reparent(m, seq![drag_block@.id], p.id()).insert(
                p.id(),
                p.with_children(p.children().insert(i, drag_block@.id)),
            )
        }),
        child_index(old(block_map)@, drop_block@.parent, drop_block@.id) >= 0 && std_block_of(old(block_map)@, drag_block@.id) is Some ==> r is Ok,
{
    let mut insertion_index = drop_block.index(block_map)?;
    proof {
        crate::blocks::tree::lemma_child_index(old(block_map)@, drop_block@.parent, drop_block@.id);
    }
    let n = drop_parent.children()?.len();
    assert(insertion_index < n);
    if drop_block_event.side_dropped == Side::Bottom {
        insertion_index += 1;
    }
    let mut new_children: Vec<String> = Vec::new();
    new_children.push(drag_block.id());
    let ghost i = insertion_index;
    let ghost p = drop_parent@;
    update_state_tools::splice_children(drop_parent, insertion_index..insertion_index, new_children, blocks_to_update, block_map)?;
    proof {
        assert(crate::blocks::ids_view(new_children@) =~= seq![drag_block@.id]);
        assert(crate::blocks::splice_spec(p.children(), i as int, i as int, seq![drag_block@.id]) =~= p.children().insert(i as int, drag_block@.id));
    }
    return Ok(())
}

/// A new column `id` under `parent`: a vertical layout block holding only
/// the block `child`.
pub open spec fn column_view(id: Seq<char>, child: Seq<char>, parent: Seq<char>) -> StandardBlockView {
    StandardBlockView {
        id,
        content: StandardBlockTypeView { horizontal: false, ..StandardBlockTypeView::empty_of_kind(StandardBlockKind::Layout) },
        children: seq![child],
        parent,
        marks: Seq::empty(),
    }
}

/// The block `drag` sits alone in the column `c` of `m`: a vertical layout
/// block whose only child is `drag`, and which its own parent lists among
/// its children.
pub open spec fn in_new_column(m: BlockMapView, drag: Seq<char>, c: Seq<char>) -> bool {
    &&& std_block_of(m, c) is Some
    &&& std_block_of(m, c)->0.content.kind == StandardBlockKind::Layout
    &&& !std_block_of(m, c)->0.content.horizontal
    &&& std_block_of(m, c)->0.children == seq![drag]
    &&& std_block_of(m, drag) is Some
    &&& std_block_of(m, drag)->0.parent == c
    &&& m.contains_key(std_block_of(m, c)->0.parent)
    &&& m[std_block_of(m, c)->0.parent].children().contains(c)
}

/// Puts the drop block and the dragged block side by side in two new
/// columns of a new row, which takes the place of the drop block.
fn create_new_horizontal_layout_block(
    drag_block: StandardBlock,
    drop_block: StandardBlock,
    drop_parent: Block,
    drop_block_event: DropBlockEvent,
    block_map: &mut BlockMap,
    blocks_to_update: &mut Vec<String>,
    new_ids: &mut NewIds,
) -> (r: Result<(), StepError>)
    ensures
        extends(old(blocks_to_update)@, final(blocks_to_update)@),
        r is Ok ==> old(new_ids).ids().len() >= 3 && final(new_ids).ids() == old(new_ids).ids().take(old(new_ids).ids().len() - 3),
        old(block_map)@.contains_key(drop_block@.parent) && drop_parent@ == old(block_map)@[drop_block@.parent] && child_index(
            old(block_map)@,
            drop_block@.parent,
            drop_block@.id,
        ) >= 0 && old(new_ids).ids().len() >= 3 && (drop_block_event.side_dropped == Side::Left || drop_block_event.side_dropped
            == Side::Right) ==> r is Ok,
        ({
            let t = crate::utilities::renaming::taken_ids(old(new_ids).ids(), 3);
            r is Ok && crate::utilities::renaming::fresh_for(old(new_ids).ids(), 3, old(block_map)@) && drag_block@.id != drop_block@.id
                && old(block_map)@.contains_key(drag_block@.id) && old(block_map)@.contains_key(drop_block@.parent) && drop_parent@ == old(block_map)@[drop_block@.parent]
                && drop_block@.parent != drag_block@.id && drop_block@.parent != drop_block@.id
                && (forall|k: Seq<char>| #[trigger] old(block_map)@.contains_key(k) ==> old(block_map)@[k].id() == k)
                ==> (drop_block_event.side_dropped == Side::Left ==> in_new_column(final(block_map)@, drag_block@.id, t[1]))
                && (drop_block_event.side_dropped == Side::Right ==> in_new_column(final(block_map)@, drag_block@.id, t[2]))
        }),
        ({
            let t = crate::utilities::renaming::taken_ids(old(new_ids).ids(), 3);
            let m = old(block_map)@;
            let (left, right) = if drop_block_event.side_dropped == Side::Left {
                (drag_block@.id, drop_block@.id)
            } else {
                (drop_block@.id, drag_block@.id)
            };
            r is Ok && crate::utilities::renaming::fresh_for(old(new_ids).ids(), 3, m) && drag_block@.id != drop_block@.id
                && m.contains_key(drag_block@.id) && m.contains_key(drop_block@.id) && m.contains_key(drop_block@.parent)
                && drop_parent@ == m[drop_block@.parent] && drop_block@.parent != drag_block@.id && drop_block@.parent != drop_block@.id
                && (forall|k: Seq<char>| #[trigger] m.contains_key(k) ==> m[k].id() == k)
                ==> {
                let f = final(block_map)@;
                &&& std_block_of(f, t[0]) is Some
                &&& std_block_of(f, t[0])->0.content.kind == StandardBlockKind::Layout
                &&& std_block_of(f, t[0])->0.content.horizontal
                &&& std_block_of(f, t[0])->0.children == seq![t[1], t[2]]
                &&& in_new_column(f, left, t[1])
                &&& in_new_column(f, right, t[2])
                &&& f.contains_key(drop_block@.parent)
                &&& f[drop_block@.parent].children() == m[drop_block@.parent].children().update(
                    child_index(m, drop_block@.parent, drop_block@.id),
                    t[0],
                )
            }
        }),
{
    let ghost ids0 = new_ids.ids();
    let ghost m0 = block_map@;
    let drop_block_old_index = drop_block.index(block_map)?;
    proof {
        crate::blocks::tree::lemma_child_index(block_map@, drop_block@.parent, drop_block@.id);
    }
    let n = drop_parent.children()?.len();
    if drop_block_old_index >= n {
        return Err(step_error_msg("Drop block not found under its parent"));
    }
    let new_horizontal_layout_id = new_ids.get_id()?;
    let column_id1 = new_ids.get_id()?;
    let column_id2 = new_ids.get_id()?;
    proof {
        assert(new_horizontal_layout_id@ == ids0[ids0.len() - 1]@);
        assert(column_id1@ == ids0[ids0.len() - 2]@);
        assert(column_id2@ == ids0[ids0.len() - 3]@);
    }
    let horizontal_layout_children = match drop_block_event.side_dropped {
        Side::Left => create_horizontal_layout_children(new_horizontal_layout_id.clone(), drag_block, drop_block, column_id1, column_id2, block_map, blocks_to_update)?,
        Side::Right => create_horizontal_layout_children(new_horizontal_layout_id.clone(), drop_block, drag_block, column_id1, column_id2, block_map, blocks_to_update)?,
        _ => return Err(step_error_msg("Expected a side drop")),
    };
    proof {
        assert(new_ids.ids() =~= ids0.take(ids0.len() - 3));
    }
    let new_horizontal_layout_block = StandardBlock {
        _id: new_horizontal_layout_id,
        content: StandardBlockType::Layout(LayoutBlock { horizontal: true }),
        children: horizontal_layout_children,
        parent: drop_parent.id(),
        marks: Vec::new(),
    };
    let new_horizontal_layout_block_id = new_horizontal_layout_block.id();
    block_map.update_block(Block::StandardBlock(new_horizontal_layout_block), blocks_to_update)?;
    let mut new_children: Vec<String> = Vec::new();
    new_children.push(new_horizontal_layout_block_id);
    let ghost m2 = block_map@;
    let ghost pv = drop_parent@;
    update_state_tools::splice_children(drop_parent, drop_block_old_index..drop_block_old_index + 1, new_children, blocks_to_update, block_map)?;
    proof {
        let t = crate::utilities::renaming::taken_ids(ids0, 3);
        if crate::utilities::renaming::fresh_for(ids0, 3, m0) && drag_block@.id != drop_block@.id
            && m0.contains_key(drag_block@.id) && m0.contains_key(drop_block@.parent) && pv == m0[drop_block@.parent]
            && drop_block@.parent != drag_block@.id && drop_block@.parent != drop_block@.id
            && (forall|k: Seq<char>| #[trigger] m0.contains_key(k) ==> m0[k].id() == k) {
            assert(t[0] == new_horizontal_layout_block_id@);
            assert(t[1] == column_id1@);
            assert(t[2] == column_id2@);
            assert(pv.id() == drop_block@.parent);
            assert(!m0.contains_key(t[0]) && !m0.contains_key(t[1]) && !m0.contains_key(t[2]));
            assert(t[0] != t[1] && t[0] != t[2] && t[1] != t[2]);
            assert(crate::blocks::ids_view(new_children@) =~= seq![t[0]]);
            assert(drag_block@.id != t[0] && drag_block@.id != t[1] && drag_block@.id != t[2]);
        }
    }
    return Ok(())
}

/// Two new columns under the row `horizontal_layout_id`, holding the left
/// block and the right block; returns their ids.
fn create_horizontal_layout_children(
    horizontal_layout_id: String,
    left_block: StandardBlock,
    right_block: StandardBlock,
    left_column_id: String,
    right_column_id: String,
    block_map: &mut BlockMap,
    blocks_to_update: &mut Vec<String>,
) -> (r: Result<Vec<String>, StepError>)
    ensures
        extends(old(blocks_to_update)@, final(blocks_to_update)@),
        r matches Ok(ids) && crate::blocks::ids_view(ids@) == seq![left_column_id@, right_column_id@],
        final(block_map)@ == old(block_map)@.insert(left_block@.id, BlockView::Standard(left_block@.with_parent(left_column_id@)))
            .insert(right_block@.id, BlockView::Standard(right_block@.with_parent(right_column_id@)))
            .insert(left_column_id@, BlockView::Standard(column_view(left_column_id@, left_block@.id, horizontal_layout_id@)))
            .insert(right_column_id@, BlockView::Standard(column_view(right_column_id@, right_block@.id, horizontal_layout_id@))),
{
    let mut left_block = left_block;
    let mut right_block = right_block;
    left_block.parent = left_column_id.clone();
    right_block.parent = right_column_id.clone();
    let mut left_children: Vec<String> = Vec::new();
    left_children.push(left_block.id());
    let mut right_children: Vec<String> = Vec::new();
    right_children.push(right_block.id());
    let left_column = StandardBlock::new_layout_block(left_column_id.clone(), false, left_children, horizontal_layout_id.clone())?;
    let right_column = StandardBlock::new_layout_block(right_column_id.clone(), false, right_children, horizontal_layout_id)?;
    proof {
        assert(crate::blocks::ids_view(left_children@) =~= seq![left_block@.id]);
        assert(crate::blocks::ids_view(right_children@) =~= seq![right_block@.id]);
        assert(left_column@ == column_view(left_column_id@, left_block@.id, horizontal_layout_id@));
        assert(right_column@ == column_view(right_column_id@, right_block@.id, horizontal_layout_id@));
    }
    block_map.update_block(Block::StandardBlock(left_block), blocks_to_update)?;
    block_map.update_block(Block::StandardBlock(right_block), blocks_to_update)?;
    block_map.update_block(Block::StandardBlock(left_column), blocks_to_update)?;
    block_map.update_block(Block::StandardBlock(right_column), blocks_to_update)?;
    let mut ids: Vec<String> = Vec::new();
    ids.push(left_column_id);
    ids.push(right_column_id);
    proof {
        assert(crate::blocks::ids_view(ids@) =~= seq![ids@[0]@, ids@[1]@]);
    }
    return Ok(ids)
}

/// The row that a new column goes into: the drop block where it is a row;
/// its parent where it is a column; else its grandparent.
fn get_horizontal_layout_id(drop_block: &StandardBlock, block_map: &BlockMap) -> (r: Result<String, StepError>)
    ensures
        drop_block@.content.kind == StandardBlockKind::Layout && drop_block@.content.horizontal ==> (r matches Ok(id) && id@ == drop_block@.id),
        drop_block@.content.kind == StandardBlockKind::Layout && !drop_block@.content.horizontal ==> (r matches Ok(id) && id@ == drop_block@.parent),
        drop_block@.content.kind != StandardBlockKind::Layout ==> (r is Ok <==> std_block_of(block_map@, drop_block@.parent) is Some)
            && (r matches Ok(id) ==> id@ == std_block_of(block_map@, drop_block@.parent)->0.parent),
{
    match &drop_block.content {
        StandardBlockType::Layout(LayoutBlock { horizontal: true }) => return Ok(drop_block.id()),
        StandardBlockType::Layout(LayoutBlock { horizontal: false }) => return Ok(drop_block.parent.clone()),
        _ => {
            let parent = block_map.get_standard_block(&drop_block.parent)?;
            return Ok(parent.parent.clone())
        },
    }
}

/// Where the new column goes in the row: first or last in a row dropped on;
/// beside the column dropped on or holding the drop block.
fn get_index_of_new_layout_column(drop_block: &StandardBlock, side_dropped: &Side, block_map: &BlockMap) -> (r: Result<usize, StepError>)
    ensures
        drop_block@.content.kind == StandardBlockKind::Layout && drop_block@.content.horizontal ==> r == Ok::<usize, StepError>(
            if *side_dropped == Side::Left { 0 } else { drop_block@.children.len() as usize },
        ),
        drop_block@.content.kind == StandardBlockKind::Layout && !drop_block@.content.horizontal ==> (r is Ok <==> child_index(block_map@, drop_block@.parent, drop_block@.id) >= 0)
            && (r matches Ok(i) ==> i == child_index(block_map@, drop_block@.parent, drop_block@.id) + if *side_dropped == Side::Left { 0int } else { 1 }),
        drop_block@.content.kind != StandardBlockKind::Layout ==> ({
            let q = std_block_of(block_map@, drop_block@.parent);
            &&& (r is Ok <==> q is Some && child_index(block_map@, q->0.parent, q->0.id) >= 0)
            &&& (r matches Ok(i) ==> i == child_index(block_map@, q->0.parent, q->0.id) + if *side_dropped == Side::Left { 0int } else { 1 })
        }),
{
    return match &drop_block.content {
        StandardBlockType::Layout(LayoutBlock { horizontal: true }) => {
            if *side_dropped == Side::Left {
                Ok(0)
            } else {
                Ok(drop_block.children.len())
            }
        },
        StandardBlockType::Layout(LayoutBlock { horizontal: false }) => {
            let i = drop_block.index(block_map)?;
            proof {
                crate::blocks::tree::lemma_child_index(block_map@, drop_block@.parent, drop_block@.id);
            }
            let n = block_map.get_block(&drop_block.parent)?.children()?.len();
            assert(i < n);
            if *side_dropped == Side::Left {
                Ok(i)
            } else {
                Ok(i + 1)
            }
        },
        _ => {
            let parent = block_map.get_standard_block(&drop_block.parent)?;
            let i = parent.index(block_map)?;
            proof {
                crate::blocks::tree::lemma_child_index(block_map@, parent@.parent, parent@.id);
            }
            let n = block_map.get_block(&parent.parent)?.children()?.len();
            assert(i < n);
            if *side_dropped == Side::Left {
                Ok(i)
            } else {
                Ok(i + 1)
            }
        },
    }
}

} // verus!
