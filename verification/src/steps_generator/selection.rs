use vstd::prelude::*;

use crate::blocks::{Block, BlockMap, BlockMapView, BlockView, RootBlockView, inline_block_of, std_block_of};
use crate::blocks::standard_blocks::{StandardBlock, StandardBlockView};
use crate::blocks::inline_blocks::text_block::{StringUTF16, utf16_encode};
use crate::blocks::tree::{child_index, inline_index};
use crate::step::{ReplaceSlice, ReplaceStep};
use crate::steps_generator::{StepError, step_error_msg};
use crate::text::str_eq;
use crate::utilities::{follows_in_tree, get_next_block_in_tree, get_previous_block_in_tree, precedes_in_tree};

verus! {

/// One layer of a selection: a block and an offset into it.
pub struct Layer {
    pub block_id: Seq<char>,
    pub offset: usize,
}

/// The layers of a subselection, from the outermost block down to the
/// deepest one.
pub open spec fn layers(s: SubSelection) -> Seq<Layer>
    decreases s,
{
    let top = Layer { block_id: s.block_id@, offset: s.offset };
    match s.subselection {
        Some(inner) => seq![top] + layers(*inner),
        None => seq![top],
    }
}

pub proof fn lemma_layers_len(s: SubSelection)
    ensures
        layers(s).len() >= 1,
        layers(s)[0] == (Layer { block_id: s.block_id@, offset: s.offset }),
        s.subselection is None <==> layers(s).len() == 1,
        s.subselection matches Some(inner) ==> layers(s).drop_first() == layers(*inner),
    decreases s,
{
    match s.subselection {
        Some(inner) => {
            lemma_layers_len(*inner);
            assert(layers(s).drop_first() =~= layers(*inner));
        },
        None => {},
    }
}

/// A position in the document: a block and an offset, and, where the block
/// holds other blocks, the position inside one of them.
#[derive(Debug, PartialEq)]
pub struct SubSelection {
    pub block_id: String,
    pub offset: usize,
    pub subselection: Option<Box<SubSelection>>,
}

impl View for SubSelection {
    type V = Seq<Layer>;

    open spec fn view(&self) -> Seq<Layer> {
        layers(*self)
    }
}

impl SubSelection {
    pub fn new() -> (s: Self)
        ensures
            s@ == seq![Layer { block_id: Seq::empty(), offset: 0 }],
    {
        let s = Self { block_id: String::from_str(""), offset: 0, subselection: None };
        proof {
            reveal_strlit("");
            assert(s.block_id@ =~= Seq::<char>::empty());
        }
        return s
    }

    pub fn from(block_id: String, offset: usize, subselection: Option<Box<SubSelection>>) -> (s: Self)
        ensures
            s@ == seq![Layer { block_id: block_id@, offset }] + match subselection {
                Some(inner) => inner@,
                None => Seq::empty(),
            },
    {
        let s = Self { block_id, offset, subselection };
        proof {
            if s.subselection is None {
                assert(s@ =~= seq![Layer { block_id: block_id@, offset }] + Seq::<Layer>::empty());
            }
        }
        s
    }

    /// A copy of the subselection.
    pub fn copy(&self) -> (s: Self)
        ensures
            s@ == self@,
            s.block_id@ == self.block_id@,
            s.offset == self.offset,
        decreases self,
    {
        let subselection = match &self.subselection {
            Some(inner) => Some(Box::new((&**inner).copy())),
            None => None,
        };
        Self { block_id: self.block_id.clone(), offset: self.offset, subselection }
    }

    pub fn block_id(&self) -> (id: String)
        ensures
            id@ == self@[0].block_id,
    {
        proof {
            lemma_layers_len(*self);
        }
        return self.block_id.clone();
    }

    /// The subselection one layer down.
    pub fn get_child_subselection(&self) -> (r: Result<&SubSelection, StepError>)
        ensures
            r is Ok <==> self@.len() > 1,
            r matches Ok(c) ==> c@ == self@.drop_first(),
    {
        proof {
            lemma_layers_len(*self);
        }
        return match &self.subselection {
            Some(inner_subselection) => Ok(&**inner_subselection),
            None => return Err(step_error_msg("Expected subselection to be Some")),
        };
    }

    /// The deepest layer.
    pub fn get_deepest_subselection(&self) -> (d: &Self)
        ensures
            d@ == seq![self@.last()],
            d.subselection is None,
        decreases self,
    {
        proof {
            lemma_layers_len(*self);
        }
        match &self.subselection {
            Some(inner) => {
                let d = (&**inner).get_deepest_subselection();
                proof {
                    lemma_layers_len(**inner);
                    assert(self@.last() == inner@.last());
                }
                d
            },
            None => self,
        }
    }

    /// The two deepest layers.
    pub fn get_two_deepest_layers(self) -> (r: Result<Self, StepError>)
        ensures
            r is Err <==> self@.len() == 1,
            r matches Ok(s) ==> s@ == self@.subrange(self@.len() - 2, self@.len() as int),
        decreases self@.len(),
    {
        proof {
            lemma_layers_len(self);
        }
        match &self.subselection {
            Some(inner) => {
                proof {
                    lemma_layers_len(**inner);
                }
                match &inner.subselection {
                    Some(_) => {
                        let deeper = (**inner).copy();
                        let r = deeper.get_two_deepest_layers();
                        proof {
                            assert(self@.subrange(self@.len() - 2, self@.len() as int)
                                =~= inner@.subrange(inner@.len() - 2, inner@.len() as int));
                        }
                        r
                    },
                    None => {
                        proof {
                            assert(self@.subrange(self@.len() - 2, self@.len() as int) =~= self@);
                        }
                        Ok(self)
                    },
                }
            },
            None => Err(step_error_msg("Subselection only has one layer")),
        }
    }

    /// How many layers the subselection has.
    pub fn count_layers(&self) -> (n: usize)
        requires
            self@.len() <= usize::MAX,
        ensures
            n == self@.len(),
        decreases self,
    {
        proof {
            lemma_layers_len(*self);
        }
        match &self.subselection {
            Some(inner) => {
                proof {
                    lemma_layers_len(**inner);
                }
                1 + (&**inner).count_layers()
            },
            None => 1,
        }
    }
}


/// The inline block at the end of block `id`: the block itself where it is
/// an inline block; else the end of its last inline block (standard block)
/// or of its last child (root), looking at most `depth` blocks down.
pub open spec fn end_inline(m: BlockMapView, id: Seq<char>, depth: nat) -> Option<crate::blocks::inline_blocks::InlineBlockView>
    decreases depth,
{
    if depth == 0 || !m.contains_key(id) {
        None
    } else {
        match m[id] {
            BlockView::Inline(b) => Some(b),
            BlockView::Standard(b) => if b.has_content() && b.inline_blocks().len() > 0 {
                end_inline(m, b.inline_blocks().last(), (depth - 1) as nat)
            } else {
                None
            },
            BlockView::Root(b) => if b.children.len() > 0 {
                end_inline(m, b.children.last(), (depth - 1) as nat)
            } else {
                None
            },
        }
    }
}

/// How far down `at_end_of_block` looks: a root, a standard block, an
/// inline block.
pub open spec fn end_depth() -> nat {
    3
}

fn at_end_of_block_within(block_id: &str, block_map: &BlockMap, depth: usize) -> (r: Result<SubSelection, StepError>)
    ensures
        r is Ok <==> end_inline(block_map@, block_id@, depth as nat) is Some,
        r matches Ok(s) ==> s@ == seq![Layer { block_id: end_inline(block_map@, block_id@, depth as nat)->0.id, offset: end_inline(block_map@, block_id@, depth as nat)->0.text.len() as usize }],
    decreases depth,
{
    if depth == 0 {
        return Err(step_error_msg("Block structure is too deep"));
    }
    let block = block_map.get_block(block_id)?;
    match block {
        Block::InlineBlock(inline_block) => {
            let s = SubSelection { block_id: inline_block.id(), offset: inline_block.text()?.len(), subselection: None };
            return Ok(s)
        },
        Block::StandardBlock(standard_block) => {
            let content = match standard_block.content_block() {
                Ok(c) => c,
                Err(e) => return Err(e),
            };
            let n = content.inline_blocks.len();
            if n == 0 {
                return Err(step_error_msg("Block has no inline blocks"));
            }
            assert(standard_block@.inline_blocks().last() == content.inline_blocks@[n - 1]@);
            return at_end_of_block_within(content.inline_blocks[n - 1].as_str(), block_map, depth - 1);
        },
        Block::Root(root_block) => {
            let n = root_block.children.len();
            if n == 0 {
                return Err(step_error_msg("Root block has no children"));
            }
            assert(root_block@.children.last() == root_block.children@[n - 1]@);
            return at_end_of_block_within(root_block.children[n - 1].as_str(), block_map, depth - 1);
        },
    }
}

/// The last inline block at or below `id`, with the child layers that lead
/// to it from the standard block `b`.
pub open spec fn youngest_end(m: BlockMapView, b: StandardBlockView, fuel: nat) -> Option<Seq<Layer>>
    decreases fuel,
{
    if fuel == 0 {
        None
    } else if b.children.len() > 0 {
        match std_block_of(m, b.children.last()) {
            Some(c) => match youngest_end(m, c, (fuel - 1) as nat) {
                Some(rest) => Some(seq![Layer { block_id: b.id, offset: 0 }] + rest),
                None => None,
            },
            None => None,
        }
    } else if b.has_content() && b.inline_blocks().len() > 0 && inline_block_of(m, b.inline_blocks().last()) is Some {
        let last = inline_block_of(m, b.inline_blocks().last())->0;
        Some(seq![Layer { block_id: b.id, offset: 0 }, Layer { block_id: last.id, offset: last.text.len() as usize }])
    } else {
        None
    }
}

impl SubSelection {
    /// The caret at the end of block `block_id`.
    pub fn at_end_of_block(block_id: &str, block_map: &BlockMap) -> (r: Result<Self, StepError>)
        ensures
            r is Ok <==> end_inline(block_map@, block_id@, end_depth()) is Some,
            r matches Ok(s) ==> s@ == seq![Layer { block_id: end_inline(block_map@, block_id@, end_depth())->0.id, offset: end_inline(block_map@, block_id@, end_depth())->0.text.len() as usize }],
    {
        at_end_of_block_within(block_id, block_map, 3)
    }

    /// The caret at the end of the last inline block of the youngest
    /// descendant of `standard_block`, with a layer for each block on the way.
    /// Where the child links of the map loop, this reports an error.
    pub fn at_end_of_youngest_descendant(standard_block: &StandardBlock, block_map: &BlockMap) -> (r: Result<SubSelection, StepError>)
        ensures
            r matches Ok(s) ==> exists|fuel: nat| youngest_end(block_map@, standard_block@, fuel) == Some(s@),
            youngest_end(block_map@, standard_block@, block_map@.dom().len() + 1) is Some ==> r is Ok,
    {
        let fuel = block_map.block_count();
        Self::youngest_within(standard_block, block_map, fuel)
    }

    fn youngest_within(standard_block: &StandardBlock, block_map: &BlockMap, fuel: usize) -> (r: Result<SubSelection, StepError>)
        ensures
            r matches Ok(s) ==> youngest_end(block_map@, standard_block@, (fuel + 1) as nat) == Some(s@),
            youngest_end(block_map@, standard_block@, (fuel + 1) as nat) is Some ==> r is Ok,
        decreases fuel,
    {
        let n = standard_block.children.len();
        if n > 0 {
            if fuel == 0 {
                proof {
                    reveal_with_fuel(youngest_end, 2);
                }
                return Err(step_error_msg("Child links loop"));
            }
            let youngest_child = block_map.get_standard_block(&standard_block.children[n - 1])?;
            assert(standard_block@.children.last() == standard_block.children@[n - 1]@);
            let inner = Self::youngest_within(&youngest_child, block_map, fuel - 1)?;
            let s = SubSelection { block_id: standard_block.id(), offset: 0, subselection: Some(Box::new(inner)) };
            proof {
                assert(s@ =~= seq![Layer { block_id: standard_block@.id, offset: 0 }] + inner@);
            }
            return Ok(s);
        } else {
            let inline_blocks = &standard_block.content_block()?.inline_blocks;
            let k = inline_blocks.len();
            if k == 0 {
                return Err(step_error_msg("Block has no inline blocks"));
            }
            assert(standard_block@.inline_blocks().last() == inline_blocks@[k - 1]@);
            let last_inline_block_in_block_before = block_map.get_inline_block(&inline_blocks[k - 1])?;
            let inner = SubSelection {
                block_id: last_inline_block_in_block_before.id(),
                offset: last_inline_block_in_block_before.text()?.len(),
                subselection: None,
            };
            let s = SubSelection { block_id: standard_block.id(), offset: 0, subselection: Some(Box::new(inner)) };
            proof {
                reveal_with_fuel(layers, 3);
                assert(inner@ =~= seq![Layer { block_id: last_inline_block_in_block_before@.id, offset: last_inline_block_in_block_before@.text.len() as usize }]);
                assert(s@ =~= seq![Layer { block_id: standard_block@.id, offset: 0 }, Layer { block_id: last_inline_block_in_block_before@.id, offset: last_inline_block_in_block_before@.text.len() as usize }]);
            }
            return Ok(s);
        }
    }
}


/// The total length of the texts of the inline blocks `ids` of `m`.
pub open spec fn text_len(m: BlockMapView, ids: Seq<Seq<char>>) -> int
    decreases ids.len(),
{
    if ids.len() == 0 {
        0
    } else {
        text_len(m, ids.drop_last()) + inline_block_of(m, ids.last())->0.text.len()
    }
}

/// The deepest layer of `layers` lies in an inline block of a standard
/// block whose inline blocks are all there, and its offset counted from the
/// start of that block fits a machine word.
pub open spec fn raw_fits(m: BlockMapView, layers: Seq<Layer>) -> bool {
    let d = layers.last();
    let b = inline_block_of(m, d.block_id)->0;
    let p = std_block_of(m, b.parent)->0;
    let i = crate::blocks::tree::inline_index(m, b.parent, b.id);
    inline_block_of(m, d.block_id) is Some && i >= 0 && crate::steps_actualisor::all_inline(m, p.inline_blocks())
        && text_len(m, p.inline_blocks().take(i)) + d.offset <= usize::MAX
}

/// The texts of a prefix of `ids` are no longer than those of a longer one.
pub proof fn lemma_text_len_prefix(m: BlockMapView, ids: Seq<Seq<char>>, j: int, i: int)
    requires
        0 <= j <= i <= ids.len(),
    ensures
        0 <= text_len(m, ids.take(j)) <= text_len(m, ids.take(i)),
    decreases i - j,
{
    if j < i {
        lemma_text_len_prefix(m, ids, j, i - 1);
        assert(ids.take(i).drop_last() =~= ids.take(i - 1));
    } else {
        lemma_text_len_nonneg(m, ids.take(j));
    }
}

/// Texts have no negative length.
pub proof fn lemma_text_len_nonneg(m: BlockMapView, ids: Seq<Seq<char>>)
    ensures
        text_len(m, ids) >= 0,
    decreases ids.len(),
{
    if ids.len() > 0 {
        lemma_text_len_nonneg(m, ids.drop_last());
    }
}

/// `s` is the position `offset` text units into the inline blocks `ids`,
/// in the first of them (the `i`th) that reaches that far.
pub open spec fn raw_position(m: BlockMapView, ids: Seq<Seq<char>>, offset: usize, s: Seq<Layer>, i: int) -> bool {
    &&& 0 <= i < ids.len()
    &&& i == 0 || text_len(m, ids.take(i)) < offset
    &&& offset <= text_len(m, ids.take(i + 1))
    &&& s == seq![Layer { block_id: ids[i], offset: (offset - text_len(m, ids.take(i))) as usize }]
}

/// Reading back a raw selection: where the inline blocks of the standard
/// block `pid` are distinct inline blocks of `m` whose parent it is, and
/// the raw offset `offset` lies within their text, the position `s` that
/// `real_selection_from_raw` finds for the raw selection `(pid, offset)`
/// counts back, by `to_raw_selection`, to that same raw selection.
pub proof fn lemma_raw_selection_round_trip(m: BlockMapView, pid: Seq<char>, offset: usize, s: Seq<Layer>, i: int)
    requires
        forall|k: Seq<char>| #[trigger] m.contains_key(k) ==> m[k].id() == k,
        std_block_of(m, pid) is Some,
        std_block_of(m, pid)->0.has_content(),
        std_block_of(m, pid)->0.inline_blocks().no_duplicates(),
        crate::steps_actualisor::all_inline(m, std_block_of(m, pid)->0.inline_blocks()),
        forall|j: int|
            0 <= j < std_block_of(m, pid)->0.inline_blocks().len() ==> #[trigger] inline_block_of(
                m,
                std_block_of(m, pid)->0.inline_blocks()[j],
            )->0.parent == pid,
        raw_position(m, std_block_of(m, pid)->0.inline_blocks(), offset, s, i),
    ensures
        raw_fits(m, s),
        ({
            let d = s.last();
            let b = inline_block_of(m, d.block_id)->0;
            let p = std_block_of(m, b.parent)->0;
            let k = inline_index(m, b.parent, b.id);
            seq![Layer { block_id: p.id, offset: (text_len(m, p.inline_blocks().take(k)) + d.offset) as usize }] == seq![
                Layer { block_id: pid, offset },
            ]
        }),
{
    let ids = std_block_of(m, pid)->0.inline_blocks();
    let d = s.last();
    assert(d == Layer { block_id: ids[i], offset: (offset - text_len(m, ids.take(i))) as usize });
    assert(inline_block_of(m, ids[i]) is Some);
    let b = inline_block_of(m, d.block_id)->0;
    assert(b.parent == pid);
    crate::blocks::lemma_index_of_id_first(ids, ids[i], i);
    lemma_text_len_prefix(m, ids, i, i);
    if i > 0 {
        assert(text_len(m, ids.take(i)) < offset);
    } else {
        assert(ids.take(0) =~= Seq::<Seq<char>>::empty());
    }
    assert(b.id == ids[i]) by {
        assert(m.contains_key(ids[i]) && m[ids[i]].id() == ids[i]);
    }
    assert(std_block_of(m, pid)->0.id == pid) by {
        assert(m.contains_key(pid) && m[pid].id() == pid);
    }
    assert(inline_index(m, b.parent, b.id) == i);
}

impl SubSelection {
    /// The position of the deepest layer counted in text units from the
    /// start of its standard block, as a one-layer subselection on that
    /// block. Where the count does not fit a machine word, an error.
    pub fn to_raw_selection(&self, block_map: &BlockMap) -> (r: Result<Self, StepError>)
        ensures
            r matches Ok(s) ==> ({
                let d = self@.last();
                let b = inline_block_of(block_map@, d.block_id)->0;
                let p = std_block_of(block_map@, b.parent)->0;
                let i = crate::blocks::tree::inline_index(block_map@, b.parent, b.id);
                &&& inline_block_of(block_map@, d.block_id) is Some
                &&& i >= 0
                &&& s@ == seq![Layer { block_id: p.id, offset: (text_len(block_map@, p.inline_blocks().take(i)) + d.offset) as usize }]
            }),
            raw_fits(block_map@, self@) ==> r is Ok,
        decreases self@.len(),
    {
        proof {
            lemma_layers_len(*self);
        }
        match &self.subselection {
            Some(_) => {
                let d = self.get_deepest_subselection();
                proof {
                    lemma_layers_len(*d);
                }
                d.to_raw_selection(block_map)
            },
            None => {
                let inline_block = block_map.get_inline_block(&self.block_id)?;
                let parent = inline_block.get_parent(block_map)?;
                proof {
                    block_map.lemma_keys_are_ids();
                }
                let inline_blocks = &parent.content_block()?.inline_blocks;
                let index = inline_block.index(block_map)?;
                proof {
                    crate::blocks::tree::lemma_inline_index(block_map@, inline_block@.parent, inline_block@.id);
                }
                let ghost ids = parent@.inline_blocks();
                let mut i: usize = 0;
                let mut raw_offset: usize = 0;
                let ghost fits = crate::steps_actualisor::all_inline(block_map@, ids)
                    && text_len(block_map@, ids.take(index as int)) + self.offset <= usize::MAX;
                proof {
                    assert(self@.last() == self@[0]);
                    assert(inline_block@.id == self@.last().block_id);
                    assert(parent@ == std_block_of(block_map@, inline_block@.parent)->0);
                }
                while i < index
                    invariant
                        i <= index < inline_blocks@.len(),
                        ids == crate::blocks::ids_view(inline_blocks@),
                        raw_offset == text_len(block_map@, ids.take(i as int)),
                        fits == (crate::steps_actualisor::all_inline(block_map@, ids)
                            && text_len(block_map@, ids.take(index as int)) + self.offset <= usize::MAX),
                        raw_fits(block_map@, self@) ==> fits,
                    decreases index - i,
                {
                    assert(ids[i as int] == inline_blocks@[i as int]@);
                    proof {
                        if fits {
                            lemma_text_len_prefix(block_map@, ids, i + 1, index as int);
                            assert(inline_block_of(block_map@, ids[i as int]) is Some);
                        }
                    }
                    let b = block_map.get_inline_block(&inline_blocks[i])?;
                    let l = b.text()?.len();
                    proof {
                        assert(ids.take(i + 1).drop_last() =~= ids.take(i as int));
                    }
                    raw_offset = match raw_offset.checked_add(l) {
                        Some(v) => v,
                        None => return Err(step_error_msg("Text is too long")),
                    };
                    i += 1;
                }
                proof {
                    if fits {
                        lemma_text_len_prefix(block_map@, ids, index as int, index as int);
                    }
                }
                let raw = match raw_offset.checked_add(self.offset) {
                    Some(v) => v,
                    None => return Err(step_error_msg("Text is too long")),
                };
                return Ok(SubSelection { block_id: parent.id(), offset: raw, subselection: None })
            },
        }
    }

    /// The position `offset` text units from the start of the standard block
    /// `block_id`, as a position in the first of its inline blocks that
    /// reaches that far.
    pub fn real_selection_from_raw(self, block_map: &BlockMap) -> (r: Result<Self, StepError>)
        ensures
            r matches Ok(s) ==> ({
                let p = std_block_of(block_map@, self.block_id@)->0;
                exists|i: int| #[trigger] raw_position(block_map@, p.inline_blocks(), self.offset, s@, i)
            }),
            ({
                let p = std_block_of(block_map@, self.block_id@)->0;
                std_block_of(block_map@, self.block_id@) is Some && p.has_content() && p.inline_blocks().len() > 0
                    && crate::steps_actualisor::all_inline(block_map@, p.inline_blocks()) && self.offset <= text_len(
                    block_map@,
                    p.inline_blocks(),
                ) ==> r is Ok
            }),
    {
        let std_block = block_map.get_standard_block(&self.block_id)?;
        let inline_blocks = &std_block.content_block()?.inline_blocks;
        let ghost ids = std_block@.inline_blocks();
        let mut current_count: usize = 0;
        let mut i: usize = 0;
        while i < inline_blocks.len()
            invariant
                i <= inline_blocks@.len(),
                ids == crate::blocks::ids_view(inline_blocks@),
                ids == std_block@.inline_blocks(),
                std_block_of(block_map@, self.block_id@) == Some(std_block@),
                current_count == text_len(block_map@, ids.take(i as int)),
                i > 0 ==> current_count < self.offset,
            decreases inline_blocks@.len() - i,
        {
            proof {
                if crate::steps_actualisor::all_inline(block_map@, ids) {
                    assert(inline_block_of(block_map@, ids[i as int]) is Some);
                }
            }
            assert(ids[i as int] == inline_blocks@[i as int]@);
            let inline_block = block_map.get_inline_block(&inline_blocks[i])?;
            let l = inline_block.text()?.len();
            proof {
                assert(ids.take(i + 1).drop_last() =~= ids.take(i as int));
            }
            if l >= self.offset || current_count >= self.offset - l {
                let s = Self { block_id: inline_blocks[i].clone(), offset: self.offset - current_count, subselection: None };
                proof {
                    assert(text_len(block_map@, ids.take(i + 1)) == current_count + l);
                    assert(s@ == seq![Layer { block_id: ids[i as int], offset: (self.offset - text_len(block_map@, ids.take(i as int))) as usize }]);
                    assert(raw_position(block_map@, ids, self.offset, s@, i as int));
                }
                return Ok(s)
            } else {
                current_count = current_count + l;
            }
            i += 1;
        }
        proof {
            assert(ids.take(ids.len() as int) =~= ids);
        }
        return Err(step_error_msg("Raw offset is greater than total text length of this standard block!"))
    }
}

impl SubSelection {
    /// Whether two subselections have the same layers.
    pub fn same_as(&self, other: &SubSelection) -> (r: bool)
        ensures
            r == (self@ == other@),
        decreases self,
    {
        proof {
            lemma_layers_len(*self);
            lemma_layers_len(*other);
        }
        if self.offset != other.offset || !str_eq(self.block_id.as_str(), other.block_id.as_str()) {
            proof {
                assert(self@[0] != other@[0]);
            }
            return false;
        }
        match (&self.subselection, &other.subselection) {
            (Some(a), Some(b)) => {
                proof {
                    lemma_layers_len(**a);
                    lemma_layers_len(**b);
                }
                let r = (&**a).same_as(&**b);
                proof {
                    if r {
                        assert(self@ =~= other@);
                    } else {
                        assert(self@.drop_first() != other@.drop_first());
                    }
                }
                r
            },
            (None, None) => {
                proof {
                    assert(self@ =~= other@);
                }
                true
            },
            _ => false,
        }
    }
}

/// Whether `a` has fewer layers than `b`.
pub fn has_fewer_layers(a: &SubSelection, b: &SubSelection) -> (r: bool)
    ensures
        r == (a@.len() < b@.len()),
    decreases a,
{
    proof {
        lemma_layers_len(*a);
        lemma_layers_len(*b);
    }
    match (&a.subselection, &b.subselection) {
        (Some(x), Some(y)) => {
            proof {
                lemma_layers_len(**x);
                lemma_layers_len(**y);
            }
            has_fewer_layers(&**x, &**y)
        },
        (None, Some(_)) => true,
        _ => false,
    }
}

/// The position of a block under its parent, as `Block::index` finds it, or
/// -1.
pub open spec fn block_index(m: BlockMapView, b: BlockView) -> int {
    match b {
        BlockView::Standard(s) => child_index(m, s.parent, s.id),
        BlockView::Inline(i) => inline_index(m, i.parent, i.id),
        BlockView::Root(_) => -1,
    }
}

/// Whether `anchor` comes no later than `head`, as `get_from_to` orders
/// them: by the position of their top blocks where these differ; else by the
/// offset where the deepest blocks agree; else the one with more layers
/// first.
pub open spec fn anchor_first(m: BlockMapView, anchor: Seq<Layer>, head: Seq<Layer>) -> bool {
    if anchor[0].block_id != head[0].block_id {
        block_index(m, m[anchor[0].block_id]) < block_index(m, m[head[0].block_id])
    } else if anchor.last().block_id == head.last().block_id {
        anchor.last().offset < head.last().offset
    } else {
        anchor.len() > head.len()
    }
}

/// The two ends of what the user selected.
pub struct Selection {
    pub anchor: SubSelection,
    pub head: SubSelection,
}

impl Selection {
    pub fn from(anchor: SubSelection, head: SubSelection) -> (s: Self)
        ensures
            s.anchor == anchor,
            s.head == head,
    {
        Self { anchor, head }
    }

    /// The ends of the selection in document order: "from" then "to".
    pub fn get_from_to(self, block_map: &BlockMap) -> (r: Result<(SubSelection, SubSelection), StepError>)
        ensures
            self.anchor@[0].block_id != self.head@[0].block_id ==> (r is Ok <==> (block_map@.contains_key(
                self.anchor@[0].block_id,
            ) && block_map@.contains_key(self.head@[0].block_id) && block_index(
                block_map@,
                block_map@[self.anchor@[0].block_id],
            ) >= 0 && block_index(block_map@, block_map@[self.head@[0].block_id]) >= 0)),
            self.anchor@[0].block_id == self.head@[0].block_id ==> r is Ok,
            r matches Ok((from, to)) ==> if anchor_first(block_map@, self.anchor@, self.head@) {
                from == self.anchor && to == self.head
            } else {
                from == self.head && to == self.anchor
            },
    {
        proof {
            lemma_layers_len(self.anchor);
            lemma_layers_len(self.head);
        }
        if !str_eq(self.anchor.block_id.as_str(), self.head.block_id.as_str()) {
            let anchor_block = block_map.get_block(&self.anchor.block_id)?;
            let head_block = block_map.get_block(&self.head.block_id)?;
            let anchor_index = anchor_block.index(block_map)?;
            let head_index = head_block.index(block_map)?;
            if anchor_index < head_index {
                return Ok((self.anchor, self.head));
            } else {
                return Ok((self.head, self.anchor));
            }
        } else {
            let deepest_anchor = self.anchor.get_deepest_subselection();
            let deepest_head = self.head.get_deepest_subselection();
            proof {
                lemma_layers_len(*deepest_anchor);
                lemma_layers_len(*deepest_head);
            }
            if str_eq(deepest_anchor.block_id.as_str(), deepest_head.block_id.as_str()) {
                // same inline block -> check offset
                if deepest_anchor.offset < deepest_head.offset {
                    return Ok((self.anchor, self.head));
                } else {
                    return Ok((self.head, self.anchor));
                }
            } else {
                if has_fewer_layers(&self.head, &self.anchor) {
                    return Ok((self.anchor, self.head));
                } else {
                    return Ok((self.head, self.anchor));
                }
            }
        }
    }

    /// Where the caret goes after a replace step: just after the inserted
    /// text, at the deepest layer of its start.
    pub fn update_selection_from(replace_step: ReplaceStep) -> (s: Self)
        requires
            replace_step.slice is String,
            replace_step.from@.last().offset + utf16_encode(
                replace_step.slice->String_0@,
            ).len() <= usize::MAX,
        ensures
            s.anchor@ == seq![
                Layer {
                    block_id: replace_step.from@.last().block_id,
                    offset: (replace_step.from@.last().offset + utf16_encode(
                        replace_step.slice->String_0@,
                    ).len()) as usize,
                },
            ],
            s.head@ == s.anchor@,
    {
        match replace_step.slice {
            ReplaceSlice::String(replace_slice) => {
                let deepest_from_subselection = replace_step.from.get_deepest_subselection();
                proof {
                    lemma_layers_len(*deepest_from_subselection);
                }
                let subselection = SubSelection {
                    block_id: deepest_from_subselection.block_id.clone(),
                    offset: deepest_from_subselection.offset + StringUTF16::from_str(
                        replace_slice.as_str(),
                    ).len(),
                    subselection: None,
                };
                return Selection { anchor: subselection.copy(), head: subselection };
            },
            ReplaceSlice::Blocks(_blocks) => {
                return Selection { anchor: SubSelection::new(), head: SubSelection::new() };
            },
        }
    }
}


/// The caret at the start of the first inline block of `b`.
pub open spec fn start_of_block(b: StandardBlockView) -> Seq<Layer> {
    seq![Layer { block_id: b.inline_blocks()[0], offset: 0 }]
}

/// The caret at the end of the last inline block of `b`.
pub open spec fn end_of_block(m: BlockMapView, b: StandardBlockView) -> Seq<Layer> {
    seq![Layer { block_id: b.inline_blocks().last(), offset: inline_block_of(m, b.inline_blocks().last())->0.text.len() as usize }]
}

/// `b` has content and its first (or last) inline block is in the map.
pub open spec fn edge_inline_found(m: BlockMapView, b: StandardBlockView, at_start: bool) -> bool {
    &&& b.has_content()
    &&& b.inline_blocks().len() > 0
    &&& inline_block_of(m, if at_start { b.inline_blocks()[0] } else { b.inline_blocks().last() }) is Some
}

fn selection_at_start_of_std_block(standard_block: StandardBlock, block_map: &BlockMap, subselection: &mut SubSelection) -> (r:
    Result<Block, StepError>)
    ensures
        r is Ok <==> edge_inline_found(block_map@, standard_block@, true),
        r matches Ok(b) ==> b@ == BlockView::Inline(inline_block_of(block_map@, standard_block@.inline_blocks()[0])->0)
            && final(subselection)@ == start_of_block(standard_block@),
        r is Err ==> *final(subselection) == *old(subselection),
{
    let content = standard_block.content_block()?;
    if content.inline_blocks.len() == 0 {
        return Err(step_error_msg("Block has no inline blocks"));
    }
    let inline = block_map.get_inline_block(&content.inline_blocks[0])?;
    *subselection = SubSelection { block_id: content.inline_blocks[0].clone(), offset: 0, subselection: None };
    return Ok(Block::InlineBlock(inline))
}

fn selection_at_end_of_std_block(standard_block: StandardBlock, block_map: &BlockMap, subselection: &mut SubSelection) -> (r:
    Result<Block, StepError>)
    ensures
        r is Ok <==> edge_inline_found(block_map@, standard_block@, false),
        r matches Ok(b) ==> b@ == BlockView::Inline(inline_block_of(block_map@, standard_block@.inline_blocks().last())->0)
            && final(subselection)@ == end_of_block(block_map@, standard_block@),
        r is Err ==> *final(subselection) == *old(subselection),
{
    let content = standard_block.content_block()?;
    let n = content.inline_blocks.len();
    if n == 0 {
        return Err(step_error_msg("Block has no inline blocks"));
    }
    let inline = block_map.get_inline_block(&content.inline_blocks[n - 1])?;
    let offset = inline.text()?.len();
    *subselection = SubSelection { block_id: content.inline_blocks[n - 1].clone(), offset, subselection: None };
    return Ok(Block::InlineBlock(inline))
}

/// One step through the document: down (`below`) or up.
pub open spec fn tree_step(m: BlockMapView, a: StandardBlockView, b: StandardBlockView, below: bool) -> bool {
    if below {
        follows_in_tree(m, a, b)
    } else {
        precedes_in_tree(m, a, b)
    }
}

/// `path` walks the document from `start`, down or up, over blocks without
/// content, and ends on a block with content.
pub open spec fn walk_to_content(m: BlockMapView, start: StandardBlockView, below: bool, path: Seq<StandardBlockView>) -> bool {
    &&& path.len() >= 2
    &&& path[0] == start
    &&& forall|i: int| 0 <= i < path.len() - 1 ==> tree_step(m, #[trigger] path[i], path[i + 1], below)
    &&& forall|i: int| 0 < i < path.len() - 1 ==> !(#[trigger] path[i]).has_content()
    &&& path.last().has_content()
}

/// The caret at the start of the nearest block with content below (or
/// above) `standard_block`. Where the walk runs off the page, or the links
/// of the map loop, an error.
pub fn get_next_block_with_content(
    standard_block: &StandardBlock,
    block_map: &BlockMap,
    subselection: &mut SubSelection,
    below: bool,
) -> (r: Result<Block, StepError>)
    ensures
        r matches Ok(b) ==> exists|path: Seq<StandardBlockView>|
            #[trigger] walk_to_content(block_map@, standard_block@, below, path) && path.last().inline_blocks().len() > 0
                && b@ == BlockView::Inline(inline_block_of(block_map@, path.last().inline_blocks()[0])->0)
                && final(subselection)@ == start_of_block(path.last()),
        r is Err ==> *final(subselection) == *old(subselection),
        below && standard_block@.children.len() > 0 && std_block_of(block_map@, standard_block@.children[0]) is Some
            && edge_inline_found(block_map@, std_block_of(block_map@, standard_block@.children[0])->0, true) ==> r is Ok,
{
    let mut next_block = if below {
        get_next_block_in_tree(standard_block, block_map)?
    } else {
        get_previous_block_in_tree(standard_block, block_map)?
    };
    let ghost mut path: Seq<StandardBlockView> = seq![standard_block@, next_block@];
    let mut fuel = block_map.block_count();
    loop
        invariant
            path.len() >= 2,
            path[0] == standard_block@,
            path.last() == next_block@,
            forall|i: int| 0 <= i < path.len() - 1 ==> tree_step(block_map@, #[trigger] path[i], path[i + 1], below),
            forall|i: int| 0 < i < path.len() - 1 ==> !(#[trigger] path[i]).has_content(),
            *subselection == *old(subselection),
        decreases fuel,
    {
        if next_block.has_content() {
            let ghost last = next_block@;
            let r = selection_at_start_of_std_block(next_block, block_map, subselection);
            proof {
                if r is Ok {
                    assert(walk_to_content(block_map@, standard_block@, below, path));
                }
            }
            return r;
        }
        if fuel == 0 {
            return Err(step_error_msg("Block links loop"));
        }
        fuel -= 1;
        let following = if below {
            get_next_block_in_tree(&next_block, block_map)?
        } else {
            get_previous_block_in_tree(&next_block, block_map)?
        };
        proof {
            path = path.push(following@);
        }
        next_block = following;
    }
}

/// Whether a standard block is entered at its start: the anchor when it is
/// above the head, the head when it is below.
pub open spec fn enters_at_start(anchor_is_above: bool, for_anchor: bool) -> bool {
    (anchor_is_above && for_anchor) || (!anchor_is_above && !for_anchor)
}

/// The deepest layer of one end of a selection that the editor reports on
/// `block` at `offset`: an inline block keeps the offset (1 on an empty
/// block counts as 0); a standard block with content is entered at its
/// start or end; one without content hands over to the nearest block with
/// content below or above it.
pub fn get_deepest_subselection(
    block: Result<Block, StepError>,
    offset: usize,
    anchor_is_above: bool,
    for_anchor: bool,
    subselection: &mut SubSelection,
    block_map: &BlockMap,
) -> (r: Result<Block, StepError>)
    ensures
        match block {
            Ok(Block::InlineBlock(i)) => r == Ok::<Block, StepError>(Block::InlineBlock(i)) && final(subselection)@ == seq![
                Layer {
                    block_id: i@.id,
                    offset: if offset == 1 && i@.text.len() == 0 { 0 } else { offset },
                },
            ],
            Ok(Block::StandardBlock(s)) => if s@.has_content() {
                (r is Ok <==> edge_inline_found(block_map@, s@, enters_at_start(anchor_is_above, for_anchor))) && (r is Ok
                    ==> final(subselection)@ == if enters_at_start(anchor_is_above, for_anchor) {
                    start_of_block(s@)
                } else {
                    end_of_block(block_map@, s@)
                })
            } else {
                r matches Ok(b) ==> exists|path: Seq<StandardBlockView>|
                    #[trigger] walk_to_content(block_map@, s@, enters_at_start(anchor_is_above, for_anchor), path)
                        && path.last().inline_blocks().len() > 0 && b@ == BlockView::Inline(
                        inline_block_of(block_map@, path.last().inline_blocks()[0])->0,
                    ) && final(subselection)@ == start_of_block(path.last())
            },
            _ => r is Err,
        },
{
    match block {
        Ok(Block::InlineBlock(inline_block)) => {
            let mut offset = offset;
            if offset == 1 && inline_block.text()?.len() == 0 {
                offset = 0
            }
            *subselection = SubSelection { block_id: inline_block._id.clone(), offset: offset, subselection: None };
            return Ok(Block::InlineBlock(inline_block))
        },
        Ok(Block::StandardBlock(standard_block)) => {
            let at_start = (anchor_is_above && for_anchor) || (!anchor_is_above && !for_anchor);
            if standard_block.has_content() {
                if at_start {
                    return selection_at_start_of_std_block(standard_block, block_map, subselection)
                } else {
                    return selection_at_end_of_std_block(standard_block, block_map, subselection)
                }
            } else {
                let r = get_next_block_with_content(&standard_block, block_map, subselection, at_start);
                proof {
                    if r is Ok {
                        let path = choose|path: Seq<StandardBlockView>|
                            #[trigger] walk_to_content(block_map@, standard_block@, at_start, path)
                                && path.last().inline_blocks().len() > 0 && r->Ok_0@ == BlockView::Inline(
                                inline_block_of(block_map@, path.last().inline_blocks()[0])->0,
                            ) && subselection@ == start_of_block(path.last());
                        assert(walk_to_content(block_map@, standard_block@, enters_at_start(anchor_is_above, for_anchor), path));
                    }
                }
                return r
            }
        },
        Err(_) | Ok(Block::Root(_)) => {
            return Err(step_error_msg("Anchor block not found or is root"))
        },
    }
}


/// Where a climb to the root ends, and the layers of the standard blocks
/// passed on the way, top down.
pub struct Climb {
    pub root: RootBlockView,
    pub layers: Seq<Layer>,
}

/// The climb from `b` up to the root, following parents at most `k` times.
pub open spec fn ancestor_layers(m: BlockMapView, b: BlockView, k: nat) -> Option<Climb>
    decreases k,
{
    match b {
        BlockView::Root(r) => Some(Climb { root: r, layers: Seq::empty() }),
        _ => if k == 0 || !m.contains_key(b.parent()) {
            None
        } else {
            let p = m[b.parent()];
            match ancestor_layers(m, p, (k - 1) as nat) {
                Some(c) => Some(
                    Climb {
                        root: c.root,
                        layers: if p is Root { c.layers } else { c.layers.push(Layer { block_id: p.id(), offset: 0 }) },
                    },
                ),
                None => None,
            }
        },
    }
}

/// Once the root is reached, more steps change nothing.
pub proof fn lemma_ancestor_layers_stable(m: BlockMapView, b: BlockView, k: nat, j: nat)
    requires
        ancestor_layers(m, b, k) is Some,
        k <= j,
    ensures
        ancestor_layers(m, b, j) == ancestor_layers(m, b, k),
    decreases k,
{
    if !(b is Root) {
        lemma_ancestor_layers_stable(m, m[b.parent()], (k - 1) as nat, (j - 1) as nat);
    }
}

/// `ls` put under the layers of what the walk reached.
pub open spec fn lift_layers(o: Option<Climb>, ls: Seq<Layer>) -> Option<Climb> {
    match o {
        Some(c) => Some(Climb { root: c.root, layers: c.layers + ls }),
        None => None,
    }
}

/// Climbing from `from` reaches the root `to`, and the layers of the blocks
/// on the way are put above `before`, giving `after`.
pub open spec fn climbs_to_root(m: BlockMapView, from: BlockView, to: BlockView, before: Seq<Layer>, after: Seq<Layer>) -> bool {
    exists|k: nat|
        #[trigger] ancestor_layers(m, from, k) is Some && to == BlockView::Root(ancestor_layers(m, from, k)->0.root)
            && after == ancestor_layers(m, from, k)->0.layers + before
}

/// Climbs from `block` to the root, putting a layer for each standard block
/// on the way above `subselection`.
fn climb_to_root(block: &mut Block, subselection: &mut SubSelection, block_map: &BlockMap) -> (r: Result<(), StepError>)
    ensures
        r is Ok ==> climbs_to_root(block_map@, old(block)@, final(block)@, old(subselection)@, final(subselection)@),
        (exists|k: nat| k < usize::MAX && #[trigger] ancestor_layers(block_map@, old(block)@, k) is Some) ==> r is Ok,
{
    let ghost orig = block@;
    let ghost before = subselection@;
    let ghost mut k: nat = 0;
    let ghost mut above: Seq<Layer> = Seq::empty();
    let mut fuel: usize = usize::MAX;
    proof {
        assert(subselection@ =~= above + before);
        assert forall|j: nat| #[trigger] ancestor_layers(block_map@, orig, k + j) == lift_layers(ancestor_layers(block_map@, block@, j), above) by {
            match ancestor_layers(block_map@, block@, j) {
                Some(c) => { assert(c.layers + above =~= c.layers); },
                None => {},
            }
        }
    }
    while !block.is_root()
        invariant
            subselection@ == above + before,
            forall|j: nat| #[trigger] ancestor_layers(block_map@, orig, k + j) == lift_layers(ancestor_layers(block_map@, block@, j), above),
            k + fuel == usize::MAX,
            orig == old(block)@,
            before == old(subselection)@,
        decreases fuel,
    {
        proof {
            assert(ancestor_layers(block_map@, orig, k + 0) == lift_layers(ancestor_layers(block_map@, block@, 0), above));
            if exists|kk: nat| kk < usize::MAX && #[trigger] ancestor_layers(block_map@, orig, kk) is Some {
                let kk = choose|kk: nat| kk < usize::MAX && #[trigger] ancestor_layers(block_map@, orig, kk) is Some;
                if kk <= k {
                    lemma_ancestor_layers_stable(block_map@, orig, kk, k);
                }
            }
        }
        if fuel == 0 {
            return Err(step_error_msg("Parent links loop"));
        }
        fuel -= 1;
        let parent_id = block.parent()?;
        let parent = match block_map.get_block(&parent_id) {
            Ok(p) => p,
            Err(e) => {
                proof {
                    if exists|kk: nat| kk < usize::MAX && #[trigger] ancestor_layers(block_map@, orig, kk) is Some {
                        let kk = choose|kk: nat| kk < usize::MAX && #[trigger] ancestor_layers(block_map@, orig, kk) is Some;
                        if kk > k {
                            let j = (kk - k) as nat;
                            assert(ancestor_layers(block_map@, orig, k + j) == lift_layers(ancestor_layers(block_map@, block@, j), above));
                        }
                    }
                }
                return Err(e);
            },
        };
        let ghost cur = block@;
        let ghost p = parent@;
        if !parent.is_root() {
            let inner = subselection.copy();
            *subselection = SubSelection::from(parent.id(), 0, Some(Box::new(inner)));
        }
        proof {
            let above2 = if p is Root { above } else { seq![Layer { block_id: p.id(), offset: 0 }] + above };
            assert(subselection@ =~= above2 + before);
            assert forall|j: nat| #[trigger] ancestor_layers(block_map@, orig, (k + 1) + j) == lift_layers(ancestor_layers(block_map@, p, j), above2) by {
                assert(ancestor_layers(block_map@, orig, k + (j + 1)) == lift_layers(ancestor_layers(block_map@, cur, j + 1), above));
                assert(k + (j + 1) == (k + 1) + j);
                match ancestor_layers(block_map@, p, j) {
                    Some(c) => {
                        if !(p is Root) {
                            assert(c.layers.push(Layer { block_id: p.id(), offset: 0 }) + above =~= c.layers + above2);
                        }
                    },
                    None => {},
                }
            }
            k = k + 1;
            above = above2;
        }
        *block = parent;
    }
    proof {
        assert(ancestor_layers(block_map@, orig, k + 0) == lift_layers(ancestor_layers(block_map@, block@, 0), above));
        assert(ancestor_layers(block_map@, orig, k) is Some);
    }
    Ok(())
}

/// Builds both ends of a selection up from their deepest layers: each end
/// gets a layer for every standard block between it and the root, and ends
/// on the root.
pub fn build_up_selection_from_base(
    anchor: &mut Block,
    head: &mut Block,
    anchor_subselection: &mut SubSelection,
    head_subselection: &mut SubSelection,
    block_map: &BlockMap,
) -> (r: Result<(), StepError>)
    ensures
        r is Ok ==> climbs_to_root(block_map@, old(anchor)@, final(anchor)@, old(anchor_subselection)@, final(anchor_subselection)@),
        r is Ok ==> climbs_to_root(block_map@, old(head)@, final(head)@, old(head_subselection)@, final(head_subselection)@),
        (exists|k: nat| k < usize::MAX && #[trigger] ancestor_layers(block_map@, old(anchor)@, k) is Some) && (exists|k: nat|
            k < usize::MAX && #[trigger] ancestor_layers(block_map@, old(head)@, k) is Some) ==> r is Ok,
{
    climb_to_root(anchor, anchor_subselection, block_map)?;
    climb_to_root(head, head_subselection, block_map)
}


/// The two ends of a selection, as layers.
pub struct Ends {
    pub anchor: Seq<Layer>,
    pub head: Seq<Layer>,
}

/// Drops the top layers that both ends share, while one layer down they
/// still are in blocks of the same parent and a layer below that remains
/// on each side. Nothing where a block one layer down is no standard block.
pub open spec fn strip_common(m: BlockMapView, a: Seq<Layer>, h: Seq<Layer>) -> Option<Ends>
    decreases a.len(),
{
    if a.len() >= 3 && h.len() >= 3 && a[0].block_id == h[0].block_id {
        if std_block_of(m, a[1].block_id) is None || std_block_of(m, h[1].block_id) is None {
            None
        } else if std_block_of(m, a[1].block_id)->0.parent != std_block_of(m, h[1].block_id)->0.parent {
            Some(Ends { anchor: a, head: h })
        } else {
            strip_common(m, a.drop_first(), h.drop_first())
        }
    } else {
        Some(Ends { anchor: a, head: h })
    }
}

/// Where both ends are two layers deep in the same block, the top layer
/// goes.
pub open spec fn drop_shared_top(e: Ends) -> Ends {
    if e.anchor.len() == 2 && e.head.len() == 2 && e.anchor[0].block_id == e.head[0].block_id {
        Ends { anchor: e.anchor.drop_first(), head: e.head.drop_first() }
    } else {
        e
    }
}

/// Stripping keeps the deepest layer of each end.
pub proof fn lemma_strip_common_keeps_last(m: BlockMapView, a: Seq<Layer>, h: Seq<Layer>)
    requires
        a.len() >= 1,
        h.len() >= 1,
        strip_common(m, a, h) is Some,
    ensures
        strip_common(m, a, h)->0.anchor.len() >= 1,
        strip_common(m, a, h)->0.head.len() >= 1,
        strip_common(m, a, h)->0.anchor.last() == a.last(),
        strip_common(m, a, h)->0.head.last() == h.last(),
        drop_shared_top(strip_common(m, a, h)->0).anchor.last() == a.last(),
        drop_shared_top(strip_common(m, a, h)->0).head.last() == h.last(),
    decreases a.len(),
{
    if a.len() >= 3 && h.len() >= 3 && a[0].block_id == h[0].block_id && std_block_of(m, a[1].block_id) is Some
        && std_block_of(m, h[1].block_id) is Some && std_block_of(m, a[1].block_id)->0.parent == std_block_of(
        m,
        h[1].block_id,
    )->0.parent {
        lemma_strip_common_keeps_last(m, a.drop_first(), h.drop_first());
    }
}

/// One round of stripping: the ends one layer down, where both still go
/// two layers deeper in the same block and the blocks one layer down share
/// a parent.
fn strip_one(anchor: &SubSelection, head: &SubSelection, block_map: &BlockMap) -> (r: Result<
    Option<(SubSelection, SubSelection)>,
    StepError,
>)
    ensures
        r is Err ==> strip_common(block_map@, anchor@, head@) is None,
        r matches Ok(None) ==> strip_common(block_map@, anchor@, head@) == Some(Ends { anchor: anchor@, head: head@ }),
        r matches Ok(Some(ends)) ==> ends.0@ == anchor@.drop_first() && ends.1@ == head@.drop_first() && strip_common(
            block_map@,
            anchor@,
            head@,
        ) == strip_common(block_map@, ends.0@, ends.1@),
{
    proof {
        lemma_layers_len(*anchor);
        lemma_layers_len(*head);
    }
    if !str_eq(anchor.block_id.as_str(), head.block_id.as_str()) {
        return Ok(None);
    }
    let temp_anchor = match &anchor.subselection {
        Some(sub) => {
            proof {
                lemma_layers_len(**sub);
            }
            match &sub.subselection {
                Some(_) => (&**sub).copy(),
                None => return Ok(None),
            }
        },
        None => return Ok(None),
    };
    let temp_head = match &head.subselection {
        Some(sub) => {
            proof {
                lemma_layers_len(**sub);
            }
            match &sub.subselection {
                Some(_) => (&**sub).copy(),
                None => return Ok(None),
            }
        },
        None => return Ok(None),
    };
    proof {
        lemma_layers_len(temp_anchor);
        lemma_layers_len(temp_head);
    }
    let temp_anchor_block = block_map.get_standard_block(&temp_anchor.block_id)?;
    let temp_head_block = block_map.get_standard_block(&temp_head.block_id)?;
    if !str_eq(temp_anchor_block.parent.as_str(), temp_head_block.parent.as_str()) {
        return Ok(None);
    }
    Ok(Some((temp_anchor, temp_head)))
}

/// Trims the layers above the deepest block that holds both ends of a
/// selection, so that the top layers of the two ends are siblings.
pub fn remove_excess_from_selection(anchor: SubSelection, head: SubSelection, block_map: &BlockMap) -> (r: Result<
    Selection,
    StepError,
>)
    ensures
        r is Err <==> strip_common(block_map@, anchor@, head@) is None,
        r matches Ok(s) ==> s.anchor@ == drop_shared_top(strip_common(block_map@, anchor@, head@)->0).anchor && s.head@
            == drop_shared_top(strip_common(block_map@, anchor@, head@)->0).head,
{
    proof {
        lemma_layers_len(anchor);
        lemma_layers_len(head);
    }
    if anchor.subselection.is_none() && head.subselection.is_none() {
        return Ok(Selection { anchor, head });
    }
    let ghost a0 = anchor@;
    let ghost h0 = head@;
    let mut top_anchor = anchor;
    let mut top_head = head;
    loop
        invariant
            strip_common(block_map@, top_anchor@, top_head@) == strip_common(block_map@, a0, h0),
            a0 == anchor@,
            h0 == head@,
        ensures
            strip_common(block_map@, a0, h0) == Some(Ends { anchor: top_anchor@, head: top_head@ }),
        decreases top_anchor@.len(),
    {
        proof {
            lemma_layers_len(top_anchor);
        }
        match strip_one(&top_anchor, &top_head, block_map)? {
            Some((a2, h2)) => {
                top_anchor = a2;
                top_head = h2;
            },
            None => break,
        }
    }
    proof {
        lemma_layers_len(top_anchor);
        lemma_layers_len(top_head);
    }
    if str_eq(top_anchor.block_id.as_str(), top_head.block_id.as_str()) && top_anchor.subselection.is_some()
        && top_head.subselection.is_some() {
        let a_inner = match top_anchor.subselection {
            Some(b) => *b,
            None => return Err(step_error_msg("Expected a subselection")),
        };
        let h_inner = match top_head.subselection {
            Some(b) => *b,
            None => return Err(step_error_msg("Expected a subselection")),
        };
        proof {
            lemma_layers_len(a_inner);
            lemma_layers_len(h_inner);
        }
        if a_inner.subselection.is_none() && h_inner.subselection.is_none() {
            return Ok(Selection { anchor: a_inner, head: h_inner });
        }
        let kept_anchor = SubSelection::from(top_anchor.block_id, top_anchor.offset, Some(Box::new(a_inner)));
        let kept_head = SubSelection::from(top_head.block_id, top_head.offset, Some(Box::new(h_inner)));
        return Ok(Selection { anchor: kept_anchor, head: kept_head });
    }
    return Ok(Selection { anchor: top_anchor, head: top_head })
}


/// The offset that the editor reports on an inline block with text `text`:
/// 1 on an empty block counts as 0.
pub open spec fn caret_offset(offset: usize, text: Seq<u16>) -> usize {
    if offset == 1 && text.len() == 0 {
        0
    } else {
        offset
    }
}

/// Both ends that the editor reports are inline blocks whose parents climb
/// to the root, and the layers of the two ends can be compared.
pub open spec fn frontend_ends_ok(m: BlockMapView, aid: Seq<char>, hid: Seq<char>, ao: usize, ho: usize) -> bool {
    let a = inline_block_of(m, aid)->0;
    let h = inline_block_of(m, hid)->0;
    &&& inline_block_of(m, aid) is Some && inline_block_of(m, hid) is Some
    &&& exists|ka: nat, kh: nat|
        ka < usize::MAX && kh < usize::MAX && #[trigger] ancestor_layers(m, BlockView::Inline(a), ka) is Some
            && #[trigger] ancestor_layers(m, BlockView::Inline(h), kh) is Some && strip_common(
            m,
            ancestor_layers(m, BlockView::Inline(a), ka)->0.layers + seq![Layer { block_id: aid, offset: caret_offset(ao, a.text) }],
            ancestor_layers(m, BlockView::Inline(h), kh)->0.layers + seq![Layer { block_id: hid, offset: caret_offset(ho, h.text) }],
        ) is Some
}

impl Selection {
    /// The selection that the editor reports: anchor and head by block and
    /// offset, and whether the anchor is above the head. Each end goes down
    /// to an inline block (a standard block is entered at its start or end,
    /// or, without content, gives way to the nearest block with content),
    /// is built up to the root, and loses the layers above the deepest block
    /// that holds both ends. A standard block selected on its own is the
    /// selection.
    pub fn from_frontend_data(
        anchor_id: String,
        head_id: String,
        anchor_offset: usize,
        head_offset: usize,
        block_map: &BlockMap,
        anchor_is_above: bool,
    ) -> (r: Result<Self, StepError>)
        ensures
            anchor_id@ == head_id@ && std_block_of(block_map@, anchor_id@) is Some ==> (r matches Ok(s) && s.anchor@ == seq![
                Layer { block_id: anchor_id@, offset: 0 },
            ] && s.head@ == s.anchor@),
            !(anchor_id@ == head_id@ && std_block_of(block_map@, anchor_id@) is Some) && (!block_map@.contains_key(anchor_id@)
                || !block_map@.contains_key(head_id@)) ==> r is Err,
            inline_block_of(block_map@, anchor_id@) is Some && r is Ok ==> r->Ok_0.anchor@.last() == (Layer {
                block_id: anchor_id@,
                offset: caret_offset(anchor_offset, inline_block_of(block_map@, anchor_id@)->0.text),
            }),
            inline_block_of(block_map@, head_id@) is Some && r is Ok ==> r->Ok_0.head@.last() == (Layer {
                block_id: head_id@,
                offset: caret_offset(head_offset, inline_block_of(block_map@, head_id@)->0.text),
            }),
            frontend_ends_ok(block_map@, anchor_id@, head_id@, anchor_offset, head_offset) ==> r is Ok,
    {
        proof {
            block_map.lemma_keys_are_ids();
        }
        let anchor_block = block_map.get_block(&anchor_id);
        let head_block = block_map.get_block(&head_id);
        if str_eq(anchor_id.as_str(), head_id.as_str()) && block_map.get_standard_block(&anchor_id).is_ok() {
            let anchor = SubSelection::from(anchor_id.clone(), 0, None);
            let head = SubSelection::from(anchor_id, 0, None);
            return Ok(Self { anchor, head });
        }
        let mut anchor_subselection = SubSelection::new();
        let mut anchor = get_deepest_subselection(
            anchor_block,
            anchor_offset,
            anchor_is_above,
            true,
            &mut anchor_subselection,
            block_map,
        )?;
        let mut head_subselection = SubSelection::new();
        let mut head = get_deepest_subselection(
            head_block,
            head_offset,
            anchor_is_above,
            false,
            &mut head_subselection,
            block_map,
        )?;
        let ghost deepest_anchor = anchor_subselection@;
        let ghost deepest_head = head_subselection@;
        let ghost anchor_start = anchor@;
        let ghost head_start = head@;
        build_up_selection_from_base(&mut anchor, &mut head, &mut anchor_subselection, &mut head_subselection, block_map)?;
        proof {
            lemma_layers_len(anchor_subselection);
            lemma_layers_len(head_subselection);
            let ka = choose|k: nat|
                #[trigger] ancestor_layers(block_map@, anchor_start, k) is Some && anchor@ == BlockView::Root(
                    ancestor_layers(block_map@, anchor_start, k)->0.root,
                ) && anchor_subselection@ == ancestor_layers(block_map@, anchor_start, k)->0.layers + deepest_anchor;
            let kh = choose|k: nat|
                #[trigger] ancestor_layers(block_map@, head_start, k) is Some && head@ == BlockView::Root(
                    ancestor_layers(block_map@, head_start, k)->0.root,
                ) && head_subselection@ == ancestor_layers(block_map@, head_start, k)->0.layers + deepest_head;
            if inline_block_of(block_map@, anchor_id@) is Some {
                assert(anchor_subselection@.last() == deepest_anchor.last());
            }
            if inline_block_of(block_map@, head_id@) is Some {
                assert(head_subselection@.last() == deepest_head.last());
            }
            if strip_common(block_map@, anchor_subselection@, head_subselection@) is Some {
                lemma_strip_common_keeps_last(block_map@, anchor_subselection@, head_subselection@);
            }
            if frontend_ends_ok(block_map@, anchor_id@, head_id@, anchor_offset, head_offset) {
                let (ja, jh) = choose|ja: nat, jh: nat|
                    ja < usize::MAX && jh < usize::MAX && #[trigger] ancestor_layers(block_map@, anchor_start, ja) is Some
                        && #[trigger] ancestor_layers(block_map@, head_start, jh) is Some && strip_common(
                        block_map@,
                        ancestor_layers(block_map@, anchor_start, ja)->0.layers + deepest_anchor,
                        ancestor_layers(block_map@, head_start, jh)->0.layers + deepest_head,
                    ) is Some;
                if ja <= ka {
                    lemma_ancestor_layers_stable(block_map@, anchor_start, ja, ka);
                } else {
                    lemma_ancestor_layers_stable(block_map@, anchor_start, ka, ja);
                }
                if jh <= kh {
                    lemma_ancestor_layers_stable(block_map@, head_start, jh, kh);
                } else {
                    lemma_ancestor_layers_stable(block_map@, head_start, kh, jh);
                }
            }
        }
        return remove_excess_from_selection(anchor_subselection, head_subselection, block_map)
    }
}

} // verus!
