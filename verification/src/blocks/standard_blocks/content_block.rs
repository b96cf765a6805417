use vstd::prelude::*;

use crate::blocks::{ids_view, index_of_id, position_of};
use crate::steps_generator::{StepError, step_error_msg};

verus! {

#[derive(Debug, PartialEq, Clone)]
pub struct ContentBlock {
    pub inline_blocks: Vec<String>,  //Vec<InlineBlock>
}

impl ContentBlock {
    pub fn new(inline_blocks: Vec<String>) -> (c: Self)
        ensures
            c.inline_blocks == inline_blocks,
    {
        Self { inline_blocks }
    }

    /// The position of the inline block `id`.
    pub fn index_of(&self, id: &str) -> (r: Result<usize, StepError>)
        ensures
            r matches Ok(i) ==> i == index_of_id(ids_view(self.inline_blocks@), id@),
            r is Err <==> index_of_id(ids_view(self.inline_blocks@), id@) < 0,
    {
        match position_of(&self.inline_blocks, id) {
            Some(index) => Ok(index),
            None => Err(step_error_msg("Block not found")),
        }
    }

    // remove any inline blocks after offset + 1 (if they exist)
    pub fn remove_blocks_after_offset(self, offset: usize) -> (r: Result<Self, StepError>)
        ensures
            r matches Ok(c) && c.inline_blocks@ == (if offset + 1 < self.inline_blocks@.len() {
                self.inline_blocks@.take(offset + 1)
            } else {
                self.inline_blocks@
            }),
    {
        let mut inline_blocks = self.inline_blocks;
        let n = inline_blocks.len();
        if offset < n && offset + 1 < n {
            inline_blocks.truncate(offset + 1);
            proof {
                assert(inline_blocks@ =~= self.inline_blocks@.take(offset + 1));
            }
        }
        Ok(Self::new(inline_blocks))
    }

    /// Removes the first `offset` inline blocks.
    pub fn remove_blocks_before_offset(self, offset: usize) -> (r: Result<Self, StepError>)
        requires
            offset <= self.inline_blocks@.len(),
        ensures
            r matches Ok(c) && c.inline_blocks@ == self.inline_blocks@.skip(offset as int),
    {
        let mut inline_blocks = self.inline_blocks;
        let rest = inline_blocks.split_off(offset);
        Ok(Self::new(rest))
    }
}

} // verus!
