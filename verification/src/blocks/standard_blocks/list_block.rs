use vstd::prelude::*;

use super::content_block::ContentBlock;

verus! {

#[derive(Debug, PartialEq, Clone)]
pub struct ListBlock {
    pub content: ContentBlock,
    pub completed: bool,
}

impl ListBlock {
    pub fn new() -> (l: Self)
        ensures
            l.content.inline_blocks@ == Seq::<String>::empty(),
            !l.completed,
    {
        return Self { content: ContentBlock { inline_blocks: Vec::new() }, completed: false }
    }
}

} // verus!
