use vstd::prelude::*;

verus! {

#[derive(Debug, PartialEq, Eq, Clone, Copy, Structural)]
pub struct LayoutBlock {
    pub horizontal: bool,
}

impl LayoutBlock {
    pub fn new() -> (l: Self)
        ensures
            l.horizontal,
    {
        LayoutBlock { horizontal: true }
    }
}

} // verus!
