use vstd::prelude::*;

verus! {

#[derive(Debug, PartialEq, Clone)]
pub struct PageBlock {
    pub page_id: String,
}

impl PageBlock {
    pub fn new() -> (p: Self)
        ensures
            p.page_id@ == Seq::<char>::empty(),
    {
        PageBlock { page_id: String::new() }
    }
}

} // verus!
