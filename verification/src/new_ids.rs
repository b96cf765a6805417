use vstd::prelude::*;

use crate::steps_generator::{StepError, step_error_msg};

verus! {

/// Fresh ids handed to the editor for the blocks that a step creates; the
/// last one is handed out first.
pub enum NewIds {
    Rust(Vec<String>),
}

/// The ids of `hardcoded_new_ids_for_tests`, the one handed out last
/// first.
pub open spec fn test_ids() -> Seq<Seq<char>> {
    seq![
        "B"@, "A"@, "z"@, "y"@, "x"@, "w"@, "v"@, "u"@, "t"@, "s"@, "r"@, "q"@, "p"@, "o"@, "n"@, "m"@, "l"@,
        "k"@, "j"@, "i"@, "h"@, "g"@, "f"@, "e"@, "d"@, "c"@, "b"@, "a"@,
    ]
}

impl NewIds {
    /// The ids not yet handed out.
    pub open spec fn ids(&self) -> Seq<String> {
        match self {
            NewIds::Rust(v) => v@,
        }
    }

    pub fn new() -> (n: Self)
        ensures
            n.ids() == Seq::<String>::empty(),
    {
        NewIds::Rust(Vec::new())
    }

    /// How many ids are left.
    pub fn len(&self) -> (n: usize)
        ensures
            n == self.ids().len(),
    {
        match self {
            NewIds::Rust(ids) => ids.len(),
        }
    }

    /// Takes the last id.
    pub fn get_id(&mut self) -> (r: Result<String, StepError>)
        ensures
            old(self).ids().len() > 0 ==> r == Ok::<String, StepError>(old(self).ids().last())
                && final(self).ids() == old(self).ids().drop_last(),
            old(self).ids().len() == 0 ==> r is Err && r->Err_0.0@ == "New ids vec is empty!"@ && final(self).ids()
                == old(self).ids(),
    {
        match self {
            NewIds::Rust(ids) => {
                let new_id = ids.pop();
                match new_id {
                    Some(id) => Ok(id),
                    None => Err(step_error_msg("New ids vec is empty!")),
                }
            },
        }
    }

    /// The fixed ids used by the tests: "a" is handed out first, "B" last.
    pub fn hardcoded_new_ids_for_tests() -> (n: Self)
        ensures
            n.ids().len() == 28,
            forall|j: int| 0 <= j < 28 ==> #[trigger] n.ids()[j]@ == test_ids()[j],
    {
        let hardcoded_ids = [
            "B", "A", "z", "y", "x", "w", "v", "u", "t", "s", "r", "q", "p", "o", "n", "m", "l",
            "k", "j", "i", "h", "g", "f", "e", "d", "c", "b", "a",
        ];
        assert(hardcoded_ids@.map_values(|s: &str| s@) =~= test_ids());
        let mut ids: Vec<String> = Vec::new();
        let mut i: usize = 0;
        while i < 28
            invariant
                i <= 28,
                ids@.len() == i,
                hardcoded_ids@.map_values(|s: &str| s@) == test_ids(),
                hardcoded_ids@.len() == 28,
                forall|j: int| 0 <= j < i ==> #[trigger] ids@[j]@ == test_ids()[j],
            decreases 28 - i,
        {
            ids.push(String::from_str(hardcoded_ids[i]));
            i += 1;
        }
        NewIds::Rust(ids)
    }
}

} // verus!
