use vstd::prelude::*;

use crate::blocks::{BlockMap, inline_block_of};
use crate::step::{PasteStep, Step};
use crate::steps_actualisor::CustomCopy;
use crate::steps_generator::{StepError, step_error_msg};
use crate::steps_generator::keypress_step_generator::backspace::{check_backspace, deletes_between, generate_steps_for_backspace};
use crate::steps_generator::selection::SubSelection;

verus! {

/// The steps for cut: copy what is selected, then delete it.
pub fn generate_cut_steps(from: SubSelection, to: SubSelection, block_map: &BlockMap) -> (r: Result<Vec<Step>, StepError>)
    ensures
        from@ == to@ ==> (r matches Ok(steps) && steps@.len() == 1 && steps@[0] == Step::Copy(from, to)),
        r matches Ok(steps) ==> steps@.len() >= 1 && steps@[0] is Copy,
        r matches Ok(steps) ==> steps@[0] matches Step::Copy(a, b) && a@ == from@ && b@ == to@,
        from@ != to@ && inline_block_of(block_map@, from@[0].block_id) is Some ==> r is Ok && deletes_between(
            r->Ok_0@.drop_first(),
            inline_block_of(block_map@, from@[0].block_id)->0.parent,
            from,
            to,
        ),
{
    let mut steps: Vec<Step> = Vec::new();
    if from.same_as(&to) {
        steps.push(Step::Copy(from, to));
        return Ok(steps)
    } else {
        steps.push(Step::Copy(from.copy(), to.copy()));
        if !check_backspace(block_map, &from, &to) {
            return Err(step_error_msg("Backspace does not fit the document"));
        }
        let mut rest = generate_steps_for_backspace(block_map, from, to)?;
        steps.append(&mut rest);
        return Ok(steps)
    }
}

/// The steps for paste: delete what is selected, then paste the clipboard.
pub fn generate_paste_steps(from: SubSelection, to: SubSelection, block_map: &BlockMap, copy: CustomCopy) -> (r: Result<Vec<Step>, StepError>)
    ensures
        from@ == to@ ==> (r matches Ok(steps) && steps@.len() == 1 && steps@[0] is Paste),
        r matches Ok(steps) ==> steps@.len() >= 1 && steps@.last() is Paste,
        from@ != to@ && inline_block_of(block_map@, from@[0].block_id) is Some ==> r is Ok && deletes_between(
            r->Ok_0@.drop_last(),
            inline_block_of(block_map@, from@[0].block_id)->0.parent,
            from,
            to,
        ),
{
    let mut steps: Vec<Step> = Vec::new();
    if from.same_as(&to) {
        steps.push(Step::Paste(PasteStep { from, to, copy_tree: copy.to_tree()? }));
        return Ok(steps)
    } else {
        if !check_backspace(block_map, &from, &to) {
            return Err(step_error_msg("Backspace does not fit the document"));
        }
        let mut first = generate_steps_for_backspace(block_map, from.copy(), to.copy())?;
        steps.append(&mut first);
        steps.push(Step::Paste(PasteStep { from, to, copy_tree: copy.to_tree()? }));
        return Ok(steps)
    }
}

} // verus!
