use vstd::prelude::*;

use crate::blocks::{BlockMap, BlockMapView, insert_blocks};
use crate::json::{json_blocks, json_step, json_step_ok, parsed_json};
use crate::new_ids::NewIds;
use crate::step::Step;
use crate::steps_actualisor::{CustomCopy, actualise_steps, step_effect, steps_chain};
use crate::steps_generator::StepError;

use crate::steps_actualisor::actualise_toggle_completed::{is_todo, toggled};

verus! {

/// Replays on the server a step that the editor already applied: the
/// document afterwards, worked out from `block_map` with the fresh ids
/// `new_ids`. A step that only the editor applies (a copy) comes as
/// `None`, and leaves the document as it is.
pub fn mirror_step(step: Option<Step>, new_ids: Vec<String>, block_map: BlockMap) -> (r: Result<
    BlockMap,
    StepError,
>)
    ensures
        step is None ==> r == Ok::<BlockMap, StepError>(block_map),
        step matches Some(Step::ToggleCompleted(id)) ==> (r is Ok <==> is_todo(block_map@, id@)),
        step matches Some(Step::ToggleCompleted(id)) ==> (r is Ok ==> r->Ok_0@ == toggled(block_map@, id@)),
        step is Some && r is Ok ==> step_effect(block_map@, new_ids@, step->0, r->Ok_0@),
{
    match step {
        None => Ok(block_map),
        Some(step) => {
            let mut new_ids = NewIds::Rust(new_ids);
            let mut steps: Vec<Step> = Vec::new();
            steps.push(step);
            let ghost m = block_map@;
            let ghost st = steps@;
            let ghost ids0 = new_ids.ids();
            let updated_state = actualise_steps(steps, block_map, &mut new_ids, CustomCopy::new())?;
            proof {
                let (chain, id_chain) = choose|chain: Seq<BlockMapView>, id_chain: Seq<Seq<String>>| #[trigger] steps_chain(
                    m,
                    ids0,
                    st,
                    chain,
                    id_chain,
                ) && chain.last() == updated_state.block_map@ && id_chain.last() == new_ids.ids();
                assert(step_effect(chain[0], id_chain[0], st[0], chain[1]));
            }
            Ok(updated_state.block_map)
        },
    }
}

/// Replays on the server a step that the editor already applied, from its
/// JSON form: `(type, data)` names the step and holds its data as JSON
/// text, and `blocks` holds the JSON text of each block of the stored
/// document. A copy step leaves the document as it is (`None`: nothing is
/// read); any other step gives the document afterwards.
pub fn actualise_mirror_step(step_as_json: (String, String), new_ids: Vec<String>, blocks: Vec<String>) -> (r: Result<
    Option<BlockMap>,
    StepError,
>)
    requires
        step_as_json.0@ != "Copy"@,
        step_as_json.0@ != "Paste"@,
    ensures
        step_as_json.0@ == "copy"@ ==> r matches Ok(None),
        step_as_json.0@ != "copy"@ ==> ({
            let t = step_as_json.0@;
            let v = parsed_json(step_as_json.1@);
            &&& (v is None || !json_step_ok(t, v->0) || json_blocks(blocks@) is None) ==> r is Err
            &&& r is Ok ==> r->Ok_0 is Some && exists|s: Step| #[trigger] json_step(t, v->0, s) && step_effect(
                insert_blocks(Map::empty(), json_blocks(blocks@)->0),
                new_ids@,
                s,
                r->Ok_0->0@,
            )
        }),
{
    let (step_type, data) = step_as_json;
    proof {
        reveal_strlit("copy");
    }
    if crate::text::str_eq(step_type.as_str(), "copy") {
        return Ok(None);
    }
    let step = Step::from_json(step_type.as_str(), data.as_str())?;
    let ghost s = step;
    let block_map = BlockMap::from(blocks)?;
    let block_map = mirror_step(Some(step), new_ids, block_map)?;
    proof {
        assert(json_step(step_type@, parsed_json(data@)->0, s));
    }
    Ok(Some(block_map))
}

} // verus!
