//! One tick from snapshot to answer.

use vstd::prelude::*;
use std::collections::HashMap;
use crate::models::ability_map::AbilityMap;
use crate::models::action::ActionType;
use crate::models::error::PipelineError;
use crate::models::state::State;
use crate::processing::encoding::{actions_text, lists_all_keys};
use crate::processing::graph::{lists_view, neighbor_graph};
use crate::processing::routing::tick;
use crate::processing::utils::{build_neighbor_graph, determine_actions, get_action_string};

verus! {

/// Answers one snapshot: validates and builds the neighbor graph, decides
/// the actions, and writes them as one line of text.
///
/// Where the graph cannot be built, the path memory is left untouched.
/// Otherwise it is left as the tick leaves it. No text is produced for a
/// tick that fails.
pub fn answer_tick(
    state: &State,
    ability_map: &AbilityMap,
    pearl_paths: &mut HashMap<u32, Vec<u32>>,
) -> (line: Result<String, PipelineError>)
    ensures
        match neighbor_graph(state@.workers, state@.neighbor_map) {
            Err(e) => line == Err::<String, PipelineError>(e) && final(pearl_paths)@ == old(
                pearl_paths,
            )@,
            Ok(graph) => {
                let outcome = tick(
                    *ability_map,
                    state@.workers,
                    graph,
                    lists_view(old(pearl_paths)@),
                );
                &&& lists_view(final(pearl_paths)@) == outcome.tick.paths
                &&& match line {
                    Ok(text) => outcome.error is None && exists|order: Seq<u32>|
                        lists_all_keys(outcome.tick.actions, order) && text@
                            == #[trigger] actions_text(outcome.tick.actions, order),
                    Err(e) => outcome.error == Some(e),
                }
            },
        },
{
    let neighbor_graph = match build_neighbor_graph(&state.neighbor_map, &state.workers) {
        Ok(graph) => graph,
        Err(e) => {
            return Err(e);
        },
    };
    let actions: HashMap<u32, ActionType> = match determine_actions(
        state,
        ability_map,
        &neighbor_graph,
        pearl_paths,
    ) {
        Ok(actions) => actions,
        Err(e) => {
            return Err(e);
        },
    };
    Ok(get_action_string(actions))
}

} // verus!
