//! Whole ticks, from snapshot to the line of text that answers it. The
//! fields of a line may come in any order, so a line with several actions is
//! taken apart before it is compared.

use std::collections::HashMap;

use pearl_pipeline::models::ability_map::{AbilityMap, Color};
use pearl_pipeline::models::action::ActionType;
use pearl_pipeline::models::error::PipelineError;
use pearl_pipeline::models::state::{Layer, Pearl, State, Worker};
use pearl_pipeline::processing::pearl_pipeline::answer_tick;
use pearl_pipeline::processing::utils::{
    build_neighbor_graph, determine_actions, get_action_string, make_nom, make_pass,
};

fn table() -> AbilityMap {
    AbilityMap {
        general: Color { red: 1, green: 1, blue: 1 },
        vector: Color { red: 1, green: 5, blue: 2 },
        matrix: Color { red: 5, green: 2, blue: 1 },
    }
}

fn layer(color: &str, thickness: u32) -> Layer {
    Layer { color: String::from(color), thickness }
}

fn worker(id: u32, flavor: &str, desk: Vec<Pearl>) -> Worker {
    Worker { id, flavor: String::from(flavor), desk }
}

#[test]
fn test_empty_output() {
    let state = State {
        workers: vec![worker(0, "General", vec![]), worker(1, "Matrix", vec![])],
        neighbor_map: vec![vec![0, 1]],
        score: 0,
    };
    let mut paths: HashMap<u32, Vec<u32>> = HashMap::new();

    let line = answer_tick(&state, &table(), &mut paths).unwrap();

    assert_eq!(line, "{}");
    assert!(paths.is_empty());
}

#[test]
fn test_output_with_actions() {
    // Worker 0 noms its only pearl: worker 1 is idle, but slower on Green.
    // Worker 2 sends a finished pearl back to worker 0.
    let state = State {
        workers: vec![
            worker(0, "Vector", vec![Pearl { id: 7, layers: vec![layer("Green", 12)] }]),
            worker(1, "Matrix", vec![]),
            worker(2, "General", vec![Pearl { id: 9, layers: vec![] }]),
        ],
        neighbor_map: vec![vec![0, 1], vec![0, 2]],
        score: 3,
    };
    let mut paths: HashMap<u32, Vec<u32>> = HashMap::new();
    paths.insert(9, vec![0]);

    let line = answer_tick(&state, &table(), &mut paths).unwrap();

    let decoded: serde_json::Value = serde_json::from_str(&line).unwrap();
    let fields = decoded.as_object().unwrap();
    assert_eq!(fields.len(), 2);
    assert_eq!(decoded["0"]["Nom"].as_u64(), Some(7));
    assert_eq!(decoded["2"]["Pass"]["pearl_id"].as_u64(), Some(9));
    assert_eq!(decoded["2"]["Pass"]["to_worker"].as_u64(), Some(0));
    assert_eq!(paths[&9], Vec::<u32>::new());
}

#[test]
fn finished_pearl_goes_back_along_its_path() {
    let state = State {
        workers: vec![
            worker(0, "General", vec![]),
            worker(1, "Matrix", vec![Pearl { id: 67890, layers: vec![] }]),
        ],
        neighbor_map: vec![vec![0, 1]],
        score: 0,
    };
    let mut paths: HashMap<u32, Vec<u32>> = HashMap::new();
    paths.insert(67890, vec![0]);

    let line = answer_tick(&state, &table(), &mut paths).unwrap();

    assert_eq!(line, "{\"1\":{\"Pass\":{\"pearl_id\":67890,\"to_worker\":0}}}");
    assert_eq!(paths[&67890], Vec::<u32>::new());
}

#[test]
fn slower_worker_offloads_to_idle_neighbor() {
    // Matrix dissolves Green at 2, Vector at 5: worker 0 is the faster one.
    let state = State {
        workers: vec![
            worker(0, "Vector", vec![]),
            worker(
                1,
                "Matrix",
                vec![
                    Pearl { id: 500, layers: vec![layer("Red", 10)] },
                    Pearl { id: 12345, layers: vec![layer("Green", 12)] },
                ],
            ),
        ],
        neighbor_map: vec![vec![0, 1]],
        score: 0,
    };
    let graph = build_neighbor_graph(&state.neighbor_map, &state.workers).unwrap();
    let mut paths: HashMap<u32, Vec<u32>> = HashMap::new();
    paths.insert(12345, vec![0, 4]);

    let actions = determine_actions(&state, &table(), &graph, &mut paths).unwrap();

    assert_eq!(actions.len(), 1);
    assert_eq!(actions[&1], make_pass(1, 12345, 0));
    assert_eq!(paths[&12345], vec![0, 4, 1]);
}

#[test]
fn offload_starts_a_path_for_a_pearl_without_one() {
    let state = State {
        workers: vec![
            worker(0, "Matrix", vec![Pearl { id: 3, layers: vec![layer("Green", 12)] }]),
            worker(1, "Vector", vec![]),
        ],
        neighbor_map: vec![vec![0, 1]],
        score: 0,
    };
    let graph = build_neighbor_graph(&state.neighbor_map, &state.workers).unwrap();
    let mut paths: HashMap<u32, Vec<u32>> = HashMap::new();

    let actions = determine_actions(&state, &table(), &graph, &mut paths).unwrap();

    assert_eq!(actions[&0], make_pass(0, 3, 1));
    assert_eq!(paths[&3], vec![0]);
}

#[test]
fn two_workers_do_not_offload_into_the_same_idle_neighbor() {
    // Workers 1 and 2 are both slower than the idle worker 0. Worker 1 comes
    // first and takes the free desk; worker 2 has to nom.
    let state = State {
        workers: vec![
            worker(1, "Matrix", vec![Pearl { id: 11, layers: vec![layer("Green", 12)] }]),
            worker(2, "Matrix", vec![Pearl { id: 22, layers: vec![layer("Green", 12)] }]),
            worker(0, "Vector", vec![]),
        ],
        neighbor_map: vec![vec![0, 1], vec![0, 2]],
        score: 0,
    };
    let graph = build_neighbor_graph(&state.neighbor_map, &state.workers).unwrap();
    let mut paths: HashMap<u32, Vec<u32>> = HashMap::new();

    let actions = determine_actions(&state, &table(), &graph, &mut paths).unwrap();

    assert_eq!(actions.len(), 2);
    assert_eq!(actions[&1], make_pass(1, 11, 0));
    assert_eq!(actions[&2], make_nom(2, 22));
    assert_eq!(paths[&11], vec![1]);
    assert!(!paths.contains_key(&22));
}

#[test]
fn workers_are_taken_in_snapshot_order() {
    // The same snapshot with workers 1 and 2 swapped: now worker 2 gets the
    // idle neighbor.
    let state = State {
        workers: vec![
            worker(2, "Matrix", vec![Pearl { id: 22, layers: vec![layer("Green", 12)] }]),
            worker(1, "Matrix", vec![Pearl { id: 11, layers: vec![layer("Green", 12)] }]),
            worker(0, "Vector", vec![]),
        ],
        neighbor_map: vec![vec![0, 1], vec![0, 2]],
        score: 0,
    };
    let graph = build_neighbor_graph(&state.neighbor_map, &state.workers).unwrap();
    let mut paths: HashMap<u32, Vec<u32>> = HashMap::new();

    let actions = determine_actions(&state, &table(), &graph, &mut paths).unwrap();

    assert_eq!(actions[&2], make_pass(2, 22, 0));
    assert_eq!(actions[&1], make_nom(1, 11));
}

#[test]
fn only_the_first_finished_pearl_goes_back() {
    let state = State {
        workers: vec![
            worker(0, "General", vec![]),
            worker(
                1,
                "Matrix",
                vec![
                    Pearl { id: 5, layers: vec![layer("Red", 1)] },
                    Pearl { id: 6, layers: vec![] },
                    Pearl { id: 7, layers: vec![] },
                ],
            ),
        ],
        neighbor_map: vec![vec![0, 1]],
        score: 0,
    };
    let graph = build_neighbor_graph(&state.neighbor_map, &state.workers).unwrap();
    let mut paths: HashMap<u32, Vec<u32>> = HashMap::new();
    paths.insert(6, vec![0, 3]);
    paths.insert(7, vec![0]);

    let actions = determine_actions(&state, &table(), &graph, &mut paths).unwrap();

    assert_eq!(actions.len(), 1);
    assert_eq!(actions[&1], make_pass(1, 6, 3));
    assert_eq!(paths[&6], vec![0]);
    assert_eq!(paths[&7], vec![0]);
}

#[test]
fn gatekeeper_keeps_finished_pearls() {
    let state = State {
        workers: vec![
            worker(
                0,
                "General",
                vec![Pearl { id: 1, layers: vec![] }, Pearl { id: 2, layers: vec![] }],
            ),
            worker(1, "Matrix", vec![]),
        ],
        neighbor_map: vec![vec![0, 1]],
        score: 0,
    };
    let graph = build_neighbor_graph(&state.neighbor_map, &state.workers).unwrap();
    let mut paths: HashMap<u32, Vec<u32>> = HashMap::new();

    let actions = determine_actions(&state, &table(), &graph, &mut paths).unwrap();

    assert!(actions.is_empty());
    assert!(paths.is_empty());
}

#[test]
fn quiet_tick_repeats() {
    // Only the gatekeeper has pearls, all finished, and its neighbor is busy
    // elsewhere in no way that matters: it has no idle neighbor at all.
    let state = State {
        workers: vec![worker(0, "General", vec![Pearl { id: 1, layers: vec![] }])],
        neighbor_map: vec![],
        score: 0,
    };
    let graph = build_neighbor_graph(&state.neighbor_map, &state.workers).unwrap();
    let mut paths: HashMap<u32, Vec<u32>> = HashMap::new();
    paths.insert(1, vec![]);

    let first = determine_actions(&state, &table(), &graph, &mut paths).unwrap();
    let kept = paths.clone();
    let second = determine_actions(&state, &table(), &graph, &mut paths).unwrap();

    assert_eq!(first, second);
    assert!(first.is_empty());
    assert_eq!(paths, kept);
}

#[test]
fn no_worker_noms_a_finished_pearl() {
    let state = State {
        workers: vec![
            worker(
                0,
                "Vector",
                vec![
                    Pearl { id: 1, layers: vec![] },
                    Pearl { id: 2, layers: vec![layer("Green", 50)] },
                ],
            ),
            worker(1, "Matrix", vec![Pearl { id: 3, layers: vec![layer("Blue", 1)] }]),
        ],
        neighbor_map: vec![vec![0, 1]],
        score: 0,
    };
    let graph = build_neighbor_graph(&state.neighbor_map, &state.workers).unwrap();
    let mut paths: HashMap<u32, Vec<u32>> = HashMap::new();

    let actions = determine_actions(&state, &table(), &graph, &mut paths).unwrap();

    assert_eq!(actions.len(), 2);
    assert_eq!(actions[&0], make_nom(0, 2));
    assert_eq!(actions[&1], make_nom(1, 3));
    for (id, action) in &actions {
        if let ActionType::Nom(nom) = action {
            assert_eq!(nom.nautiloid_id, *id);
            let desk = &state.workers.iter().find(|w| w.id == *id).unwrap().desk;
            assert!(desk.iter().any(|p| p.id == nom.pearl_id && !p.layers.is_empty()));
        }
    }
}

#[test]
fn missing_path_fails_the_tick() {
    let state = State {
        workers: vec![
            worker(0, "General", vec![]),
            worker(1, "Matrix", vec![Pearl { id: 67890, layers: vec![] }]),
        ],
        neighbor_map: vec![vec![0, 1]],
        score: 0,
    };
    let mut paths: HashMap<u32, Vec<u32>> = HashMap::new();

    let line = answer_tick(&state, &table(), &mut paths);

    assert_eq!(line, Err(PipelineError::PathMemory { pearl_id: 67890 }));
    assert!(paths.is_empty());
}

#[test]
fn used_up_path_fails_the_tick() {
    let state = State {
        workers: vec![
            worker(0, "General", vec![]),
            worker(1, "Matrix", vec![Pearl { id: 67890, layers: vec![] }]),
        ],
        neighbor_map: vec![vec![0, 1]],
        score: 0,
    };
    let mut paths: HashMap<u32, Vec<u32>> = HashMap::new();
    paths.insert(67890, vec![]);

    let line = answer_tick(&state, &table(), &mut paths);

    assert_eq!(line, Err(PipelineError::PathMemory { pearl_id: 67890 }));
    assert_eq!(paths[&67890], Vec::<u32>::new());
}

#[test]
fn failed_tick_keeps_the_decisions_made_before() {
    // Worker 1 returns pearl 6 before worker 2 fails for want of a path.
    let state = State {
        workers: vec![
            worker(0, "General", vec![]),
            worker(1, "Matrix", vec![Pearl { id: 6, layers: vec![] }]),
            worker(2, "Matrix", vec![Pearl { id: 8, layers: vec![] }]),
        ],
        neighbor_map: vec![vec![0, 1], vec![0, 2]],
        score: 0,
    };
    let graph = build_neighbor_graph(&state.neighbor_map, &state.workers).unwrap();
    let mut paths: HashMap<u32, Vec<u32>> = HashMap::new();
    paths.insert(6, vec![0]);

    let actions = determine_actions(&state, &table(), &graph, &mut paths);

    assert_eq!(actions, Err(PipelineError::PathMemory { pearl_id: 8 }));
    assert_eq!(paths[&6], Vec::<u32>::new());
}

#[test]
fn shared_worker_id_is_refused() {
    let state = State {
        workers: vec![
            worker(4, "General", vec![Pearl { id: 1, layers: vec![layer("Red", 1)] }]),
            worker(4, "Matrix", vec![]),
        ],
        neighbor_map: vec![],
        score: 0,
    };
    let mut paths: HashMap<u32, Vec<u32>> = HashMap::new();

    assert_eq!(answer_tick(&state, &table(), &mut paths), Err(PipelineError::DuplicateWorker));
}

#[test]
fn bad_edge_fails_before_any_decision() {
    let state = State {
        workers: vec![
            worker(0, "General", vec![]),
            worker(1, "Matrix", vec![Pearl { id: 6, layers: vec![] }]),
        ],
        neighbor_map: vec![vec![1, 2]],
        score: 0,
    };
    let mut paths: HashMap<u32, Vec<u32>> = HashMap::new();
    paths.insert(6, vec![0]);

    let line = answer_tick(&state, &table(), &mut paths);

    assert_eq!(line, Err(PipelineError::GraphValidation { worker_id: 2 }));
    assert_eq!(paths[&6], vec![0]);
}

#[test]
fn unknown_color_fails_the_tick() {
    let state = State {
        workers: vec![worker(0, "General", vec![Pearl { id: 6, layers: vec![layer("Mauve", 3)] }])],
        neighbor_map: vec![],
        score: 0,
    };
    let mut paths: HashMap<u32, Vec<u32>> = HashMap::new();

    assert_eq!(answer_tick(&state, &table(), &mut paths), Err(PipelineError::Configuration));
}

#[test]
fn encoding_no_actions_gives_empty_object() {
    let actions: HashMap<u32, ActionType> = HashMap::new();

    assert_eq!(get_action_string(actions), "{}");
}

#[test]
fn encoding_a_single_pass_round_trips() {
    let mut actions: HashMap<u32, ActionType> = HashMap::new();
    actions.insert(1, make_pass(1, 52, 0));

    let line = get_action_string(actions);

    assert_eq!(line, "{\"1\":{\"Pass\":{\"pearl_id\":52,\"to_worker\":0}}}");
    let decoded: serde_json::Value = serde_json::from_str(&line).unwrap();
    assert_eq!(decoded.as_object().unwrap().len(), 1);
    assert_eq!(decoded["1"].as_object().unwrap().len(), 1);
    assert_eq!(decoded["1"]["Pass"].as_object().unwrap().len(), 2);
    assert_eq!(decoded["1"]["Pass"]["pearl_id"].as_u64(), Some(52));
    assert_eq!(decoded["1"]["Pass"]["to_worker"].as_u64(), Some(0));
}

#[test]
fn encoding_a_single_nom_round_trips() {
    let mut actions: HashMap<u32, ActionType> = HashMap::new();
    actions.insert(0, make_nom(0, 1234));

    let line = get_action_string(actions);

    assert_eq!(line, "{\"0\":{\"Nom\":1234}}");
    let decoded: serde_json::Value = serde_json::from_str(&line).unwrap();
    assert_eq!(decoded.as_object().unwrap().len(), 1);
    assert_eq!(decoded["0"].as_object().unwrap().len(), 1);
    assert_eq!(decoded["0"]["Nom"].as_u64(), Some(1234));
}

#[test]
fn encoding_writes_large_ids_in_full() {
    let mut actions: HashMap<u32, ActionType> = HashMap::new();
    actions.insert(4294967295, make_pass(4294967295, 1000000000, 4000000009));

    let line = get_action_string(actions);

    assert_eq!(
        line,
        "{\"4294967295\":{\"Pass\":{\"pearl_id\":1000000000,\"to_worker\":4000000009}}}"
    );
}

#[test]
fn encoding_several_actions_lists_each_worker_once() {
    let mut actions: HashMap<u32, ActionType> = HashMap::new();
    actions.insert(1, make_pass(1, 52, 0));
    actions.insert(0, make_nom(0, 1234));
    actions.insert(10, make_nom(10, 7));

    let line = get_action_string(actions);

    let decoded: serde_json::Value = serde_json::from_str(&line).unwrap();
    assert_eq!(decoded.as_object().unwrap().len(), 3);
    assert_eq!(decoded["1"]["Pass"]["pearl_id"].as_u64(), Some(52));
    assert_eq!(decoded["1"]["Pass"]["to_worker"].as_u64(), Some(0));
    assert_eq!(decoded["0"]["Nom"].as_u64(), Some(1234));
    assert_eq!(decoded["10"]["Nom"].as_u64(), Some(7));
    assert_eq!(line.matches(',').count(), 3);
}
