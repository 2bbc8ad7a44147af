//! What holds of every tick.

use vstd::prelude::*;
use crate::models::ability_map::AbilityMap;
use crate::models::action::ActionType;
use crate::models::error::PipelineError;
use crate::models::state::{LayerView, WorkerPearlIDs, WorkerView, GATEKEEPER_ID};
use crate::processing::graph::{
    adjacency, all_edges_ok, distinct_ids, edge_ok, joins, lemma_adjacency_entries,
    lemma_adjacency_symmetric, neighbor_graph, pearl_counts, worker_ids,
};
use crate::processing::routing::{
    actions_suit, empty_neighbors, holds_unfinished, lemma_run_actions, lemma_scan_nom_choice,
    path_known, path_popped, path_pushed, run, scan_neighbors, scan_nom, step, tick, NomChoice,
    Outcome, Tick,
};
use crate::processing::timing::{
    can_dissolve, lemma_ceil_div_antitonic_in_rate, lemma_ceil_div_monotonic_in_thickness,
    time_to_process, total_ticks,
};

verus! {

/// The neighbor graph is symmetric. Where every edge of the snapshot is a
/// pair of worker ids, `a` is on the adjacency list of `b` exactly when `b`
/// is on the adjacency list of `a`, for any two ids.
pub proof fn lemma_graph_is_symmetric(
    workers: Seq<WorkerView>,
    edges: Seq<Seq<u32>>,
    a: u32,
    b: u32,
)
    requires
        all_edges_ok(workers, edges),
    ensures
        neighbor_graph(workers, edges) matches Ok(graph) && ((graph.contains_key(b)
            && graph[b].contains(a)) <==> (graph.contains_key(a) && graph[a].contains(b))),
{
    lemma_adjacency_symmetric(edges, a, b);
    lemma_adjacency_entries(edges, a, b);
    lemma_adjacency_entries(edges, b, a);
    if adjacency(edges, a).contains(b) {
        let i = choose|i: int| 0 <= i < edges.len() && joins(#[trigger] edges[i], a, b);
        assert(edge_ok(workers, edges[i]));
    }
}

/// The graph fails exactly where some edge is no pair of worker ids.
pub proof fn lemma_graph_fails_on_bad_edge(workers: Seq<WorkerView>, edges: Seq<Seq<u32>>)
    ensures
        neighbor_graph(workers, edges) is Err <==> exists|i: int|
            0 <= i < edges.len() && !edge_ok(workers, #[trigger] edges[i]),
{
}

/// The same layers with one of them replaced by a layer of the same color.
pub open spec fn with_thickness(layers: Seq<LayerView>, at: int, thickness: nat) -> Seq<
    LayerView,
> {
    layers.update(at, LayerView { color: layers[at].color, thickness })
}

/// The processing time does not shrink when a layer gets thicker: with any
/// one layer made thicker, a pearl takes the same worker at least as long.
pub proof fn lemma_time_grows_with_thickness(
    table: AbilityMap,
    flavor: Seq<char>,
    layers: Seq<LayerView>,
    at: int,
    thickness: nat,
)
    requires
        0 <= at < layers.len(),
        layers[at].thickness <= thickness,
    ensures
        match time_to_process(table, flavor, layers) {
            Some(time) => time_to_process(table, flavor, with_thickness(layers, at, thickness))
                matches Some(longer) && time <= longer,
            None => time_to_process(table, flavor, with_thickness(layers, at, thickness))
                is None,
        },
    decreases layers.len(),
{
    let thicker = with_thickness(layers, at, thickness);
    assert forall|i: int| 0 <= i < layers.len() implies #[trigger] thicker[i].color
        == layers[i].color by {}
    if can_dissolve(table, flavor, layers) {
        assert forall|i: int| 0 <= i < thicker.len() implies table.dissolves(
            flavor,
            #[trigger] thicker[i].color,
        ) by {
            assert(table.dissolves(flavor, layers[i].color));
        }
        lemma_total_grows(table, flavor, layers, at, thickness);
    } else {
        let i = choose|i: int|
            0 <= i < layers.len() && !table.dissolves(flavor, #[trigger] layers[i].color);
        assert(!table.dissolves(flavor, thicker[i].color));
    }
}

proof fn lemma_total_grows(
    table: AbilityMap,
    flavor: Seq<char>,
    layers: Seq<LayerView>,
    at: int,
    thickness: nat,
)
    requires
        0 <= at < layers.len(),
        layers[at].thickness <= thickness,
        table.dissolves(flavor, layers[at].color),
    ensures
        total_ticks(table, flavor, layers) <= total_ticks(
            table,
            flavor,
            with_thickness(layers, at, thickness),
        ),
    decreases layers.len(),
{
    let thicker = with_thickness(layers, at, thickness);
    if at == layers.len() - 1 {
        assert(thicker.drop_last() =~= layers.drop_last());
        let rate = table.rate(flavor, layers[at].color).unwrap() as nat;
        lemma_ceil_div_monotonic_in_thickness(layers[at].thickness, thickness, rate);
    } else {
        assert(thicker.drop_last() =~= with_thickness(layers.drop_last(), at, thickness));
        assert(thicker.last() == layers.last());
        lemma_total_grows(table, flavor, layers.drop_last(), at, thickness);
    }
}

/// On every color that `slow` dissolves for the flavor, `fast` has a rate at
/// least as high.
pub open spec fn at_least_as_fast(fast: AbilityMap, slow: AbilityMap, flavor: Seq<char>) -> bool {
    forall|color: Seq<char>| #[trigger]
        slow.dissolves(flavor, color) ==> fast.dissolves(flavor, color) && slow.rate(
            flavor,
            color,
        ).unwrap() <= fast.rate(flavor, color).unwrap()
}

/// The processing time does not grow when rates rise: with a table that is
/// at least as fast on every color, a pearl takes the same worker at most as
/// long.
pub proof fn lemma_time_shrinks_with_rate(
    fast: AbilityMap,
    slow: AbilityMap,
    flavor: Seq<char>,
    layers: Seq<LayerView>,
)
    requires
        at_least_as_fast(fast, slow, flavor),
    ensures
        time_to_process(slow, flavor, layers) matches Some(time) ==> time_to_process(
            fast,
            flavor,
            layers,
        ) matches Some(shorter) && shorter <= time,
    decreases layers.len(),
{
    if can_dissolve(slow, flavor, layers) {
        assert forall|i: int| 0 <= i < layers.len() implies fast.dissolves(
            flavor,
            #[trigger] layers[i].color,
        ) by {
            assert(slow.dissolves(flavor, layers[i].color));
        }
        if layers.len() > 0 {
            let front = layers.drop_last();
            let last = layers.last();
            assert forall|i: int| 0 <= i < front.len() implies slow.dissolves(
                flavor,
                #[trigger] front[i].color,
            ) by {
                assert(front[i] == layers[i]);
            }
            lemma_time_shrinks_with_rate(fast, slow, flavor, front);
            assert(slow.dissolves(flavor, layers[layers.len() - 1].color));
            lemma_ceil_div_antitonic_in_rate(
                last.thickness,
                slow.rate(flavor, last.color).unwrap() as nat,
                fast.rate(flavor, last.color).unwrap() as nat,
            );
        }
    }
}

/// No worker gets more than one action in a tick. The actions are filed by
/// worker id, one at most under each id, and each is filed under the id of
/// the worker that carries it out: a worker of the snapshot that has pearls.
/// Where actions were decided at all, no two workers share an id. So there
/// are no more actions than workers.
pub proof fn lemma_one_action_per_worker(
    table: AbilityMap,
    workers: Seq<WorkerView>,
    graph: Map<u32, Seq<u32>>,
    paths: Map<u32, Seq<u32>>,
)
    ensures
        ({
            let actions = tick(table, workers, graph, paths).tick.actions;
            &&& actions_suit(actions, workers)
            &&& distinct_ids(workers) || actions == Map::<u32, ActionType>::empty()
            &&& actions.dom().finite()
            &&& actions.dom().len() <= workers.len()
        }),
{
    let start = Tick { actions: Map::empty(), counts: pearl_counts(workers), paths };
    let actions = tick(table, workers, graph, paths).tick.actions;
    if distinct_ids(workers) {
        lemma_run_actions(table, workers, graph, start, workers);
    }
    let ids = worker_ids(workers);
    assert forall|id: u32| actions.dom().contains(id) implies ids.to_set().contains(id) by {
        assert(actions.contains_key(id));
        let j = choose|j: int|
            0 <= j < workers.len() && (#[trigger] workers[j]).id == id;
        assert(ids[j] == id);
    }
    vstd::seq_lib::seq_to_set_is_finite(ids);
    ids.lemma_cardinality_of_set();
    vstd::set_lib::lemma_len_subset(actions.dom(), ids.to_set());
}

/// A finished pearl is never nommed. Where a tick gives a worker a nom, the
/// pearl to nom is an unfinished pearl on the desk of that worker.
pub proof fn lemma_nom_takes_unfinished_pearl(
    table: AbilityMap,
    workers: Seq<WorkerView>,
    graph: Map<u32, Seq<u32>>,
    paths: Map<u32, Seq<u32>>,
    worker_id: u32,
)
    requires
        tick(table, workers, graph, paths).tick.actions.contains_key(worker_id),
        tick(table, workers, graph, paths).tick.actions[worker_id] is Nom,
    ensures
        exists|j: int|
            0 <= j < workers.len() && (#[trigger] workers[j]).id == worker_id && holds_unfinished(
                workers[j].desk,
                tick(table, workers, graph, paths).tick.actions[worker_id].pearl_id(),
            ),
{
    lemma_one_action_per_worker(table, workers, graph, paths);
}

/// A pearl goes back to the worker that passed it on last. Once a worker has
/// been put on the path of a pearl, the path tells to send the pearl to that
/// worker, and taking the worker off again leaves the path as it was before.
/// The paths of other pearls are not touched.
pub proof fn lemma_pearl_returns_to_sender(
    paths: Map<u32, Seq<u32>>,
    pearl_id: u32,
    worker_id: u32,
)
    ensures
        ({
            let pushed = path_pushed(paths, pearl_id, worker_id);
            let popped = path_popped(pushed, pearl_id);
            &&& path_known(pushed, pearl_id)
            &&& pushed[pearl_id].last() == worker_id
            &&& popped[pearl_id] == if paths.contains_key(pearl_id) {
                paths[pearl_id]
            } else {
                Seq::<u32>::empty()
            }
            &&& forall|other: u32|
                other != pearl_id ==> (popped.contains_key(other) <==> paths.contains_key(other))
                    && popped[other] == paths[other]
        }),
{
    let pushed = path_pushed(paths, pearl_id, worker_id);
    if paths.contains_key(pearl_id) {
        assert(pushed[pearl_id].drop_last() =~= paths[pearl_id]);
    } else {
        assert(pushed[pearl_id].drop_last() =~= Seq::<u32>::empty());
    }
}

/// Every worker of `todo` that has pearls holds finished pearls only and has
/// no neighbor with an empty desk by `counts`.
pub open spec fn all_quiet(todo: Seq<WorkerView>, counts: Map<u32, nat>, graph: Map<u32, Seq<u32>>)
    -> bool {
    forall|j: int|
        0 <= j < todo.len() && (#[trigger] todo[j]).desk.len() > 0 ==> {
            &&& forall|k: int|
                0 <= k < todo[j].desk.len() ==> (#[trigger] todo[j].desk[k]).finished()
            &&& empty_neighbors(todo[j].id, counts, graph) == Ok::<Seq<u32>, PipelineError>(
                Seq::empty(),
            )
        }
}

/// Every worker with pearls holds finished pearls only and has no neighbor
/// with an empty desk.
pub open spec fn is_quiet(workers: Seq<WorkerView>, graph: Map<u32, Seq<u32>>) -> bool {
    all_quiet(workers, pearl_counts(workers), graph)
}

proof fn lemma_quiet_run(
    table: AbilityMap,
    other: AbilityMap,
    workers: Seq<WorkerView>,
    graph: Map<u32, Seq<u32>>,
    start: Tick,
    todo: Seq<WorkerView>,
)
    requires
        all_quiet(todo, start.counts, graph),
    ensures
        run(table, workers, graph, start, todo) == run(other, workers, graph, start, todo),
        run(table, workers, graph, start, todo).tick.counts == start.counts,
    decreases todo.len(),
{
    if todo.len() > 0 {
        let front = todo.drop_last();
        let worker = todo.last();
        assert forall|j: int| 0 <= j < front.len() implies front[j] == todo[j] by {}
        lemma_quiet_run(table, other, workers, graph, start, front);
        let before = run(table, workers, graph, start, front);
        if before.error is None && worker.desk.len() > 0 {
            assert(todo[todo.len() - 1] == worker);
            assert(scan_neighbors(table, workers, worker, Seq::<u32>::empty()) == Ok::<
                Option<WorkerPearlIDs>,
                PipelineError,
            >(None));
            assert(scan_neighbors(other, workers, worker, Seq::<u32>::empty()) == Ok::<
                Option<WorkerPearlIDs>,
                PipelineError,
            >(None));
            lemma_no_nom_among_finished(table, worker);
            lemma_no_nom_among_finished(other, worker);
        }
    }
}

proof fn lemma_no_nom_among_finished(table: AbilityMap, worker: WorkerView)
    requires
        forall|k: int| 0 <= k < worker.desk.len() ==> (#[trigger] worker.desk[k]).finished(),
    ensures
        scan_nom(table, worker.flavor, worker.desk) == Ok::<Option<NomChoice>, PipelineError>(
            None,
        ),
{
    lemma_scan_nom_choice(table, worker.flavor, worker.desk);
    match scan_nom(table, worker.flavor, worker.desk) {
        Ok(Some(choice)) => {
            assert(worker.desk[choice.at].finished());
        },
        Err(_) => {
            let k = choose|k: int|
                0 <= k < worker.desk.len() && !(#[trigger] worker.desk[k]).finished();
            assert(worker.desk[k].finished());
        },
        Ok(None) => {},
    }
}

/// On a quiet snapshot a tick does nothing but send finished pearls back. It
/// offloads nothing, so the projected counts stay those of the snapshot, and
/// the rates play no part: the answer is the same with any ability table.
pub proof fn lemma_quiet_tick_ignores_rates(
    table: AbilityMap,
    other: AbilityMap,
    workers: Seq<WorkerView>,
    graph: Map<u32, Seq<u32>>,
    paths: Map<u32, Seq<u32>>,
)
    requires
        is_quiet(workers, graph),
    ensures
        tick(table, workers, graph, paths) == tick(other, workers, graph, paths),
        tick(table, workers, graph, paths).tick.counts == pearl_counts(workers),
{
    let start = Tick { actions: Map::empty(), counts: pearl_counts(workers), paths };
    lemma_quiet_run(table, other, workers, graph, start, workers);
}

/// A tick on a quiet snapshot can be repeated: where it has left the path
/// memory as it found it, the same snapshot gives the same actions again.
pub proof fn lemma_quiet_tick_repeats(
    table: AbilityMap,
    workers: Seq<WorkerView>,
    graph: Map<u32, Seq<u32>>,
    paths: Map<u32, Seq<u32>>,
)
    requires
        is_quiet(workers, graph),
        tick(table, workers, graph, paths).tick.paths == paths,
    ensures
        tick(table, workers, graph, tick(table, workers, graph, paths).tick.paths).tick.actions
            == tick(table, workers, graph, paths).tick.actions,
{
}

/// The workers of `todo` are quiet, and none but the gatekeeper has pearls.
pub open spec fn only_gatekeeper_waits(
    todo: Seq<WorkerView>,
    counts: Map<u32, nat>,
    graph: Map<u32, Seq<u32>>,
) -> bool {
    &&& all_quiet(todo, counts, graph)
    &&& forall|j: int|
        0 <= j < todo.len() && (#[trigger] todo[j]).desk.len() > 0 ==> todo[j].id
            == GATEKEEPER_ID
}

proof fn lemma_waiting_run_decides_nothing(
    table: AbilityMap,
    workers: Seq<WorkerView>,
    graph: Map<u32, Seq<u32>>,
    start: Tick,
    todo: Seq<WorkerView>,
)
    requires
        only_gatekeeper_waits(todo, start.counts, graph),
    ensures
        run(table, workers, graph, start, todo) == (Outcome { tick: start, error: None }),
    decreases todo.len(),
{
    if todo.len() > 0 {
        let front = todo.drop_last();
        let worker = todo.last();
        assert forall|j: int| 0 <= j < front.len() implies front[j] == todo[j] by {}
        lemma_waiting_run_decides_nothing(table, workers, graph, start, front);
        if worker.desk.len() > 0 {
            assert(todo[todo.len() - 1] == worker);
            assert(scan_neighbors(table, workers, worker, Seq::<u32>::empty()) == Ok::<
                Option<WorkerPearlIDs>,
                PipelineError,
            >(None));
            lemma_no_nom_among_finished(table, worker);
            assert(step(table, workers, graph, start, worker) == Ok::<Tick, PipelineError>(
                start,
            ));
        }
    }
}

/// A tick in which only the gatekeeper has pearls, all of them finished, and
/// no neighbor of it is idle decides nothing and leaves the path memory as
/// it is. Such a tick gives the same answer however often it is repeated.
pub proof fn lemma_waiting_gatekeeper_tick_is_idle(
    table: AbilityMap,
    workers: Seq<WorkerView>,
    graph: Map<u32, Seq<u32>>,
    paths: Map<u32, Seq<u32>>,
)
    requires
        distinct_ids(workers),
        only_gatekeeper_waits(workers, pearl_counts(workers), graph),
    ensures
        is_quiet(workers, graph),
        tick(table, workers, graph, paths) == (Outcome {
            tick: Tick { actions: Map::empty(), counts: pearl_counts(workers), paths },
            error: None,
        }),
{
    let start = Tick { actions: Map::empty(), counts: pearl_counts(workers), paths };
    lemma_waiting_run_decides_nothing(table, workers, graph, start, workers);
}

} // verus!
