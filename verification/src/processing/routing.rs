//! The routing heuristic as mathematics.
//!
//! Every worker with pearls on its desk is taken in snapshot order and gets
//! at most one action, by the first rule that applies:
//!
//! 1. a worker other than the gatekeeper sends its first finished pearl one
//!    step back along the path on which the pearl came;
//! 2. a worker hands an unfinished pearl to an idle neighbor that would be
//!    faster with it, or as fast while the worker has more than one pearl;
//! 3. a worker noms the unfinished pearl it needs the least time for.
//!
//! Rule 2 is a plain scan that keeps the last pair it accepts. It is no
//! search for the best pair. Finished pearls are no candidates for rule 2.

use vstd::prelude::*;
use crate::models::ability_map::AbilityMap;
use crate::models::action::{ActionType, Nom, Pass};
use crate::models::error::PipelineError;
use crate::models::state::{PearlView, WorkerPearlIDs, WorkerView, GATEKEEPER_ID};
use crate::processing::graph::{distinct_ids, lemma_counts_of_distinct, pearl_counts, worker_ids};
use crate::processing::timing::time_to_process;

verus! {

/// The entries of `neighbors` whose pearl count is zero, in order.
pub open spec fn idle_among(neighbors: Seq<u32>, counts: Map<u32, nat>) -> Seq<u32>
    decreases neighbors.len(),
{
    if neighbors.len() == 0 {
        Seq::empty()
    } else {
        let before = idle_among(neighbors.drop_last(), counts);
        if counts[neighbors.last()] == 0 {
            before.push(neighbors.last())
        } else {
            before
        }
    }
}

/// Every entry of `neighbors` has a pearl count.
pub open spec fn all_counted(neighbors: Seq<u32>, counts: Map<u32, nat>) -> bool {
    forall|k: int| 0 <= k < neighbors.len() ==> counts.contains_key(#[trigger] neighbors[k])
}

/// `index` is the position of the first neighbor without a pearl count.
pub open spec fn is_first_uncounted(neighbors: Seq<u32>, counts: Map<u32, nat>, index: int)
    -> bool {
    &&& 0 <= index < neighbors.len()
    &&& !counts.contains_key(neighbors[index])
    &&& forall|k: int| 0 <= k < index ==> counts.contains_key(#[trigger] neighbors[k])
}

/// The neighbors of a worker that have an empty desk by `counts`.
///
/// Fails with `GraphValidation` where the graph has no entry for the worker
/// (naming the worker) or lists a neighbor that has no pearl count (naming
/// the first such neighbor).
pub open spec fn empty_neighbors(worker_id: u32, counts: Map<u32, nat>, graph: Map<u32, Seq<u32>>)
    -> Result<Seq<u32>, PipelineError> {
    if !graph.contains_key(worker_id) {
        Err(PipelineError::GraphValidation { worker_id })
    } else if !all_counted(graph[worker_id], counts) {
        let index = choose|index: int| is_first_uncounted(graph[worker_id], counts, index);
        Err(PipelineError::GraphValidation { worker_id: graph[worker_id][index] })
    } else {
        Ok(idle_among(graph[worker_id], counts))
    }
}

/// `at` is the position of the first worker with this id.
pub open spec fn is_first_with_id(workers: Seq<WorkerView>, id: u32, at: int) -> bool {
    &&& 0 <= at < workers.len()
    &&& workers[at].id == id
    &&& forall|j: int| 0 <= j < at ==> (#[trigger] workers[j]).id != id
}

/// The first worker with this id.
pub open spec fn find_worker(workers: Seq<WorkerView>, id: u32) -> Option<WorkerView> {
    if exists|at: int| is_first_with_id(workers, id, at) {
        Some(workers[choose|at: int| is_first_with_id(workers, id, at)])
    } else {
        None
    }
}

/// Whether `worker` should hand `pearl` to the neighbor `to`: the neighbor
/// is strictly faster, or exactly as fast while the worker holds more than
/// one pearl.
///
/// Fails with `Configuration` where the worker's time cannot be estimated,
/// else with `GraphValidation` where no worker has the neighbor's id, else
/// with `Configuration` where the neighbor's time cannot be estimated.
pub open spec fn should_offload(
    table: AbilityMap,
    workers: Seq<WorkerView>,
    worker: WorkerView,
    to: u32,
    pearl: PearlView,
) -> Result<bool, PipelineError> {
    match time_to_process(table, worker.flavor, pearl.layers) {
        None => Err(PipelineError::Configuration),
        Some(own) => match find_worker(workers, to) {
            None => Err(PipelineError::GraphValidation { worker_id: to }),
            Some(neighbor) => match time_to_process(table, neighbor.flavor, pearl.layers) {
                None => Err(PipelineError::Configuration),
                Some(theirs) => Ok(theirs < own || (theirs == own && worker.desk.len() > 1)),
            },
        },
    }
}

/// Scans the first pearls of the worker's desk for one neighbor. Every
/// unfinished pearl that should be offloaded replaces the choice so far.
pub open spec fn scan_desk(
    table: AbilityMap,
    workers: Seq<WorkerView>,
    worker: WorkerView,
    to: u32,
    pearls: Seq<PearlView>,
    so_far: Option<WorkerPearlIDs>,
) -> Result<Option<WorkerPearlIDs>, PipelineError>
    decreases pearls.len(),
{
    if pearls.len() == 0 {
        Ok(so_far)
    } else {
        match scan_desk(table, workers, worker, to, pearls.drop_last(), so_far) {
            Err(e) => Err(e),
            Ok(best) => {
                let pearl = pearls.last();
                if pearl.finished() {
                    Ok(best)
                } else {
                    match should_offload(table, workers, worker, to, pearl) {
                        Err(e) => Err(e),
                        Ok(true) => Ok(
                            Some(WorkerPearlIDs { worker_id: to, pearl_id: pearl.id }),
                        ),
                        Ok(false) => Ok(best),
                    }
                }
            },
        }
    }
}

/// Scans the whole desk for each of `neighbors` in turn.
pub open spec fn scan_neighbors(
    table: AbilityMap,
    workers: Seq<WorkerView>,
    worker: WorkerView,
    neighbors: Seq<u32>,
) -> Result<Option<WorkerPearlIDs>, PipelineError>
    decreases neighbors.len(),
{
    if neighbors.len() == 0 {
        Ok(None)
    } else {
        match scan_neighbors(table, workers, worker, neighbors.drop_last()) {
            Err(e) => Err(e),
            Ok(best) => scan_desk(table, workers, worker, neighbors.last(), worker.desk, best),
        }
    }
}

/// The pearl to offload and the idle neighbor to give it to, if any: the
/// last pair that the scan accepts.
pub open spec fn best_neighbor(
    table: AbilityMap,
    workers: Seq<WorkerView>,
    worker: WorkerView,
    counts: Map<u32, nat>,
    graph: Map<u32, Seq<u32>>,
) -> Result<Option<WorkerPearlIDs>, PipelineError> {
    match empty_neighbors(worker.id, counts, graph) {
        Err(e) => Err(e),
        Ok(idle) => scan_neighbors(table, workers, worker, idle),
    }
}

/// The choice among the first pearls of a desk: the position of the pearl
/// and the time it takes.
pub struct NomChoice {
    pub at: int,
    pub time: nat,
}

/// Scans pearls for the one to nom: an unfinished pearl replaces the choice
/// so far only where it takes strictly less time.
pub open spec fn scan_nom(table: AbilityMap, flavor: Seq<char>, pearls: Seq<PearlView>) -> Result<
    Option<NomChoice>,
    PipelineError,
>
    decreases pearls.len(),
{
    if pearls.len() == 0 {
        Ok(None)
    } else {
        match scan_nom(table, flavor, pearls.drop_last()) {
            Err(e) => Err(e),
            Ok(best) => {
                let pearl = pearls.last();
                if pearl.finished() {
                    Ok(best)
                } else {
                    match time_to_process(table, flavor, pearl.layers) {
                        None => Err(PipelineError::Configuration),
                        Some(time) => {
                            let this = NomChoice { at: pearls.len() - 1, time };
                            match best {
                                None => Ok(Some(this)),
                                Some(b) => if time < b.time {
                                    Ok(Some(this))
                                } else {
                                    Ok(best)
                                },
                            }
                        },
                    }
                }
            },
        }
    }
}

/// The id of the pearl that the worker should nom: the first unfinished
/// pearl of its desk among those that take it the least time. `None` where
/// every pearl of the desk is finished.
pub open spec fn best_pearl_to_nom(table: AbilityMap, worker: WorkerView) -> Result<
    Option<u32>,
    PipelineError,
> {
    match scan_nom(table, worker.flavor, worker.desk) {
        Err(e) => Err(e),
        Ok(None) => Ok(None),
        Ok(Some(choice)) => Ok(Some(worker.desk[choice.at].id)),
    }
}

/// `at` is the position of the first finished pearl of the desk.
pub open spec fn is_first_finished(desk: Seq<PearlView>, at: int) -> bool {
    &&& 0 <= at < desk.len()
    &&& desk[at].finished()
    &&& forall|j: int| 0 <= j < at ==> !(#[trigger] desk[j]).finished()
}

/// Some pearl of the desk is finished.
pub open spec fn has_finished(desk: Seq<PearlView>) -> bool {
    exists|at: int| is_first_finished(desk, at)
}

/// The first finished pearl of a desk that has one.
pub open spec fn first_finished(desk: Seq<PearlView>) -> PearlView
    recommends
        has_finished(desk),
{
    desk[choose|at: int| is_first_finished(desk, at)]
}

/// What a tick has decided so far.
pub struct Tick {
    /// The action of each worker that has one, by worker id.
    pub actions: Map<u32, ActionType>,
    /// The projected pearl counts: the snapshot's, corrected by the offloads
    /// decided so far.
    pub counts: Map<u32, nat>,
    /// The path memory: for each pearl the workers that passed it on, the
    /// oldest first.
    pub paths: Map<u32, Seq<u32>>,
}

/// The path memory after `worker_id` has passed `pearl_id` on.
pub open spec fn path_pushed(paths: Map<u32, Seq<u32>>, pearl_id: u32, worker_id: u32) -> Map<
    u32,
    Seq<u32>,
> {
    if paths.contains_key(pearl_id) {
        paths.insert(pearl_id, paths[pearl_id].push(worker_id))
    } else {
        paths.insert(pearl_id, seq![worker_id])
    }
}

/// The path memory can tell where to send `pearl_id` back to.
pub open spec fn path_known(paths: Map<u32, Seq<u32>>, pearl_id: u32) -> bool {
    paths.contains_key(pearl_id) && paths[pearl_id].len() > 0
}

/// The path memory after `pearl_id` has gone one step back.
pub open spec fn path_popped(paths: Map<u32, Seq<u32>>, pearl_id: u32) -> Map<u32, Seq<u32>> {
    paths.insert(pearl_id, paths[pearl_id].drop_last())
}

/// The projected counts after `from` has given one pearl to `to`.
pub open spec fn counts_moved(counts: Map<u32, nat>, from: u32, to: u32) -> Map<u32, nat>
    recommends
        counts.contains_key(from),
        counts.contains_key(to),
        counts[from] > 0,
{
    let taken = counts.insert(from, (counts[from] - 1) as nat);
    taken.insert(to, taken[to] + 1)
}

/// The worker must send a finished pearl back: it is not the gatekeeper and
/// a pearl of its desk has no layers left.
pub open spec fn must_return(worker: WorkerView) -> bool {
    worker.id != GATEKEEPER_ID && has_finished(worker.desk)
}

/// The decision for one worker that has pearls.
pub open spec fn step(
    table: AbilityMap,
    workers: Seq<WorkerView>,
    graph: Map<u32, Seq<u32>>,
    tick: Tick,
    worker: WorkerView,
) -> Result<Tick, PipelineError> {
    if must_return(worker) {
        let pearl_id = first_finished(worker.desk).id;
        if path_known(tick.paths, pearl_id) {
            Ok(
                Tick {
                    actions: tick.actions.insert(
                        worker.id,
                        ActionType::Pass(
                            Pass {
                                from_id: worker.id,
                                pearl_id,
                                to_id: tick.paths[pearl_id].last(),
                            },
                        ),
                    ),
                    counts: tick.counts,
                    paths: path_popped(tick.paths, pearl_id),
                },
            )
        } else {
            Err(PipelineError::PathMemory { pearl_id })
        }
    } else {
        match best_neighbor(table, workers, worker, tick.counts, graph) {
            Err(e) => Err(e),
            Ok(Some(pair)) => Ok(
                Tick {
                    actions: tick.actions.insert(
                        worker.id,
                        ActionType::Pass(
                            Pass {
                                from_id: worker.id,
                                pearl_id: pair.pearl_id,
                                to_id: pair.worker_id,
                            },
                        ),
                    ),
                    counts: counts_moved(tick.counts, worker.id, pair.worker_id),
                    paths: path_pushed(tick.paths, pair.pearl_id, worker.id),
                },
            ),
            Ok(None) => match best_pearl_to_nom(table, worker) {
                Err(e) => Err(e),
                Ok(Some(pearl_id)) => Ok(
                    Tick {
                        actions: tick.actions.insert(
                            worker.id,
                            ActionType::Nom(Nom { nautiloid_id: worker.id, pearl_id }),
                        ),
                        counts: tick.counts,
                        paths: tick.paths,
                    },
                ),
                Ok(None) => Ok(tick),
            },
        }
    }
}

/// How far a tick came: what was decided, and the error that stopped it.
pub struct Outcome {
    pub tick: Tick,
    pub error: Option<PipelineError>,
}

/// Takes the workers of `todo` in order. A worker without pearls is passed
/// over. The first worker whose decision fails stops the tick, with
/// everything as the workers before it left it.
pub open spec fn run(
    table: AbilityMap,
    workers: Seq<WorkerView>,
    graph: Map<u32, Seq<u32>>,
    start: Tick,
    todo: Seq<WorkerView>,
) -> Outcome
    decreases todo.len(),
{
    if todo.len() == 0 {
        Outcome { tick: start, error: None }
    } else {
        let before = run(table, workers, graph, start, todo.drop_last());
        let worker = todo.last();
        if before.error is Some || worker.desk.len() == 0 {
            before
        } else {
            match step(table, workers, graph, before.tick, worker) {
                Ok(tick) => Outcome { tick, error: None },
                Err(e) => Outcome { tick: before.tick, error: Some(e) },
            }
        }
    }
}

/// A whole tick: the decisions for a snapshot, given the path memory that
/// earlier ticks left.
///
/// A snapshot in which two workers share an id is refused with
/// `DuplicateWorker` before anything is decided.
pub open spec fn tick(
    table: AbilityMap,
    workers: Seq<WorkerView>,
    graph: Map<u32, Seq<u32>>,
    paths: Map<u32, Seq<u32>>,
) -> Outcome {
    let start = Tick { actions: Map::empty(), counts: pearl_counts(workers), paths };
    if distinct_ids(workers) {
        run(table, workers, graph, start, workers)
    } else {
        Outcome { tick: start, error: Some(PipelineError::DuplicateWorker) }
    }
}

/// The first worker with an id is the only first one.
pub proof fn lemma_find_worker(workers: Seq<WorkerView>, id: u32, at: int)
    requires
        is_first_with_id(workers, id, at),
    ensures
        find_worker(workers, id) == Some(workers[at]),
{
    let chosen = choose|c: int| is_first_with_id(workers, id, c);
    if chosen < at {
        assert(workers[chosen].id != id);
    } else if at < chosen {
        assert(workers[at].id != id);
    }
}

/// The first finished pearl of a desk is the only first one.
pub proof fn lemma_first_finished(desk: Seq<PearlView>, at: int)
    requires
        is_first_finished(desk, at),
    ensures
        has_finished(desk),
        first_finished(desk) == desk[at],
{
    let chosen = choose|c: int| is_first_finished(desk, c);
    if chosen < at {
        assert(!desk[chosen].finished());
    } else if at < chosen {
        assert(!desk[at].finished());
    }
}

/// The first neighbor without a pearl count is the only first one.
pub proof fn lemma_first_uncounted(neighbors: Seq<u32>, counts: Map<u32, nat>, at: int)
    requires
        is_first_uncounted(neighbors, counts, at),
    ensures
        !all_counted(neighbors, counts),
        (choose|index: int| is_first_uncounted(neighbors, counts, index)) == at,
{
    let chosen = choose|index: int| is_first_uncounted(neighbors, counts, index);
    if chosen < at {
        assert(counts.contains_key(neighbors[chosen]));
    } else if at < chosen {
        assert(counts.contains_key(neighbors[at]));
    }
}

/// Once the scan of a desk has failed, it stays failed.
pub proof fn lemma_scan_desk_error_sticks(
    table: AbilityMap,
    workers: Seq<WorkerView>,
    worker: WorkerView,
    to: u32,
    pearls: Seq<PearlView>,
    so_far: Option<WorkerPearlIDs>,
    n: int,
)
    requires
        0 <= n <= pearls.len(),
        scan_desk(table, workers, worker, to, pearls.take(n), so_far) is Err,
    ensures
        scan_desk(table, workers, worker, to, pearls, so_far) == scan_desk(
            table,
            workers,
            worker,
            to,
            pearls.take(n),
            so_far,
        ),
    decreases pearls.len(),
{
    if n == pearls.len() {
        assert(pearls.take(n) =~= pearls);
    } else {
        assert(pearls.drop_last().take(n) =~= pearls.take(n));
        lemma_scan_desk_error_sticks(table, workers, worker, to, pearls.drop_last(), so_far, n);
    }
}

/// Once the scan of the neighbors has failed, it stays failed.
pub proof fn lemma_scan_neighbors_error_sticks(
    table: AbilityMap,
    workers: Seq<WorkerView>,
    worker: WorkerView,
    neighbors: Seq<u32>,
    n: int,
)
    requires
        0 <= n <= neighbors.len(),
        scan_neighbors(table, workers, worker, neighbors.take(n)) is Err,
    ensures
        scan_neighbors(table, workers, worker, neighbors) == scan_neighbors(
            table,
            workers,
            worker,
            neighbors.take(n),
        ),
    decreases neighbors.len(),
{
    if n == neighbors.len() {
        assert(neighbors.take(n) =~= neighbors);
    } else {
        assert(neighbors.drop_last().take(n) =~= neighbors.take(n));
        lemma_scan_neighbors_error_sticks(table, workers, worker, neighbors.drop_last(), n);
    }
}

/// Once the scan for a pearl to nom has failed, it stays failed.
pub proof fn lemma_scan_nom_error_sticks(
    table: AbilityMap,
    flavor: Seq<char>,
    pearls: Seq<PearlView>,
    n: int,
)
    requires
        0 <= n <= pearls.len(),
        scan_nom(table, flavor, pearls.take(n)) is Err,
    ensures
        scan_nom(table, flavor, pearls) == scan_nom(table, flavor, pearls.take(n)),
    decreases pearls.len(),
{
    if n == pearls.len() {
        assert(pearls.take(n) =~= pearls);
    } else {
        assert(pearls.drop_last().take(n) =~= pearls.take(n));
        lemma_scan_nom_error_sticks(table, flavor, pearls.drop_last(), n);
    }
}

/// Once a tick has failed, it stays failed, and nothing more is decided.
pub proof fn lemma_run_error_sticks(
    table: AbilityMap,
    workers: Seq<WorkerView>,
    graph: Map<u32, Seq<u32>>,
    start: Tick,
    todo: Seq<WorkerView>,
    n: int,
)
    requires
        0 <= n <= todo.len(),
        run(table, workers, graph, start, todo.take(n)).error is Some,
    ensures
        run(table, workers, graph, start, todo) == run(table, workers, graph, start, todo.take(n)),
    decreases todo.len(),
{
    if n == todo.len() {
        assert(todo.take(n) =~= todo);
    } else {
        assert(todo.drop_last().take(n) =~= todo.take(n));
        lemma_run_error_sticks(table, workers, graph, start, todo.drop_last(), n);
    }
}

/// An idle neighbor is a neighbor whose pearl count is zero.
pub proof fn lemma_idle_among(neighbors: Seq<u32>, counts: Map<u32, nat>, id: u32)
    ensures
        idle_among(neighbors, counts).contains(id) <==> neighbors.contains(id) && counts[id] == 0,
    decreases neighbors.len(),
{
    if neighbors.len() == 0 {
    } else {
        let front = neighbors.drop_last();
        let before = idle_among(front, counts);
        let all = idle_among(neighbors, counts);
        lemma_idle_among(front, counts, id);
        if all.contains(id) {
            let k = choose|k: int| 0 <= k < all.len() && all[k] == id;
            if k < before.len() {
                assert(before[k] == id);
                let j = choose|j: int| 0 <= j < front.len() && front[j] == id;
                assert(neighbors[j] == id);
            } else {
                assert(neighbors[neighbors.len() - 1] == id);
            }
        }
        if neighbors.contains(id) && counts[id] == 0 {
            let j = choose|j: int| 0 <= j < neighbors.len() && neighbors[j] == id;
            if j < front.len() {
                assert(front[j] == id);
                let k = choose|k: int| 0 <= k < before.len() && before[k] == id;
                assert(all[k] == id);
            } else {
                assert(all[before.len() as int] == id);
            }
        }
    }
}

/// The pearl with this id is an unfinished pearl among `pearls`.
pub open spec fn holds_unfinished(pearls: Seq<PearlView>, pearl_id: u32) -> bool {
    exists|k: int|
        0 <= k < pearls.len() && (#[trigger] pearls[k]).id == pearl_id && !pearls[k].finished()
}

/// What the scan of a desk chooses is what it started with, or an unfinished
/// pearl of the desk for the neighbor at hand.
pub proof fn lemma_scan_desk_choice(
    table: AbilityMap,
    workers: Seq<WorkerView>,
    worker: WorkerView,
    to: u32,
    pearls: Seq<PearlView>,
    so_far: Option<WorkerPearlIDs>,
)
    ensures
        match scan_desk(table, workers, worker, to, pearls, so_far) {
            Ok(Some(pair)) => so_far == Some(pair) || (pair.worker_id == to && holds_unfinished(
                pearls,
                pair.pearl_id,
            )),
            Ok(None) => so_far is None,
            Err(_) => true,
        },
    decreases pearls.len(),
{
    if pearls.len() == 0 {
    } else {
        let front = pearls.drop_last();
        lemma_scan_desk_choice(table, workers, worker, to, front, so_far);
        match scan_desk(table, workers, worker, to, pearls, so_far) {
            Ok(Some(pair)) => {
                if so_far != Some(pair) {
                    match scan_desk(table, workers, worker, to, front, so_far) {
                        Ok(Some(earlier)) => {
                            if earlier == pair {
                                let k = choose|k: int|
                                    0 <= k < front.len() && (#[trigger] front[k]).id
                                        == pair.pearl_id && !front[k].finished();
                                assert(pearls[k] == front[k]);
                            } else {
                                assert(pearls[pearls.len() - 1].id == pair.pearl_id);
                            }
                        },
                        _ => {
                            assert(pearls[pearls.len() - 1].id == pair.pearl_id);
                        },
                    }
                }
            },
            _ => {},
        }
    }
}

/// What the scan of the neighbors chooses is one of the neighbors and an
/// unfinished pearl of the worker's desk.
pub proof fn lemma_scan_neighbors_choice(
    table: AbilityMap,
    workers: Seq<WorkerView>,
    worker: WorkerView,
    neighbors: Seq<u32>,
)
    ensures
        scan_neighbors(table, workers, worker, neighbors) matches Ok(Some(pair))
            ==> neighbors.contains(pair.worker_id) && holds_unfinished(
            worker.desk,
            pair.pearl_id,
        ),
    decreases neighbors.len(),
{
    if neighbors.len() == 0 {
    } else {
        let front = neighbors.drop_last();
        lemma_scan_neighbors_choice(table, workers, worker, front);
        match scan_neighbors(table, workers, worker, front) {
            Err(_) => {},
            Ok(best) => {
                lemma_scan_desk_choice(table, workers, worker, neighbors.last(), worker.desk, best);
                match scan_neighbors(table, workers, worker, neighbors) {
                    Ok(Some(pair)) => {
                        if best == Some(pair) {
                            let j = choose|j: int|
                                0 <= j < front.len() && front[j] == pair.worker_id;
                            assert(neighbors[j] == pair.worker_id);
                        } else {
                            assert(neighbors[neighbors.len() - 1] == pair.worker_id);
                        }
                    },
                    _ => {},
                }
            },
        }
    }
}

/// A pearl is only ever offloaded to a neighbor of the worker that has no
/// pearls by the projected counts, and only an unfinished pearl of the
/// worker's own desk is offloaded.
pub proof fn lemma_best_neighbor_choice(
    table: AbilityMap,
    workers: Seq<WorkerView>,
    worker: WorkerView,
    counts: Map<u32, nat>,
    graph: Map<u32, Seq<u32>>,
)
    ensures
        best_neighbor(table, workers, worker, counts, graph) matches Ok(Some(pair)) ==> {
            &&& graph.contains_key(worker.id)
            &&& graph[worker.id].contains(pair.worker_id)
            &&& counts.contains_key(pair.worker_id)
            &&& counts[pair.worker_id] == 0
            &&& holds_unfinished(worker.desk, pair.pearl_id)
        },
{
    match best_neighbor(table, workers, worker, counts, graph) {
        Ok(Some(pair)) => {
            let neighbors = graph[worker.id];
            let idle = idle_among(neighbors, counts);
            lemma_scan_neighbors_choice(table, workers, worker, idle);
            lemma_idle_among(neighbors, counts, pair.worker_id);
            let j = choose|j: int| 0 <= j < neighbors.len() && neighbors[j] == pair.worker_id;
            assert(counts.contains_key(neighbors[j]));
        },
        _ => {},
    }
}

/// The scan for a pearl to nom chooses the first of the unfinished pearls
/// that take the least time. It chooses none exactly where every pearl is
/// finished, and fails exactly where the time of an unfinished pearl cannot
/// be estimated.
pub proof fn lemma_scan_nom_choice(table: AbilityMap, flavor: Seq<char>, pearls: Seq<PearlView>)
    ensures
        match scan_nom(table, flavor, pearls) {
            Ok(Some(choice)) => {
                &&& 0 <= choice.at < pearls.len()
                &&& !pearls[choice.at].finished()
                &&& time_to_process(table, flavor, pearls[choice.at].layers) == Some(choice.time)
                &&& forall|k: int|
                    0 <= k < pearls.len() && !(#[trigger] pearls[k]).finished() ==> {
                        &&& time_to_process(table, flavor, pearls[k].layers) matches Some(time)
                        &&& time >= choice.time
                        &&& k < choice.at ==> time > choice.time
                    }
            },
            Ok(None) => forall|k: int| 0 <= k < pearls.len() ==> (#[trigger] pearls[k]).finished(),
            Err(e) => {
                &&& e == PipelineError::Configuration
                &&& exists|k: int|
                    0 <= k < pearls.len() && !(#[trigger] pearls[k]).finished() && time_to_process(
                        table,
                        flavor,
                        pearls[k].layers,
                    ) is None
            },
        },
    decreases pearls.len(),
{
    if pearls.len() == 0 {
    } else {
        let front = pearls.drop_last();
        let last = pearls.len() - 1;
        lemma_scan_nom_choice(table, flavor, front);
        assert forall|k: int| 0 <= k < front.len() implies front[k] == pearls[k] by {}
        match scan_nom(table, flavor, front) {
            Err(_) => {
                let k = choose|k: int|
                    0 <= k < front.len() && !(#[trigger] front[k]).finished() && time_to_process(
                        table,
                        flavor,
                        front[k].layers,
                    ) is None;
                assert(!pearls[k].finished());
            },
            Ok(best) => {
                match scan_nom(table, flavor, pearls) {
                    Err(_) => {
                        assert(!pearls[last].finished());
                    },
                    Ok(None) => {
                        assert forall|k: int| 0 <= k < pearls.len() implies (
                        #[trigger] pearls[k]).finished() by {
                            if k < last {
                                assert(front[k].finished());
                            }
                        }
                    },
                    Ok(Some(choice)) => {
                        assert forall|k: int|
                            0 <= k < pearls.len() && !(#[trigger] pearls[k]).finished() implies {
                            &&& time_to_process(table, flavor, pearls[k].layers) matches Some(
                                time,
                            )
                            &&& time >= choice.time
                            &&& k < choice.at ==> time > choice.time
                        } by {
                            if k < last {
                                assert(!front[k].finished());
                            }
                        }
                    },
                }
            },
        }
    }
}

/// The pearl with this id lies on the desk.
pub open spec fn on_desk(desk: Seq<PearlView>, pearl_id: u32) -> bool {
    exists|k: int| 0 <= k < desk.len() && (#[trigger] desk[k]).id == pearl_id
}

/// The action is one that `worker` may have been given: the worker has
/// pearls, carries the action out itself, the action is about a pearl of its
/// own desk, and a pearl that it noms is unfinished.
pub open spec fn action_suits(worker: WorkerView, action: ActionType) -> bool {
    &&& worker.desk.len() > 0
    &&& action.actor() == worker.id
    &&& on_desk(worker.desk, action.pearl_id())
    &&& action is Nom ==> holds_unfinished(worker.desk, action.pearl_id())
}

/// Every action is filed under the id of a worker of `among` that it suits.
pub open spec fn actions_suit(actions: Map<u32, ActionType>, among: Seq<WorkerView>) -> bool {
    forall|id: u32| #[trigger]
        actions.contains_key(id) ==> exists|j: int|
            0 <= j < among.len() && (#[trigger] among[j]).id == id && action_suits(
                among[j],
                actions[id],
            )
}

/// The action that a step gives a worker suits the worker, and the step
/// gives no other worker an action.
pub proof fn lemma_step_action(
    table: AbilityMap,
    workers: Seq<WorkerView>,
    graph: Map<u32, Seq<u32>>,
    tick: Tick,
    worker: WorkerView,
)
    requires
        worker.desk.len() > 0,
    ensures
        step(table, workers, graph, tick, worker) matches Ok(after) ==> {
            ||| after.actions == tick.actions
            ||| exists|action: ActionType|
                after.actions == tick.actions.insert(worker.id, action) && action_suits(
                    worker,
                    action,
                )
        },
{
    match step(table, workers, graph, tick, worker) {
        Err(_) => {},
        Ok(after) => {
            if must_return(worker) {
                let at = choose|at: int| is_first_finished(worker.desk, at);
                let pearl_id = worker.desk[at].id;
                let action = ActionType::Pass(
                    Pass { from_id: worker.id, pearl_id, to_id: tick.paths[pearl_id].last() },
                );
                assert(action_suits(worker, action));
            } else {
                match best_neighbor(table, workers, worker, tick.counts, graph) {
                    Ok(Some(pair)) => {
                        lemma_best_neighbor_choice(table, workers, worker, tick.counts, graph);
                        let action = ActionType::Pass(
                            Pass {
                                from_id: worker.id,
                                pearl_id: pair.pearl_id,
                                to_id: pair.worker_id,
                            },
                        );
                        assert(action_suits(worker, action));
                    },
                    Ok(None) => {
                        lemma_scan_nom_choice(table, worker.flavor, worker.desk);
                        match scan_nom(table, worker.flavor, worker.desk) {
                            Ok(Some(choice)) => {
                                let action = ActionType::Nom(
                                    Nom {
                                        nautiloid_id: worker.id,
                                        pearl_id: worker.desk[choice.at].id,
                                    },
                                );
                                assert(action_suits(worker, action));
                            },
                            _ => {},
                        }
                    },
                    Err(_) => {},
                }
            }
        },
    }
}

/// Whatever a run has decided, every action suits a worker that the run has
/// taken, provided that this held of the actions it began with.
pub proof fn lemma_run_actions(
    table: AbilityMap,
    workers: Seq<WorkerView>,
    graph: Map<u32, Seq<u32>>,
    start: Tick,
    todo: Seq<WorkerView>,
)
    requires
        actions_suit(start.actions, todo.take(0)),
    ensures
        actions_suit(run(table, workers, graph, start, todo).tick.actions, todo),
    decreases todo.len(),
{
    if todo.len() == 0 {
        assert(todo.take(0) =~= todo);
    } else {
        let front = todo.drop_last();
        let worker = todo.last();
        assert(front.take(0) =~= todo.take(0));
        lemma_run_actions(table, workers, graph, start, front);
        let before = run(table, workers, graph, start, front);
        let after = run(table, workers, graph, start, todo);
        assert forall|id: u32| #[trigger] after.tick.actions.contains_key(id) implies exists|
            j: int,
        |
            0 <= j < todo.len() && (#[trigger] todo[j]).id == id && action_suits(
                todo[j],
                after.tick.actions[id],
            ) by {
            if before.error is None && worker.desk.len() > 0 {
                lemma_step_action(table, workers, graph, before.tick, worker);
            }
            if before.tick.actions.contains_key(id) && after.tick.actions[id]
                == before.tick.actions[id] {
                let j = choose|j: int|
                    0 <= j < front.len() && (#[trigger] front[j]).id == id && action_suits(
                        front[j],
                        before.tick.actions[id],
                    );
                assert(todo[j] == front[j]);
            } else {
                assert(todo[todo.len() - 1] == worker);
            }
        }
    }
}

/// Until its turn comes, a worker with pearls is projected to have exactly
/// the pearls of its desk: no pearl is offloaded to a worker that has some.
/// So a worker that offloads always has a pearl to give.
pub proof fn lemma_waiting_workers_keep_their_counts(
    table: AbilityMap,
    workers: Seq<WorkerView>,
    graph: Map<u32, Seq<u32>>,
    paths: Map<u32, Seq<u32>>,
    done: int,
)
    requires
        distinct_ids(workers),
        0 <= done <= workers.len(),
    ensures
        ({
            let start = Tick { actions: Map::empty(), counts: pearl_counts(workers), paths };
            let counts = run(table, workers, graph, start, workers.take(done)).tick.counts;
            forall|j: int|
                done <= j < workers.len() && (#[trigger] workers[j]).desk.len() > 0
                    ==> counts.contains_key(workers[j].id) && counts[workers[j].id]
                    == workers[j].desk.len()
        }),
    decreases done,
{
    let start = Tick { actions: Map::empty(), counts: pearl_counts(workers), paths };
    let after = run(table, workers, graph, start, workers.take(done));
    if done == 0 {
        assert forall|j: int|
            0 <= j < workers.len() && (#[trigger] workers[j]).desk.len()
                > 0 implies after.tick.counts.contains_key(workers[j].id)
            && after.tick.counts[workers[j].id] == workers[j].desk.len() by {
            lemma_counts_of_distinct(workers, j);
        }
    } else {
        let worker = workers[done - 1];
        assert(workers.take(done).drop_last() =~= workers.take(done - 1));
        assert(workers.take(done).last() == worker);
        lemma_waiting_workers_keep_their_counts(table, workers, graph, paths, done - 1);
        let before = run(table, workers, graph, start, workers.take(done - 1));
        if before.error is None && worker.desk.len() > 0 {
            lemma_best_neighbor_choice(table, workers, worker, before.tick.counts, graph);
            assert forall|j: int|
                done <= j < workers.len() && (#[trigger] workers[j]).desk.len()
                    > 0 implies after.tick.counts.contains_key(workers[j].id)
                && after.tick.counts[workers[j].id] == workers[j].desk.len() by {
                assert(worker_ids(workers)[j] != worker_ids(workers)[done - 1]);
                assert(before.tick.counts[workers[j].id] == workers[j].desk.len());
            }
        }
    }
}

} // verus!
