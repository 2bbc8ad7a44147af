//! The executable steps of a tick.

use vstd::prelude::*;
use vstd::pervasive::unreached;
use vstd::seq_lib::{to_multiset_contains, to_multiset_len};
use vstd::std_specs::hash::{axiom_spec_keys_iter, group_hash_axioms, spec_keys_iter};
use vstd::std_specs::iter::IteratorSpec;
use vstd::string::StringExecFns;
use std::collections::HashMap;
use crate::models::ability_map::AbilityMap;
use crate::models::action::{ActionType, Nom, Pass};
use crate::models::error::PipelineError;
use crate::models::state::{
    Desk, NeighborGraph, NeighborMap, Pearl, PearlView, State, Worker, WorkerPearlIDs,
    WorkerView, Workers, GATEKEEPER_ID,
};
use crate::processing::encoding::{
    action_text, actions_text, all_have_actions, fields_text, lemma_no_actions_text,
    lists_all_keys,
};
use crate::processing::graph::{
    adjacency, adjacency_map, all_edges_ok, counts_view, distinct_ids, edge_ok, graph_fits,
    is_ascending, is_worker, joins, lemma_adjacency_entries, lemma_adjacency_symmetric,
    lemma_distinct_by_count, lemma_graph_fails_at, lists_view,
    neighbor_graph, pearl_counts, worker_ids,
};
use crate::processing::routing::{
    all_counted, best_neighbor, best_pearl_to_nom, counts_moved, empty_neighbors, has_finished,
    idle_among, is_first_finished, is_first_with_id, lemma_best_neighbor_choice,
    lemma_find_worker, lemma_first_finished, lemma_first_uncounted, lemma_run_error_sticks,
    lemma_scan_desk_error_sticks, lemma_scan_neighbors_error_sticks,
    lemma_scan_nom_error_sticks, lemma_waiting_workers_keep_their_counts, must_return,
    path_known, path_popped, path_pushed, run, scan_desk, scan_neighbors, scan_nom,
    should_offload, step, tick, Outcome, Tick,
};
use crate::processing::timing::{
    can_dissolve, ceil_div, lemma_ceil_div_bounded, lemma_total_ticks_push, time_to_process,
    total_ticks,
};
use crate::text::append_decimal;

verus! {

/// Sorts the ids with `slice::sort` of std. Trusted, as std documents the
/// sort: afterwards the vector holds the same ids, each as often as before,
/// in ascending order.
#[verifier::external_body]
fn sort_ids(ids: &mut Vec<u32>)
    ensures
        is_ascending(final(ids)@),
        final(ids)@.to_multiset() == old(ids)@.to_multiset(),
{
    ids.sort();
}

/// The ids of the workers in ascending order, so that the gatekeeper, if
/// present, comes first. An id that several workers share is listed once
/// for each of them.
pub fn get_worker_ids(workers: &Workers) -> (ids: Vec<u32>)
    ensures
        is_ascending(ids@),
        ids@.to_multiset() == worker_ids(workers.deep_view()).to_multiset(),
        ids@.len() == workers@.len(),
        forall|id: u32| ids@.contains(id) <==> is_worker(workers.deep_view(), id),
{
    let ghost listed = worker_ids(workers.deep_view());
    let mut ids: Vec<u32> = Vec::new();
    let n: usize = workers.len();
    let mut i: usize = 0;
    while i < n
        invariant
            i <= n,
            n == workers@.len(),
            listed == worker_ids(workers.deep_view()),
            ids@ == listed.take(i as int),
        decreases n - i,
    {
        ids.push(workers[i].id);
        assert(listed.take(i as int).push(listed[i as int]) =~= listed.take(i + 1));
        i += 1;
    }
    assert(listed.take(n as int) =~= listed);
    sort_ids(&mut ids);
    proof {
        to_multiset_len(ids@);
        to_multiset_len(listed);
        assert forall|id: u32| ids@.contains(id) <==> listed.contains(id) by {
            to_multiset_contains(ids@, id);
            to_multiset_contains(listed, id);
        }
    }
    ids
}

/// The number of pearls on each worker's desk, by worker id.
pub fn get_worker_pearl_counts(workers: &Workers) -> (counts: HashMap<u32, usize>)
    ensures
        counts_view(counts@) == pearl_counts(workers.deep_view()),
{
    broadcast use group_hash_axioms;

    let ghost all = workers.deep_view();
    let mut counts: HashMap<u32, usize> = HashMap::new();
    let n: usize = workers.len();
    let mut i: usize = 0;
    assert(counts_view(counts@) =~= pearl_counts(all.take(0)));
    while i < n
        invariant
            i <= n,
            n == workers@.len(),
            all == workers.deep_view(),
            counts_view(counts@) == pearl_counts(all.take(i as int)),
        decreases n - i,
    {
        let w = &workers[i];
        counts.insert(w.id, w.desk.len());
        proof {
            assert(all.take(i + 1).drop_last() =~= all.take(i as int));
            assert(all.take(i + 1).last() == w@);
            assert(counts_view(counts@) =~= pearl_counts(all.take(i + 1)));
        }
        i += 1;
    }
    assert(all.take(n as int) =~= all);
    counts
}

/// Whether `id` occurs in `ids`.
pub fn contains_id(ids: &Vec<u32>, id: u32) -> (found: bool)
    ensures
        found == ids@.contains(id),
{
    let n: usize = ids.len();
    let mut i: usize = 0;
    while i < n
        invariant
            i <= n,
            n == ids@.len(),
            forall|k: int| 0 <= k < i ==> ids@[k] != id,
        decreases n - i,
    {
        if ids[i] == id {
            return true;
        }
        i += 1;
    }
    false
}

/// The adjacency list of `id`: for every edge that `id` is an end of, the
/// other end, in edge order.
fn collect_neighbors(neighbors: &NeighborMap, id: u32) -> (list: Vec<u32>)
    requires
        forall|i: int| 0 <= i < neighbors@.len() ==> (#[trigger] neighbors@[i])@.len() == 2,
    ensures
        list@ == adjacency(neighbors.deep_view(), id),
{
    let ghost edges = neighbors.deep_view();
    let mut nb_list: Vec<u32> = Vec::new();
    let n: usize = neighbors.len();
    let mut j: usize = 0;
    while j < n
        invariant
            j <= n,
            n == neighbors@.len(),
            edges == neighbors.deep_view(),
            forall|i: int| 0 <= i < neighbors@.len() ==> (#[trigger] neighbors@[i])@.len() == 2,
            nb_list@ == adjacency(edges.take(j as int), id),
        decreases n - j,
    {
        let pair = &neighbors[j];
        proof {
            assert(edges.take(j + 1).drop_last() =~= edges.take(j as int));
            assert(edges.take(j + 1).last() =~= pair@);
        }
        if id == pair[0] {
            nb_list.push(pair[1]);
        } else if id == pair[1] {
            nb_list.push(pair[0]);
        }
        j += 1;
    }
    assert(edges.take(n as int) =~= edges);
    nb_list
}

/// Builds the neighbor graph of a snapshot: an adjacency list for every
/// worker, also for one that no edge names.
///
/// Every edge must be a pair of ids of workers of the snapshot. The first
/// edge that is not is reported: `MalformedEdge` for one that is no pair,
/// else `GraphValidation` with its first end that is no worker. All edges are
/// checked before any list is built.
///
/// The graph is symmetric: `a` is listed under `b` exactly when `b` is
/// listed under `a`.
pub fn build_neighbor_graph(neighbors: &NeighborMap, workers: &Workers) -> (graph: Result<
    NeighborGraph,
    PipelineError,
>)
    ensures
        match graph {
            Ok(g) => neighbor_graph(workers.deep_view(), neighbors.deep_view()) == Ok::<
                Map<u32, Seq<u32>>,
                PipelineError,
            >(lists_view(g@)),
            Err(e) => neighbor_graph(workers.deep_view(), neighbors.deep_view()) == Err::<
                Map<u32, Seq<u32>>,
                PipelineError,
            >(e),
        },
        graph is Ok <==> all_edges_ok(workers.deep_view(), neighbors.deep_view()),
        graph matches Ok(g) ==> graph_fits(workers.deep_view(), lists_view(g@)),
        graph matches Ok(g) ==> forall|a: u32, b: u32|
            g@.contains_key(a) && g@.contains_key(b) ==> (g@[a]@.contains(b) <==> g@[b]@.contains(
                a,
            )),
{
    broadcast use group_hash_axioms;

    let ghost all = workers.deep_view();
    let ghost edges = neighbors.deep_view();
    let known: Vec<u32> = get_worker_ids(workers);
    let edge_count: usize = neighbors.len();
    let mut e: usize = 0;
    while e < edge_count
        invariant
            e <= edge_count,
            edge_count == neighbors@.len(),
            all == workers.deep_view(),
            edges == neighbors.deep_view(),
            forall|id: u32| known@.contains(id) <==> is_worker(all, id),
            forall|j: int| 0 <= j < e ==> edge_ok(all, #[trigger] edges[j]),
        decreases edge_count - e,
    {
        let pair = &neighbors[e];
        assert(edges[e as int] =~= pair@);
        if pair.len() != 2 {
            proof {
                lemma_graph_fails_at(all, edges, e as int);
            }
            return Err(PipelineError::MalformedEdge { index: e });
        }
        if !contains_id(&known, pair[0]) {
            proof {
                lemma_graph_fails_at(all, edges, e as int);
            }
            return Err(PipelineError::GraphValidation { worker_id: pair[0] });
        }
        if !contains_id(&known, pair[1]) {
            proof {
                lemma_graph_fails_at(all, edges, e as int);
            }
            return Err(PipelineError::GraphValidation { worker_id: pair[1] });
        }
        e += 1;
    }
    assert(all_edges_ok(all, edges));
    assert forall|i: int| 0 <= i < neighbors@.len() implies (#[trigger] neighbors@[i])@.len()
        == 2 by {
        assert(edges[i] =~= neighbors@[i]@);
        assert(edge_ok(all, edges[i]));
    }

    let mut neighbor_map: HashMap<u32, Vec<u32>> = HashMap::new();
    let id_count: usize = known.len();
    let mut k: usize = 0;
    while k < id_count
        invariant
            k <= id_count,
            id_count == known@.len(),
            edges == neighbors.deep_view(),
            forall|i: int| 0 <= i < neighbors@.len() ==> (#[trigger] neighbors@[i])@.len() == 2,
            forall|id: u32|
                neighbor_map@.contains_key(id) <==> known@.take(k as int).contains(id),
            forall|id: u32|
                neighbor_map@.contains_key(id) ==> (#[trigger] neighbor_map@[id])@ == adjacency(
                    edges,
                    id,
                ),
        decreases id_count - k,
    {
        let id: u32 = known[k];
        let nb_list: Vec<u32> = collect_neighbors(neighbors, id);
        neighbor_map.insert(id, nb_list);
        proof {
            let ghost before = known@.take(k as int);
            let ghost after = known@.take(k + 1);
            assert(before.push(id) =~= after);
            assert forall|x: u32| neighbor_map@.contains_key(x) <==> after.contains(x) by {
                if after.contains(x) {
                    let j = choose|j: int| 0 <= j < after.len() && #[trigger] after[j] == x;
                    if j < k {
                        assert(before[j] == x);
                    }
                }
                if before.contains(x) {
                    let j = choose|j: int| 0 <= j < before.len() && #[trigger] before[j] == x;
                    assert(after[j] == x);
                }
                if x == id {
                    assert(after[k as int] == x);
                }
            }
        }
        k += 1;
    }
    proof {
        assert(known@.take(id_count as int) =~= known@);
        assert(lists_view(neighbor_map@) =~= adjacency_map(all, edges));
        assert forall|a: u32, b: u32|
            neighbor_map@.contains_key(a) && neighbor_map@.contains_key(b) implies (
        neighbor_map@[a]@.contains(b) <==> neighbor_map@[b]@.contains(a)) by {
            lemma_adjacency_symmetric(edges, a, b);
        }
        assert forall|id: u32, j: int|
            lists_view(neighbor_map@).contains_key(id) && 0 <= j < lists_view(
                neighbor_map@,
            )[id].len() implies is_worker(all, #[trigger] lists_view(neighbor_map@)[id][j]) by {
            let other = adjacency(edges, id)[j];
            assert(adjacency(edges, id).contains(other));
            lemma_adjacency_entries(edges, id, other);
            let i = choose|i: int| 0 <= i < edges.len() && joins(#[trigger] edges[i], id, other);
            assert(edge_ok(all, edges[i]));
        }
    }
    Ok(neighbor_map)
}

/// Builds the action by which `from_id` hands `pearl_id` to `to_id`.
pub fn make_pass(from_id: u32, pearl_id: u32, to_id: u32) -> (action: ActionType)
    ensures
        action == ActionType::Pass(Pass { from_id, pearl_id, to_id }),
{
    ActionType::Pass(Pass { from_id: from_id, pearl_id: pearl_id, to_id: to_id })
}

/// Builds the action by which `nautiloid_id` noms `pearl_id`.
pub fn make_nom(nautiloid_id: u32, pearl_id: u32) -> (action: ActionType)
    ensures
        action == ActionType::Nom(Nom { nautiloid_id, pearl_id }),
{
    ActionType::Nom(Nom { nautiloid_id: nautiloid_id, pearl_id: pearl_id })
}

/// The whole ticks needed to dissolve `thickness` at `rate` per tick.
pub fn ticks_for_layer(thickness: u32, rate: u32) -> (ticks: u32)
    requires
        rate > 0,
    ensures
        ticks == ceil_div(thickness as nat, rate as nat),
{
    proof {
        lemma_ceil_div_bounded(thickness as nat, rate as nat);
    }
    let padded: u64 = thickness as u64 + rate as u64 - 1;
    (padded / rate as u64) as u32
}

/// How long `worker` needs for `pearl`: the sum, over the pearl's layers, of
/// the layer's thickness divided by the worker's rate for its color, each
/// rounded up to a whole tick.
///
/// Fails with `Configuration` exactly when the table lacks a positive rate
/// for the worker's flavor and the color of some layer. The sum is exact:
/// a `u128` holds the time of any pearl that fits in memory.
pub fn get_time_to_process(pearl: &Pearl, worker: &Worker, ability_map: &AbilityMap) -> (time:
    Result<u128, PipelineError>)
    ensures
        match time {
            Ok(t) => time_to_process(*ability_map, worker@.flavor, pearl@.layers) == Some(
                t as nat,
            ),
            Err(e) => e == PipelineError::Configuration && time_to_process(
                *ability_map,
                worker@.flavor,
                pearl@.layers,
            ) is None,
        },
{
    let ghost layers = pearl@.layers;
    let ghost flavor = worker@.flavor;
    let n: usize = pearl.layers.len();
    let mut total_time: u128 = 0;
    let mut i: usize = 0;
    while i < n
        invariant
            i <= n,
            n == pearl.layers@.len(),
            layers == pearl@.layers,
            flavor == worker@.flavor,
            can_dissolve(*ability_map, flavor, layers.take(i as int)),
            total_time == total_ticks(*ability_map, flavor, layers.take(i as int)),
            total_time <= i * 0xFFFF_FFFF,
        decreases n - i,
    {
        let layer = &pearl.layers[i];
        assert(layers[i as int] == layer@);
        let rate = match ability_map.rate_of(worker.flavor.as_str(), layer.color.as_str()) {
            Some(rate) => rate,
            None => 0,
        };
        if rate == 0 {
            assert(!ability_map.dissolves(flavor, layers[i as int].color));
            return Err(PipelineError::Configuration);
        }
        let layer_time = ticks_for_layer(layer.thickness, rate);
        proof {
            lemma_total_ticks_push(*ability_map, flavor, layers.take(i as int), layers[i as int]);
            assert(layers.take(i as int).push(layers[i as int]) =~= layers.take(i + 1));
        }
        total_time = total_time + layer_time as u128;
        i += 1;
    }
    assert(layers.take(n as int) =~= layers);
    Ok(total_time)
}

/// The neighbors of `worker` whose desk is empty by `pearl_counts`, in the
/// order of the worker's adjacency list.
///
/// Fails with `GraphValidation` where the graph has no entry for the worker,
/// or where a neighbor has no pearl count; the first such neighbor is named.
pub fn get_empty_neighbors(
    worker: &Worker,
    pearl_counts: &HashMap<u32, usize>,
    neighbor_graph: &NeighborGraph,
) -> (idle: Result<Vec<u32>, PipelineError>)
    ensures
        match idle {
            Ok(list) => empty_neighbors(
                worker.id,
                counts_view(pearl_counts@),
                lists_view(neighbor_graph@),
            ) == Ok::<Seq<u32>, PipelineError>(list@),
            Err(e) => empty_neighbors(
                worker.id,
                counts_view(pearl_counts@),
                lists_view(neighbor_graph@),
            ) == Err::<Seq<u32>, PipelineError>(e),
        },
{
    broadcast use group_hash_axioms;

    let ghost counts = counts_view(pearl_counts@);
    match neighbor_graph.get(&worker.id) {
        None => Err(PipelineError::GraphValidation { worker_id: worker.id }),
        Some(neighbors) => {
            let ghost listed = neighbors@;
            assert(listed == lists_view(neighbor_graph@)[worker.id]);
            let mut empty_nbrs: Vec<u32> = Vec::new();
            let n: usize = neighbors.len();
            let mut k: usize = 0;
            while k < n
                invariant
                    k <= n,
                    n == neighbors@.len(),
                    listed == neighbors@,
                    counts == counts_view(pearl_counts@),
                    lists_view(neighbor_graph@).contains_key(worker.id),
                    listed == lists_view(neighbor_graph@)[worker.id],
                    all_counted(listed.take(k as int), counts),
                    empty_nbrs@ == idle_among(listed.take(k as int), counts),
                decreases n - k,
            {
                let id: u32 = neighbors[k];
                proof {
                    assert(listed.take(k + 1).drop_last() =~= listed.take(k as int));
                    assert(listed.take(k + 1).last() == id);
                }
                match pearl_counts.get(&id) {
                    None => {
                        proof {
                            assert forall|j: int| 0 <= j < k implies counts.contains_key(
                                #[trigger] listed[j],
                            ) by {
                                assert(listed.take(k as int)[j] == listed[j]);
                            }
                            lemma_first_uncounted(listed, counts, k as int);
                        }
                        return Err(PipelineError::GraphValidation { worker_id: id });
                    },
                    Some(count) => {
                        if *count == 0 {
                            empty_nbrs.push(id);
                        }
                    },
                }
                assert forall|j: int| 0 <= j < k + 1 implies counts.contains_key(
                    #[trigger] listed.take(k + 1)[j],
                ) by {
                    if j < k {
                        assert(listed.take(k as int)[j] == listed.take(k + 1)[j]);
                    }
                }
                k += 1;
            }
            assert(listed.take(n as int) =~= listed);
            Ok(empty_nbrs)
        },
    }
}

/// The position of the first worker with this id.
pub fn find_worker_index(workers: &Workers, id: u32) -> (found: Option<usize>)
    ensures
        match found {
            Some(at) => is_first_with_id(workers.deep_view(), id, at as int),
            None => !is_worker(workers.deep_view(), id),
        },
{
    let ghost all = workers.deep_view();
    let n: usize = workers.len();
    let mut i: usize = 0;
    while i < n
        invariant
            i <= n,
            n == workers@.len(),
            all == workers.deep_view(),
            forall|j: int| 0 <= j < i ==> (#[trigger] all[j]).id != id,
        decreases n - i,
    {
        if workers[i].id == id {
            return Some(i);
        }
        i += 1;
    }
    proof {
        if is_worker(all, id) {
            let j = choose|j: int| 0 <= j < worker_ids(all).len() && worker_ids(all)[j] == id;
            assert(all[j].id == id);
        }
    }
    None
}

/// Chooses the pearl that `worker` should offload and the idle neighbor that
/// should get it, if there is such a pair.
///
/// The idle neighbors are taken in the order of the adjacency list and, for
/// each, the unfinished pearls in desk order. A pair is accepted where the
/// neighbor would be strictly faster with the pearl, or exactly as fast
/// while the worker holds more than one pearl. The last accepted pair is
/// returned: this is a plain scan, not a search for the fastest neighbor.
/// Finished pearls are never offloaded.
pub fn get_best_neighbor(
    state: &State,
    worker: &Worker,
    pearl_counts: &HashMap<u32, usize>,
    ability_map: &AbilityMap,
    neighbor_graph: &NeighborGraph,
) -> (best: Result<Option<WorkerPearlIDs>, PipelineError>)
    ensures
        best == best_neighbor(
            *ability_map,
            state@.workers,
            worker@,
            counts_view(pearl_counts@),
            lists_view(neighbor_graph@),
        ),
{
    let ghost table = *ability_map;
    let ghost all = state@.workers;
    let ghost me = worker@;
    let empty_neighbors: Vec<u32> = match get_empty_neighbors(
        worker,
        pearl_counts,
        neighbor_graph,
    ) {
        Ok(list) => list,
        Err(e) => {
            return Err(e);
        },
    };
    let ghost idle = empty_neighbors@;
    let ghost goal = best_neighbor(
        table,
        all,
        me,
        counts_view(pearl_counts@),
        lists_view(neighbor_graph@),
    );
    let mut best_pair: Option<WorkerPearlIDs> = None;
    let neighbor_count: usize = empty_neighbors.len();
    let desk_size: usize = worker.desk.len();
    let mut a: usize = 0;
    while a < neighbor_count
        invariant
            a <= neighbor_count,
            neighbor_count == empty_neighbors@.len(),
            desk_size == worker.desk@.len(),
            idle == empty_neighbors@,
            table == *ability_map,
            all == state@.workers,
            me == worker@,
            goal == scan_neighbors(table, all, me, idle),
            goal == best_neighbor(
                table,
                all,
                me,
                counts_view(pearl_counts@),
                lists_view(neighbor_graph@),
            ),
            scan_neighbors(table, all, me, idle.take(a as int)) == Ok::<
                Option<WorkerPearlIDs>,
                PipelineError,
            >(best_pair),
        decreases neighbor_count - a,
    {
        let to: u32 = empty_neighbors[a];
        let neighbor_at: Option<usize> = find_worker_index(&state.workers, to);
        let ghost entry = best_pair;
        proof {
            assert(idle.take(a + 1).drop_last() =~= idle.take(a as int));
            assert(idle.take(a + 1).last() == to);
            assert(me.desk.take(0) =~= Seq::<PearlView>::empty());
        }
        let mut b: usize = 0;
        while b < desk_size
            invariant
                b <= desk_size,
                desk_size == worker.desk@.len(),
                a < neighbor_count,
                neighbor_count == idle.len(),
                table == *ability_map,
                all == state@.workers,
                me == worker@,
                to == idle[a as int],
                goal == scan_neighbors(table, all, me, idle),
                goal == best_neighbor(
                    table,
                    all,
                    me,
                    counts_view(pearl_counts@),
                    lists_view(neighbor_graph@),
                ),
                match neighbor_at {
                    Some(at) => is_first_with_id(all, to, at as int),
                    None => !is_worker(all, to),
                },
                scan_neighbors(table, all, me, idle.take(a + 1)) == scan_desk(
                    table,
                    all,
                    me,
                    to,
                    me.desk,
                    entry,
                ),
                scan_desk(table, all, me, to, me.desk.take(b as int), entry) == Ok::<
                    Option<WorkerPearlIDs>,
                    PipelineError,
                >(best_pair),
            decreases desk_size - b,
        {
            let p = &worker.desk[b];
            proof {
                assert(me.desk.take(b + 1).drop_last() =~= me.desk.take(b as int));
                assert(me.desk.take(b + 1).last() == p@);
                match neighbor_at {
                    Some(at) => {
                        lemma_find_worker(all, to, at as int);
                    },
                    None => {
                        assert forall|at: int| !is_first_with_id(all, to, at) by {
                            if is_first_with_id(all, to, at) {
                                assert(worker_ids(all)[at] == to);
                            }
                        }
                    },
                }
            }
            if p.layers.len() != 0 {
                let verdict: Result<bool, PipelineError> = match get_time_to_process(
                    p,
                    worker,
                    ability_map,
                ) {
                    Err(e) => Err(e),
                    Ok(best_time) => match neighbor_at {
                        None => Err(PipelineError::GraphValidation { worker_id: to }),
                        Some(at) => match get_time_to_process(
                            p,
                            &state.workers[at],
                            ability_map,
                        ) {
                            Err(e) => Err(e),
                            Ok(time) => Ok(
                                time < best_time || (time == best_time && desk_size > 1),
                            ),
                        },
                    },
                };
                assert(verdict == should_offload(table, all, me, to, p@));
                match verdict {
                    Err(e) => {
                        proof {
                            assert(scan_desk(table, all, me, to, me.desk.take(b + 1), entry)
                                == Err::<Option<WorkerPearlIDs>, PipelineError>(e));
                            lemma_scan_desk_error_sticks(
                                table,
                                all,
                                me,
                                to,
                                me.desk,
                                entry,
                                b + 1,
                            );
                            lemma_scan_neighbors_error_sticks(table, all, me, idle, a + 1);
                        }
                        return Err(e);
                    },
                    Ok(accept) => {
                        if accept {
                            best_pair = Some(WorkerPearlIDs { worker_id: to, pearl_id: p.id });
                        }
                    },
                }
            }
            b += 1;
        }
        assert(me.desk.take(desk_size as int) =~= me.desk);
        a += 1;
    }
    assert(idle.take(neighbor_count as int) =~= idle);
    Ok(best_pair)
}

/// Chooses the pearl that `worker` should nom: among the unfinished pearls of
/// its desk the one it needs the least time for, and among several of those
/// the first. `None` where the desk holds no unfinished pearl.
pub fn get_best_pearl_to_nom(worker: &Worker, ability_map: &AbilityMap) -> (best: Result<
    Option<u32>,
    PipelineError,
>)
    ensures
        best == best_pearl_to_nom(*ability_map, worker@),
{
    let ghost table = *ability_map;
    let ghost me = worker@;
    let mut best_time: Option<u128> = None;
    let mut best_pearl_id: Option<u32> = None;
    let desk_size: usize = worker.desk.len();
    let mut i: usize = 0;
    assert(me.desk.take(0) =~= Seq::<PearlView>::empty());
    while i < desk_size
        invariant
            i <= desk_size,
            desk_size == worker.desk@.len(),
            table == *ability_map,
            me == worker@,
            match scan_nom(table, me.flavor, me.desk.take(i as int)) {
                Ok(None) => best_time is None && best_pearl_id is None,
                Ok(Some(choice)) => {
                    &&& 0 <= choice.at < i
                    &&& best_time == Some(choice.time as u128)
                    &&& choice.time <= u128::MAX
                    &&& best_pearl_id == Some(me.desk[choice.at].id)
                },
                Err(_) => false,
            },
        decreases desk_size - i,
    {
        let pearl = &worker.desk[i];
        proof {
            assert(me.desk.take(i + 1).drop_last() =~= me.desk.take(i as int));
            assert(me.desk.take(i + 1).last() == pearl@);
        }
        if pearl.layers.len() != 0 {
            match get_time_to_process(pearl, worker, ability_map) {
                Err(e) => {
                    proof {
                        lemma_scan_nom_error_sticks(table, me.flavor, me.desk, i + 1);
                    }
                    return Err(e);
                },
                Ok(time) => {
                    match best_time {
                        Some(bt) => {
                            if time < bt {
                                best_pearl_id = Some(pearl.id);
                                best_time = Some(time);
                            }
                        },
                        None => {
                            best_pearl_id = Some(pearl.id);
                            best_time = Some(time);
                        },
                    }
                },
            }
        }
        i += 1;
    }
    assert(me.desk.take(desk_size as int) =~= me.desk);
    Ok(best_pearl_id)
}

/// The position of the first finished pearl of a desk.
pub fn first_finished_index(desk: &Desk) -> (found: Option<usize>)
    ensures
        match found {
            Some(at) => is_first_finished(desk.deep_view(), at as int),
            None => !has_finished(desk.deep_view()),
        },
{
    let ghost pearls = desk.deep_view();
    let n: usize = desk.len();
    let mut i: usize = 0;
    while i < n
        invariant
            i <= n,
            n == desk@.len(),
            pearls == desk.deep_view(),
            forall|j: int| 0 <= j < i ==> !(#[trigger] pearls[j]).finished(),
        decreases n - i,
    {
        if desk[i].layers.len() == 0 {
            return Some(i);
        }
        i += 1;
    }
    None
}

/// Takes the most recent worker off the path of a pearl and returns it: the
/// worker that the pearl goes back to.
///
/// Returns `None`, and leaves the path memory as it is, where no path is
/// recorded for the pearl or the recorded path is used up.
pub fn pop_path(pearl_paths: &mut HashMap<u32, Vec<u32>>, pearl_id: u32) -> (back: Option<u32>)
    ensures
        match back {
            Some(to) => {
                &&& path_known(lists_view(old(pearl_paths)@), pearl_id)
                &&& to == lists_view(old(pearl_paths)@)[pearl_id].last()
                &&& lists_view(final(pearl_paths)@) == path_popped(
                    lists_view(old(pearl_paths)@),
                    pearl_id,
                )
            },
            None => {
                &&& !path_known(lists_view(old(pearl_paths)@), pearl_id)
                &&& lists_view(final(pearl_paths)@) == lists_view(old(pearl_paths)@)
            },
        },
{
    broadcast use group_hash_axioms;

    match pearl_paths.remove(&pearl_id) {
        None => {
            assert(lists_view(pearl_paths@) =~= lists_view(old(pearl_paths)@));
            None
        },
        Some(path) => {
            let mut path = path;
            let back: Option<u32> = path.pop();
            pearl_paths.insert(pearl_id, path);
            proof {
                if back is Some {
                    assert(lists_view(pearl_paths@) =~= path_popped(
                        lists_view(old(pearl_paths)@),
                        pearl_id,
                    ));
                } else {
                    assert(lists_view(pearl_paths@) =~= lists_view(old(pearl_paths)@));
                }
            }
            back
        },
    }
}

/// Records that `worker_id` has passed the pearl on: the worker becomes the
/// most recent entry of the pearl's path. A pearl without a path gets one.
pub fn push_path(pearl_paths: &mut HashMap<u32, Vec<u32>>, pearl_id: u32, worker_id: u32)
    ensures
        lists_view(final(pearl_paths)@) == path_pushed(
            lists_view(old(pearl_paths)@),
            pearl_id,
            worker_id,
        ),
{
    broadcast use group_hash_axioms;

    let mut path: Vec<u32> = match pearl_paths.remove(&pearl_id) {
        Some(path) => path,
        None => Vec::new(),
    };
    path.push(worker_id);
    pearl_paths.insert(pearl_id, path);
    assert(lists_view(pearl_paths@) =~= path_pushed(
        lists_view(old(pearl_paths)@),
        pearl_id,
        worker_id,
    ));
}

/// Decides the actions of one tick.
///
/// The workers that have pearls are taken in the order of the snapshot. Each
/// gets at most one action, by the first rule that applies: a worker other
/// than the gatekeeper sends its first finished pearl back to the worker it
/// came from, which is taken off the pearl's path; else it offloads the pearl
/// that `get_best_neighbor` chooses, is put on that pearl's path, and the
/// projected pearl counts follow the pearl; else it noms the pearl that
/// `get_best_pearl_to_nom` chooses. A worker whose desk holds finished pearls
/// only and that returns none gets no action.
///
/// The tick fails at the first worker whose decision fails: with `PathMemory`
/// where no path is left for a pearl that has to go back, and with whatever
/// the two choices fail with. A snapshot in which two workers share an id is
/// refused with `DuplicateWorker`. Whether the tick fails or not, the path
/// memory is left as the workers decided before the failure left it.
pub fn determine_actions(
    state: &State,
    ability_map: &AbilityMap,
    neighbor_graph: &NeighborGraph,
    pearl_paths: &mut HashMap<u32, Vec<u32>>,
) -> (actions: Result<HashMap<u32, ActionType>, PipelineError>)
    ensures
        ({
            let outcome = tick(
                *ability_map,
                state@.workers,
                lists_view(neighbor_graph@),
                lists_view(old(pearl_paths)@),
            );
            &&& lists_view(final(pearl_paths)@) == outcome.tick.paths
            &&& match actions {
                Ok(decided) => outcome.error is None && decided@ == outcome.tick.actions,
                Err(e) => outcome.error == Some(e),
            }
        }),
{
    broadcast use group_hash_axioms;

    let ghost table = *ability_map;
    let ghost all = state@.workers;
    let ghost graph = lists_view(neighbor_graph@);
    let ghost start = Tick {
        actions: Map::empty(),
        counts: pearl_counts(all),
        paths: lists_view(old(pearl_paths)@),
    };
    let mut next_pearl_counts: HashMap<u32, usize> = get_worker_pearl_counts(&state.workers);
    let mut actions: HashMap<u32, ActionType> = HashMap::new();
    let n: usize = state.workers.len();
    proof {
        lemma_distinct_by_count(all);
        assert(counts_view(next_pearl_counts@).dom() =~= next_pearl_counts@.dom());
    }
    if next_pearl_counts.len() != n {
        return Err(PipelineError::DuplicateWorker);
    }
    assert(all.take(0) =~= Seq::<WorkerView>::empty());
    let mut i: usize = 0;
    while i < n
        invariant
            i <= n,
            n == state.workers@.len(),
            table == *ability_map,
            all == state@.workers,
            graph == lists_view(neighbor_graph@),
            start == (Tick {
                actions: Map::empty(),
                counts: pearl_counts(all),
                paths: lists_view(old(pearl_paths)@),
            }),
            distinct_ids(all),
            tick(table, all, graph, lists_view(old(pearl_paths)@)) == run(
                table,
                all,
                graph,
                start,
                all,
            ),
            run(table, all, graph, start, all.take(i as int)) == (Outcome {
                tick: Tick {
                    actions: actions@,
                    counts: counts_view(next_pearl_counts@),
                    paths: lists_view(pearl_paths@),
                },
                error: None,
            }),
        decreases n - i,
    {
        let wrkr = &state.workers[i];
        let ghost me = wrkr@;
        let ghost before = Tick {
            actions: actions@,
            counts: counts_view(next_pearl_counts@),
            paths: lists_view(pearl_paths@),
        };
        proof {
            assert(all.take(i + 1).drop_last() =~= all.take(i as int));
            assert(all.take(i + 1).last() == me);
            assert(all[i as int] == me);
        }
        if wrkr.desk.len() != 0 {
            // First, a finished pearl goes back the way it came. The
            // gatekeeper keeps its finished pearls.
            let finished_at: Option<usize> = if wrkr.id != GATEKEEPER_ID {
                first_finished_index(&wrkr.desk)
            } else {
                None
            };
            match finished_at {
                Some(at) => {
                    let prl = &wrkr.desk[at];
                    proof {
                        lemma_first_finished(me.desk, at as int);
                    }
                    match pop_path(pearl_paths, prl.id) {
                        Some(next_worker) => {
                            actions.insert(wrkr.id, make_pass(wrkr.id, prl.id, next_worker));
                        },
                        None => {
                            proof {
                                assert(step(table, all, graph, before, me) is Err);
                                lemma_run_error_sticks(table, all, graph, start, all, i + 1);
                            }
                            return Err(PipelineError::PathMemory { pearl_id: prl.id });
                        },
                    }
                },
                None => {
                    assert(!must_return(me));
                    // Second, a pearl that an idle neighbor is better placed
                    // for is handed over. Otherwise the best pearl is nommed.
                    let best_nbr = get_best_neighbor(
                        state,
                        wrkr,
                        &next_pearl_counts,
                        ability_map,
                        neighbor_graph,
                    );
                    match best_nbr {
                        Err(e) => {
                            proof {
                                assert(step(table, all, graph, before, me) is Err);
                                lemma_run_error_sticks(table, all, graph, start, all, i + 1);
                            }
                            return Err(e);
                        },
                        Ok(Some(bn)) => {
                            proof {
                                lemma_best_neighbor_choice(table, all, me, before.counts, graph);
                                lemma_waiting_workers_keep_their_counts(
                                    table,
                                    all,
                                    graph,
                                    start.paths,
                                    i as int,
                                );
                                assert(before.counts.contains_key(me.id));
                                assert(before.counts[me.id] > 0);
                            }
                            actions.insert(wrkr.id, make_pass(wrkr.id, bn.pearl_id, bn.worker_id));
                            push_path(pearl_paths, bn.pearl_id, wrkr.id);
                            let own: usize = match next_pearl_counts.get(&wrkr.id) {
                                Some(count) => *count,
                                None => unreached(),
                            };
                            next_pearl_counts.insert(wrkr.id, own - 1);
                            let theirs: usize = match next_pearl_counts.get(&bn.worker_id) {
                                Some(count) => *count,
                                None => unreached(),
                            };
                            next_pearl_counts.insert(bn.worker_id, theirs + 1);
                            assert(counts_view(next_pearl_counts@) =~= counts_moved(
                                before.counts,
                                me.id,
                                bn.worker_id,
                            ));
                        },
                        Ok(None) => {
                            match get_best_pearl_to_nom(wrkr, ability_map) {
                                Err(e) => {
                                    proof {
                                        assert(step(table, all, graph, before, me) is Err);
                                        lemma_run_error_sticks(
                                            table,
                                            all,
                                            graph,
                                            start,
                                            all,
                                            i + 1,
                                        );
                                    }
                                    return Err(e);
                                },
                                Ok(Some(bp)) => {
                                    actions.insert(wrkr.id, make_nom(wrkr.id, bp));
                                },
                                Ok(None) => {},
                            }
                        },
                    }
                },
            }
        }
        i += 1;
    }
    assert(all.take(n as int) =~= all);
    Ok(actions)
}

/// Appends the field of one worker.
fn append_action(out: &mut String, worker_id: u32, action: &ActionType)
    ensures
        final(out)@ == old(out)@ + action_text(worker_id, *action),
{
    out.append("\"");
    append_decimal(out, worker_id);
    match action {
        ActionType::Pass(n) => {
            out.append("\":{\"Pass\":{\"pearl_id\":");
            append_decimal(out, n.pearl_id);
            out.append(",\"to_worker\":");
            append_decimal(out, n.to_id);
            out.append("}}");
        },
        ActionType::Nom(n) => {
            out.append("\":{\"Nom\":");
            append_decimal(out, n.pearl_id);
            out.append("}");
        },
    }
    assert(out@ =~= old(out)@ + action_text(worker_id, *action));
}

/// Writes the actions as one object, with the fields of the workers in the
/// given order. `None` where a worker of `order` has no action.
pub fn render_actions(actions: &HashMap<u32, ActionType>, order: &Vec<u32>) -> (text: Option<
    String,
>)
    ensures
        match text {
            Some(t) => all_have_actions(actions@, order@) && t@ == actions_text(
                actions@,
                order@,
            ),
            None => !all_have_actions(actions@, order@),
        },
{
    broadcast use group_hash_axioms;

    let mut action_str: String = String::from_str("{");
    let n: usize = order.len();
    let mut i: usize = 0;
    assert(order@.take(0) =~= Seq::<u32>::empty());
    assert(action_str@ =~= "{"@ + fields_text(actions@, order@.take(0)));
    while i < n
        invariant
            i <= n,
            n == order@.len(),
            all_have_actions(actions@, order@.take(i as int)),
            action_str@ == "{"@ + fields_text(actions@, order@.take(i as int)),
        decreases n - i,
    {
        let id: u32 = order[i];
        proof {
            assert(order@.take(i + 1).drop_last() =~= order@.take(i as int));
            assert(order@.take(i + 1).last() == id);
        }
        match actions.get(&id) {
            None => {
                return None;
            },
            Some(action) => {
                if i > 0 {
                    action_str.append(",");
                }
                append_action(&mut action_str, id, action);
                proof {
                    assert(action_str@ =~= "{"@ + fields_text(actions@, order@.take(i + 1)));
                    assert forall|k: int| 0 <= k < i + 1 implies actions@.contains_key(
                        #[trigger] order@.take(i + 1)[k],
                    ) by {
                        if k < i {
                            assert(order@.take(i as int)[k] == order@.take(i + 1)[k]);
                        }
                    }
                }
            },
        }
        i += 1;
    }
    assert(order@.take(n as int) =~= order@);
    action_str.append("}");
    Some(action_str)
}

/// The ids of the workers that have an action, each once, in the order in
/// which the map hands them out.
pub fn action_keys(actions: &HashMap<u32, ActionType>) -> (order: Vec<u32>)
    ensures
        lists_all_keys(actions@, order@),
{
    broadcast use group_hash_axioms;

    let mut order: Vec<u32> = Vec::new();
    for id in it: actions.keys()
        invariant
            it.seq() == spec_keys_iter(actions).remaining(),
            order@.len() == it.index(),
            forall|k: int| 0 <= k < order@.len() ==> order@[k] == *it.seq()[k],
    {
        order.push(*id);
    }
    proof {
        let listed = spec_keys_iter(actions).remaining();
        axiom_spec_keys_iter(actions);
        assert(order@ =~= listed.unref());
        assert forall|a: int, b: int|
            0 <= a < order@.len() && 0 <= b < order@.len() && a != b implies order@[a]
            != order@[b] by {
            assert(listed[a] != listed[b]);
        }
    }
    order
}

/// Writes the actions of a tick as one line of text: an object with one
/// field per worker that has an action.
///
/// The fields come in the order in which the map hands its keys out, which
/// is not fixed: the text is that of some order of the workers. A tick
/// without actions gives `{}`.
pub fn get_action_string(actions: HashMap<u32, ActionType>) -> (text: String)
    ensures
        exists|order: Seq<u32>|
            lists_all_keys(actions@, order) && text@ == #[trigger] actions_text(actions@, order),
        actions@.len() == 0 ==> text@ == "{}"@,
{
    broadcast use group_hash_axioms;

    let order: Vec<u32> = action_keys(&actions);
    proof {
        assert forall|k: int| 0 <= k < order@.len() implies actions@.contains_key(
            #[trigger] order@[k],
        ) by {
            assert(order@.to_set().contains(order@[k]));
        }
        if actions@.len() == 0 {
            lemma_no_actions_text(actions@, order@);
        }
    }
    match render_actions(&actions, &order) {
        Some(text) => text,
        None => unreached(),
    }
}

} // verus!
