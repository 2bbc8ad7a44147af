//! The neighbor graph: who sits next to whom.
//!
//! The snapshot names undirected edges as pairs of worker ids. The graph
//! gives every worker the list of the ids it shares an edge with, in the
//! order of the edge list and with repetitions kept.

use vstd::prelude::*;
use crate::models::error::PipelineError;
use crate::models::state::WorkerView;

verus! {

/// The ids of the workers, in the order of the snapshot.
pub open spec fn worker_ids(workers: Seq<WorkerView>) -> Seq<u32> {
    Seq::new(workers.len(), |i: int| workers[i].id)
}

/// Some worker of the snapshot has this id.
pub open spec fn is_worker(workers: Seq<WorkerView>, id: u32) -> bool {
    worker_ids(workers).contains(id)
}

/// No two workers of the snapshot share an id.
pub open spec fn distinct_ids(workers: Seq<WorkerView>) -> bool {
    worker_ids(workers).no_duplicates()
}

/// Ascending order, equal neighbours allowed.
pub open spec fn is_ascending(ids: Seq<u32>) -> bool {
    forall|i: int, j: int| 0 <= i <= j < ids.len() ==> ids[i] <= ids[j]
}

/// The pearl count of every worker: the length of its desk. Where two
/// workers share an id, the later one counts.
pub open spec fn pearl_counts(workers: Seq<WorkerView>) -> Map<u32, nat>
    decreases workers.len(),
{
    if workers.len() == 0 {
        Map::empty()
    } else {
        pearl_counts(workers.drop_last()).insert(workers.last().id, workers.last().desk.len())
    }
}

/// An edge is acceptable when it is a pair and both ends are workers.
pub open spec fn edge_ok(workers: Seq<WorkerView>, edge: Seq<u32>) -> bool {
    edge.len() == 2 && is_worker(workers, edge[0]) && is_worker(workers, edge[1])
}

/// Every edge of the list is acceptable.
pub open spec fn all_edges_ok(workers: Seq<WorkerView>, edges: Seq<Seq<u32>>) -> bool {
    forall|i: int| 0 <= i < edges.len() ==> edge_ok(workers, #[trigger] edges[i])
}

/// `index` is the position of the first edge that is not acceptable.
pub open spec fn is_first_bad_edge(workers: Seq<WorkerView>, edges: Seq<Seq<u32>>, index: int)
    -> bool {
    &&& 0 <= index < edges.len()
    &&& !edge_ok(workers, edges[index])
    &&& forall|j: int| 0 <= j < index ==> edge_ok(workers, #[trigger] edges[j])
}

/// What is wrong with an edge that is not acceptable: its shape, else its
/// first end, else its second end.
pub open spec fn edge_error(workers: Seq<WorkerView>, index: int, edge: Seq<u32>)
    -> PipelineError {
    if edge.len() != 2 {
        PipelineError::MalformedEdge { index: index as usize }
    } else if !is_worker(workers, edge[0]) {
        PipelineError::GraphValidation { worker_id: edge[0] }
    } else {
        PipelineError::GraphValidation { worker_id: edge[1] }
    }
}

/// The ids that share an edge with `id`, one entry per edge, in edge order.
/// An edge from a worker to itself gives one entry.
pub open spec fn adjacency(edges: Seq<Seq<u32>>, id: u32) -> Seq<u32>
    decreases edges.len(),
{
    if edges.len() == 0 {
        Seq::empty()
    } else {
        let before = adjacency(edges.drop_last(), id);
        let edge = edges.last();
        if edge[0] == id {
            before.push(edge[1])
        } else if edge[1] == id {
            before.push(edge[0])
        } else {
            before
        }
    }
}

/// The graph of a snapshot whose edges are all acceptable: one entry per
/// worker, also for a worker that no edge names.
pub open spec fn adjacency_map(workers: Seq<WorkerView>, edges: Seq<Seq<u32>>) -> Map<
    u32,
    Seq<u32>,
> {
    Map::new(|id: u32| is_worker(workers, id), |id: u32| adjacency(edges, id))
}

/// The graph of a snapshot, or the error of its first unacceptable edge.
pub open spec fn neighbor_graph(workers: Seq<WorkerView>, edges: Seq<Seq<u32>>) -> Result<
    Map<u32, Seq<u32>>,
    PipelineError,
> {
    if all_edges_ok(workers, edges) {
        Ok(adjacency_map(workers, edges))
    } else {
        let index = choose|index: int| is_first_bad_edge(workers, edges, index);
        Err(edge_error(workers, index, edges[index]))
    }
}

/// A table of id lists as a value: each list as a sequence. This is the
/// view of a neighbor graph and of a path memory.
pub open spec fn lists_view(graph: Map<u32, Vec<u32>>) -> Map<u32, Seq<u32>> {
    Map::new(|id: u32| graph.contains_key(id), |id: u32| graph[id]@)
}

/// Pearl counts as numbers.
pub open spec fn counts_view(counts: Map<u32, usize>) -> Map<u32, nat> {
    Map::new(|id: u32| counts.contains_key(id), |id: u32| counts[id] as nat)
}

/// A graph fits a snapshot when it has an entry for every worker and names
/// only workers.
pub open spec fn graph_fits(workers: Seq<WorkerView>, graph: Map<u32, Seq<u32>>) -> bool {
    &&& forall|id: u32| is_worker(workers, id) <==> graph.contains_key(id)
    &&& forall|id: u32, k: int|
        graph.contains_key(id) && 0 <= k < graph[id].len() ==> is_worker(
            workers,
            #[trigger] graph[id][k],
        )
}

/// The first bad edge is unique.
pub proof fn lemma_first_bad_edge_unique(
    workers: Seq<WorkerView>,
    edges: Seq<Seq<u32>>,
    a: int,
    b: int,
)
    requires
        is_first_bad_edge(workers, edges, a),
        is_first_bad_edge(workers, edges, b),
    ensures
        a == b,
{
    if a < b {
        assert(edge_ok(workers, edges[a]));
    } else if b < a {
        assert(edge_ok(workers, edges[b]));
    }
}

/// Where an edge is found to be the first bad one, the graph is its error.
pub proof fn lemma_graph_fails_at(workers: Seq<WorkerView>, edges: Seq<Seq<u32>>, index: int)
    requires
        is_first_bad_edge(workers, edges, index),
    ensures
        neighbor_graph(workers, edges) == Err::<Map<u32, Seq<u32>>, PipelineError>(
            edge_error(workers, index, edges[index]),
        ),
{
    let chosen = choose|i: int| is_first_bad_edge(workers, edges, i);
    lemma_first_bad_edge_unique(workers, edges, chosen, index);
}

/// The edge puts `other` on the adjacency list of `id`.
pub open spec fn joins(edge: Seq<u32>, id: u32, other: u32) -> bool {
    (edge[0] == id && edge[1] == other) || (edge[0] != id && edge[1] == id && edge[0] == other)
}

/// Every entry of an adjacency list is an end of some edge whose other end
/// is the list's owner.
pub proof fn lemma_adjacency_entries(edges: Seq<Seq<u32>>, id: u32, other: u32)
    ensures
        adjacency(edges, id).contains(other) <==> exists|i: int|
            0 <= i < edges.len() && joins(#[trigger] edges[i], id, other),
    decreases edges.len(),
{
    if edges.len() == 0 {
    } else {
        let front = edges.drop_last();
        let edge = edges.last();
        let before = adjacency(front, id);
        lemma_adjacency_entries(front, id, other);
        if adjacency(edges, id).contains(other) {
            if before.contains(other) {
                let i = choose|i: int| 0 <= i < front.len() && joins(#[trigger] front[i], id, other);
                assert(joins(edges[i], id, other));
            } else {
                let k = choose|k: int|
                    0 <= k < adjacency(edges, id).len() && adjacency(edges, id)[k] == other;
                assert(k == before.len());
                assert(joins(edges[edges.len() - 1], id, other));
            }
        }
        if exists|i: int| 0 <= i < edges.len() && joins(#[trigger] edges[i], id, other) {
            let i = choose|i: int| 0 <= i < edges.len() && joins(#[trigger] edges[i], id, other);
            if i < front.len() {
                assert(joins(front[i], id, other));
                let k = choose|k: int| 0 <= k < before.len() && before[k] == other;
                assert(adjacency(edges, id)[k] == other);
            } else {
                assert(adjacency(edges, id)[before.len() as int] == other);
            }
        }
    }
}

/// The graph is symmetric: `b` is on the list of `a` exactly when `a` is on
/// the list of `b`.
pub proof fn lemma_adjacency_symmetric(edges: Seq<Seq<u32>>, a: u32, b: u32)
    ensures
        adjacency(edges, a).contains(b) <==> adjacency(edges, b).contains(a),
{
    lemma_adjacency_entries(edges, a, b);
    lemma_adjacency_entries(edges, b, a);
    if adjacency(edges, a).contains(b) {
        let i = choose|i: int| 0 <= i < edges.len() && joins(#[trigger] edges[i], a, b);
        assert(joins(edges[i], b, a));
    }
    if adjacency(edges, b).contains(a) {
        let i = choose|i: int| 0 <= i < edges.len() && joins(#[trigger] edges[i], b, a);
        assert(joins(edges[i], a, b));
    }
}

/// The pearl counts have an entry for exactly the ids of the workers.
pub proof fn lemma_counts_domain(workers: Seq<WorkerView>, id: u32)
    ensures
        pearl_counts(workers).contains_key(id) <==> is_worker(workers, id),
    decreases workers.len(),
{
    let ids = worker_ids(workers);
    if workers.len() == 0 {
    } else {
        let front = workers.drop_last();
        lemma_counts_domain(front, id);
        assert(worker_ids(front) =~= ids.drop_last());
        if ids.contains(id) {
            let j = choose|j: int| 0 <= j < ids.len() && ids[j] == id;
            if j < front.len() {
                assert(worker_ids(front)[j] == id);
            }
        }
        if worker_ids(front).contains(id) {
            let j = choose|j: int| 0 <= j < front.len() && worker_ids(front)[j] == id;
            assert(ids[j] == id);
        }
        if workers.last().id == id {
            assert(ids[workers.len() - 1] == id);
        }
    }
}

/// In a snapshot without shared ids every worker is counted by its own desk.
pub proof fn lemma_counts_of_distinct(workers: Seq<WorkerView>, at: int)
    requires
        distinct_ids(workers),
        0 <= at < workers.len(),
    ensures
        pearl_counts(workers).contains_key(workers[at].id),
        pearl_counts(workers)[workers[at].id] == workers[at].desk.len(),
    decreases workers.len(),
{
    let ids = worker_ids(workers);
    let front = workers.drop_last();
    assert(worker_ids(front) =~= ids.drop_last());
    if at < workers.len() - 1 {
        assert(ids[at] != ids[workers.len() - 1]);
        lemma_counts_of_distinct(front, at);
    }
}

/// The ids of a snapshot are distinct exactly when there are as many pearl
/// counts as workers.
pub proof fn lemma_distinct_by_count(workers: Seq<WorkerView>)
    ensures
        pearl_counts(workers).dom().finite(),
        distinct_ids(workers) <==> pearl_counts(workers).dom().len() == workers.len(),
{
    let ids = worker_ids(workers);
    assert forall|id: u32| pearl_counts(workers).dom().contains(id) <==> ids.to_set().contains(
        id,
    ) by {
        lemma_counts_domain(workers, id);
    }
    assert(pearl_counts(workers).dom() =~= ids.to_set());
    vstd::seq_lib::seq_to_set_is_finite(ids);
    if ids.no_duplicates() {
        ids.unique_seq_to_set();
    }
    if ids.to_set().len() == ids.len() {
        ids.lemma_no_dup_set_cardinality();
    }
}

} // verus!
