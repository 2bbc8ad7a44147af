use pearl_pipeline::models::error::PipelineError;
use pearl_pipeline::models::state::{NeighborMap, Pearl, Worker, Workers};
use pearl_pipeline::processing::utils::{
    build_neighbor_graph, contains_id, find_worker_index, get_worker_ids,
    get_worker_pearl_counts,
};

fn idle_worker(id: u32) -> Worker {
    Worker { id, desk: vec![], flavor: String::from("General") }
}

fn workers_with_ids(ids: &[u32]) -> Workers {
    ids.iter().map(|id| idle_worker(*id)).collect()
}

#[test]
fn worker_ids_come_out_sorted() {
    let ids = get_worker_ids(&workers_with_ids(&[5, 0, 3, 4294967295, 1]));

    assert_eq!(ids, vec![0, 1, 3, 5, 4294967295]);
}

#[test]
fn worker_ids_keep_repeated_ids() {
    let ids = get_worker_ids(&workers_with_ids(&[2, 1, 2]));

    assert_eq!(ids, vec![1, 2, 2]);
}

#[test]
fn pearl_counts_are_desk_lengths() {
    let mut workers = workers_with_ids(&[7, 8]);
    workers[1].desk = vec![
        Pearl { id: 1, layers: vec![] },
        Pearl { id: 2, layers: vec![] },
        Pearl { id: 3, layers: vec![] },
    ];

    let counts = get_worker_pearl_counts(&workers);

    assert_eq!(counts.len(), 2);
    assert_eq!(counts[&7], 0);
    assert_eq!(counts[&8], 3);
}

#[test]
fn pearl_counts_take_the_later_of_two_workers_with_one_id() {
    let mut workers = workers_with_ids(&[7, 7]);
    workers[0].desk = vec![Pearl { id: 1, layers: vec![] }];

    let counts = get_worker_pearl_counts(&workers);

    assert_eq!(counts.len(), 1);
    assert_eq!(counts[&7], 0);
}

#[test]
fn contains_id_finds_what_is_there() {
    let ids = vec![4, 9, 2];

    assert!(contains_id(&ids, 9));
    assert!(contains_id(&ids, 2));
    assert!(!contains_id(&ids, 3));
    assert!(!contains_id(&vec![], 0));
}

#[test]
fn find_worker_index_gives_the_first_match() {
    let workers = workers_with_ids(&[3, 1, 3]);

    assert_eq!(find_worker_index(&workers, 3), Some(0));
    assert_eq!(find_worker_index(&workers, 1), Some(1));
    assert_eq!(find_worker_index(&workers, 2), None);
}

#[test]
fn graph_has_an_entry_for_every_worker() {
    let graph = build_neighbor_graph(&vec![vec![0, 1]], &workers_with_ids(&[0, 1, 2])).unwrap();

    assert_eq!(graph.len(), 3);
    assert_eq!(graph[&0], vec![1]);
    assert_eq!(graph[&1], vec![0]);
    assert_eq!(graph[&2], Vec::<u32>::new());
}

#[test]
fn graph_without_edges_has_empty_lists() {
    let graph = build_neighbor_graph(&vec![], &workers_with_ids(&[0, 1])).unwrap();

    assert_eq!(graph.len(), 2);
    assert!(graph[&0].is_empty());
    assert!(graph[&1].is_empty());
}

#[test]
fn graph_of_no_workers_is_empty() {
    let graph = build_neighbor_graph(&vec![], &workers_with_ids(&[])).unwrap();

    assert!(graph.is_empty());
}

#[test]
fn graph_lists_follow_edge_order_and_keep_repetitions() {
    let edges: NeighborMap = vec![vec![2, 0], vec![0, 1], vec![0, 2], vec![1, 0]];

    let graph = build_neighbor_graph(&edges, &workers_with_ids(&[0, 1, 2])).unwrap();

    assert_eq!(graph[&0], vec![2, 1, 2, 1]);
    assert_eq!(graph[&1], vec![0, 0]);
    assert_eq!(graph[&2], vec![0, 0]);
}

#[test]
fn graph_lists_a_self_edge_once() {
    let graph = build_neighbor_graph(&vec![vec![1, 1]], &workers_with_ids(&[1])).unwrap();

    assert_eq!(graph[&1], vec![1]);
}

#[test]
fn graph_is_symmetric() {
    let edges: NeighborMap = vec![vec![0, 1], vec![1, 2], vec![3, 1], vec![2, 3], vec![4, 4]];
    let ids = [0, 1, 2, 3, 4, 5];

    let graph = build_neighbor_graph(&edges, &workers_with_ids(&ids)).unwrap();

    for a in ids {
        for b in ids {
            assert_eq!(graph[&a].contains(&b), graph[&b].contains(&a));
        }
    }
}

#[test]
fn graph_fails_on_unknown_second_end() {
    let edges: NeighborMap = vec![vec![1, 2]];

    let graph = build_neighbor_graph(&edges, &workers_with_ids(&[0, 1]));

    assert_eq!(graph, Err(PipelineError::GraphValidation { worker_id: 2 }));
}

#[test]
fn graph_fails_on_unknown_first_end() {
    let edges: NeighborMap = vec![vec![0, 1], vec![9, 8]];

    let graph = build_neighbor_graph(&edges, &workers_with_ids(&[0, 1]));

    assert_eq!(graph, Err(PipelineError::GraphValidation { worker_id: 9 }));
}

#[test]
fn graph_reports_the_first_bad_edge() {
    let edges: NeighborMap = vec![vec![0, 1], vec![0, 7], vec![6, 0]];

    let graph = build_neighbor_graph(&edges, &workers_with_ids(&[0, 1]));

    assert_eq!(graph, Err(PipelineError::GraphValidation { worker_id: 7 }));
}

#[test]
fn graph_fails_on_an_edge_without_workers_at_all() {
    let edges: NeighborMap = vec![vec![0, 1]];

    let graph = build_neighbor_graph(&edges, &workers_with_ids(&[]));

    assert_eq!(graph, Err(PipelineError::GraphValidation { worker_id: 0 }));
}

#[test]
fn graph_fails_on_an_edge_that_is_no_pair() {
    let workers = workers_with_ids(&[0, 1]);

    assert_eq!(
        build_neighbor_graph(&vec![vec![0, 1], vec![0]], &workers),
        Err(PipelineError::MalformedEdge { index: 1 })
    );
    assert_eq!(
        build_neighbor_graph(&vec![vec![]], &workers),
        Err(PipelineError::MalformedEdge { index: 0 })
    );
    assert_eq!(
        build_neighbor_graph(&vec![vec![0, 1, 0]], &workers),
        Err(PipelineError::MalformedEdge { index: 0 })
    );
}
