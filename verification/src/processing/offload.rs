//! What the offload scan returns, said directly: the last pair it accepts.
//!
//! The scan takes the idle neighbors in order and, for each, the pearls of
//! the desk in order. Finished pearls are passed over. A pair is accepted
//! where the pearl should be offloaded to the neighbor. The answer is the
//! last accepted pair, whether or not an earlier pair would have saved more
//! time. The scan fails at the first pair that cannot be judged.

use vstd::prelude::*;
use crate::models::ability_map::AbilityMap;
use crate::models::error::PipelineError;
use crate::models::state::{PearlView, WorkerPearlIDs, WorkerView};
use crate::processing::routing::{scan_desk, scan_neighbors, should_offload};

verus! {

/// The scan accepts the pearl for the neighbor.
pub open spec fn accepts(
    table: AbilityMap,
    workers: Seq<WorkerView>,
    worker: WorkerView,
    to: u32,
    pearl: PearlView,
) -> bool {
    !pearl.finished() && should_offload(table, workers, worker, to, pearl) == Ok::<
        bool,
        PipelineError,
    >(true)
}

/// The scan passes over the pearl for the neighbor: the pearl is finished or
/// should not be offloaded.
pub open spec fn passes_over(
    table: AbilityMap,
    workers: Seq<WorkerView>,
    worker: WorkerView,
    to: u32,
    pearl: PearlView,
) -> bool {
    pearl.finished() || should_offload(table, workers, worker, to, pearl) == Ok::<
        bool,
        PipelineError,
    >(false)
}

/// The scan fails on the pearl for the neighbor.
pub open spec fn fails_on(
    table: AbilityMap,
    workers: Seq<WorkerView>,
    worker: WorkerView,
    to: u32,
    pearl: PearlView,
    error: PipelineError,
) -> bool {
    !pearl.finished() && should_offload(table, workers, worker, to, pearl) == Err::<
        bool,
        PipelineError,
    >(error)
}

/// The scan can judge the pair at this position.
pub open spec fn judged(
    table: AbilityMap,
    workers: Seq<WorkerView>,
    worker: WorkerView,
    idle: Seq<u32>,
    a: int,
    b: int,
) -> bool {
    accepts(table, workers, worker, idle[a], worker.desk[b]) || passes_over(
        table,
        workers,
        worker,
        idle[a],
        worker.desk[b],
    )
}

/// The scan passes over the pair at this position.
pub open spec fn passed(
    table: AbilityMap,
    workers: Seq<WorkerView>,
    worker: WorkerView,
    idle: Seq<u32>,
    a: int,
    b: int,
) -> bool {
    passes_over(table, workers, worker, idle[a], worker.desk[b])
}

/// A position of the scan: the `a`-th idle neighbor and the `b`-th pearl.
pub open spec fn in_scan(worker: WorkerView, idle: Seq<u32>, a: int, b: int) -> bool {
    0 <= a < idle.len() && 0 <= b < worker.desk.len()
}

/// The scan comes to the first position before the second.
pub open spec fn earlier(a: int, b: int, a2: int, b2: int) -> bool {
    a < a2 || (a == a2 && b < b2)
}

/// Every pair of the scan can be judged.
pub open spec fn all_judged(
    table: AbilityMap,
    workers: Seq<WorkerView>,
    worker: WorkerView,
    idle: Seq<u32>,
) -> bool {
    forall|a: int, b: int|
        in_scan(worker, idle, a, b) ==> #[trigger] judged(table, workers, worker, idle, a, b)
}

/// The pair at this position is accepted and every later pair is passed over.
pub open spec fn is_last_accepted(
    table: AbilityMap,
    workers: Seq<WorkerView>,
    worker: WorkerView,
    idle: Seq<u32>,
    a: int,
    b: int,
) -> bool {
    &&& in_scan(worker, idle, a, b)
    &&& accepts(table, workers, worker, idle[a], worker.desk[b])
    &&& forall|a2: int, b2: int|
        in_scan(worker, idle, a2, b2) && earlier(a, b, a2, b2) ==> #[trigger] passed(
            table,
            workers,
            worker,
            idle,
            a2,
            b2,
        )
}

/// Every pair of the scan is passed over.
pub open spec fn none_accepted(
    table: AbilityMap,
    workers: Seq<WorkerView>,
    worker: WorkerView,
    idle: Seq<u32>,
) -> bool {
    forall|a: int, b: int|
        in_scan(worker, idle, a, b) ==> #[trigger] passed(table, workers, worker, idle, a, b)
}

/// The scan fails with `error` on the pair at this position, and can judge
/// every earlier pair.
pub open spec fn is_first_failure(
    table: AbilityMap,
    workers: Seq<WorkerView>,
    worker: WorkerView,
    idle: Seq<u32>,
    a: int,
    b: int,
    error: PipelineError,
) -> bool {
    &&& in_scan(worker, idle, a, b)
    &&& fails_on(table, workers, worker, idle[a], worker.desk[b], error)
    &&& forall|a2: int, b2: int|
        in_scan(worker, idle, a2, b2) && earlier(a2, b2, a, b) ==> #[trigger] judged(
            table,
            workers,
            worker,
            idle,
            a2,
            b2,
        )
}

/// What the scan of the first pearls of a desk gives for one neighbor.
proof fn lemma_scan_desk_result(
    table: AbilityMap,
    workers: Seq<WorkerView>,
    worker: WorkerView,
    to: u32,
    pearls: Seq<PearlView>,
    so_far: Option<WorkerPearlIDs>,
)
    ensures
        match scan_desk(table, workers, worker, to, pearls, so_far) {
            Ok(best) => {
                &&& forall|b: int|
                    0 <= b < pearls.len() ==> accepts(table, workers, worker, to, #[trigger] pearls[b])
                        || passes_over(table, workers, worker, to, pearls[b])
                &&& {
                    ||| exists|b: int|
                        {
                            &&& 0 <= b < pearls.len()
                            &&& accepts(table, workers, worker, to, #[trigger] pearls[b])
                            &&& best == Some(WorkerPearlIDs { worker_id: to, pearl_id: pearls[b].id })
                            &&& forall|c: int|
                                b < c < pearls.len() ==> passes_over(
                                    table,
                                    workers,
                                    worker,
                                    to,
                                    #[trigger] pearls[c],
                                )
                        }
                    ||| {
                        &&& best == so_far
                        &&& forall|c: int|
                            0 <= c < pearls.len() ==> passes_over(
                                table,
                                workers,
                                worker,
                                to,
                                #[trigger] pearls[c],
                            )
                    }
                }
            },
            Err(e) => exists|b: int|
                {
                    &&& 0 <= b < pearls.len()
                    &&& fails_on(table, workers, worker, to, #[trigger] pearls[b], e)
                    &&& forall|c: int|
                        0 <= c < b ==> accepts(table, workers, worker, to, #[trigger] pearls[c])
                            || passes_over(table, workers, worker, to, pearls[c])
                },
        },
    decreases pearls.len(),
{
    if pearls.len() > 0 {
        let front = pearls.drop_last();
        let last = pearls.len() - 1;
        lemma_scan_desk_result(table, workers, worker, to, front, so_far);
        assert forall|c: int| 0 <= c < front.len() implies front[c] == pearls[c] by {}
        match scan_desk(table, workers, worker, to, front, so_far) {
            Err(e) => {
                let b = choose|b: int|
                    {
                        &&& 0 <= b < front.len()
                        &&& fails_on(table, workers, worker, to, #[trigger] front[b], e)
                        &&& forall|c: int|
                            0 <= c < b ==> accepts(table, workers, worker, to, #[trigger] front[c])
                                || passes_over(table, workers, worker, to, front[c])
                    };
                assert(fails_on(table, workers, worker, to, pearls[b], e));
            },
            Ok(best) => {
                match scan_desk(table, workers, worker, to, pearls, so_far) {
                    Err(e) => {
                        assert(fails_on(table, workers, worker, to, pearls[last], e));
                    },
                    Ok(after) => {
                        if accepts(table, workers, worker, to, pearls[last]) {
                            assert(after == Some(
                                WorkerPearlIDs { worker_id: to, pearl_id: pearls[last].id },
                            ));
                        } else {
                            assert(passes_over(table, workers, worker, to, pearls[last]));
                            assert(after == best);
                            if exists|b: int|
                                {
                                    &&& 0 <= b < front.len()
                                    &&& accepts(table, workers, worker, to, #[trigger] front[b])
                                    &&& best == Some(
                                        WorkerPearlIDs { worker_id: to, pearl_id: front[b].id },
                                    )
                                    &&& forall|c: int|
                                        b < c < front.len() ==> passes_over(
                                            table,
                                            workers,
                                            worker,
                                            to,
                                            #[trigger] front[c],
                                        )
                                } {
                                let b = choose|b: int|
                                    {
                                        &&& 0 <= b < front.len()
                                        &&& accepts(table, workers, worker, to, #[trigger] front[b])
                                        &&& best == Some(
                                            WorkerPearlIDs { worker_id: to, pearl_id: front[b].id },
                                        )
                                        &&& forall|c: int|
                                            b < c < front.len() ==> passes_over(
                                                table,
                                                workers,
                                                worker,
                                                to,
                                                #[trigger] front[c],
                                            )
                                    };
                                assert(accepts(table, workers, worker, to, pearls[b]));
                                assert forall|c: int| b < c < pearls.len() implies passes_over(
                                    table,
                                    workers,
                                    worker,
                                    to,
                                    #[trigger] pearls[c],
                                ) by {
                                    if c < last {
                                        assert(passes_over(table, workers, worker, to, front[c]));
                                    }
                                }
                            } else {
                                assert forall|c: int| 0 <= c < pearls.len() implies passes_over(
                                    table,
                                    workers,
                                    worker,
                                    to,
                                    #[trigger] pearls[c],
                                ) by {
                                    if c < last {
                                        assert(passes_over(table, workers, worker, to, front[c]));
                                    }
                                }
                            }
                        }
                    },
                }
            },
        }
    }
}

/// The offload scan returns the last pair that it accepts. It returns none
/// exactly where it passes over every pair, and it fails with the error of
/// the first pair that it cannot judge.
pub proof fn lemma_scan_returns_last_accepted(
    table: AbilityMap,
    workers: Seq<WorkerView>,
    worker: WorkerView,
    idle: Seq<u32>,
)
    ensures
        match scan_neighbors(table, workers, worker, idle) {
            Ok(Some(pair)) => all_judged(table, workers, worker, idle) && exists|a: int, b: int|
                #[trigger] is_last_accepted(table, workers, worker, idle, a, b) && pair == (
                WorkerPearlIDs { worker_id: idle[a], pearl_id: worker.desk[b].id }),
            Ok(None) => none_accepted(table, workers, worker, idle),
            Err(e) => exists|a: int, b: int|
                #[trigger] is_first_failure(table, workers, worker, idle, a, b, e),
        },
    decreases idle.len(),
{
    if idle.len() > 0 {
        let front = idle.drop_last();
        let last = idle.len() - 1;
        let to = idle.last();
        let desk = worker.desk;
        lemma_scan_returns_last_accepted(table, workers, worker, front);
        assert forall|a: int| 0 <= a < front.len() implies front[a] == idle[a] by {}
        assert forall|a: int, b: int| in_scan(worker, front, a, b) implies (judged(
            table,
            workers,
            worker,
            front,
            a,
            b,
        ) == judged(table, workers, worker, idle, a, b) && passed(
            table,
            workers,
            worker,
            front,
            a,
            b,
        ) == passed(table, workers, worker, idle, a, b)) by {}
        match scan_neighbors(table, workers, worker, front) {
            Err(e) => {
                let (a, b) = choose|a: int, b: int| #[trigger]
                    is_first_failure(table, workers, worker, front, a, b, e);
                assert forall|a2: int, b2: int|
                    in_scan(worker, idle, a2, b2) && earlier(a2, b2, a, b) implies #[trigger] judged(
                    table,
                    workers,
                    worker,
                    idle,
                    a2,
                    b2,
                ) by {
                    assert(in_scan(worker, front, a2, b2));
                    assert(judged(table, workers, worker, front, a2, b2));
                }
                assert(is_first_failure(table, workers, worker, idle, a, b, e));
            },
            Ok(best) => {
                // No pair of the earlier neighbors fails.
                assert forall|a2: int, b2: int| in_scan(worker, front, a2, b2) implies judged(
                    table,
                    workers,
                    worker,
                    idle,
                    a2,
                    b2,
                ) by {
                    match best {
                        Some(_) => {
                            assert(judged(table, workers, worker, front, a2, b2));
                        },
                        None => {
                            assert(passed(table, workers, worker, front, a2, b2));
                        },
                    }
                }
                lemma_scan_desk_result(table, workers, worker, to, desk, best);
                match scan_desk(table, workers, worker, to, desk, best) {
                    Err(e) => {
                        let b = choose|b: int|
                            {
                                &&& 0 <= b < desk.len()
                                &&& fails_on(table, workers, worker, to, #[trigger] desk[b], e)
                                &&& forall|c: int|
                                    0 <= c < b ==> accepts(
                                        table,
                                        workers,
                                        worker,
                                        to,
                                        #[trigger] desk[c],
                                    ) || passes_over(table, workers, worker, to, desk[c])
                            };
                        assert forall|a2: int, b2: int|
                            in_scan(worker, idle, a2, b2) && earlier(
                                a2,
                                b2,
                                last,
                                b,
                            ) implies #[trigger] judged(table, workers, worker, idle, a2, b2) by {
                            if a2 < last {
                                assert(in_scan(worker, front, a2, b2));
                            } else {
                                assert(accepts(table, workers, worker, to, desk[b2])
                                    || passes_over(table, workers, worker, to, desk[b2]));
                            }
                        }
                        assert(is_first_failure(table, workers, worker, idle, last, b, e));
                    },
                    Ok(after) => {
                        assert forall|a2: int, b2: int|
                            in_scan(worker, idle, a2, b2) implies #[trigger] judged(
                            table,
                            workers,
                            worker,
                            idle,
                            a2,
                            b2,
                        ) by {
                            if a2 < last {
                                assert(in_scan(worker, front, a2, b2));
                            } else {
                                assert(accepts(table, workers, worker, to, desk[b2])
                                    || passes_over(table, workers, worker, to, desk[b2]));
                            }
                        }
                        if exists|b: int|
                            {
                                &&& 0 <= b < desk.len()
                                &&& accepts(table, workers, worker, to, #[trigger] desk[b])
                                &&& after == Some(
                                    WorkerPearlIDs { worker_id: to, pearl_id: desk[b].id },
                                )
                                &&& forall|c: int|
                                    b < c < desk.len() ==> passes_over(
                                        table,
                                        workers,
                                        worker,
                                        to,
                                        #[trigger] desk[c],
                                    )
                            } {
                            let b = choose|b: int|
                                {
                                    &&& 0 <= b < desk.len()
                                    &&& accepts(table, workers, worker, to, #[trigger] desk[b])
                                    &&& after == Some(
                                        WorkerPearlIDs { worker_id: to, pearl_id: desk[b].id },
                                    )
                                    &&& forall|c: int|
                                        b < c < desk.len() ==> passes_over(
                                            table,
                                            workers,
                                            worker,
                                            to,
                                            #[trigger] desk[c],
                                        )
                                };
                            assert forall|a2: int, b2: int|
                                in_scan(worker, idle, a2, b2) && earlier(
                                    last,
                                    b,
                                    a2,
                                    b2,
                                ) implies #[trigger] passed(table, workers, worker, idle, a2, b2) by {
                                assert(passes_over(table, workers, worker, to, desk[b2]));
                            }
                            assert(is_last_accepted(table, workers, worker, idle, last, b));
                        } else {
                            assert(after == best);
                            assert forall|b2: int| 0 <= b2 < desk.len() implies passed(
                                table,
                                workers,
                                worker,
                                idle,
                                last,
                                b2,
                            ) by {
                                assert(passes_over(table, workers, worker, to, desk[b2]));
                            }
                            match best {
                                Some(pair) => {
                                    let (a, b) = choose|a: int, b: int|
                                        #[trigger] is_last_accepted(
                                            table,
                                            workers,
                                            worker,
                                            front,
                                            a,
                                            b,
                                        ) && pair == (WorkerPearlIDs {
                                            worker_id: front[a],
                                            pearl_id: worker.desk[b].id,
                                        });
                                    assert forall|a2: int, b2: int|
                                        in_scan(worker, idle, a2, b2) && earlier(
                                            a,
                                            b,
                                            a2,
                                            b2,
                                        ) implies #[trigger] passed(
                                        table,
                                        workers,
                                        worker,
                                        idle,
                                        a2,
                                        b2,
                                    ) by {
                                        if a2 < last {
                                            assert(in_scan(worker, front, a2, b2));
                                            assert(passed(table, workers, worker, front, a2, b2));
                                        }
                                    }
                                    assert(is_last_accepted(table, workers, worker, idle, a, b));
                                },
                                None => {
                                    assert forall|a2: int, b2: int|
                                        in_scan(worker, idle, a2, b2) implies #[trigger] passed(
                                        table,
                                        workers,
                                        worker,
                                        idle,
                                        a2,
                                        b2,
                                    ) by {
                                        if a2 < last {
                                            assert(in_scan(worker, front, a2, b2));
                                            assert(passed(table, workers, worker, front, a2, b2));
                                        }
                                    }
                                },
                            }
                        }
                    },
                }
            },
        }
    }
}

} // verus!
