//! The ways in which a tick can fail.

use vstd::prelude::*;

verus! {

/// Every failure is fatal for the tick in which it is found: no actions are
/// produced for that tick.
#[derive(Debug, Clone, Copy, PartialEq, Eq, Structural)]
pub enum PipelineError {
    /// Graph validation failed: an edge or an adjacency list names a worker
    /// id that no worker of the snapshot has.
    GraphValidation { worker_id: u32 },
    /// The edge at this position of the neighbor map is not a pair of ids.
    MalformedEdge { index: usize },
    /// Two workers of the snapshot share an id.
    DuplicateWorker,
    /// A finished pearl has to be sent back, but the path memory holds no
    /// worker to send it to.
    PathMemory { pearl_id: u32 },
    /// The ability table gives no positive rate for a flavor and color that
    /// a time estimate needs.
    Configuration,
}

} // verus!
