//! What a worker may be told to do in one tick.

use vstd::prelude::*;

verus! {

/// Hand a pearl to an adjacent worker.
#[derive(Debug, Clone, Copy, PartialEq, Eq, Structural)]
pub struct Pass {
    pub from_id: u32,
    pub pearl_id: u32,
    pub to_id: u32,
}

/// Dissolve the outermost layer of a pearl on the worker's own desk.
#[derive(Debug, Clone, Copy, PartialEq, Eq, Structural)]
pub struct Nom {
    pub nautiloid_id: u32,
    pub pearl_id: u32,
}

/// The closed set of actions.
#[derive(Debug, Clone, Copy, PartialEq, Eq, Structural)]
pub enum ActionType {
    Pass(Pass),
    Nom(Nom),
}

impl ActionType {
    /// The pearl that the action is about.
    pub open spec fn pearl_id(self) -> u32 {
        match self {
            ActionType::Pass(p) => p.pearl_id,
            ActionType::Nom(n) => n.pearl_id,
        }
    }

    /// The worker that carries the action out.
    pub open spec fn actor(self) -> u32 {
        match self {
            ActionType::Pass(p) => p.from_id,
            ActionType::Nom(n) => n.nautiloid_id,
        }
    }
}

} // verus!
