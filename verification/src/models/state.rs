//! The snapshot of the simulation that arrives each tick, and its
//! mathematical view.

use vstd::prelude::*;
use std::collections::HashMap;

verus! {

pub type Desk = Vec<Pearl>;

pub type Layers = Vec<Layer>;

pub type Workers = Vec<Worker>;

pub type NeighborMap = Vec<Vec<u32>>;

pub type NeighborGraph = HashMap<u32, Vec<u32>>;

/// A pearl together with the worker that should receive it.
#[derive(Debug, Clone, Copy, PartialEq, Eq, Structural)]
pub struct WorkerPearlIDs {
    pub worker_id: u32,
    pub pearl_id: u32,
}

/// One removable wrapping of a pearl.
#[derive(Clone, Debug)]
pub struct Layer {
    pub color: String,
    pub thickness: u32,
}

/// A unit of work. A pearl without layers is finished.
#[derive(Clone, Debug)]
pub struct Pearl {
    pub id: u32,
    pub layers: Layers,
}

/// A node of the network. The worker with id 0 is the gatekeeper.
#[derive(Clone, Debug)]
pub struct Worker {
    pub desk: Desk,
    pub flavor: String,
    pub id: u32,
}

/// Everything known about the simulation at the start of a tick.
#[derive(Clone, Debug)]
pub struct State {
    pub workers: Workers,
    pub neighbor_map: NeighborMap,
    pub score: u32,
}

/// The id of the gatekeeper, the one worker that keeps finished pearls.
pub const GATEKEEPER_ID: u32 = 0;

/// A layer as a value: its color as text and its thickness as a number.
pub struct LayerView {
    pub color: Seq<char>,
    pub thickness: nat,
}

/// A pearl as a value.
pub struct PearlView {
    pub id: u32,
    pub layers: Seq<LayerView>,
}

/// A worker as a value.
pub struct WorkerView {
    pub id: u32,
    pub flavor: Seq<char>,
    pub desk: Seq<PearlView>,
}

/// A snapshot as a value.
pub struct StateView {
    pub workers: Seq<WorkerView>,
    pub neighbor_map: Seq<Seq<u32>>,
    pub score: u32,
}

impl PearlView {
    /// A pearl is finished once no layer is left on it.
    pub open spec fn finished(self) -> bool {
        self.layers.len() == 0
    }
}

impl View for Layer {
    type V = LayerView;

    open spec fn view(&self) -> LayerView {
        LayerView { color: self.color@, thickness: self.thickness as nat }
    }
}

impl DeepView for Layer {
    type V = LayerView;

    open spec fn deep_view(&self) -> LayerView {
        self@
    }
}

impl View for Pearl {
    type V = PearlView;

    open spec fn view(&self) -> PearlView {
        PearlView { id: self.id, layers: self.layers.deep_view() }
    }
}

impl DeepView for Pearl {
    type V = PearlView;

    open spec fn deep_view(&self) -> PearlView {
        self@
    }
}

impl View for Worker {
    type V = WorkerView;

    open spec fn view(&self) -> WorkerView {
        WorkerView { id: self.id, flavor: self.flavor@, desk: self.desk.deep_view() }
    }
}

impl DeepView for Worker {
    type V = WorkerView;

    open spec fn deep_view(&self) -> WorkerView {
        self@
    }
}

impl View for State {
    type V = StateView;

    open spec fn view(&self) -> StateView {
        StateView {
            workers: self.workers.deep_view(),
            neighbor_map: self.neighbor_map.deep_view(),
            score: self.score,
        }
    }
}

impl DeepView for State {
    type V = StateView;

    open spec fn deep_view(&self) -> StateView {
        self@
    }
}

} // verus!
