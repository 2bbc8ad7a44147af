//! Decision engine for a network of workers that dissolve layered pearls.
//!
//! Once per tick the engine receives a snapshot of every worker's desk and
//! chooses at most one action per worker: pass a pearl to a neighbor or nom
//! a pearl locally. The only state kept between ticks is the path memory,
//! which lets a finished pearl retrace its route to the gatekeeper.

pub mod models;
pub mod text;
pub mod processing;
