//! Data carried into and out of the engine.

pub mod ability_map;
pub mod action;
pub mod error;
pub mod state;
