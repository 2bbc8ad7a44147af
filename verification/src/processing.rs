//! The per-tick decision procedure and its mathematical model.

pub mod encoding;
pub mod graph;
pub mod laws;
pub mod offload;
pub mod pearl_pipeline;
pub mod routing;
pub mod timing;
pub mod utils;
