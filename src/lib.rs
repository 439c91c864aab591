//! Scene compilation and progressive-render bookkeeping for a node-graph ray tracer.
//!
//! Real-valued quantities (positions, radii, colours, scales) are carried as the bit
//! patterns of their `f32` values: the library moves and compares them, the GPU reads them.

pub mod app_state;
pub mod compile;
pub mod dirty;
pub mod edit;
pub mod expression;
pub mod flags;
pub mod frame;
pub mod graph;
pub mod node;
pub mod pin;
pub mod progress;
pub mod render;
pub mod scene;
pub mod subscription;
