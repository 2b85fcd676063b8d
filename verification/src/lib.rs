//! A live-patchable audio graph.
//!
//! Nodes wrap sample generators and listen to one another; some feed the
//! output bus. The graph is owned by one renderer, which evaluates it once
//! per frame and is the only one to change it: structural edits reach it
//! through a bounded queue and take effect between frames.
//!
//! Samples are fixed-point integers. Identifiers are arbitrary strings; the
//! name `out` stands for the output bus.

pub mod generator;
pub mod graph;
pub mod id_set;
pub mod input;
pub mod instruction;
pub mod laws;
pub mod model;
pub mod queue;
pub mod renderer;
pub mod sums;
