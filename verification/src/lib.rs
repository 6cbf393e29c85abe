//! In-memory model of a diagram and the stages that turn it into drawable
//! geometry: a node store with per-node components, parent/child topology,
//! a constraint solver that assigns concrete positions and sizes, text
//! measurement, and a renderer that emits rectangles.

pub mod errors;
pub mod model;
pub mod renderer;
pub mod solver;
