//! From constraints to concrete geometry.

pub mod fontmetrics;
pub mod laws;
pub mod layout;
pub mod seed;
