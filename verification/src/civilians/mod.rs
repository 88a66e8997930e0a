//! Civilian units: their kinds and orders, order validation, order execution
//! and multi-turn jobs.

pub mod execution;
pub mod hiring;
pub mod selection;
pub mod types;
pub mod validation;
