//! Planning for computer-controlled nations: the per-turn snapshot the AI
//! reads, the tasks it gives its civilians, and the order it issues them in.

pub mod analysis;
pub mod census;
pub mod context;
pub mod economy_brain;
pub mod execute;
pub mod goals;
pub mod planner;
pub mod snapshot;
pub mod trade;
pub mod turn_context;
