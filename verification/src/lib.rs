//! A harness that measures how a containerised workload scales with the
//! number of cores it may use, and a Game of Life on a torus.

pub mod capacity;
pub mod decimal;
pub mod life;
pub mod report;
pub mod scheduler;
pub mod table;
pub mod task;
