//! Deadlock detection for multithreaded programs: wait-for and lock-order
//! graphs, the detector that tracks which threads hold and wait for which
//! locks, and the thread-lock state kept for visualization.

pub mod fx;
pub mod paths;
pub mod relation;
pub mod sorting;
pub mod graph;
pub mod detector;
pub mod types;
pub mod contention;
pub mod logger;
pub mod graph_logger;
pub mod stress;
pub mod showcase;
