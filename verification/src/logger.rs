//! The thread-lock state kept beside the event log, for visualization.

pub mod graph_logger;
