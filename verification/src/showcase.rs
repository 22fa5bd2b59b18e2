//! Packing an event log into the compact form that the web visualizer reads.

pub mod encoder;
