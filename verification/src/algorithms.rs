//! Graph algorithms over the link-state topology.
pub mod dijkstra;
