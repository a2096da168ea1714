//! The consensus protocol the node runs.

pub mod clique;
