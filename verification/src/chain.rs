//! The block DAG: transactions, blocks, the chain that stores them, and the
//! walkers and visitors that traverse it.

pub mod block;
pub mod chain;
pub mod chain_visitor;
pub mod chain_walker;
pub mod transaction;
