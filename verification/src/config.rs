//! The blockchain's initial configuration.

pub mod genesis;
