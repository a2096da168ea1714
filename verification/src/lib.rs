//! Core of a permissioned blockchain node running a privacy-preserving
//! binary election.
//!
//! The crate provides the block DAG (`chain`), the Clique-style
//! proof-of-authority consensus driver (`protocol`), the wire codec and
//! message taxonomy (`p2p`), the parsed genesis configuration (`config`),
//! and the value model of the election's cryptographic material (`crypto`).
//! Networking, clocks and file handling live outside the library; every
//! function here is a pure computation on plain values with a verified
//! contract.

pub mod chain;
pub mod config;
pub mod crypto;
pub mod encoding;
pub mod hashing;
pub mod p2p;
pub mod protocol;
