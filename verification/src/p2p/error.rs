//! The error a peer exchange reports when a connection fails mid-way.
//! Such failures are transient: the exchange is abandoned, the node
//! continues.

use vstd::prelude::*;

verus! {

/// A failed peer exchange.  It carries no detail; the exchange it ends is
/// simply dropped.
#[derive(Debug, Clone, Copy, PartialEq, Eq, Structural)]
pub struct Error;

impl Error {
    /// A short description of the error.
    pub fn message(&self) -> (r: &'static str)
        ensures
            r@ == "peer exchange failed"@,
    {
        "peer exchange failed"
    }
}

} // verus!
