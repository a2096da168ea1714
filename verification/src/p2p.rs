//! The peer protocol: the wire codec and the message taxonomy.

pub mod codec;
pub mod error;
