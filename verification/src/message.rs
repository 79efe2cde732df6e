//! The values that travel between nodes.

use vstd::prelude::*;

verus! {

/// The counted message of one walk.
#[derive(Clone, Copy, Debug, PartialEq, Eq, Structural)]
pub struct Ping {
    /// The node at which the walk began.
    pub source: u16,
    /// How many times the message has been forwarded so far.
    pub hops: u32,
}

/// What one datagram carries.
#[derive(Clone, Copy, Debug, PartialEq, Eq, Structural)]
pub enum Msg {
    /// A walk in progress.
    Ping(Ping),
    /// A request to the receiving node to stop relaying.
    Done,
}

/// A peer on the shared host, told apart by its port.
#[derive(Clone, Copy, Debug, PartialEq, Eq, Structural)]
pub struct Address {
    pub port: u16,
}

} // verus!
