//! A random-walk relay node: a counted message hops between peers, each
//! forwarding it to a neighbour drawn at random, until it is back at the
//! node that started it.

pub mod message;
pub mod decimal;
pub mod codec;
pub mod neighbors;
pub mod relay;
pub mod node;
