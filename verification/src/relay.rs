//! The relay engine: what a node does with one message.

use vstd::prelude::*;
use crate::message::{Address, Msg, Ping};
use crate::neighbors::{EmptyNeighborsError, NeighborTable};

verus! {

/// What the engine decided.
#[derive(Clone, Copy, Debug, PartialEq, Eq, Structural)]
pub enum RelayAction {
    /// The walk goes on: send this message to this neighbour.
    Forward(Ping, Address),
    /// The message is back where it began; it came in from this address.
    Arrived(Ping, Address),
    /// The message asked the node to stop.
    Stop,
}

/// The message goes on to a neighbour: it is a walk that began elsewhere.
pub open spec fn goes_on(local_id: u16, inbound: Msg) -> bool {
    inbound matches Msg::Ping(p) && p.source != local_id
}

/// The hop count of a message that goes on still has room for one more.
pub open spec fn has_room(local_id: u16, inbound: Msg) -> bool {
    inbound matches Msg::Ping(p) ==> p.source == local_id || p.hops < u32::MAX
}

/// The message one hop later.
pub open spec fn next_hop(p: Ping) -> Ping {
    Ping { source: p.source, hops: (p.hops + 1) as u32 }
}

/// The decision, given the neighbour that was drawn.
pub open spec fn decision(local_id: u16, inbound: Msg, sender: Address, drawn: Address) -> RelayAction {
    match inbound {
        Msg::Done => RelayAction::Stop,
        Msg::Ping(p) => if p.source == local_id {
            RelayAction::Arrived(p, sender)
        } else {
            RelayAction::Forward(next_hop(p), drawn)
        },
    }
}

/// Decides on `inbound`, which came from `sender`, with `drawn` as the
/// neighbour to forward to if the walk goes on.
pub fn decide(local_id: u16, inbound: Msg, sender: Address, drawn: Address) -> (a: RelayAction)
    requires
        has_room(local_id, inbound),
    ensures
        a == decision(local_id, inbound, sender, drawn),
{
    match inbound {
        Msg::Done => RelayAction::Stop,
        Msg::Ping(p) => {
            if p.source == local_id {
                RelayAction::Arrived(p, sender)
            } else {
                RelayAction::Forward(Ping { source: p.source, hops: p.hops + 1 }, drawn)
            }
        },
    }
}

/// Decides on `inbound`, which came from `sender`, and draws the neighbour
/// with `rng` where the walk goes on. A request to stop and a message that
/// is back home are settled whatever the table holds; a walk that goes on
/// is forwarded to an entry of the table, and fails only on an empty one.
pub fn relay(
    local_id: u16,
    inbound: Msg,
    sender: Address,
    table: &NeighborTable,
    rng: &mut rand::rngs::StdRng,
) -> (r: Result<RelayAction, EmptyNeighborsError>)
    requires
        has_room(local_id, inbound),
    ensures
        r is Err <==> goes_on(local_id, inbound) && table@.len() == 0,
        !goes_on(local_id, inbound) ==> r == Ok::<RelayAction, EmptyNeighborsError>(
            decision(local_id, inbound, sender, sender),
        ),
        goes_on(local_id, inbound) ==> (r matches Ok(a) ==> a matches RelayAction::Forward(_, to)
            && table@.contains(to) && a == decision(local_id, inbound, sender, to)),
{
    match inbound {
        Msg::Done => Ok(decide(local_id, inbound, sender, sender)),
        Msg::Ping(p) => {
            if p.source == local_id {
                Ok(decide(local_id, inbound, sender, sender))
            } else {
                match table.pick_random(rng) {
                    Ok(drawn) => Ok(decide(local_id, inbound, sender, drawn)),
                    Err(e) => Err(e),
                }
            }
        },
    }
}

/// A message that is back at the node it began at has arrived, whatever
/// its hop count and whichever neighbour was drawn; it is never forwarded.
pub proof fn lemma_arrival(local_id: u16, hops: u32, sender: Address, drawn: Address)
    ensures
        decision(local_id, Msg::Ping(Ping { source: local_id, hops }), sender, drawn)
            == RelayAction::Arrived(Ping { source: local_id, hops }, sender),
{
}

/// A request to stop stops, at every node and whichever neighbour was drawn.
pub proof fn lemma_stop(local_id: u16, sender: Address, drawn: Address)
    ensures
        decision(local_id, Msg::Done, sender, drawn) == RelayAction::Stop,
{
}

/// Each forward adds one to the hop count and keeps the source.
pub proof fn lemma_forward_counts(local_id: u16, p: Ping, sender: Address, drawn: Address)
    requires
        has_room(local_id, Msg::Ping(p)),
        decision(local_id, Msg::Ping(p), sender, drawn) is Forward,
    ensures
        decision(local_id, Msg::Ping(p), sender, drawn) == RelayAction::Forward(
            next_hop(p),
            drawn,
        ),
        next_hop(p).hops == p.hops + 1,
        next_hop(p).source == p.source,
{
}

/// `walk` is the message of one walk as node after node forwarded it:
/// `nodes[k]` got `walk[k]` from `senders[k]`, drew `drawn[k]` and sent
/// `walk[k + 1]` there.
pub open spec fn forwarded_along(
    walk: Seq<Ping>,
    nodes: Seq<u16>,
    senders: Seq<Address>,
    drawn: Seq<Address>,
) -> bool {
    &&& walk.len() == nodes.len() + 1
    &&& senders.len() == nodes.len()
    &&& drawn.len() == nodes.len()
    &&& forall|k: int|
        0 <= k < nodes.len() ==> has_room(nodes[k], Msg::Ping(walk[k])) && #[trigger] decision(
            nodes[k],
            Msg::Ping(walk[k]),
            senders[k],
            drawn[k],
        ) == RelayAction::Forward(walk[k + 1], drawn[k])
}

/// Along a walk the source never changes and the hop count is the number
/// of forwards so far, added to what it began with.
pub proof fn lemma_walk_counts(
    walk: Seq<Ping>,
    nodes: Seq<u16>,
    senders: Seq<Address>,
    drawn: Seq<Address>,
    k: int,
)
    requires
        forwarded_along(walk, nodes, senders, drawn),
        0 <= k < walk.len(),
    ensures
        walk[k].source == walk[0].source,
        walk[k].hops == walk[0].hops + k,
    decreases k,
{
    if k > 0 {
        lemma_walk_counts(walk, nodes, senders, drawn, k - 1);
        let j = k - 1;
        assert(decision(nodes[j], Msg::Ping(walk[j]), senders[j], drawn[j])
            == RelayAction::Forward(walk[j + 1], drawn[j]));
    }
}

} // verus!
