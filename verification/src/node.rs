//! One node's lifetime, as the decisions between its sends and receives.
//!
//! The driver owns the socket and the clock. It binds, waits, asks the node
//! for its kick-off datagram and sends it; then it hands each datagram it
//! receives to `on_datagram` and does what comes back.

use vstd::prelude::*;
use crate::codec::{from_wire, parse, to_wire, wire, MalformedMessageError};
use crate::message::{Address, Msg, Ping};
use crate::neighbors::{addresses_of, EmptyNeighborsError, NeighborTable};
use crate::relay::{next_hop, relay, RelayAction};

verus! {

/// Whether the node still takes part.
#[derive(Clone, Copy, Debug, PartialEq, Eq, Structural)]
pub enum NodeState {
    Relaying,
    Stopped,
}

/// What the driver does after a datagram.
#[derive(Clone, Debug, PartialEq, Eq)]
pub enum NodeAction {
    /// Send this datagram to this neighbour.
    Send(Vec<u8>, Address),
    /// Report that a walk is back: where it began, the address it last came
    /// from, and how many hops it took. Send nothing.
    ReportArrival { origin: u16, via: Address, hops: u32 },
    /// Report a datagram that is no document, and go on receiving.
    ReportMalformed(MalformedMessageError),
    /// Report a walk whose hop count is at its ceiling: one more hop would
    /// wrap it, so the walk ends here. Go on receiving.
    ReportSpent(Ping),
    /// Leave the receive loop.
    Exit,
}

/// A node: who it is, whom it forwards to, and whether it still relays.
#[derive(Clone, Debug)]
pub struct Node {
    id: u16,
    table: NeighborTable,
    state: NodeState,
}

/// The state after a datagram: a request to stop stops the node, and
/// nothing else changes anything.
pub open spec fn state_after(state: NodeState, datagram: Seq<u8>) -> NodeState {
    if state == NodeState::Relaying && parse(datagram) == Some(Msg::Done) {
        NodeState::Stopped
    } else {
        state
    }
}

impl Node {
    /// The node's own identity.
    pub closed spec fn spec_id(&self) -> u16 {
        self.id
    }

    /// The node's neighbours, in order.
    pub closed spec fn spec_neighbors(&self) -> Seq<Address> {
        self.table@
    }

    /// The node's state.
    pub closed spec fn spec_state(&self) -> NodeState {
        self.state
    }

    /// A node has at least one neighbour.
    pub open spec fn wf(&self) -> bool {
        self.spec_neighbors().len() > 0
    }

    /// Sets a node up, before any traffic. A node without neighbours cannot
    /// take part and is refused.
    pub fn new(id: u16, neighbor_ports: &[u16]) -> (r: Result<Node, EmptyNeighborsError>)
        ensures
            r is Err <==> neighbor_ports@.len() == 0,
            r matches Ok(n) ==> n.wf() && n.spec_id() == id && n.spec_neighbors() == addresses_of(
                neighbor_ports@,
            ) && n.spec_state() == NodeState::Relaying,
    {
        if neighbor_ports.len() == 0 {
            return Err(EmptyNeighborsError);
        }
        let table = NeighborTable::from_ports(neighbor_ports);
        Ok(Node { id, table, state: NodeState::Relaying })
    }

    #[verifier::when_used_as_spec(spec_id)]
    pub fn id(&self) -> (id: u16)
        ensures
            id == self.spec_id(),
    {
        self.id
    }

    pub fn neighbors(&self) -> (t: &NeighborTable)
        ensures
            t@ == self.spec_neighbors(),
    {
        &self.table
    }

    #[verifier::when_used_as_spec(spec_state)]
    pub fn state(&self) -> (s: NodeState)
        ensures
            s == self.spec_state(),
    {
        self.state
    }

    /// The message that starts this node's walk.
    pub fn seed(&self) -> (m: Msg)
        ensures
            m == Msg::Ping(Ping { source: self.spec_id(), hops: 0 }),
    {
        Msg::Ping(Ping { source: self.id, hops: 0 })
    }

    /// The one datagram that a node sends unasked, after the startup delay:
    /// its seed message, to a neighbour drawn with `rng`.
    pub fn kickoff(&self, rng: &mut rand::rngs::StdRng) -> (r: (Vec<u8>, Address))
        requires
            self.wf(),
        ensures
            r.0@ == wire(Msg::Ping(Ping { source: self.spec_id(), hops: 0 })),
            self.spec_neighbors().contains(r.1),
    {
        let seed = self.seed();
        let payload = to_wire(&seed);
        let to = self.table.pick_random(rng).unwrap();
        (payload, to)
    }

    /// Takes one datagram, which came from `from`, and says what to do.
    ///
    /// A stopped node only says `Exit`. A relaying node reports a datagram
    /// that is no document and stays as it was; stops on a request to stop;
    /// reports a walk of its own that is back; reports a walk that cannot
    /// count one more hop; and forwards every other walk, one hop later, to
    /// a neighbour drawn with `rng`.
    pub fn on_datagram(
        &mut self,
        datagram: &[u8],
        from: Address,
        rng: &mut rand::rngs::StdRng,
    ) -> (a: NodeAction)
        requires
            old(self).wf(),
        ensures
            final(self).wf(),
            final(self).spec_id() == old(self).spec_id(),
            final(self).spec_neighbors() == old(self).spec_neighbors(),
            final(self).spec_state() == state_after(old(self).spec_state(), datagram@),
            old(self).spec_state() == NodeState::Stopped ==> a == NodeAction::Exit,
            old(self).spec_state() == NodeState::Relaying ==> match parse(datagram@) {
                None => a == NodeAction::ReportMalformed(
                    MalformedMessageError { len: datagram@.len() as usize },
                ),
                Some(Msg::Done) => a == NodeAction::Exit,
                Some(Msg::Ping(p)) => if p.source == old(self).spec_id() {
                    a == (NodeAction::ReportArrival { origin: p.source, via: from, hops: p.hops })
                } else if p.hops == u32::MAX {
                    a == NodeAction::ReportSpent(p)
                } else {
                    a matches NodeAction::Send(payload, to) && payload@ == wire(
                        Msg::Ping(next_hop(p)),
                    ) && old(self).spec_neighbors().contains(to)
                },
            },
    {
        if self.state == NodeState::Stopped {
            return NodeAction::Exit;
        }
        let inbound = match from_wire(datagram) {
            Err(e) => {
                return NodeAction::ReportMalformed(e);
            },
            Ok(m) => m,
        };
        if let Msg::Ping(p) = inbound {
            if p.source != self.id && p.hops == u32::MAX {
                return NodeAction::ReportSpent(p);
            }
        }
        match relay(self.id, inbound, from, &self.table, rng).unwrap() {
            RelayAction::Stop => {
                self.state = NodeState::Stopped;
                NodeAction::Exit
            },
            RelayAction::Arrived(p, via) => NodeAction::ReportArrival {
                origin: p.source,
                via,
                hops: p.hops,
            },
            RelayAction::Forward(out, to) => NodeAction::Send(to_wire(&Msg::Ping(out)), to),
        }
    }
}

/// A datagram that is no document leaves no trace: the node is in the same
/// state after it, and so deals with whatever comes next as if the bad
/// datagram had never come.
pub proof fn lemma_malformed_is_skipped(state: NodeState, bad: Seq<u8>, next: Seq<u8>)
    requires
        parse(bad) is None,
    ensures
        state_after(state, bad) == state,
        state_after(state_after(state, bad), next) == state_after(state, next),
{
}

} // verus!
