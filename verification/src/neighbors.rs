//! The peers that a node forwards to: an ordered list, fixed when the node
//! starts.

use vstd::prelude::*;
use crate::message::Address;

verus! {

/// `rand::rngs::StdRng`: the source of random numbers that callers hand in.
/// Nothing is known of what it holds.
#[verifier::external_type_specification]
#[verifier::external_body]
pub struct ExStdRng(rand::rngs::StdRng);

/// There is no neighbour to pick: the table has no entry.
#[derive(Clone, Copy, Debug, PartialEq, Eq, Structural)]
pub struct EmptyNeighborsError;

/// The neighbours of one node, in the order they were configured.
#[derive(Clone, Debug)]
pub struct NeighborTable {
    addrs: Vec<Address>,
}

impl View for NeighborTable {
    type V = Seq<Address>;

    closed spec fn view(&self) -> Seq<Address> {
        self.addrs@
    }
}

/// The address on the shared host that belongs to each port, in order.
pub open spec fn addresses_of(ports: Seq<u16>) -> Seq<Address> {
    Seq::new(ports.len(), |i: int| Address { port: ports[i] })
}

/// Calls `rand::seq::sample_iter` for a sample of one. On a list with an
/// entry the sample is `Ok` and holds one element of the list; on an empty
/// list it is `Err`, which is `None` here. Which element comes is up to
/// `rng`, and nothing is claimed of it.
#[verifier::external_body]
fn sample_one(rng: &mut rand::rngs::StdRng, addrs: &Vec<Address>) -> (r: Option<Address>)
    ensures
        r is None <==> addrs@.len() == 0,
        r matches Some(a) ==> addrs@.contains(a),
{
    match rand::seq::sample_iter(rng, addrs, 1) {
        Ok(picked) => Some(*picked[0]),
        Err(_) => None,
    }
}

impl NeighborTable {
    /// The table of the given addresses.
    pub fn new(addrs: Vec<Address>) -> (t: NeighborTable)
        ensures
            t@ == addrs@,
    {
        NeighborTable { addrs }
    }

    /// The table of the peers that listen on the given ports.
    pub fn from_ports(ports: &[u16]) -> (t: NeighborTable)
        ensures
            t@ == addresses_of(ports@),
    {
        let mut addrs: Vec<Address> = Vec::new();
        let mut i: usize = 0;
        while i < ports.len()
            invariant
                i <= ports@.len(),
                addrs@ == addresses_of(ports@.subrange(0, i as int)),
            decreases ports@.len() - i,
        {
            addrs.push(Address { port: ports[i] });
            proof {
                assert(addrs@ =~= addresses_of(ports@.subrange(0, i + 1)));
            }
            i = i + 1;
        }
        proof {
            assert(ports@.subrange(0, i as int) =~= ports@);
        }
        NeighborTable { addrs }
    }

    /// How many neighbours there are.
    pub fn len(&self) -> (n: usize)
        ensures
            n == self@.len(),
    {
        self.addrs.len()
    }

    /// Whether there is no neighbour.
    pub fn is_empty(&self) -> (e: bool)
        ensures
            e == (self@.len() == 0),
    {
        self.addrs.len() == 0
    }

    /// The neighbour at place `i`, by value.
    pub fn get(&self, i: usize) -> (a: Option<Address>)
        ensures
            a == if i < self@.len() { Some(self@[i as int]) } else { None },
    {
        if i < self.addrs.len() {
            Some(self.addrs[i])
        } else {
            None
        }
    }

    /// Draws one neighbour with `rng`. An empty table has none to give;
    /// any other gives one of its entries, by value.
    pub fn pick_random(&self, rng: &mut rand::rngs::StdRng) -> (r: Result<
        Address,
        EmptyNeighborsError,
    >)
        ensures
            r is Err <==> self@.len() == 0,
            r matches Ok(a) ==> self@.contains(a),
    {
        match sample_one(rng, &self.addrs) {
            Some(a) => Ok(a),
            None => Err(EmptyNeighborsError),
        }
    }
}

} // verus!
