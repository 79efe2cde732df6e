use hop_relay::codec::{from_wire, to_wire, MalformedMessageError};
use hop_relay::message::{Address, Msg, Ping};
use hop_relay::neighbors::EmptyNeighborsError;
use hop_relay::node::{Node, NodeAction, NodeState};
use rand::rngs::StdRng;
use rand::SeedableRng;

fn seeded(seed: u8) -> StdRng {
    StdRng::from_seed([seed; 32])
}

fn addr(port: u16) -> Address {
    Address { port }
}

#[test]
fn node_without_neighbors_is_refused() {
    match Node::new(9001, &[]) {
        Err(e) => assert_eq!(e, EmptyNeighborsError),
        Ok(_) => panic!("a node without neighbours was set up"),
    }
}

#[test]
fn new_node_relays() {
    let node = Node::new(9001, &[9002, 9003]).unwrap();
    assert_eq!(node.id(), 9001);
    assert_eq!(node.state(), NodeState::Relaying);
    assert_eq!(node.neighbors().len(), 2);
    assert_eq!(node.neighbors().get(0), Some(addr(9002)));
    assert_eq!(node.neighbors().get(1), Some(addr(9003)));
    assert_eq!(node.seed(), Msg::Ping(Ping { source: 9001, hops: 0 }));
}

#[test]
fn kickoff_sends_the_seed_to_a_neighbor() {
    let node = Node::new(9001, &[9002, 9003]).unwrap();
    let mut rng = seeded(1);
    for _ in 0..20 {
        let (payload, to) = node.kickoff(&mut rng);
        assert_eq!(payload, b"{\"Ping\":{\"source\":9001,\"hops\":0}}".to_vec());
        assert!(to == addr(9002) || to == addr(9003));
    }
}

#[test]
fn forwards_a_foreign_walk() {
    let mut node = Node::new(9002, &[9003]).unwrap();
    let action = node.on_datagram(
        b"{\"Ping\":{\"source\":9001,\"hops\":0}}",
        addr(9001),
        &mut seeded(2),
    );
    assert_eq!(
        action,
        NodeAction::Send(b"{\"Ping\":{\"source\":9001,\"hops\":1}}".to_vec(), addr(9003))
    );
    assert_eq!(node.state(), NodeState::Relaying);
}

#[test]
fn reports_its_own_walk_coming_back() {
    let mut node = Node::new(9001, &[9002, 9003]).unwrap();
    let action = node.on_datagram(
        b"{\"Ping\":{\"source\":9001,\"hops\":12}}",
        addr(9003),
        &mut seeded(3),
    );
    assert_eq!(action, NodeAction::ReportArrival { origin: 9001, via: addr(9003), hops: 12 });
    assert_eq!(node.state(), NodeState::Relaying);
}

#[test]
fn stops_on_done_and_stays_stopped() {
    let mut node = Node::new(9001, &[9002]).unwrap();
    let mut rng = seeded(4);
    assert_eq!(node.on_datagram(b"\"Done\"", addr(9002), &mut rng), NodeAction::Exit);
    assert_eq!(node.state(), NodeState::Stopped);
    assert_eq!(
        node.on_datagram(b"{\"Ping\":{\"source\":9002,\"hops\":1}}", addr(9002), &mut rng),
        NodeAction::Exit
    );
    assert_eq!(node.on_datagram(b"junk", addr(9002), &mut rng), NodeAction::Exit);
    assert_eq!(node.state(), NodeState::Stopped);
}

#[test]
fn malformed_datagram_does_not_stop_the_node() {
    let mut node = Node::new(9002, &[9003]).unwrap();
    let mut rng = seeded(5);
    assert_eq!(
        node.on_datagram(b"{\"Ping\":{\"source\":9001,\"hops\":-3}}", addr(9001), &mut rng),
        NodeAction::ReportMalformed(MalformedMessageError { len: 34 })
    );
    assert_eq!(node.state(), NodeState::Relaying);
    assert_eq!(
        node.on_datagram(&[0xc3, 0x28], addr(9001), &mut rng),
        NodeAction::ReportMalformed(MalformedMessageError { len: 2 })
    );
    assert_eq!(
        node.on_datagram(b"{\"Ping\":{\"source\":9001,\"hops\":3}}", addr(9001), &mut rng),
        NodeAction::Send(b"{\"Ping\":{\"source\":9001,\"hops\":4}}".to_vec(), addr(9003))
    );
    assert_eq!(
        node.on_datagram(b"{\"Ping\":{\"source\":9002,\"hops\":9}}", addr(9003), &mut rng),
        NodeAction::ReportArrival { origin: 9002, via: addr(9003), hops: 9 }
    );
    assert_eq!(node.on_datagram(b"\"Done\"", addr(9003), &mut rng), NodeAction::Exit);
}

#[test]
fn spaced_document_is_forwarded_without_spaces() {
    let mut node = Node::new(9002, &[9003]).unwrap();
    assert_eq!(
        node.on_datagram(
            b"{ \"Ping\": { \"hops\": 41, \"source\": 9001 } }\n",
            addr(9001),
            &mut seeded(12)
        ),
        NodeAction::Send(b"{\"Ping\":{\"source\":9001,\"hops\":42}}".to_vec(), addr(9003))
    );
}

#[test]
fn walk_at_the_hop_ceiling_ends() {
    let mut node = Node::new(9002, &[9003]).unwrap();
    let mut rng = seeded(6);
    let spent = Ping { source: 9001, hops: 4294967295 };
    assert_eq!(
        node.on_datagram(&to_wire(&Msg::Ping(spent)), addr(9001), &mut rng),
        NodeAction::ReportSpent(spent)
    );
    assert_eq!(node.state(), NodeState::Relaying);
    let home = Ping { source: 9002, hops: 4294967295 };
    assert_eq!(
        node.on_datagram(&to_wire(&Msg::Ping(home)), addr(9001), &mut rng),
        NodeAction::ReportArrival { origin: 9002, via: addr(9001), hops: 4294967295 }
    );
}

#[test]
fn neighbor_may_be_the_node_itself() {
    let mut node = Node::new(9001, &[9001]).unwrap();
    let mut rng = seeded(7);
    let (payload, to) = node.kickoff(&mut rng);
    assert_eq!(to, addr(9001));
    assert_eq!(
        node.on_datagram(&payload, to, &mut rng),
        NodeAction::ReportArrival { origin: 9001, via: addr(9001), hops: 0 }
    );
}

fn ring_walk(seed: u8) -> u32 {
    let mut rng = seeded(seed);
    let mut nodes = vec![
        Node::new(9001, &[9002, 9003]).unwrap(),
        Node::new(9002, &[9001, 9003]).unwrap(),
        Node::new(9003, &[9001, 9002]).unwrap(),
    ];
    let (mut payload, mut to) = nodes[0].kickoff(&mut rng);
    assert_eq!(from_wire(&payload), Ok(Msg::Ping(Ping { source: 9001, hops: 0 })));
    assert!(to == addr(9002) || to == addr(9003));
    let mut from = addr(9001);
    let mut sends: u32 = 1;
    loop {
        assert!(sends < 100000);
        let at = (to.port - 9001) as usize;
        match nodes[at].on_datagram(&payload, from, &mut rng) {
            NodeAction::Send(next, next_to) => {
                assert_ne!(to.port, 9001);
                assert_ne!(next_to, to);
                assert_eq!(from_wire(&next), Ok(Msg::Ping(Ping { source: 9001, hops: sends })));
                from = to;
                payload = next;
                to = next_to;
                sends += 1;
            }
            NodeAction::ReportArrival { origin, via, hops } => {
                assert_eq!(to.port, 9001);
                assert_eq!(origin, 9001);
                assert_eq!(via, from);
                assert_eq!(hops, sends - 1);
                assert!(hops >= 1);
                return hops;
            }
            other => panic!("the walk was lost: {:?}", other),
        }
    }
}

#[test]
fn three_node_ring_brings_the_walk_home() {
    for seed in 0..32u8 {
        let hops = ring_walk(seed);
        assert!(hops >= 1);
    }
}

#[test]
fn three_node_ring_is_the_same_under_the_same_seed() {
    assert_eq!(ring_walk(11), ring_walk(11));
}
