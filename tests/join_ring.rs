use std::collections::VecDeque;

use locutus::dispatcher::{
    initial_join_request, join_ring_op, tick, JoinEvent, JoinFailure, Message, Outbound, OC_TIMEOUT_MS,
};
use locutus::join_ring::{JRState, JoinRequest, JoinResponse, JoinRingMsg, JoinRingOp, OpError, Transaction};
use locutus::location::Location;
use locutus::operations::OpStorage;
use locutus::ring::{PeerKey, PeerKeyLocation, Ring};

const HALF: u32 = 0x8000_0000;
const POINT_EIGHT: u32 = 3_435_973_837;

struct Node {
    key: PeerKey,
    ring: Ring,
    storage: OpStorage,
    events: Vec<JoinEvent>,
}

struct Net {
    nodes: Vec<Node>,
    queue: VecDeque<(PeerKey, Outbound)>,
    rng: u64,
    now: u64,
    fixed_location: Option<Location>,
    silent: Vec<PeerKey>,
}

impl Net {
    fn new() -> Net {
        Net { nodes: Vec::new(), queue: VecDeque::new(), rng: 1, now: 0, fixed_location: None, silent: Vec::new() }
    }

    fn rnd(&mut self) -> u64 {
        let mut x = self.rng;
        x ^= x << 13;
        x ^= x >> 7;
        x ^= x << 17;
        self.rng = x;
        x
    }

    fn add(&mut self, id: u64, location: Option<u32>, max_connections: usize, max_hops: usize) -> usize {
        let mut ring = Ring::new(max_connections, max_hops, 7);
        ring.set_own_location(location.map(Location::new));
        self.nodes.push(Node { key: PeerKey { id }, ring, storage: OpStorage::new(), events: Vec::new() });
        self.nodes.len() - 1
    }

    fn pkl(&self, idx: usize) -> PeerKeyLocation {
        PeerKeyLocation { peer: self.nodes[idx].key, location: self.nodes[idx].ring.own_location() }
    }

    fn index(&self, key: PeerKey) -> usize {
        self.nodes.iter().position(|n| n.key == key).unwrap()
    }

    fn deliver_all(&mut self) {
        let mut steps = 0;
        while let Some((from, out)) = self.queue.pop_front() {
            steps += 1;
            assert!(steps < 10_000);
            if self.silent.contains(&out.to) {
                continue;
            }
            let msg = match out.msg {
                Message::JoinRing(m) => m,
                Message::Canceled(_) => continue,
            };
            let loc = match self.fixed_location {
                Some(l) => l,
                None => Location::new(self.rnd() as u32),
            };
            let draw = self.rnd();
            let now = self.now;
            let idx = self.index(out.to);
            let node = &mut self.nodes[idx];
            let r = join_ring_op(&mut node.storage, &mut node.ring, node.key, from, out.tx, msg, now, loc, draw);
            if let Some(e) = r.event {
                node.events.push(e);
            }
            let key = node.key;
            for o in r.outbound {
                self.queue.push_back((key, o));
            }
        }
    }

    fn join(&mut self, joiner: usize, gateway: usize, uuid: u128, max_hops: usize) {
        let tx = Transaction::new(uuid);
        let g = self.pkl(gateway);
        let key = self.nodes[joiner].key;
        let op = JoinRingOp::initial_request(tx, key, g, max_hops);
        let out = initial_join_request(&mut self.nodes[joiner].storage, op, tx).unwrap();
        self.queue.push_back((key, out));
        self.deliver_all();
    }

    fn connected(&self, a: usize, b: usize) -> bool {
        let kb = self.nodes[b].key;
        self.nodes[a].ring.connections().iter().any(|p| p.peer == kb)
    }
}

#[test]
fn join_ring_transitions() {
    let id = Transaction::new(7);
    let h1 = PeerKeyLocation { peer: PeerKey { id: 1 }, location: None };
    let h2 = PeerKeyLocation { peer: PeerKey { id: 2 }, location: None };

    let mut join_op_host_1 = JoinRingOp::new();
    let res = join_op_host_1
        .consume(&JoinRingMsg::Req {
            id,
            msg: JoinRequest::Initial { target_loc: h1, req_peer: h2.peer, hops_to_live: 0, max_hops_to_live: 0 },
        })
        .unwrap()
        .unwrap();
    let expected = JoinRingMsg::Resp { id, sender: h2, msg: JoinResponse::ReceivedOC { by_peer: h1 } };
    assert_eq!(res, expected);
    assert!(matches!(join_op_host_1.state, JRState::Connecting(_)));

    let mut join_op_host_2 = JoinRingOp::new();
    let res = join_op_host_2.consume(&res).unwrap().unwrap();
    let expected = JoinRingMsg::Connected;
    assert_eq!(res, expected);
    assert!(matches!(join_op_host_2.state, JRState::OCReceived));

    let res = join_op_host_1.consume(&res).unwrap().unwrap();
    let expected = JoinRingMsg::Connected;
    assert_eq!(res, expected);
    assert!(matches!(join_op_host_1.state, JRState::Connected));

    let res = join_op_host_2.consume(&res).unwrap().unwrap();
    let expected = JoinRingMsg::Connected;
    assert_eq!(res, expected);
    assert!(matches!(join_op_host_2.state, JRState::Connected));

    // transaction finished, should not return anymore
    assert!(join_op_host_1.consume(&res).is_err());
    assert!(join_op_host_2.consume(&res).is_err());
    assert!(matches!(join_op_host_1.state, JRState::Connected));
    assert!(matches!(join_op_host_2.state, JRState::Connected));
}

fn initial_req(tx: Transaction, gateway: PeerKeyLocation, joiner: PeerKey, htl: usize) -> JoinRingMsg {
    JoinRingMsg::Req {
        id: tx,
        msg: JoinRequest::Initial { target_loc: gateway, req_peer: joiner, hops_to_live: htl, max_hops_to_live: htl },
    }
}

fn is_direct_reply(out: &[Outbound], joiner: PeerKey, loc: Location) -> bool {
    out.len() == 1
        && out[0].to == joiner
        && matches!(&out[0].msg, Message::JoinRing(JoinRingMsg::Resp {
            msg: JoinResponse::Initial { your_location, your_peer_id, .. }, ..
        }) if *your_location == loc && *your_peer_id == joiner)
}

#[test]
fn zero_hops_replies_immediately() {
    let mut ring = Ring::new(20, 10, 7);
    ring.set_own_location(Some(Location::new(HALF)));
    assert!(ring.add_connection(PeerKeyLocation { peer: PeerKey { id: 5 }, location: Some(Location::new(10)) }));
    let mut storage = OpStorage::new();
    let gateway = PeerKeyLocation { peer: PeerKey { id: 1 }, location: Some(Location::new(HALF)) };
    let tx = Transaction::new(3);
    let loc = Location::new(1000);
    let r = join_ring_op(&mut storage, &mut ring, gateway.peer, PeerKey { id: 9 }, tx, initial_req(tx, gateway, PeerKey { id: 9 }, 0), 0, loc, 4);
    assert!(r.error.is_none());
    assert!(is_direct_reply(&r.outbound, PeerKey { id: 9 }, loc));
}

#[test]
fn empty_neighbours_replies_immediately() {
    let mut ring = Ring::new(20, 10, 7);
    ring.set_own_location(Some(Location::new(HALF)));
    let mut storage = OpStorage::new();
    let gateway = PeerKeyLocation { peer: PeerKey { id: 1 }, location: Some(Location::new(HALF)) };
    let tx = Transaction::new(3);
    let loc = Location::new(77);
    let r = join_ring_op(&mut storage, &mut ring, gateway.peer, PeerKey { id: 9 }, tx, initial_req(tx, gateway, PeerKey { id: 9 }, 5), 0, loc, 4);
    assert!(r.error.is_none());
    assert!(is_direct_reply(&r.outbound, PeerKey { id: 9 }, loc));
    // the gateway accepted, so it waits for the joiner's handshake
    assert!(storage.contains(tx));
}

#[test]
fn mismatched_transaction_is_canceled() {
    let mut ring = Ring::new(20, 10, 7);
    let mut storage = OpStorage::new();
    let gateway = PeerKeyLocation { peer: PeerKey { id: 1 }, location: Some(Location::new(HALF)) };
    let tx = Transaction::new(3);
    let other = Transaction::new(4);
    let r = join_ring_op(&mut storage, &mut ring, gateway.peer, PeerKey { id: 9 }, tx, initial_req(other, gateway, PeerKey { id: 9 }, 5), 0, Location::new(1), 4);
    assert!(r.error.is_some());
    assert_eq!(r.outbound, vec![Outbound { to: PeerKey { id: 9 }, tx, msg: Message::Canceled(tx) }]);
    assert!(!storage.contains(tx));
}

#[test]
fn connected_without_operation_is_canceled() {
    let mut ring = Ring::new(20, 10, 7);
    let mut storage = OpStorage::new();
    let tx = Transaction::new(3);
    let r = join_ring_op(&mut storage, &mut ring, PeerKey { id: 1 }, PeerKey { id: 2 }, tx, JoinRingMsg::Connected, 0, Location::new(1), 4);
    assert!(r.error.is_some());
    assert_eq!(r.outbound[0].msg, Message::Canceled(tx));
}

#[test]
fn missing_gateway_location_is_refused() {
    let mut storage = OpStorage::new();
    let tx = Transaction::new(3);
    let gateway = PeerKeyLocation { peer: PeerKey { id: 1 }, location: None };
    let op = JoinRingOp::initial_request(tx, PeerKey { id: 2 }, gateway, 10);
    assert_eq!(initial_join_request(&mut storage, op, tx).unwrap_err(), OpError::LocationUnknown);
    assert!(!storage.contains(tx));
    let not_started = JoinRingOp::new();
    assert_eq!(initial_join_request(&mut storage, not_started, tx).unwrap_err(), OpError::IllegalStateTransition);
}

#[test]
fn single_joiner_meets_gateway() {
    let mut net = Net::new();
    let g = net.add(1, Some(HALF), 20, 10);
    let j = net.add(2, None, 20, 10);
    net.join(j, g, 100, 10);
    assert!(net.connected(g, j));
    assert!(net.connected(j, g));
    assert!(net.nodes[j].ring.own_location().is_some());
    assert_eq!(net.nodes[j].events, vec![JoinEvent::JoinSuccess { gateway: PeerKey { id: 1 }, new_node: PeerKey { id: 2 } }]);
    assert!(!net.nodes[j].storage.contains(Transaction::new(100)));
    assert!(!net.nodes[g].storage.contains(Transaction::new(100)));
}

#[test]
fn one_hop_forward() {
    let mut net = Net::new();
    let g = net.add(1, Some(HALF), 1, 2);
    let n = net.add(2, Some(POINT_EIGHT), 20, 2);
    let j = net.add(3, None, 20, 2);
    let g_pkl = net.pkl(g);
    let n_pkl = net.pkl(n);
    assert!(net.nodes[g].ring.add_connection(n_pkl));
    assert!(net.nodes[n].ring.add_connection(g_pkl));
    // the joiner is placed at 0.0: half a turn from the gateway, farther
    // than its only neighbour, so the full gateway does not accept it
    net.fixed_location = Some(Location::new(0));
    net.join(j, g, 200, 2);
    assert!(net.connected(j, n));
    assert!(!net.connected(j, g));
    assert_eq!(net.nodes[j].ring.num_connections(), 1);
    assert!(net.connected(n, j));
}

#[test]
fn ten_peer_ring() {
    let mut net = Net::new();
    let g = net.add(1, Some(HALF), 20, 10);
    for k in 0..10u64 {
        let j = net.add(10 + k, None, 20, 10);
        net.join(j, g, 1000 + k as u128, 10);
    }
    for i in 0..net.nodes.len() {
        assert!(net.nodes[i].ring.num_connections() >= 1);
    }
    // every peer reaches every other through connections
    let mut seen = vec![false; net.nodes.len()];
    let mut stack = vec![0usize];
    seen[0] = true;
    while let Some(a) = stack.pop() {
        for p in net.nodes[a].ring.connections() {
            let b = net.index(p.peer);
            if !seen[b] {
                seen[b] = true;
                stack.push(b);
            }
        }
    }
    assert!(seen.iter().all(|s| *s));
}

#[test]
fn timeout_path() {
    let mut ring = Ring::new(20, 10, 7);
    let mut storage = OpStorage::new();
    let tx = Transaction::new(5);
    let me = PeerKey { id: 2 };
    let gateway = PeerKeyLocation { peer: PeerKey { id: 1 }, location: Some(Location::new(HALF)) };
    let silent = PeerKeyLocation { peer: PeerKey { id: 3 }, location: Some(Location::new(100)) };
    let replying = PeerKeyLocation { peer: PeerKey { id: 4 }, location: Some(Location::new(200)) };
    let op = JoinRingOp::initial_request(tx, me, gateway, 10);
    initial_join_request(&mut storage, op, tx).unwrap();
    let answer = JoinRingMsg::Resp {
        id: tx,
        sender: gateway,
        msg: JoinResponse::Initial { accepted_by: vec![silent, replying], your_location: Location::new(300), your_peer_id: me },
    };
    let r = join_ring_op(&mut storage, &mut ring, me, gateway.peer, tx, answer, 1_000, Location::new(0), 0);
    assert_eq!(r.outbound.len(), 2);
    assert_eq!(ring.own_location(), Some(Location::new(300)));
    let r = join_ring_op(&mut storage, &mut ring, me, replying.peer, tx, JoinRingMsg::Connected, 1_500, Location::new(0), 0);
    assert_eq!(r.outbound, vec![Outbound { to: replying.peer, tx, msg: Message::JoinRing(JoinRingMsg::Connected) }]);
    assert!(storage.contains(tx));
    // before the deadline the request to the silent peer is repeated
    let (resent, events) = tick(&mut storage, 1_200);
    assert_eq!(resent.len(), 1);
    assert_eq!(resent[0].to, silent.peer);
    assert!(events.is_empty());
    // after it, that handshake is given up and the join ends
    let (resent, events) = tick(&mut storage, 1_000 + OC_TIMEOUT_MS + 1);
    assert!(resent.is_empty());
    assert_eq!(events, vec![JoinEvent::JoinSuccess { gateway: gateway.peer, new_node: me }]);
    assert!(!storage.contains(tx));
    assert!(ring.connections().iter().all(|p| p.peer != silent.peer));
    assert!(ring.connections().iter().any(|p| p.peer == replying.peer));
}

#[test]
fn join_fails_when_nobody_accepts() {
    let mut ring = Ring::new(20, 10, 7);
    let mut storage = OpStorage::new();
    let tx = Transaction::new(6);
    let me = PeerKey { id: 2 };
    let gateway = PeerKeyLocation { peer: PeerKey { id: 1 }, location: Some(Location::new(HALF)) };
    let op = JoinRingOp::initial_request(tx, me, gateway, 10);
    initial_join_request(&mut storage, op, tx).unwrap();
    let answer = JoinRingMsg::Resp {
        id: tx,
        sender: gateway,
        msg: JoinResponse::Initial { accepted_by: vec![], your_location: Location::new(300), your_peer_id: me },
    };
    let r = join_ring_op(&mut storage, &mut ring, me, gateway.peer, tx, answer, 0, Location::new(0), 0);
    assert!(r.outbound.is_empty());
    assert!(matches!(r.event, Some(JoinEvent::JoinFailed { .. })));
    assert!(!storage.contains(tx));
}

#[test]
fn terminal_operations_are_not_stored() {
    let mut storage = OpStorage::new();
    let tx = Transaction::new(8);
    let mut op = JoinRingOp::new();
    op.state = JRState::Connected;
    assert!(!storage.push(tx, op));
    assert!(!storage.contains(tx));
    assert!(storage.push(tx, JoinRingOp::new()));
    assert!(storage.contains(tx));
    assert!(storage.pop(tx).is_some());
    assert!(storage.pop(tx).is_none());
}

#[test]
fn message_accessors() {
    let tx = Transaction::new(9);
    let s = PeerKeyLocation { peer: PeerKey { id: 1 }, location: None };
    let m = JoinRingMsg::Resp { id: tx, sender: s, msg: JoinResponse::Proxy { accepted_by: vec![] } };
    assert_eq!(m.id(), Some(tx));
    assert_eq!(m.sender(), Some(s));
    assert_eq!(JoinRingMsg::Connected.id(), None);
    assert_eq!(initial_req(tx, s, PeerKey { id: 2 }, 1).sender(), None);
}

#[test]
fn join_fails_when_every_handshake_times_out() {
    let mut ring = Ring::new(20, 10, 7);
    let mut storage = OpStorage::new();
    let tx = Transaction::new(11);
    let me = PeerKey { id: 2 };
    let gateway = PeerKeyLocation { peer: PeerKey { id: 1 }, location: Some(Location::new(HALF)) };
    let op = JoinRingOp::initial_request(tx, me, gateway, 10);
    initial_join_request(&mut storage, op, tx).unwrap();
    let answer = JoinRingMsg::Resp {
        id: tx,
        sender: gateway,
        msg: JoinResponse::Initial { accepted_by: vec![gateway], your_location: Location::new(5), your_peer_id: me },
    };
    let r = join_ring_op(&mut storage, &mut ring, me, gateway.peer, tx, answer, 0, Location::new(0), 0);
    assert_eq!(r.outbound.len(), 1);
    let (_, events) = tick(&mut storage, OC_TIMEOUT_MS);
    assert_eq!(events, vec![JoinEvent::JoinFailed { reason: JoinFailure::Timeout }]);
    assert!(!storage.contains(tx));
    assert!(ring.is_empty());
}

#[test]
fn connected_from_unknown_peer_is_a_protocol_error() {
    let mut ring = Ring::new(20, 10, 7);
    let mut storage = OpStorage::new();
    let tx = Transaction::new(12);
    let me = PeerKey { id: 2 };
    let gateway = PeerKeyLocation { peer: PeerKey { id: 1 }, location: Some(Location::new(HALF)) };
    let op = JoinRingOp::initial_request(tx, me, gateway, 10);
    initial_join_request(&mut storage, op, tx).unwrap();
    let answer = JoinRingMsg::Resp {
        id: tx,
        sender: gateway,
        msg: JoinResponse::Initial { accepted_by: vec![gateway], your_location: Location::new(5), your_peer_id: me },
    };
    join_ring_op(&mut storage, &mut ring, me, gateway.peer, tx, answer, 0, Location::new(0), 0);
    let r = join_ring_op(&mut storage, &mut ring, me, PeerKey { id: 77 }, tx, JoinRingMsg::Connected, 10, Location::new(0), 0);
    assert_eq!(r.error, Some(OpError::IllegalStateTransition));
    assert_eq!(r.outbound, vec![Outbound { to: PeerKey { id: 77 }, tx, msg: Message::Canceled(tx) }]);
    assert!(!storage.contains(tx));
    assert!(ring.is_empty());
}

#[test]
fn requests_are_repeated_at_the_retry_interval() {
    let mut ring = Ring::new(20, 10, 7);
    let mut storage = OpStorage::new();
    let tx = Transaction::new(13);
    let me = PeerKey { id: 2 };
    let gateway = PeerKeyLocation { peer: PeerKey { id: 1 }, location: Some(Location::new(HALF)) };
    let op = JoinRingOp::initial_request(tx, me, gateway, 10);
    initial_join_request(&mut storage, op, tx).unwrap();
    let answer = JoinRingMsg::Resp {
        id: tx,
        sender: gateway,
        msg: JoinResponse::Initial { accepted_by: vec![gateway], your_location: Location::new(5), your_peer_id: me },
    };
    join_ring_op(&mut storage, &mut ring, me, gateway.peer, tx, answer, 0, Location::new(0), 0);
    assert!(tick(&mut storage, 100).0.is_empty());
    assert_eq!(tick(&mut storage, 200).0.len(), 1);
    assert!(tick(&mut storage, 300).0.is_empty());
    assert_eq!(tick(&mut storage, 400).0.len(), 1);
    assert!(storage.contains(tx));
}

#[test]
fn gateways_do_not_join() {
    assert!(!locutus::dispatcher::should_join(true, true));
    assert!(locutus::dispatcher::should_join(false, true));
    assert!(!locutus::dispatcher::should_join(false, false));
}
