//! End-to-end scenarios through the public channel API.
use secure_channel::SecureChannel;
use secure_channel::node::{Envelope, Node};
use secure_channel::worker::{Address, ChannelError, Route, WorkerState};

fn listener_addr() -> Address {
    Address { id: 5 }
}

fn node_with_listener() -> Node {
    let mut node = Node::new();
    SecureChannel::create_listener(&mut node, listener_addr()).unwrap();
    node
}

#[test]
fn handshake_over_listener_succeeds() {
    let mut node = node_with_listener();
    let route = Route { hops: vec![listener_addr()] };
    let info = SecureChannel::create(&mut node, route).unwrap();
    assert_eq!(info.auth_hash().len(), 32);
}

#[test]
fn both_sides_agree_on_auth_hash() {
    let mut node = node_with_listener();
    let route = Route { hops: vec![listener_addr()] };
    let info = SecureChannel::create(&mut node, route).unwrap();
    // Let the responder consume the final handshake message, which may still
    // be in flight when the initiating call returns.
    for _ in 0..3 {
        node.step();
    }
    // The responder worker was spawned by the listener; its transcript
    // authentication value must be bit-identical to the initiator's.
    let responder = node.workers.iter().find(|w| !w.is_initiator).unwrap();
    assert_eq!(responder.auth, info.auth_hash());
    let initiator = node.workers.iter().find(|w| w.is_initiator).unwrap();
    assert_eq!(initiator.auth, info.auth_hash());
}

#[test]
fn channel_addresses_are_distinct() {
    let mut node = node_with_listener();
    let route = Route { hops: vec![listener_addr()] };
    let info = SecureChannel::create(&mut node, route).unwrap();
    let local = info.address();
    assert_ne!(local.id, listener_addr().id);
    let initiator = node.workers.iter().find(|w| w.is_initiator).unwrap();
    assert_ne!(local.id, initiator.addr_remote.id);
    assert_eq!(local.id, initiator.addr_local.id);
    // Every allocated address on the node is distinct from every other.
    let mut ids: Vec<u64> = node.workers.iter().flat_map(|w| {
        vec![w.addr_local.id, w.addr_remote.id]
    }).collect();
    ids.push(listener_addr().id);
    let n = ids.len();
    ids.sort();
    ids.dedup();
    assert_eq!(ids.len(), n);
}

#[test]
fn payload_round_trips_through_channel() {
    let mut node = node_with_listener();
    let route = Route { hops: vec![listener_addr()] };
    let info = SecureChannel::create(&mut node, route).unwrap();
    let payload = vec![1u8, 2, 3, 42, 255, 0, 17];
    node.send_plaintext(info.address(), &payload).unwrap();
    for _ in 0..4 {
        node.step();
    }
    let responder_local = node.workers.iter().find(|w| !w.is_initiator).unwrap().addr_local;
    let got = node.take_delivered(responder_local).unwrap();
    assert_eq!(got, payload);
}

#[test]
fn payload_round_trips_both_directions() {
    let mut node = node_with_listener();
    let route = Route { hops: vec![listener_addr()] };
    let info = SecureChannel::create(&mut node, route).unwrap();
    let responder_local = node.workers.iter().find(|w| !w.is_initiator).unwrap().addr_local;
    let towards = vec![10u8, 20, 30];
    let back = vec![99u8, 98];
    node.send_plaintext(info.address(), &towards).unwrap();
    for _ in 0..4 {
        node.step();
    }
    assert_eq!(node.take_delivered(responder_local).unwrap(), towards);
    node.send_plaintext(responder_local, &back).unwrap();
    for _ in 0..4 {
        node.step();
    }
    assert_eq!(node.take_delivered(info.address()).unwrap(), back);
}

#[test]
fn empty_route_is_routing_error() {
    let mut node = node_with_listener();
    let route = Route { hops: vec![] };
    assert_eq!(
        SecureChannel::create(&mut node, route).unwrap_err(),
        ChannelError::RoutingError
    );
}

#[test]
fn unresolvable_route_is_routing_error() {
    let mut node = node_with_listener();
    let route = Route { hops: vec![Address { id: 777 }] };
    assert_eq!(
        SecureChannel::create(&mut node, route).unwrap_err(),
        ChannelError::RoutingError
    );
}

#[test]
fn duplicate_listener_is_routing_error() {
    let mut node = node_with_listener();
    assert_eq!(
        SecureChannel::create_listener(&mut node, listener_addr()).unwrap_err(),
        ChannelError::RoutingError
    );
}

#[test]
fn unresponsive_responder_times_out() {
    let mut node = node_with_listener();
    // Establish one channel, then target its (established) worker's remote
    // address: it silently drops handshake traffic, so the second creation
    // must time out rather than hang or succeed.
    let route = Route { hops: vec![listener_addr()] };
    let _info = SecureChannel::create(&mut node, route).unwrap();
    let deaf = node.workers.iter().find(|w| w.is_initiator).unwrap().addr_remote;
    let route2 = Route { hops: vec![deaf] };
    assert_eq!(
        SecureChannel::create(&mut node, route2).unwrap_err(),
        ChannelError::HandshakeTimeout
    );
}

#[test]
fn corrupted_first_contact_leaves_listener_usable() {
    let mut node = node_with_listener();
    // A garbage first message spawns a worker that fails its handshake.
    node.queue.push(Envelope {
        dest: listener_addr(),
        reply: Address { id: 900 },
        payload: vec![0xde, 0xad, 0xbe, 0xef],
    });
    node.step();
    assert!(node.workers.iter().any(|w| w.state == WorkerState::Failed));
    // The other sessions complete unaffectedly.
    let i1 = SecureChannel::create(&mut node, Route { hops: vec![listener_addr()] }).unwrap();
    let i2 = SecureChannel::create(&mut node, Route { hops: vec![listener_addr()] }).unwrap();
    let i3 = SecureChannel::create(&mut node, Route { hops: vec![listener_addr()] }).unwrap();
    assert_eq!(i1.auth_hash().len(), 32);
    assert_eq!(i2.auth_hash().len(), 32);
    assert_eq!(i3.auth_hash().len(), 32);
    assert_ne!(i1.address().id, i2.address().id);
    assert_ne!(i2.address().id, i3.address().id);
}

#[test]
fn replayed_frame_is_dropped_and_state_kept() {
    let mut node = node_with_listener();
    let route = Route { hops: vec![listener_addr()] };
    let info = SecureChannel::create(&mut node, route).unwrap();
    let responder_local = node.workers.iter().find(|w| !w.is_initiator).unwrap().addr_local;
    let payload = vec![7u8; 16];
    node.send_plaintext(info.address(), &payload).unwrap();
    // Capture the sealed frame before delivery, then replay it afterwards.
    let last = node.queue.last().unwrap();
    let replay_dest = last.dest;
    let replay_reply = last.reply;
    let replay_payload = last.payload.clone();
    for _ in 0..4 {
        node.step();
    }
    assert_eq!(node.take_delivered(responder_local).unwrap(), payload);
    node.queue.push(Envelope {
        dest: replay_dest,
        reply: replay_reply,
        payload: replay_payload,
    });
    node.step();
    // The stale nonce is rejected: nothing is delivered and the channel
    // stays established and usable.
    assert!(node.take_delivered(responder_local).is_none());
    let responder = node.workers.iter().find(|w| !w.is_initiator).unwrap();
    assert_eq!(responder.state, WorkerState::Established);
    let second = vec![8u8; 4];
    node.send_plaintext(info.address(), &second).unwrap();
    for _ in 0..4 {
        node.step();
    }
    assert_eq!(node.take_delivered(responder_local).unwrap(), second);
}

#[test]
fn closed_worker_rejects_traffic() {
    let mut node = node_with_listener();
    let route = Route { hops: vec![listener_addr()] };
    let info = SecureChannel::create(&mut node, route).unwrap();
    let idx = node.workers.iter().position(|w| w.is_initiator).unwrap();
    let mut w = node.workers.remove(idx);
    w.close(&mut node.vault);
    assert_eq!(w.state, WorkerState::Closed);
    assert_eq!(
        w.handle_local(&node.vault, &vec![1u8]).unwrap_err(),
        ChannelError::ProtocolViolation
    );
    node.workers.insert(idx, w);
    let _keep = info;
}

#[test]
fn exhausted_nonce_space_is_vault_error() {
    let mut node = node_with_listener();
    let route = Route { hops: vec![listener_addr()] };
    let info = SecureChannel::create(&mut node, route).unwrap();
    let idx = node.workers.iter().position(|w| w.is_initiator).unwrap();
    let mut w = node.workers.remove(idx);
    // Drive the outgoing nonce counter to its last value: the next seal
    // must refuse rather than wrap.
    w.send_nonce = 4294967295;
    assert_eq!(
        w.handle_local(&node.vault, &vec![1u8]).unwrap_err(),
        ChannelError::VaultError
    );
    node.workers.insert(idx, w);
    let _keep = info;
}

#[test]
fn sending_to_unknown_address_is_routing_error() {
    let mut node = node_with_listener();
    assert_eq!(
        node.send_plaintext(Address { id: 12345 }, &vec![1u8]).unwrap_err(),
        ChannelError::RoutingError
    );
}
