use std::collections::HashSet;

use discovery::event::{
    search_result, Async, DialPeerCondition, GetValueResult, KademliaOut, MdnsAction, MdnsEvent,
    NetworkBehaviourAction, PollInput, PollOutput, PutValueResult, Record, TimerState,
};
use discovery::{
    ConnectedPoint, DiscoveryBehaviour, DiscoveryOut, Key, Multiaddr, PeerId, PublicKey,
};
use libp2p::kad::record::store::RecordStore;
use libp2p::kad::QueryInfo;

type Output = PollOutput<u8>;

fn address(text: &str) -> Multiaddr {
    let address: libp2p::Multiaddr = text.parse().unwrap();
    Multiaddr::from_bytes(address.to_vec()).unwrap()
}

fn key(byte: u8) -> Key {
    Key { bytes: vec![byte; 4] }
}

fn public_key() -> PublicKey {
    let key = libp2p::identity::Keypair::generate_ed25519().public();
    PublicKey::from_protobuf_encoding(key.into_protobuf_encoding()).unwrap()
}

fn behaviour(user_defined: Vec<(PeerId, Multiaddr)>, enable_mdns: bool) -> DiscoveryBehaviour {
    DiscoveryBehaviour::new(public_key(), user_defined, enable_mdns)
}

fn event(event: DiscoveryOut) -> Output {
    PollOutput::Done(Async::Ready(NetworkBehaviourAction::GenerateEvent(event)))
}

fn kademlia(event: KademliaOut) -> PollInput<u8> {
    PollInput::Kademlia(Async::Ready(NetworkBehaviourAction::GenerateEvent(event)))
}

fn found_locally(list: Vec<(PeerId, Multiaddr)>) -> PollInput<u8> {
    PollInput::Mdns(Async::Ready(MdnsAction::GenerateEvent(MdnsEvent::Discovered(list))))
}

fn dialed(text: &str) -> ConnectedPoint {
    ConnectedPoint::Dialer { address: address(text) }
}

fn lookups(discovery: &mut DiscoveryBehaviour) -> Vec<Vec<u8>> {
    let mut keys = Vec::new();
    for query in discovery.kademlia_mut().iter_queries() {
        match query.info() {
            QueryInfo::GetClosestPeers { key } => keys.push(key.clone()),
            _ => {}
        }
    }
    keys
}

#[test]
fn peer_id_takes_identities_only() {
    let outside = libp2p::PeerId::random();
    let bytes = outside.as_bytes().to_vec();
    let peer_id = PeerId::from_bytes(bytes.clone()).unwrap();
    assert_eq!(peer_id.as_bytes(), &bytes);
    assert!(peer_id.same_as(&peer_id.clone()));
    assert!(!peer_id.same_as(&PeerId::random()));

    assert_eq!(PeerId::from_bytes(vec![1, 2, 3]), Err(vec![1, 2, 3]));
    assert_eq!(PeerId::from_bytes(Vec::new()), Err(Vec::new()));
    // An inlined key may not be longer than forty-two bytes.
    let mut long = vec![0, 43];
    long.extend(vec![7; 43]);
    assert_eq!(PeerId::from_bytes(long.clone()), Err(long));
}

#[test]
fn identities_are_multihashes_with_one_of_two_codes() {
    let is_peer_id = |bytes: Vec<u8>| PeerId::from_bytes(bytes).is_ok();
    // A code, a length and a digest of that length.
    assert!(is_peer_id(vec![0x12, 3, 1, 2, 3]));
    assert!(is_peer_id(vec![0x00, 0]));
    assert!(!is_peer_id(vec![0x12, 3, 1, 2]));
    assert!(!is_peer_id(vec![0x12, 3, 1, 2, 3, 4]));
    assert!(!is_peer_id(vec![0x12]));
    // Another hash.
    assert!(!is_peer_id(vec![0x13, 3, 1, 2, 3]));
    // Only inlined keys are limited in length.
    let with_digest = |code: u8, len: u8| {
        let mut bytes = vec![code, len];
        bytes.extend(vec![5; len as usize]);
        bytes
    };
    assert!(is_peer_id(with_digest(0x00, 42)));
    assert!(!is_peer_id(with_digest(0x00, 43)));
    assert!(is_peer_id(with_digest(0x12, 43)));
    // A length of two bytes.
    let mut long = vec![0x12, 0x80 | 72, 1];
    long.extend(vec![5; 200]);
    assert!(is_peer_id(long));
    // Numbers that are longer than they have to be, up to ten bytes.
    assert!(is_peer_id(vec![0x92, 0x00, 0x81, 0x00, 7]));
    let padded = |last: u8, middle: usize| {
        let mut bytes = vec![0x92];
        bytes.extend(vec![0x80; middle]);
        bytes.extend(vec![last, 1, 7]);
        bytes
    };
    assert!(is_peer_id(padded(0x00, 8)));
    assert!(!is_peer_id(padded(0x00, 9)));
    // What goes beyond 64 bits is cut off.
    assert!(is_peer_id(padded(0x02, 8)));
    assert!(!is_peer_id(padded(0x01, 8)));
}

#[test]
fn random_identities_are_thirty_two_inlined_bytes() {
    let a = PeerId::random();
    let b = PeerId::random();
    assert_eq!(a.as_bytes().len(), 34);
    assert_eq!(&a.as_bytes()[..2], &[0x00, 0x20]);
    assert!(libp2p::PeerId::from_bytes(a.as_bytes().clone()).is_ok());
    assert!(!a.same_as(&b));
}

#[test]
fn public_key_gives_the_identity() {
    let outside = libp2p::identity::Keypair::generate_ed25519().public();
    let encoded = outside.clone().into_protobuf_encoding();
    let key = PublicKey::from_protobuf_encoding(encoded.clone()).unwrap();
    let peer_id = key.into_peer_id();
    assert_eq!(peer_id.as_bytes(), &outside.into_peer_id().into_bytes());
    // The identity of a short key is the key itself.
    assert_eq!(&peer_id.as_bytes()[2..], &encoded[..]);

    assert_eq!(PublicKey::from_protobuf_encoding(vec![0xff; 3]), Err(vec![0xff; 3]));
}

#[test]
fn multiaddr_takes_addresses_only() {
    let a = address("/ip4/127.0.0.1/tcp/80");
    assert_eq!(a.as_bytes(), &vec![4, 127, 0, 0, 1, 6, 0, 80]);
    assert!(a.same_as(&a.clone()));
    assert!(!a.same_as(&address("/ip4/127.0.0.1/tcp/81")));
    assert_eq!(Multiaddr::from_bytes(vec![4, 127, 0]), Err(vec![4, 127, 0]));
}

#[test]
fn external_address_is_announced_with_the_local_identity() {
    let outside = libp2p::identity::Keypair::generate_ed25519().public();
    let key = PublicKey::from_protobuf_encoding(outside.clone().into_protobuf_encoding()).unwrap();
    let discovery = DiscoveryBehaviour::new(key, Vec::new(), false);
    let announced = discovery.inject_new_external_addr(&address("/ip4/127.0.0.1/tcp/80"));

    let local = outside.into_peer_id();
    let mut expected = vec![4, 127, 0, 0, 1, 6, 0, 80, 0xa5, 0x03];
    expected.push(local.as_bytes().len() as u8);
    expected.extend(local.as_bytes());
    assert_eq!(announced.as_bytes(), &expected);

    let text = format!("/ip4/127.0.0.1/tcp/80/p2p/{}", local);
    assert_eq!(announced, address(&text));
}

#[test]
fn address_with_an_identity_of_many_bytes() {
    let mut bytes = vec![0, 42];
    bytes.extend(vec![9; 42]);
    let peer_id = PeerId::from_bytes(bytes.clone()).unwrap();
    let full = address("/memory/1").with_peer_id(&peer_id);
    let mut expected = address("/memory/1").as_bytes().clone();
    expected.extend(vec![0xa5, 0x03, 44]);
    expected.extend(bytes);
    assert_eq!(full.as_bytes(), &expected);
}

#[test]
fn remote_address_of_a_connection() {
    let listener = ConnectedPoint::Listener {
        local_addr: address("/memory/1"),
        send_back_addr: address("/memory/2"),
    };
    assert_eq!(listener.get_remote_address(), &address("/memory/2"));
    assert_eq!(dialed("/memory/3").get_remote_address(), &address("/memory/3"));
}

#[test]
fn bootstrap_nodes_are_in_the_routing_table() {
    let local = libp2p::identity::Keypair::generate_ed25519().public();
    let local_peer = PeerId::from_bytes(local.clone().into_peer_id().into_bytes()).unwrap();
    let (a, b) = (PeerId::random(), PeerId::random());
    let mut discovery = DiscoveryBehaviour::new(
        PublicKey::from_protobuf_encoding(local.into_protobuf_encoding()).unwrap(),
        vec![
            (a.clone(), address("/memory/1")),
            (b.clone(), address("/memory/2")),
            (a.clone(), address("/memory/3")),
            (local_peer.clone(), address("/memory/4")),
        ],
        false,
    );
    let known: HashSet<PeerId> = discovery.known_peers().into_iter().collect();
    assert_eq!(known, vec![a.clone(), b.clone()].into_iter().collect());
    assert!(discovery.is_in_kbuckets(&a));
    assert!(!discovery.is_in_kbuckets(&local_peer));
    assert!(!discovery.is_in_kbuckets(&PeerId::random()));

    // First those that are known for good, then those of the hash table.
    assert_eq!(
        discovery.addresses_of_peer(&a, Vec::new()),
        vec![
            address("/memory/1"),
            address("/memory/3"),
            address("/memory/1"),
            address("/memory/3"),
        ]
    );
    assert_eq!(discovery.addresses_of_peer(&local_peer, Vec::new()), vec![address("/memory/4")]);
    // They are not reported.
    assert_eq!(discovery.poll::<u8>(PollInput::Begin), PollOutput::PollTimer);
}

#[test]
fn many_bootstrap_nodes_are_routed_unless_their_bucket_is_full() {
    let local = libp2p::identity::Keypair::generate_ed25519().public();
    let local_key = libp2p::kad::kbucket::Key::new(local.clone().into_peer_id());
    let bucket_of = |peer_id: &PeerId| {
        let peer_id = libp2p::PeerId::from_bytes(peer_id.as_bytes().clone()).unwrap();
        local_key.distance(&libp2p::kad::kbucket::Key::new(peer_id)).ilog2().unwrap()
    };
    let mut entries = Vec::new();
    let mut expected: HashSet<PeerId> = HashSet::new();
    for _ in 0..100 {
        let peer_id = PeerId::random();
        entries.push((peer_id.clone(), address("/memory/1")));
        if expected.iter().filter(|p| bucket_of(p) == bucket_of(&peer_id)).count() < 20 {
            expected.insert(peer_id);
        }
    }
    // A further address of the first node, at the end of the list.
    let first = entries[0].0.clone();
    entries.push((first.clone(), address("/memory/2")));
    let mut discovery = DiscoveryBehaviour::new(
        PublicKey::from_protobuf_encoding(local.into_protobuf_encoding()).unwrap(),
        entries,
        false,
    );
    assert!(expected.len() > 20);
    let known: HashSet<PeerId> = discovery.known_peers().into_iter().collect();
    assert_eq!(known, expected);
    assert_eq!(
        discovery.addresses_of_peer(&first, Vec::new())[2..],
        [address("/memory/1"), address("/memory/2")]
    );
}

#[test]
fn a_full_bucket_refuses_nodes() {
    let local = libp2p::identity::Keypair::generate_ed25519().public();
    let local_key = libp2p::kad::kbucket::Key::new(local.clone().into_peer_id());
    let bucket_of = |peer_id: &PeerId| {
        let peer_id = libp2p::PeerId::from_bytes(peer_id.as_bytes().clone()).unwrap();
        local_key.distance(&libp2p::kad::kbucket::Key::new(peer_id)).ilog2().unwrap()
    };
    let mut discovery = DiscoveryBehaviour::new(
        PublicKey::from_protobuf_encoding(local.into_protobuf_encoding()).unwrap(),
        Vec::new(),
        false,
    );

    // The first twenty nodes of each bucket get in.
    let mut expected: HashSet<PeerId> = HashSet::new();
    for _ in 0..200 {
        let peer_id = PeerId::random();
        discovery.add_self_reported_address(&peer_id, address("/memory/1"));
        if expected.iter().filter(|p| bucket_of(p) == bucket_of(&peer_id)).count() < 20 {
            expected.insert(peer_id);
        }
    }
    let peers = discovery.known_peers();
    let known: HashSet<PeerId> = peers.iter().cloned().collect();
    assert_eq!(known.len(), peers.len());
    assert_eq!(known, expected);

    // A connected node waits for the place of one that is not connected.
    let mut waiting = PeerId::random();
    while expected.iter().filter(|p| bucket_of(p) == bucket_of(&waiting)).count() < 20 {
        waiting = PeerId::random();
    }
    discovery.inject_connection_established(&waiting, &dialed("/memory/2"));
    discovery.inject_connected(&waiting);
    assert!(!discovery.is_in_kbuckets(&waiting));
    assert_eq!(discovery.addresses_of_peer(&waiting, Vec::new()), Vec::new());
    assert_eq!(discovery.known_peers().len(), peers.len());
}

#[test]
fn known_address_is_added_once() {
    let (a, b) = (PeerId::random(), PeerId::random());
    let mut discovery = behaviour(vec![(a.clone(), address("/memory/1"))], false);

    // Known from the start.
    discovery.add_known_address(a.clone(), address("/memory/1"));
    assert_eq!(discovery.poll::<u8>(PollInput::Begin), PollOutput::PollTimer);

    // Another address of the same node, and the same address of another node.
    discovery.add_known_address(a.clone(), address("/memory/2"));
    discovery.add_known_address(b.clone(), address("/memory/1"));
    discovery.add_known_address(a.clone(), address("/memory/2"));
    assert_eq!(discovery.poll(PollInput::Begin), event(DiscoveryOut::Discovered(a.clone())));
    assert_eq!(discovery.poll(PollInput::Begin), event(DiscoveryOut::Discovered(b.clone())));
    assert_eq!(discovery.poll::<u8>(PollInput::Begin), PollOutput::PollTimer);

    // The hash table has the first address too.
    assert_eq!(
        discovery.addresses_of_peer(&a, Vec::new()),
        vec![address("/memory/1"), address("/memory/2"), address("/memory/1")]
    );
    assert_eq!(discovery.addresses_of_peer(&b, Vec::new()), vec![address("/memory/1")]);
    assert!(!discovery.is_in_kbuckets(&b));
}

#[test]
fn known_address_is_of_one_node() {
    let (a, b) = (PeerId::random(), PeerId::random());
    let mut discovery = behaviour(vec![(a.clone(), address("/memory/1"))], false);
    discovery.add_self_reported_address(&a, address("/memory/2"));
    let first = discovery.addresses_of_peer(&a, vec![address("/memory/3")]);
    discovery.add_known_address(b.clone(), address("/memory/1"));
    discovery.add_known_address(b.clone(), address("/memory/4"));
    assert_eq!(discovery.addresses_of_peer(&a, vec![address("/memory/3")]), first);
    assert_eq!(
        discovery.addresses_of_peer(&b, Vec::new()),
        vec![address("/memory/1"), address("/memory/4")]
    );
}

#[test]
fn queues_are_reported_in_order_whatever_comes_in_between() {
    let (a, b, c) = (PeerId::random(), PeerId::random(), PeerId::random());
    let mut discovery = behaviour(Vec::new(), true);
    discovery.add_known_address(a.clone(), address("/memory/1"));
    discovery.put_value(key(1), vec![0; 66560]);
    discovery.add_known_address(b.clone(), address("/memory/2"));
    discovery.inject_connected(&c);
    assert_eq!(discovery.poll(PollInput::Begin), event(DiscoveryOut::Discovered(a.clone())));
    discovery.put_value(key(2), vec![0; 66560]);
    discovery.add_known_address(a.clone(), address("/memory/3"));
    discovery.get_value(&key(3));
    let input = found_locally(vec![(c.clone(), address("/memory/4"))]);
    assert_eq!(discovery.poll(input), event(DiscoveryOut::Discovered(b)));
    assert_eq!(
        discovery.poll(PollInput::Timer(TimerState::NotReady)),
        event(DiscoveryOut::ValuePutFailed(key(1)))
    );
    assert_eq!(discovery.poll(PollInput::Begin), event(DiscoveryOut::Discovered(a)));
    discovery.poll::<u8>(PollInput::Timer(TimerState::Fired));
    discovery.inject_disconnected(&c);
    assert_eq!(
        discovery.poll(PollInput::Timer(TimerState::NotReady)),
        event(DiscoveryOut::ValuePutFailed(key(2)))
    );
    assert_eq!(discovery.poll(PollInput::Begin), event(DiscoveryOut::Discovered(c)));
    assert_eq!(discovery.poll::<u8>(PollInput::Begin), PollOutput::PollTimer);
}

#[test]
fn calls_add_up() {
    let (a, b) = (PeerId::random(), PeerId::random());
    let mut discovery = behaviour(vec![(a.clone(), address("/memory/1"))], false);
    discovery.inject_connection_established(&a, &dialed("/memory/2"));
    discovery.inject_connected(&a);
    discovery.add_known_address(b.clone(), address("/memory/3"));
    discovery.inject_connection_established(&b, &dialed("/memory/3"));
    discovery.inject_connected(&b);
    discovery.get_value(&key(1));
    discovery.inject_replaced(&a, &dialed("/memory/2"), &dialed("/memory/4"));
    discovery.poll::<u8>(PollInput::Timer(TimerState::Fired));
    discovery.inject_disconnected(&a);
    discovery.put_value(key(1), vec![1]);
    assert_eq!(discovery.num_connections(), 1);
    assert_eq!(discovery.addresses_of_peer(&a, Vec::new())[0], address("/memory/1"));
    assert_eq!(discovery.addresses_of_peer(&b, Vec::new())[0], address("/memory/3"));
}

#[test]
fn addresses_come_in_order() {
    let (a, b) = (PeerId::random(), PeerId::random());
    let mut discovery = behaviour(Vec::new(), true);
    discovery.add_self_reported_address(&a, address("/memory/2"));
    discovery.add_self_reported_address(&a, address("/memory/3"));
    discovery.add_self_reported_address(&a, address("/memory/2"));
    discovery.add_self_reported_address(&b, address("/memory/9"));
    discovery.add_known_address(a.clone(), address("/memory/1"));
    assert_eq!(
        discovery.addresses_of_peer(&a, vec![address("/memory/4"), address("/memory/5")]),
        vec![
            address("/memory/1"),
            address("/memory/2"),
            address("/memory/3"),
            address("/memory/4"),
            address("/memory/5"),
        ]
    );
    assert_eq!(discovery.addresses_of_peer(&PeerId::random(), Vec::new()), Vec::new());
}

#[test]
fn random_queries_become_rarer() {
    let mut discovery = behaviour(Vec::new(), false);
    for seconds in vec![1, 2, 4, 8, 16, 32, 60, 60, 60] {
        assert_eq!(
            discovery.poll::<u8>(PollInput::Timer(TimerState::Fired)),
            PollOutput::ResetTimer { seconds }
        );
    }
    let keys = lookups(&mut discovery);
    assert_eq!(keys.len(), 9);
    for key in &keys {
        assert_eq!(key.len(), 34);
        assert_eq!(&key[..2], &[0x00, 0x20]);
    }
    let distinct: HashSet<&Vec<u8>> = keys.iter().collect();
    assert_eq!(distinct.len(), 9);
}

#[test]
fn random_query_looks_for_the_identity() {
    let mut discovery = behaviour(Vec::new(), false);
    let random = PeerId::random();
    assert_eq!(discovery.start_random_query(&random), 1);
    assert_eq!(discovery.start_random_query(&random), 2);
    assert_eq!(lookups(&mut discovery), vec![random.as_bytes().clone(), random.as_bytes().clone()]);
}

#[test]
fn timer_that_is_quiet_or_fails_leads_on() {
    let mut discovery = behaviour(Vec::new(), false);
    assert_eq!(
        discovery.poll::<u8>(PollInput::Timer(TimerState::NotReady)),
        PollOutput::PollKademlia
    );
    assert_eq!(
        discovery.poll::<u8>(PollInput::Timer(TimerState::Failed)),
        PollOutput::PollKademlia
    );
    assert!(lookups(&mut discovery).is_empty());
}

#[test]
fn get_value_starts_a_search_for_ten_answers() {
    let mut discovery = behaviour(Vec::new(), false);
    discovery.get_value(&key(7));
    let mut seen = 0;
    for query in discovery.kademlia_mut().iter_queries() {
        match query.info() {
            QueryInfo::GetRecord { key, quorum, .. } => {
                assert_eq!(key.to_vec(), vec![7; 4]);
                assert_eq!(quorum.get(), 10);
                seen += 1;
            }
            _ => panic!("no other query was started"),
        }
    }
    assert_eq!(seen, 1);
}

#[test]
fn put_value_keeps_and_publishes_the_record() {
    let mut discovery = behaviour(Vec::new(), false);
    discovery.put_value(key(7), vec![1, 2, 3]);
    let mut seen = 0;
    for query in discovery.kademlia_mut().iter_queries() {
        match query.info() {
            QueryInfo::PutRecord { record, quorum, .. } => {
                assert_eq!(record.key.to_vec(), vec![7; 4]);
                assert_eq!(record.value, vec![1, 2, 3]);
                assert_eq!(quorum.get(), 1);
                seen += 1;
            }
            _ => panic!("no other query was started"),
        }
    }
    assert_eq!(seen, 1);
    let kept = libp2p::kad::record::Key::new(&vec![7; 4]);
    let record = discovery.kademlia_mut().store_mut().get(&kept).unwrap().into_owned();
    assert_eq!(record.value, vec![1, 2, 3]);
    assert_eq!(
        discovery.poll::<u8>(PollInput::Timer(TimerState::NotReady)),
        PollOutput::PollKademlia
    );
}

#[test]
fn a_record_is_read_back() {
    let mut discovery = behaviour(Vec::new(), false);
    discovery.put_value(key(1), vec![1]);
    discovery.put_value(key(2), vec![2]);
    discovery.put_value(key(1), vec![3, 4]);
    discovery.get_value(&key(1));
    let mut answers = Vec::new();
    for query in discovery.kademlia_mut().iter_queries() {
        match query.info() {
            QueryInfo::GetRecord { records, .. } => {
                for r in records {
                    answers.push((r.record.key.to_vec(), r.record.value.clone()));
                }
            }
            _ => {}
        }
    }
    assert_eq!(answers, vec![(vec![1; 4], vec![3, 4])]);
}

#[test]
fn search_finds_what_there_is() {
    assert_eq!(search_result(key(1), Vec::new()), GetValueResult::NotFound { key: key(1) });
    let one = || vec![Record { key: key(1), value: vec![5] }];
    assert_eq!(search_result(key(1), one()), GetValueResult::Found { results: one() });
    let mut discovery = behaviour(Vec::new(), false);
    let input = kademlia(KademliaOut::GetValueResult(search_result(key(1), one())));
    assert_eq!(
        discovery.poll(input),
        event(DiscoveryOut::ValueFound(vec![(key(1), vec![5])]))
    );
    let input = kademlia(KademliaOut::GetValueResult(search_result(key(1), Vec::new())));
    assert_eq!(discovery.poll(input), event(DiscoveryOut::ValueNotFound(key(1))));
}

#[test]
fn refused_records_are_reported_in_order() {
    let mut discovery = behaviour(Vec::new(), false);
    discovery.put_value(key(1), vec![0; 66560]);
    discovery.put_value(key(2), vec![0; 66559]);
    discovery.put_value(key(3), vec![0; 70000]);
    assert_eq!(discovery.kademlia_mut().iter_queries().count(), 1);
    assert_eq!(discovery.poll::<u8>(PollInput::Begin), PollOutput::PollTimer);
    assert_eq!(
        discovery.poll(PollInput::Timer(TimerState::NotReady)),
        event(DiscoveryOut::ValuePutFailed(key(1)))
    );
    assert_eq!(
        discovery.poll(PollInput::Timer(TimerState::Failed)),
        event(DiscoveryOut::ValuePutFailed(key(3)))
    );
    assert_eq!(
        discovery.poll::<u8>(PollInput::Timer(TimerState::NotReady)),
        PollOutput::PollKademlia
    );
}

#[test]
fn no_more_than_1024_records_are_kept() {
    let mut discovery = behaviour(Vec::new(), false);
    for n in 0..1024u16 {
        discovery.put_value(Key { bytes: n.to_be_bytes().to_vec() }, vec![1]);
    }
    // A record that is already there can still be replaced.
    discovery.put_value(Key { bytes: vec![0, 0] }, vec![2]);
    assert_eq!(
        discovery.poll::<u8>(PollInput::Timer(TimerState::NotReady)),
        PollOutput::PollKademlia
    );
    discovery.put_value(key(9), vec![1]);
    assert_eq!(
        discovery.poll(PollInput::Timer(TimerState::NotReady)),
        event(DiscoveryOut::ValuePutFailed(key(9)))
    );
}

#[test]
fn connections_are_counted() {
    let mut discovery = behaviour(Vec::new(), false);
    let (a, b) = (PeerId::random(), PeerId::random());
    discovery.inject_connection_established(&a, &dialed("/memory/1"));
    discovery.inject_connected(&a);
    discovery.inject_connection_established(
        &b,
        &ConnectedPoint::Listener {
            local_addr: address("/memory/2"),
            send_back_addr: address("/memory/3"),
        },
    );
    discovery.inject_connected(&b);
    assert_eq!(discovery.num_connections(), 2);

    // Only the address of a node that was dialed gets into the routing table.
    assert_eq!(discovery.known_peers(), vec![a.clone()]);
    assert_eq!(discovery.addresses_of_peer(&a, Vec::new()), vec![address("/memory/1")]);
    assert_eq!(discovery.addresses_of_peer(&b, Vec::new()), Vec::new());

    discovery.inject_disconnected(&a);
    discovery.inject_disconnected(&b);
    assert_eq!(discovery.num_connections(), 0);
    assert_eq!(discovery.known_peers(), vec![a]);
}

#[test]
fn connected_nodes_are_filed_as_such() {
    let mut discovery = behaviour(Vec::new(), false);
    for n in 0..200 {
        let peer_id = PeerId::random();
        let at = format!("/memory/{}", n);
        discovery.add_self_reported_address(&peer_id, address(&at));
        discovery.inject_connection_established(&peer_id, &dialed(&at));
        discovery.inject_connected(&peer_id);
        if n % 2 == 0 {
            discovery.inject_disconnected(&peer_id);
        }
        discovery.add_self_reported_address(&peer_id, address("/memory/1000"));
    }
    assert_eq!(discovery.num_connections(), 100);
}

#[test]
fn replaced_connection_replaces_the_address() {
    let mut discovery = behaviour(Vec::new(), false);
    let (a, b) = (PeerId::random(), PeerId::random());
    discovery.add_self_reported_address(&a, address("/memory/1"));
    discovery.add_self_reported_address(&a, address("/memory/2"));
    discovery.add_self_reported_address(&b, address("/memory/1"));
    discovery.inject_replaced(&a, &dialed("/memory/1"), &dialed("/memory/3"));
    discovery.inject_replaced(&a, &dialed("/memory/7"), &dialed("/memory/8"));
    assert_eq!(
        discovery.addresses_of_peer(&a, Vec::new()),
        vec![address("/memory/3"), address("/memory/2")]
    );
    assert_eq!(discovery.addresses_of_peer(&b, Vec::new()), vec![address("/memory/1")]);
    assert_eq!(discovery.num_connections(), 0);
}

#[test]
fn known_addresses_outlast_connections_and_polls() {
    let a = PeerId::random();
    let mut discovery = behaviour(Vec::new(), true);
    discovery.add_known_address(a.clone(), address("/memory/1"));
    discovery.inject_connected(&a);
    discovery.inject_disconnected(&a);
    discovery.poll::<u8>(PollInput::Begin);
    discovery.poll::<u8>(PollInput::Timer(TimerState::Fired));
    discovery.poll::<u8>(PollInput::Mdns(Async::Ready(MdnsAction::GenerateEvent(
        MdnsEvent::Expired(vec![(a.clone(), address("/memory/1"))]),
    ))));
    assert_eq!(discovery.addresses_of_peer(&a, Vec::new()), vec![address("/memory/1")]);
}

#[test]
fn events_of_the_hash_table() {
    let mut discovery = behaviour(Vec::new(), false);
    let (a, b) = (PeerId::random(), PeerId::random());

    let input = kademlia(KademliaOut::Discovered { peer_id: a.clone() });
    assert_eq!(discovery.poll(input), PollOutput::PollKademlia);

    let input = kademlia(KademliaOut::KBucketAdded {
        peer_id: a.clone(),
        replaced: Some(b.clone()),
    });
    assert_eq!(discovery.poll(input), event(DiscoveryOut::Discovered(a.clone())));

    let input = kademlia(KademliaOut::UnroutablePeer { peer_id: b.clone() });
    assert_eq!(discovery.poll(input), event(DiscoveryOut::Discovered(b.clone())));

    let results = vec![
        Record { key: key(1), value: vec![1] },
        Record { key: key(1), value: vec![2, 3] },
    ];
    let input = kademlia(KademliaOut::GetValueResult(GetValueResult::Found { results }));
    assert_eq!(
        discovery.poll(input),
        event(DiscoveryOut::ValueFound(vec![(key(1), vec![1]), (key(1), vec![2, 3])]))
    );

    let input = kademlia(KademliaOut::GetValueResult(GetValueResult::NotFound { key: key(2) }));
    assert_eq!(discovery.poll(input), event(DiscoveryOut::ValueNotFound(key(2))));

    let input = kademlia(KademliaOut::PutValueResult(PutValueResult::Stored { key: key(3) }));
    assert_eq!(discovery.poll(input), event(DiscoveryOut::ValuePut(key(3))));

    let input = kademlia(KademliaOut::PutValueResult(PutValueResult::NotStored { key: key(4) }));
    assert_eq!(discovery.poll(input), event(DiscoveryOut::ValuePutFailed(key(4))));

    assert_eq!(discovery.poll(kademlia(KademliaOut::OtherResult)), PollOutput::PollKademlia);
}

#[test]
fn empty_results_are_worth_a_warning_if_connected() {
    let mut discovery = behaviour(Vec::new(), false);
    let a = PeerId::random();
    let result = |closer_peers| {
        kademlia(KademliaOut::FindNodeResult { key: vec![1], closer_peers })
    };
    assert_eq!(discovery.poll(result(Vec::new())), PollOutput::PollKademlia);
    discovery.inject_connected(&a);
    assert_eq!(discovery.poll(result(Vec::new())), PollOutput::WarnEmptyResults);
    assert_eq!(discovery.poll(result(vec![a.clone()])), PollOutput::PollKademlia);
    discovery.inject_disconnected(&a);
    assert_eq!(discovery.poll(result(Vec::new())), PollOutput::PollKademlia);
}

#[test]
fn actions_of_the_hash_table_are_passed_on() {
    let mut discovery = behaviour(Vec::new(), true);
    let a = PeerId::random();
    assert_eq!(
        discovery.poll::<u8>(PollInput::Kademlia(Async::Ready(
            NetworkBehaviourAction::DialAddress { address: address("/memory/1") }
        ))),
        PollOutput::Done(Async::Ready(NetworkBehaviourAction::DialAddress {
            address: address("/memory/1")
        }))
    );
    assert_eq!(
        discovery.poll::<u8>(PollInput::Kademlia(Async::Ready(NetworkBehaviourAction::DialPeer {
            peer_id: a.clone(),
            condition: DialPeerCondition::NotDialing,
        }))),
        PollOutput::Done(Async::Ready(NetworkBehaviourAction::DialPeer {
            peer_id: a.clone(),
            condition: DialPeerCondition::NotDialing,
        }))
    );
    assert_eq!(
        discovery.poll::<u8>(PollInput::Kademlia(Async::Ready(
            NetworkBehaviourAction::SendEvent { peer_id: a.clone(), event: 5 }
        ))),
        PollOutput::Done(Async::Ready(NetworkBehaviourAction::SendEvent {
            peer_id: a.clone(),
            event: 5
        }))
    );
    assert_eq!(
        discovery.poll::<u8>(PollInput::Kademlia(Async::Ready(
            NetworkBehaviourAction::ReportObservedAddr { address: address("/memory/2") }
        ))),
        PollOutput::Done(Async::Ready(NetworkBehaviourAction::ReportObservedAddr {
            address: address("/memory/2")
        }))
    );
}

#[test]
fn actions_of_the_local_network_are_passed_on() {
    let mut discovery = behaviour(Vec::new(), true);
    let a = PeerId::random();
    assert_eq!(
        discovery.poll::<u8>(PollInput::Mdns(Async::Ready(MdnsAction::DialAddress {
            address: address("/memory/1")
        }))),
        PollOutput::Done(Async::Ready(NetworkBehaviourAction::DialAddress {
            address: address("/memory/1")
        }))
    );
    assert_eq!(
        discovery.poll::<u8>(PollInput::Mdns(Async::Ready(MdnsAction::DialPeer {
            peer_id: a.clone(),
            condition: DialPeerCondition::Always,
        }))),
        PollOutput::Done(Async::Ready(NetworkBehaviourAction::DialPeer {
            peer_id: a.clone(),
            condition: DialPeerCondition::Always,
        }))
    );
    assert_eq!(
        discovery.poll::<u8>(PollInput::Mdns(Async::Ready(MdnsAction::ReportObservedAddr {
            address: address("/memory/2")
        }))),
        PollOutput::Done(Async::Ready(NetworkBehaviourAction::ReportObservedAddr {
            address: address("/memory/2")
        }))
    );
}

#[test]
fn local_nodes_are_reported_one_after_the_other() {
    let mut discovery = behaviour(Vec::new(), true);
    let (a, b, c) = (PeerId::random(), PeerId::random(), PeerId::random());
    discovery.add_known_address(c.clone(), address("/memory/9"));
    let input = found_locally(vec![
        (a.clone(), address("/memory/1")),
        (a.clone(), address("/memory/2")),
        (b.clone(), address("/memory/3")),
    ]);
    // The node that waits already comes first.
    assert_eq!(discovery.poll(input), event(DiscoveryOut::Discovered(c)));
    assert_eq!(discovery.poll(PollInput::Begin), event(DiscoveryOut::Discovered(a.clone())));
    assert_eq!(discovery.poll(PollInput::Begin), event(DiscoveryOut::Discovered(a)));
    assert_eq!(discovery.poll(PollInput::Begin), event(DiscoveryOut::Discovered(b)));
    assert_eq!(discovery.poll::<u8>(PollInput::Begin), PollOutput::PollTimer);
    assert_eq!(discovery.poll(found_locally(Vec::new())), PollOutput::PollMdns);
}

#[test]
fn a_round_goes_through_the_sources() {
    let mut with_mdns = behaviour(Vec::new(), true);
    let mut without_mdns = behaviour(Vec::new(), false);
    for discovery in vec![&mut with_mdns, &mut without_mdns] {
        assert_eq!(discovery.poll::<u8>(PollInput::Begin), PollOutput::PollTimer);
        assert_eq!(
            discovery.poll::<u8>(PollInput::Timer(TimerState::NotReady)),
            PollOutput::PollKademlia
        );
    }
    assert_eq!(
        with_mdns.poll::<u8>(PollInput::Kademlia(Async::NotReady)),
        PollOutput::PollMdns
    );
    assert_eq!(
        with_mdns.poll::<u8>(PollInput::Mdns(Async::NotReady)),
        PollOutput::Done(Async::NotReady)
    );
    assert_eq!(
        without_mdns.poll::<u8>(PollInput::Kademlia(Async::NotReady)),
        PollOutput::Done(Async::NotReady)
    );
}

#[test]
fn a_round_is_idle_if_nothing_is_there() {
    let mut discovery = behaviour(Vec::new(), true);
    let a = PeerId::random();
    assert_eq!(discovery.poll::<u8>(PollInput::Begin), PollOutput::PollTimer);
    assert_eq!(
        discovery.poll::<u8>(PollInput::Timer(TimerState::Fired)),
        PollOutput::ResetTimer { seconds: 1 }
    );
    assert_eq!(
        discovery.poll::<u8>(PollInput::Timer(TimerState::NotReady)),
        PollOutput::PollKademlia
    );
    let input = kademlia(KademliaOut::Discovered { peer_id: a.clone() });
    assert_eq!(discovery.poll(input), PollOutput::PollKademlia);
    assert_eq!(
        discovery.poll::<u8>(PollInput::Kademlia(Async::NotReady)),
        PollOutput::PollMdns
    );
    assert_eq!(discovery.poll(found_locally(Vec::new())), PollOutput::PollMdns);
    assert_eq!(
        discovery.poll::<u8>(PollInput::Mdns(Async::NotReady)),
        PollOutput::Done(Async::NotReady)
    );
}
