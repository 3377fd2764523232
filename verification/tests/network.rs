use std::collections::HashSet;
use std::task::{Context, Poll};
use std::time::{Duration, Instant};

use discovery::event::{
    search_result, Async, DialPeerCondition, KademliaOut, NetworkBehaviourAction, PollInput,
    PollOutput, PutValueResult, Record, TimerState,
};
use discovery::{DiscoveryBehaviour, DiscoveryOut, Key};
use futures::StreamExt;
use libp2p::identity::Keypair;
use libp2p::kad::handler::{KademliaHandler, KademliaHandlerEvent, KademliaHandlerIn};
use libp2p::kad::{GetRecordError, KademliaEvent, QueryId, QueryResult};
use libp2p::swarm::{NetworkBehaviour, NotifyHandler, PollParameters, Swarm};
use libp2p::{Multiaddr, PeerId, Transport};

type Notification = (NotifyHandler, KademliaHandlerIn<QueryId>);

/// A node whose behaviour is a `DiscoveryBehaviour`, with a timer and without mDNS.
struct Node {
    discovery: DiscoveryBehaviour,
    next_query: Instant,
}

impl Node {
    fn new(key: libp2p::core::PublicKey, user_defined: &[(PeerId, Multiaddr)]) -> Node {
        let key = discovery::PublicKey::from_protobuf_encoding(key.into_protobuf_encoding()).unwrap();
        let entries = user_defined.iter().map(|(p, a)| (peer(p), address(a))).collect();
        Node {
            discovery: DiscoveryBehaviour::new(key, entries, false),
            next_query: Instant::now(),
        }
    }

    fn add_self_reported_address(&mut self, peer_id: &PeerId, addr: Multiaddr) {
        self.discovery.add_self_reported_address(&peer(peer_id), address(&addr));
    }
}

fn peer(peer_id: &PeerId) -> discovery::PeerId {
    discovery::PeerId::from_bytes(peer_id.as_bytes().to_vec()).unwrap()
}

fn outside_peer(peer_id: &discovery::PeerId) -> PeerId {
    PeerId::from_bytes(peer_id.as_bytes().clone()).unwrap()
}

fn address(addr: &Multiaddr) -> discovery::Multiaddr {
    discovery::Multiaddr::from_bytes(addr.to_vec()).unwrap()
}

fn outside_address(addr: &discovery::Multiaddr) -> Multiaddr {
    std::convert::TryFrom::try_from(addr.as_bytes().clone()).unwrap()
}

fn key(key: &libp2p::kad::record::Key) -> Key {
    Key { bytes: key.to_vec() }
}

fn endpoint(endpoint: &libp2p::core::ConnectedPoint) -> discovery::ConnectedPoint {
    match endpoint {
        libp2p::core::ConnectedPoint::Dialer { address: a } => discovery::ConnectedPoint::Dialer {
            address: address(a),
        },
        libp2p::core::ConnectedPoint::Listener { local_addr, send_back_addr } => {
            discovery::ConnectedPoint::Listener {
                local_addr: address(local_addr),
                send_back_addr: address(send_back_addr),
            }
        }
    }
}

fn kademlia_out(event: KademliaEvent) -> KademliaOut {
    match event {
        KademliaEvent::RoutingUpdated { peer: p, old_peer, .. } => KademliaOut::KBucketAdded {
            peer_id: peer(&p),
            replaced: old_peer.map(|p| peer(&p)),
        },
        KademliaEvent::UnroutablePeer { peer: p } => KademliaOut::UnroutablePeer { peer_id: peer(&p) },
        KademliaEvent::RoutablePeer { peer: p, .. }
        | KademliaEvent::PendingRoutablePeer { peer: p, .. } => KademliaOut::Discovered {
            peer_id: peer(&p),
        },
        KademliaEvent::QueryResult { result, .. } => match result {
            QueryResult::GetClosestPeers(Ok(ok)) => KademliaOut::FindNodeResult {
                key: ok.key,
                closer_peers: ok.peers.iter().map(peer).collect(),
            },
            QueryResult::GetRecord(result) => {
                let (searched, found) = match result {
                    Ok(ok) => (ok.records[0].record.key.clone(), ok.records),
                    Err(GetRecordError::NotFound { key, .. }) => (key, Vec::new()),
                    Err(GetRecordError::QuorumFailed { key, records, .. }) => (key, records),
                    Err(GetRecordError::Timeout { key, records, .. }) => (key, records),
                };
                let results = found
                    .into_iter()
                    .map(|r| Record { key: key(&r.record.key), value: r.record.value })
                    .collect();
                KademliaOut::GetValueResult(search_result(key(&searched), results))
            }
            QueryResult::PutRecord(Ok(ok)) => {
                KademliaOut::PutValueResult(PutValueResult::Stored { key: key(&ok.key) })
            }
            QueryResult::PutRecord(Err(e)) => {
                KademliaOut::PutValueResult(PutValueResult::NotStored { key: key(e.key()) })
            }
            _ => KademliaOut::OtherResult,
        },
    }
}

type Outside<O> = libp2p::swarm::NetworkBehaviourAction<KademliaHandlerIn<QueryId>, O>;

fn action(action: Outside<KademliaEvent>) -> NetworkBehaviourAction<Notification, KademliaOut> {
    match action {
        Outside::GenerateEvent(event) => NetworkBehaviourAction::GenerateEvent(kademlia_out(event)),
        Outside::DialAddress { address: a } => NetworkBehaviourAction::DialAddress {
            address: address(&a),
        },
        Outside::DialPeer { peer_id, .. } => NetworkBehaviourAction::DialPeer {
            peer_id: peer(&peer_id),
            condition: DialPeerCondition::Disconnected,
        },
        Outside::NotifyHandler { peer_id, handler, event } => NetworkBehaviourAction::SendEvent {
            peer_id: peer(&peer_id),
            event: (handler, event),
        },
        Outside::ReportObservedAddr { address: a } => NetworkBehaviourAction::ReportObservedAddr {
            address: address(&a),
        },
    }
}

fn outside_action(
    action: NetworkBehaviourAction<Notification, DiscoveryOut>,
) -> Outside<DiscoveryOut> {
    match action {
        NetworkBehaviourAction::GenerateEvent(event) => Outside::GenerateEvent(event),
        NetworkBehaviourAction::DialAddress { address } => Outside::DialAddress {
            address: outside_address(&address),
        },
        NetworkBehaviourAction::DialPeer { peer_id, .. } => Outside::DialPeer {
            peer_id: outside_peer(&peer_id),
            condition: libp2p::swarm::DialPeerCondition::Disconnected,
        },
        NetworkBehaviourAction::SendEvent { peer_id, event } => Outside::NotifyHandler {
            peer_id: outside_peer(&peer_id),
            handler: event.0,
            event: event.1,
        },
        NetworkBehaviourAction::ReportObservedAddr { address } => Outside::ReportObservedAddr {
            address: outside_address(&address),
        },
    }
}

impl NetworkBehaviour for Node {
    type ProtocolsHandler = KademliaHandler<QueryId>;
    type OutEvent = DiscoveryOut;

    fn new_handler(&mut self) -> Self::ProtocolsHandler {
        self.discovery.kademlia_mut().new_handler()
    }

    fn addresses_of_peer(&mut self, peer_id: &PeerId) -> Vec<Multiaddr> {
        let list = self.discovery.addresses_of_peer(&peer(peer_id), Vec::new());
        list.iter().map(outside_address).collect()
    }

    fn inject_connected(&mut self, peer_id: &PeerId) {
        self.discovery.inject_connected(&peer(peer_id));
    }

    fn inject_disconnected(&mut self, peer_id: &PeerId) {
        self.discovery.inject_disconnected(&peer(peer_id));
    }

    fn inject_connection_established(
        &mut self,
        peer_id: &PeerId,
        _: &libp2p::core::connection::ConnectionId,
        opened: &libp2p::core::ConnectedPoint,
    ) {
        self.discovery.inject_connection_established(&peer(peer_id), &endpoint(opened));
    }

    fn inject_event(
        &mut self,
        peer_id: PeerId,
        connection: libp2p::core::connection::ConnectionId,
        event: KademliaHandlerEvent<QueryId>,
    ) {
        self.discovery.kademlia_mut().inject_event(peer_id, connection, event);
    }

    fn poll(
        &mut self,
        cx: &mut Context<'_>,
        params: &mut impl PollParameters,
    ) -> Poll<Outside<DiscoveryOut>> {
        let mut input = PollInput::Begin;
        loop {
            input = match self.discovery.poll(input) {
                PollOutput::PollTimer => PollInput::Timer(self.timer()),
                PollOutput::ResetTimer { seconds } => {
                    self.next_query = Instant::now() + Duration::from_secs(seconds);
                    PollInput::Timer(self.timer())
                }
                PollOutput::PollKademlia | PollOutput::WarnEmptyResults => {
                    PollInput::Kademlia(match self.discovery.kademlia_mut().poll(cx, params) {
                        Poll::Ready(ready) => Async::Ready(action(ready)),
                        Poll::Pending => Async::NotReady,
                    })
                }
                PollOutput::PollMdns => panic!("mDNS is off"),
                PollOutput::Done(Async::Ready(ready)) => return Poll::Ready(outside_action(ready)),
                PollOutput::Done(Async::NotReady) => return Poll::Pending,
            };
        }
    }
}

impl Node {
    fn timer(&self) -> TimerState {
        if Instant::now() >= self.next_query {
            TimerState::Fired
        } else {
            TimerState::NotReady
        }
    }
}

#[test]
fn discovery_working() {
    let mut user_defined = Vec::new();

    // Build swarms whose behaviour is `DiscoveryBehaviour`.
    let mut swarms = (0..25)
        .map(|_| {
            let keypair = Keypair::generate_ed25519();

            let transport = libp2p::core::transport::MemoryTransport::default()
                .upgrade(libp2p::core::upgrade::Version::V1)
                .authenticate(libp2p::plaintext::PlainText2Config {
                    local_public_key: keypair.public(),
                })
                .multiplex(libp2p::yamux::Config::default())
                .map(|(peer_id, muxer), _| (peer_id, libp2p::core::muxing::StreamMuxerBox::new(muxer)));

            let behaviour = Node::new(keypair.public(), &user_defined);
            let mut swarm = Swarm::new(transport, behaviour, keypair.public().into_peer_id());
            let listen_addr: Multiaddr =
                format!("/memory/{}", rand::random::<u64>()).parse().unwrap();

            if user_defined.is_empty() {
                user_defined.push((keypair.public().into_peer_id(), listen_addr.clone()));
            }

            Swarm::listen_on(&mut swarm, listen_addr.clone()).unwrap();
            (swarm, listen_addr)
        })
        .collect::<Vec<_>>();

    // Build a `Vec<HashSet<PeerId>>` with the list of nodes remaining to be discovered.
    let mut to_discover = (0..swarms.len())
        .map(|n| {
            (0..swarms.len())
                .filter(|p| *p != n)
                .map(|p| Swarm::local_peer_id(&swarms[p].0).clone())
                .collect::<HashSet<_>>()
        })
        .collect::<Vec<_>>();

    let fut = futures::future::poll_fn(move |cx| {
        loop {
            let mut keep_polling = false;

            for swarm_n in 0..swarms.len() {
                if let Poll::Ready(Some(DiscoveryOut::Discovered(other))) =
                    swarms[swarm_n].0.poll_next_unpin(cx)
                {
                    let other = outside_peer(&other);
                    if to_discover[swarm_n].remove(&other) {
                        keep_polling = true;
                        // Call `add_self_reported_address` to simulate identify happening.
                        let addr = swarms
                            .iter()
                            .find(|s| *Swarm::local_peer_id(&s.0) == other)
                            .unwrap()
                            .1
                            .clone();
                        swarms[swarm_n].0.add_self_reported_address(&other, addr);
                    }
                }
            }

            if !keep_polling {
                break;
            }
        }

        if to_discover.iter().all(|l| l.is_empty()) {
            Poll::Ready(())
        } else {
            // The timers of the nodes do not wake the task.
            cx.waker().wake_by_ref();
            Poll::Pending
        }
    });

    futures::executor::block_on(fut);
}

type MemorySwarm = Swarm<Node>;

fn memory_node(user_defined: &[(PeerId, Multiaddr)]) -> (MemorySwarm, PeerId, Multiaddr) {
    let keypair = Keypair::generate_ed25519();
    let transport = libp2p::core::transport::MemoryTransport::default()
        .upgrade(libp2p::core::upgrade::Version::V1)
        .authenticate(libp2p::plaintext::PlainText2Config { local_public_key: keypair.public() })
        .multiplex(libp2p::yamux::Config::default())
        .map(|(peer_id, muxer), _| (peer_id, libp2p::core::muxing::StreamMuxerBox::new(muxer)));
    let peer_id = keypair.public().into_peer_id();
    let behaviour = Node::new(keypair.public(), user_defined);
    let mut swarm = Swarm::new(transport, behaviour, peer_id.clone());
    let listen_addr: Multiaddr = format!("/memory/{}", rand::random::<u64>()).parse().unwrap();
    Swarm::listen_on(&mut swarm, listen_addr.clone()).unwrap();
    (swarm, peer_id, listen_addr)
}

#[test]
fn what_one_node_puts_another_fetches() {
    let (mut holder, holder_id, holder_addr) = memory_node(&[]);
    let (mut helper, helper_id, helper_addr) = memory_node(&[(holder_id.clone(), holder_addr.clone())]);
    let (mut fetcher, _, _) = memory_node(&[(holder_id, holder_addr)]);
    holder.add_self_reported_address(&helper_id, helper_addr);
    let wanted = Key { bytes: vec![1, 2, 3] };
    let missing = Key { bytes: vec![4, 5, 6] };
    holder.discovery.put_value(wanted.clone(), vec![7, 8, 9]);
    let mut put = false;
    let mut found = Vec::new();
    let mut not_found = false;

    let fut = futures::future::poll_fn(move |cx| {
        if let Poll::Ready(Some(DiscoveryOut::ValuePut(key))) = holder.poll_next_unpin(cx) {
            assert_eq!(key, wanted);
            put = true;
            fetcher.discovery.get_value(&wanted);
            fetcher.discovery.get_value(&missing);
        }
        let _ = helper.poll_next_unpin(cx);
        // The node that fetches the record joins once the record is there.
        if put {
            if let Poll::Ready(Some(event)) = fetcher.poll_next_unpin(cx) {
                match event {
                    DiscoveryOut::ValueFound(pairs) => found = pairs,
                    DiscoveryOut::ValueNotFound(key) => {
                        assert_eq!(key, missing);
                        not_found = true;
                    }
                    _ => {}
                }
            }
        }
        if !found.is_empty() && not_found {
            // There are fewer than ten nodes that could answer.
            assert!(found.len() < 10);
            assert!(found.iter().all(|(k, v)| *k == wanted && *v == vec![7, 8, 9]));
            return Poll::Ready(());
        }
        // The timers of the nodes do not wake the task.
        cx.waker().wake_by_ref();
        Poll::Pending
    });

    futures::executor::block_on(fut);
}
