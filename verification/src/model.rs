//! What the discovery is, and what it does, in terms of sequences and numbers.

use vstd::prelude::*;
use crate::address::Multiaddr;
use crate::event::{
    record_views, ActionView, Async, DiscoveryOutView, GetValueResult, KademliaOut, MdnsAction,
    MdnsEvent, NetworkBehaviourAction, PollInput, PollOutputView, PutValueResult, TimerState,
};
use crate::kademlia::{
    address_added, connection_lost, dht_addresses, put_started, takes_record, Dht,
};
use crate::peer::PeerId;

verus! {

/// The state of the discovery.
#[verifier::ext_equal]
pub struct DiscoveryView {
    /// The nodes and addresses that never expire.
    pub user_defined: Seq<(Seq<u8>, Seq<u8>)>,
    /// The hash table.
    pub dht: Dht,
    /// Whether the local network is searched.
    pub mdns: bool,
    /// Seconds between the next random query and the one after it.
    pub duration_to_next_kad: nat,
    /// Discovered nodes that are yet to be reported.
    pub discoveries: Seq<Seq<u8>>,
    /// Keys of records that the local node refused, which is yet to be reported.
    pub failed_puts: Seq<Seq<u8>>,
    /// Identity of the local node.
    pub local_peer_id: Seq<u8>,
    /// Number of nodes that the local node is connected to.
    pub num_connections: nat,
}

/// The longest time between two random queries, in seconds.
pub const MAX_INTERVAL: u64 = 60;

/// The time that follows another between two random queries: twice as long, up to the longest.
pub open spec fn next_interval(seconds: nat) -> nat {
    if 2 * seconds < MAX_INTERVAL {
        2 * seconds
    } else {
        MAX_INTERVAL as nat
    }
}

/// The time between two random queries after a number of them.
pub open spec fn interval_after(queries: nat) -> nat
    decreases queries,
{
    if queries == 0 {
        1
    } else {
        next_interval(interval_after((queries - 1) as nat))
    }
}

impl DiscoveryView {
    /// The time between two random queries is always one that a number of queries leads to.
    pub open spec fn well_formed(self) -> bool {
        exists|queries: nat| self.duration_to_next_kad == #[trigger] interval_after(queries)
    }

    /// The state in which an address of a node is known for good. Where it was not, the node
    /// counts as discovered.
    pub open spec fn with_known_address(self, peer_id: Seq<u8>, address: Seq<u8>) -> DiscoveryView {
        if self.user_defined.contains((peer_id, address)) {
            self
        } else {
            DiscoveryView {
                user_defined: self.user_defined.push((peer_id, address)),
                discoveries: self.discoveries.push(peer_id),
                ..self
            }
        }
    }

    /// The state once a connection to a node was opened.
    pub open spec fn with_connection(self, peer_id: Seq<u8>) -> DiscoveryView {
        DiscoveryView {
            dht: Dht { connected: self.dht.connected.insert(peer_id), ..self.dht },
            num_connections: self.num_connections + 1,
            ..self
        }
    }

    /// Whether `after` is the state once the last connection to a node was closed.
    pub open spec fn connection_closed(self, after: DiscoveryView, peer_id: Seq<u8>) -> bool {
        &&& after == (DiscoveryView {
            dht: after.dht,
            num_connections: (self.num_connections - 1) as nat,
            ..self
        })
        &&& connection_lost(self.dht, after.dht, peer_id)
    }

    /// The addresses of a node that are known for good, in the order in which they came.
    pub open spec fn user_addresses(self, peer_id: Seq<u8>) -> Seq<Seq<u8>> {
        addresses_in(self.user_defined, peer_id)
    }
}

/// The addresses of one node in a list.
pub open spec fn addresses_in(entries: Seq<(Seq<u8>, Seq<u8>)>, peer_id: Seq<u8>) -> Seq<Seq<u8>> {
    entries.filter_map(address_for(peer_id))
}

/// Picks the address out of an entry that is for a node.
pub open spec fn address_for(peer_id: Seq<u8>) -> spec_fn((Seq<u8>, Seq<u8>)) -> Option<Seq<u8>> {
    |entry: (Seq<u8>, Seq<u8>)|
        if entry.0 == peer_id {
            Some(entry.1)
        } else {
            None
        }
}

/// The identities and addresses that a list holds.
pub open spec fn entry_views(entries: Seq<(PeerId, Multiaddr)>) -> Seq<(Seq<u8>, Seq<u8>)> {
    entries.map_values(|entry: (PeerId, Multiaddr)| (entry.0@, entry.1@))
}

/// The identities that a list of identities and addresses holds.
pub open spec fn entry_peers(entries: Seq<(PeerId, Multiaddr)>) -> Seq<Seq<u8>> {
    entries.map_values(|entry: (PeerId, Multiaddr)| entry.0@)
}

/// The byte strings behind identities.
pub open spec fn peer_views(peers: Seq<PeerId>) -> Seq<Seq<u8>> {
    peers.map_values(|peer_id: PeerId| peer_id@)
}

/// The byte strings behind addresses.
pub open spec fn address_views(addresses: Seq<Multiaddr>) -> Seq<Seq<u8>> {
    addresses.map_values(|address: Multiaddr| address@)
}

/// Whether the hash table `after` is `before` once each entry of a list was added to it, one after
/// the other.
pub open spec fn all_added(before: Dht, after: Dht, entries: Seq<(Seq<u8>, Seq<u8>)>) -> bool {
    exists|states: Seq<Dht>| #[trigger] adds_up(states, before, after, entries)
}

/// Whether a sequence of states leads from one state to another by adding the entries of a list.
pub open spec fn adds_up(
    states: Seq<Dht>,
    before: Dht,
    after: Dht,
    entries: Seq<(Seq<u8>, Seq<u8>)>,
) -> bool {
    &&& states.len() == entries.len() + 1
    &&& states.first() == before
    &&& states.last() == after
    &&& forall|i: int|
        #![trigger entries[i]]
        0 <= i < entries.len() ==> address_added(
            states[i],
            states[i + 1],
            entries[i].0,
            entries[i].1,
        )
}

/// The number of answers that a search for a record asks for.
pub const GET_QUORUM: usize = 10;

/// The number of other nodes that have to take a record for its publication to count.
pub const PUT_QUORUM: usize = 1;

/// Whether `after` is `before` once a record was put: published, or queued to be reported as a
/// failure.
pub open spec fn value_put(
    before: DiscoveryView,
    after: DiscoveryView,
    key: Seq<u8>,
    value: Seq<u8>,
) -> bool {
    if takes_record(before.dht, key, value) {
        &&& after == (DiscoveryView { dht: after.dht, ..before })
        &&& put_started(before.dht, after.dht, key, value, PUT_QUORUM as nat)
    } else {
        after == (DiscoveryView { failed_puts: before.failed_puts.push(key), ..before })
    }
}

/// A call of a method, as far as it touches more than the hash table and the time between random
/// queries.
pub enum Call {
    /// `add_known_address`, with the node and the address.
    KnownAddress(Seq<u8>, Seq<u8>),
    /// `put_value`, with the key and the value.
    Put(Seq<u8>, Seq<u8>),
    /// `inject_connected`, with the node.
    Connected(Seq<u8>),
    /// `inject_disconnected`, with the node.
    Disconnected(Seq<u8>),
    /// `poll`.
    Polled {
        /// The nodes that were found on the local network.
        arrived: Seq<Seq<u8>>,
        /// The node that waited to be reported and waits no longer.
        discovered: Option<Seq<u8>>,
        /// The key of the refused record that waited to be reported and waits no longer.
        refused: Option<Seq<u8>>,
        /// The event that was reported.
        event: Option<DiscoveryOutView>,
    },
    /// Any other method.
    Other,
}

/// What a step of a round amounts to.
pub open spec fn poll_call<TInEvent>(state: DiscoveryView, input: PollInput<TInEvent>) -> Call {
    let arrived = match input {
        PollInput::Mdns(Async::Ready(MdnsAction::GenerateEvent(MdnsEvent::Discovered(list)))) => {
            entry_peers(list@)
        },
        _ => Seq::empty(),
    };
    let event = match poll_output(state, input) {
        PollOutputView::Ready(ActionView::GenerateEvent(event)) => Some(event),
        _ => None,
    };
    Call::Polled {
        arrived,
        discovered: match (input, event) {
            (PollInput::Begin, Some(DiscoveryOutView::Discovered(peer_id))) => Some(peer_id),
            (PollInput::Mdns(_), Some(DiscoveryOutView::Discovered(peer_id))) => Some(peer_id),
            _ => None,
        },
        refused: match (input, event) {
            (PollInput::Timer(_), Some(DiscoveryOutView::ValuePutFailed(key))) => Some(key),
            _ => None,
        },
        event,
    }
}

/// Whether `after` is what is left of a queue from which an element was taken, or none.
pub open spec fn taken(queue: Seq<Seq<u8>>, element: Option<Seq<u8>>, after: Seq<Seq<u8>>) -> bool {
    match element {
        Some(first) => queue == seq![first] + after,
        None => queue == after,
    }
}

/// Whether a call may lead from one state to another.
pub open spec fn called(before: DiscoveryView, call: Call, after: DiscoveryView) -> bool {
    &&& before.well_formed() ==> after.well_formed()
    &&& match call {
        Call::KnownAddress(peer_id, address) => after == before.with_known_address(
            peer_id,
            address,
        ),
        Call::Put(key, value) => value_put(before, after, key, value),
        Call::Connected(peer_id) => after == before.with_connection(peer_id),
        Call::Disconnected(peer_id) => {
            &&& before.num_connections > 0
            &&& before.connection_closed(after, peer_id)
        },
        Call::Polled { arrived, discovered, refused, event } => {
            &&& after == (DiscoveryView {
                dht: after.dht,
                duration_to_next_kad: after.duration_to_next_kad,
                discoveries: after.discoveries,
                failed_puts: after.failed_puts,
                ..before
            })
            &&& taken(before.discoveries + arrived, discovered, after.discoveries)
            &&& taken(before.failed_puts, refused, after.failed_puts)
            &&& discovered matches Some(peer_id) ==> event == Some(
                DiscoveryOutView::Discovered(peer_id),
            )
            &&& refused matches Some(key) ==> event == Some(DiscoveryOutView::ValuePutFailed(key))
        },
        Call::Other => after == (DiscoveryView {
            dht: after.dht,
            duration_to_next_kad: after.duration_to_next_kad,
            ..before
        }),
    }
}

/// A step of a round takes what it reports from the front of the queues.
pub(crate) proof fn poll_takes_from_the_front<TInEvent>(
    before: DiscoveryView,
    input: PollInput<TInEvent>,
    after: DiscoveryView,
)
    requires
        after == (DiscoveryView { dht: after.dht, ..poll_next(before, input) }),
        before.well_formed() ==> after.well_formed(),
    ensures
        called(before, poll_call(before, input), after),
{
    match poll_call(before, input) {
        Call::Polled { arrived, discovered, refused, .. } => {
            let waiting = before.discoveries + arrived;
            match discovered {
                Some(peer_id) => {
                    assert(waiting =~= seq![peer_id] + after.discoveries);
                },
                None => {
                    assert(waiting =~= after.discoveries);
                },
            }
            match refused {
                Some(key) => {
                    assert(before.failed_puts =~= seq![key] + after.failed_puts);
                },
                None => {},
            }
        },
        _ => {},
    }
}

/// Whether a list holds the addresses of a node: those that are known for good, those that the
/// hash table has and those found on the local network.
pub open spec fn is_address_list(
    state: DiscoveryView,
    peer_id: Seq<u8>,
    local_network: Seq<Seq<u8>>,
    addresses: Seq<Seq<u8>>,
) -> bool {
    exists|from_dht: Seq<Seq<u8>>|
        #![trigger dht_addresses(state.dht, peer_id, from_dht)]
        {
            &&& dht_addresses(state.dht, peer_id, from_dht)
            &&& addresses == state.user_addresses(peer_id) + from_dht + local_network
        }
}

/// The outcome of a round in which an event is reported.
pub open spec fn report<TInEvent>(event: DiscoveryOutView) -> PollOutputView<TInEvent> {
    PollOutputView::Ready(ActionView::GenerateEvent(event))
}

/// What is asked for upon an event of the hash table.
pub open spec fn kademlia_output<TInEvent>(
    state: DiscoveryView,
    event: KademliaOut,
) -> PollOutputView<TInEvent> {
    match event {
        KademliaOut::Discovered { .. } => PollOutputView::PollKademlia,
        KademliaOut::KBucketAdded { peer_id, .. } => report(DiscoveryOutView::Discovered(peer_id@)),
        KademliaOut::UnroutablePeer { peer_id } => report(DiscoveryOutView::Discovered(peer_id@)),
        KademliaOut::FindNodeResult { closer_peers, .. } => {
            if closer_peers@.len() == 0 && state.num_connections != 0 {
                PollOutputView::WarnEmptyResults
            } else {
                PollOutputView::PollKademlia
            }
        },
        KademliaOut::GetValueResult(GetValueResult::Found { results }) => report(
            DiscoveryOutView::ValueFound(record_views(results@)),
        ),
        KademliaOut::GetValueResult(GetValueResult::NotFound { key }) => report(
            DiscoveryOutView::ValueNotFound(key@),
        ),
        KademliaOut::PutValueResult(PutValueResult::Stored { key }) => report(
            DiscoveryOutView::ValuePut(key@),
        ),
        KademliaOut::PutValueResult(PutValueResult::NotStored { key }) => report(
            DiscoveryOutView::ValuePutFailed(key@),
        ),
        KademliaOut::OtherResult => PollOutputView::PollKademlia,
    }
}

/// The state once what `poll` is told has been taken in, but for what a random query does to the
/// hash table.
pub open spec fn poll_next<TInEvent>(
    state: DiscoveryView,
    input: PollInput<TInEvent>,
) -> DiscoveryView {
    match input {
        PollInput::Begin => without_first_discovery(state),
        PollInput::Timer(TimerState::Fired) => DiscoveryView {
            duration_to_next_kad: next_interval(state.duration_to_next_kad),
            ..state
        },
        PollInput::Timer(_) => DiscoveryView {
            failed_puts: without_first(state.failed_puts),
            ..state
        },
        PollInput::Mdns(Async::Ready(MdnsAction::GenerateEvent(MdnsEvent::Discovered(list)))) => {
            without_first_discovery(with_discoveries(state, entry_peers(list@)))
        },
        _ => state,
    }
}

/// The state with nodes to be reported after those that are already waiting.
pub open spec fn with_discoveries(state: DiscoveryView, peers: Seq<Seq<u8>>) -> DiscoveryView {
    DiscoveryView { discoveries: state.discoveries + peers, ..state }
}

/// The state without the node that is to be reported next.
pub open spec fn without_first_discovery(state: DiscoveryView) -> DiscoveryView {
    DiscoveryView { discoveries: without_first(state.discoveries), ..state }
}

/// A sequence without its first element, if it has one.
pub open spec fn without_first(s: Seq<Seq<u8>>) -> Seq<Seq<u8>> {
    if s.len() == 0 {
        s
    } else {
        s.drop_first()
    }
}

/// What `poll` asks for.
pub open spec fn poll_output<TInEvent>(
    state: DiscoveryView,
    input: PollInput<TInEvent>,
) -> PollOutputView<TInEvent> {
    match input {
        PollInput::Begin => {
            if state.discoveries.len() > 0 {
                report(DiscoveryOutView::Discovered(state.discoveries[0]))
            } else {
                PollOutputView::PollTimer
            }
        },
        PollInput::Timer(TimerState::Fired) => PollOutputView::ResetTimer(
            state.duration_to_next_kad,
        ),
        PollInput::Timer(_) => {
            if state.failed_puts.len() > 0 {
                report(DiscoveryOutView::ValuePutFailed(state.failed_puts[0]))
            } else {
                PollOutputView::PollKademlia
            }
        },
        PollInput::Kademlia(Async::NotReady) => {
            if state.mdns {
                PollOutputView::PollMdns
            } else {
                PollOutputView::NotReady
            }
        },
        PollInput::Kademlia(Async::Ready(action)) => match action {
            NetworkBehaviourAction::GenerateEvent(event) => kademlia_output(state, event),
            NetworkBehaviourAction::DialAddress { address } => PollOutputView::Ready(
                ActionView::DialAddress(address@),
            ),
            NetworkBehaviourAction::DialPeer { peer_id, condition } => PollOutputView::Ready(
                ActionView::DialPeer(peer_id@, condition),
            ),
            NetworkBehaviourAction::SendEvent { peer_id, event } => PollOutputView::Ready(
                ActionView::SendEvent(peer_id@, event),
            ),
            NetworkBehaviourAction::ReportObservedAddr { address } => PollOutputView::Ready(
                ActionView::ReportObservedAddr(address@),
            ),
        },
        PollInput::Mdns(Async::NotReady) => PollOutputView::NotReady,
        PollInput::Mdns(Async::Ready(action)) => match action {
            MdnsAction::GenerateEvent(MdnsEvent::Discovered(list)) => {
                let waiting = state.discoveries + entry_peers(list@);
                if waiting.len() > 0 {
                    report(DiscoveryOutView::Discovered(waiting[0]))
                } else {
                    PollOutputView::PollMdns
                }
            },
            MdnsAction::GenerateEvent(MdnsEvent::Expired(_)) => PollOutputView::PollMdns,
            MdnsAction::DialAddress { address } => PollOutputView::Ready(
                ActionView::DialAddress(address@),
            ),
            MdnsAction::DialPeer { peer_id, condition } => PollOutputView::Ready(
                ActionView::DialPeer(peer_id@, condition),
            ),
            MdnsAction::ReportObservedAddr { address } => PollOutputView::Ready(
                ActionView::ReportObservedAddr(address@),
            ),
        },
    }
}

} // verus!
