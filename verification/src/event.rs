//! What the sources of the discovery report, and what the discovery reports in turn.

use vstd::prelude::*;
use crate::address::Multiaddr;
use crate::peer::PeerId;

verus! {

/// Key of a record in the hash table.
#[derive(Debug, PartialEq, Eq, Hash)]
pub struct Key {
    pub bytes: Vec<u8>,
}

impl View for Key {
    type V = Seq<u8>;

    open spec fn view(&self) -> Seq<u8> {
        self.bytes@
    }
}

impl Clone for Key {
    fn clone(&self) -> (copy: Key)
        ensures
            copy@ == self@,
    {
        Key { bytes: self.bytes.clone() }
    }
}

/// A record of the hash table.
#[derive(Debug, PartialEq, Eq)]
pub struct Record {
    pub key: Key,
    pub value: Vec<u8>,
}

impl View for Record {
    type V = (Seq<u8>, Seq<u8>);

    open spec fn view(&self) -> (Seq<u8>, Seq<u8>) {
        (self.key@, self.value@)
    }
}

/// Event generated by the `DiscoveryBehaviour`.
#[derive(Debug, PartialEq, Eq)]
pub enum DiscoveryOut {
    /// A node was discovered. Can come several times with the same identity.
    Discovered(PeerId),
    /// The hash table yielded results for the record that was asked for, as pairs of key and
    /// value.
    ValueFound(Vec<(Key, Vec<u8>)>),
    /// The record that was asked for is not in the hash table.
    ValueNotFound(Key),
    /// The record with the given key was inserted into the hash table.
    ValuePut(Key),
    /// Inserting a value into the hash table failed.
    ValuePutFailed(Key),
}

/// What a `DiscoveryOut` says.
#[verifier::ext_equal]
pub enum DiscoveryOutView {
    Discovered(Seq<u8>),
    ValueFound(Seq<(Seq<u8>, Seq<u8>)>),
    ValueNotFound(Seq<u8>),
    ValuePut(Seq<u8>),
    ValuePutFailed(Seq<u8>),
}

/// The keys and values that pairs of them hold.
pub open spec fn pair_views(pairs: Seq<(Key, Vec<u8>)>) -> Seq<(Seq<u8>, Seq<u8>)> {
    pairs.map_values(|pair: (Key, Vec<u8>)| (pair.0@, pair.1@))
}

/// The keys and values that records hold.
pub open spec fn record_views(records: Seq<Record>) -> Seq<(Seq<u8>, Seq<u8>)> {
    records.map_values(|record: Record| record@)
}

impl View for DiscoveryOut {
    type V = DiscoveryOutView;

    open spec fn view(&self) -> DiscoveryOutView {
        match *self {
            DiscoveryOut::Discovered(peer_id) => DiscoveryOutView::Discovered(peer_id@),
            DiscoveryOut::ValueFound(pairs) => DiscoveryOutView::ValueFound(pair_views(pairs@)),
            DiscoveryOut::ValueNotFound(key) => DiscoveryOutView::ValueNotFound(key@),
            DiscoveryOut::ValuePut(key) => DiscoveryOutView::ValuePut(key@),
            DiscoveryOut::ValuePutFailed(key) => DiscoveryOutView::ValuePutFailed(key@),
        }
    }
}

/// Event of the hash table.
#[derive(Debug, PartialEq, Eq)]
pub enum KademliaOut {
    /// A node was come across that is not in the routing table.
    Discovered {
        /// The node.
        peer_id: PeerId,
    },
    /// A node got into the routing table.
    KBucketAdded {
        /// The node.
        peer_id: PeerId,
        /// The node that had to make room for it.
        replaced: Option<PeerId>,
    },
    /// A node of which no address is known opened a connection. It gets into the routing table once
    /// it reports an address.
    UnroutablePeer {
        /// The node.
        peer_id: PeerId,
    },
    /// A search for nodes came to its end.
    FindNodeResult {
        /// The key that was looked for.
        key: Vec<u8>,
        /// The nodes closest to it.
        closer_peers: Vec<PeerId>,
    },
    /// A search for a record came to its end.
    GetValueResult(GetValueResult),
    /// The publication of a record came to its end.
    PutValueResult(PutValueResult),
    /// A query of a kind that is never started here came to its end.
    OtherResult,
}

/// Result of a search for a record.
#[derive(Debug, PartialEq, Eq)]
pub enum GetValueResult {
    /// Records were found.
    Found {
        /// The records.
        results: Vec<Record>,
    },
    /// No record was found.
    NotFound {
        /// The key that was looked for.
        key: Key,
    },
}

/// The result of a search for a record that came to its end with these records. That there are
/// fewer of them than were asked for does not matter.
pub open spec fn search_outcome(key: Key, results: Vec<Record>) -> GetValueResult {
    if results@.len() > 0 {
        GetValueResult::Found { results }
    } else {
        GetValueResult::NotFound { key }
    }
}

/// Tells what a search for a record has come to, whether it got all the answers that were asked
/// for or gave up before.
pub fn search_result(key: Key, results: Vec<Record>) -> (result: GetValueResult)
    ensures
        result == search_outcome(key, results),
{
    if results.len() > 0 {
        GetValueResult::Found { results }
    } else {
        GetValueResult::NotFound { key }
    }
}

/// Result of the publication of a record.
#[derive(Debug, PartialEq, Eq)]
pub enum PutValueResult {
    /// The record was taken.
    Stored {
        /// The key of the record.
        key: Key,
    },
    /// The record was not taken.
    NotStored {
        /// The key of the record.
        key: Key,
    },
}

/// Event of the search on the local network.
#[derive(Debug, PartialEq, Eq)]
pub enum MdnsEvent {
    /// Nodes and addresses of theirs were found.
    Discovered(Vec<(PeerId, Multiaddr)>),
    /// Addresses of nodes are no longer valid.
    Expired(Vec<(PeerId, Multiaddr)>),
}

/// Whether something is there yet.
#[derive(Debug, PartialEq, Eq)]
pub enum Async<T> {
    /// It is there.
    Ready(T),
    /// Nothing is there yet.
    NotReady,
}

/// When a node is dialed.
#[derive(Debug, Clone, Copy, PartialEq, Eq, Structural)]
pub enum DialPeerCondition {
    /// If there is neither a connection to it nor an attempt to open one.
    Disconnected,
    /// If there is no attempt to open a connection to it.
    NotDialing,
    /// In any case.
    Always,
}

/// What the network is asked to do.
#[derive(Debug, PartialEq, Eq)]
pub enum NetworkBehaviourAction<TInEvent, TOutEvent> {
    /// Report an event.
    GenerateEvent(TOutEvent),
    /// Dial an address.
    DialAddress {
        /// The address.
        address: Multiaddr,
    },
    /// Dial a node.
    DialPeer {
        /// The node.
        peer_id: PeerId,
        /// When to dial it.
        condition: DialPeerCondition,
    },
    /// Tell the handlers of the connections to a node something.
    SendEvent {
        /// The node.
        peer_id: PeerId,
        /// Which handlers to tell, and what.
        event: TInEvent,
    },
    /// Take notice of an address at which another node sees the local one.
    ReportObservedAddr {
        /// The address.
        address: Multiaddr,
    },
}

/// What a `NetworkBehaviourAction` asks for.
#[verifier::ext_equal]
pub enum ActionView<TInEvent, TOutEvent> {
    GenerateEvent(TOutEvent),
    DialAddress(Seq<u8>),
    DialPeer(Seq<u8>, DialPeerCondition),
    SendEvent(Seq<u8>, TInEvent),
    ReportObservedAddr(Seq<u8>),
}

impl<TInEvent> View for NetworkBehaviourAction<TInEvent, DiscoveryOut> {
    type V = ActionView<TInEvent, DiscoveryOutView>;

    open spec fn view(&self) -> ActionView<TInEvent, DiscoveryOutView> {
        match *self {
            NetworkBehaviourAction::GenerateEvent(event) => ActionView::GenerateEvent(event@),
            NetworkBehaviourAction::DialAddress { address } => ActionView::DialAddress(address@),
            NetworkBehaviourAction::DialPeer { peer_id, condition } => ActionView::DialPeer(
                peer_id@,
                condition,
            ),
            NetworkBehaviourAction::SendEvent { peer_id, event } => ActionView::SendEvent(
                peer_id@,
                event,
            ),
            NetworkBehaviourAction::ReportObservedAddr { address } => ActionView::ReportObservedAddr(
                address@,
            ),
        }
    }
}

/// What the search on the local network asks for. It has no connections of its own, so it never
/// has anything to tell a handler.
#[derive(Debug, PartialEq, Eq)]
pub enum MdnsAction {
    /// Take notice of an event.
    GenerateEvent(MdnsEvent),
    /// Dial an address.
    DialAddress {
        /// The address.
        address: Multiaddr,
    },
    /// Dial a node.
    DialPeer {
        /// The node.
        peer_id: PeerId,
        /// When to dial it.
        condition: DialPeerCondition,
    },
    /// Take notice of an address at which another node sees the local one.
    ReportObservedAddr {
        /// The address.
        address: Multiaddr,
    },
}

/// State of the timer for the next random query.
#[derive(Debug, Clone, Copy, PartialEq, Eq, Structural)]
pub enum TimerState {
    /// The time has not come.
    NotReady,
    /// The time has come.
    Fired,
    /// The timer failed.
    Failed,
}

/// What `DiscoveryBehaviour::poll` is told: that a round begins, or what came of the last
/// `PollOutput`.
#[derive(Debug, PartialEq, Eq)]
pub enum PollInput<TInEvent> {
    /// A round begins.
    Begin,
    /// The timer was polled.
    Timer(TimerState),
    /// The hash table was polled.
    Kademlia(Async<NetworkBehaviourAction<TInEvent, KademliaOut>>),
    /// The search on the local network was polled.
    Mdns(Async<MdnsAction>),
}

/// What `DiscoveryBehaviour::poll` asks for.
#[derive(Debug, PartialEq, Eq)]
pub enum PollOutput<TInEvent> {
    /// Poll the timer.
    PollTimer,
    /// Set the timer to a number of seconds from now, then poll it.
    ResetTimer {
        /// The number of seconds.
        seconds: u64,
    },
    /// Poll the hash table.
    PollKademlia,
    /// Warn that a random query yielded nothing although there are connections, then poll the
    /// hash table.
    WarnEmptyResults,
    /// Poll the search on the local network.
    PollMdns,
    /// The round is over, with this outcome.
    Done(Async<NetworkBehaviourAction<TInEvent, DiscoveryOut>>),
}

/// What a `PollOutput` asks for.
#[verifier::ext_equal]
pub enum PollOutputView<TInEvent> {
    PollTimer,
    ResetTimer(nat),
    PollKademlia,
    WarnEmptyResults,
    PollMdns,
    Ready(ActionView<TInEvent, DiscoveryOutView>),
    NotReady,
}

impl<TInEvent> View for PollOutput<TInEvent> {
    type V = PollOutputView<TInEvent>;

    open spec fn view(&self) -> PollOutputView<TInEvent> {
        match *self {
            PollOutput::PollTimer => PollOutputView::PollTimer,
            PollOutput::ResetTimer { seconds } => PollOutputView::ResetTimer(seconds as nat),
            PollOutput::PollKademlia => PollOutputView::PollKademlia,
            PollOutput::WarnEmptyResults => PollOutputView::WarnEmptyResults,
            PollOutput::PollMdns => PollOutputView::PollMdns,
            PollOutput::Done(Async::Ready(action)) => PollOutputView::Ready(action@),
            PollOutput::Done(Async::NotReady) => PollOutputView::NotReady,
        }
    }
}

} // verus!
