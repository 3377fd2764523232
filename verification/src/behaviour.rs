//! The discovery of nodes.

use vstd::prelude::*;
use std::collections::VecDeque;
use libp2p::kad::record::store::MemoryStore;
use libp2p::kad::Kademlia;
use crate::address::{is_multiaddr, p2p_component, ConnectedPoint, Multiaddr};
use crate::event::{
    pair_views, record_views, Async, DiscoveryOut, GetValueResult, Key, KademliaOut, MdnsAction,
    MdnsEvent, NetworkBehaviourAction, PollInput, PollOutput, PutValueResult, Record, TimerState,
};
use crate::kademlia;
use crate::kademlia::{
    address_added, address_changed, all_bytes, coherent, connection_opened, dht, dht_key,
    fresh_dht, get_started, lookup_started, routed, settled,
};
use crate::model::{
    address_for, address_views, addresses_in, adds_up, all_added, called, entry_peers, entry_views,
    interval_after, is_address_list, kademlia_output, next_interval, peer_views, poll_call,
    poll_next, poll_output, poll_takes_from_the_front, value_put, Call, DiscoveryView, GET_QUORUM,
    MAX_INTERVAL, PUT_QUORUM,
};
use crate::peer::{is_peer_id, is_random_peer_id, public_key_peer_id, PeerId, PublicKey};

verus! {

/// Discovers the nodes on the network.
pub struct DiscoveryBehaviour {
    /// User-defined list of nodes and their addresses. Typically includes bootstrap nodes and
    /// reserved nodes.
    user_defined: Vec<(PeerId, Multiaddr)>,
    /// Queries to the hash table and their answers.
    kademlia: Kademlia<MemoryStore>,
    /// Whether nodes on the local network are discovered.
    mdns: bool,
    /// After the timer for the next random query fires, the one after it fires after this number
    /// of seconds.
    duration_to_next_kad: u64,
    /// Discovered nodes to return.
    discoveries: VecDeque<PeerId>,
    /// Keys of records that the local node did not take, to be returned as failures.
    failed_puts: VecDeque<Key>,
    /// Identity of the local node.
    local_peer_id: PeerId,
    /// Number of nodes that the local node is currently connected to.
    num_connections: u64,
}

impl View for DiscoveryBehaviour {
    type V = DiscoveryView;

    closed spec fn view(&self) -> DiscoveryView {
        DiscoveryView {
            user_defined: entry_views(self.user_defined@),
            dht: dht(self.kademlia),
            mdns: self.mdns,
            duration_to_next_kad: self.duration_to_next_kad as nat,
            discoveries: peer_views(self.discoveries@),
            failed_puts: self.failed_puts@.map_values(|key: Key| key@),
            local_peer_id: self.local_peer_id@,
            num_connections: self.num_connections as nat,
        }
    }
}

/// Turns records into pairs of key and value.
fn into_pairs(records: Vec<Record>) -> (pairs: Vec<(Key, Vec<u8>)>)
    ensures
        pair_views(pairs@) == record_views(records@),
        pairs@.len() == records@.len(),
        forall|i: int|
            0 <= i < records@.len() ==> (#[trigger] pairs@[i]).0.bytes@ == records@[i].key.bytes@
                && pairs@[i].1@ == records@[i].value@,
{
    let mut pairs: Vec<(Key, Vec<u8>)> = Vec::new();
    let ghost all = records@;
    for record in it: records
        invariant
            it.seq() == all,
            pair_views(pairs@) == record_views(all.take(it.index() as int)),
            pairs@.len() == it.index(),
            forall|i: int|
                0 <= i < pairs@.len() ==> (#[trigger] pairs@[i]).0.bytes@ == all[i].key.bytes@
                    && pairs@[i].1@ == all[i].value@,
    {
        assert(all.take(it.index() + 1) =~= all.take(it.index() as int).push(record));
        let ghost shown = pair_views(pairs@);
        pairs.push((record.key, record.value));
        assert(pair_views(pairs@) =~= shown.push(record@));
        assert(record_views(all.take(it.index() + 1)) =~= record_views(
            all.take(it.index() as int),
        ).push(record@));
    }
    assert(all.take(all.len() as int) =~= all);
    pairs
}

/// Whether a node is in a list.
fn contains_peer(peers: &Vec<PeerId>, peer_id: &PeerId) -> (found: bool)
    ensures
        found == peer_views(peers@).contains(peer_id@),
{
    let mut i: usize = 0;
    while i < peers.len()
        invariant
            i <= peers.len(),
            forall|j: int| 0 <= j < i ==> #[trigger] peers@[j]@ != peer_id@,
        decreases peers.len() - i,
    {
        if peers[i].same_as(peer_id) {
            assert(peer_views(peers@)[i as int] == peer_id@);
            return true;
        }
        i = i + 1;
    }
    false
}

impl DiscoveryBehaviour {
    /// Builds a new `DiscoveryBehaviour`.
    ///
    /// `user_defined` is a list of known addresses for nodes that never expire. `enable_mdns` is
    /// whether the local network is searched.
    pub fn new(
        local_public_key: PublicKey,
        user_defined: Vec<(PeerId, Multiaddr)>,
        enable_mdns: bool,
    ) -> (behaviour: DiscoveryBehaviour)
        ensures
            public_key_peer_id(local_public_key@) == Some(behaviour@.local_peer_id),
            all_added(
                fresh_dht(behaviour@.local_peer_id),
                behaviour@.dht,
                entry_views(user_defined@),
            ),
            behaviour@ == (DiscoveryView {
                user_defined: entry_views(user_defined@),
                dht: behaviour@.dht,
                mdns: enable_mdns,
                duration_to_next_kad: 1,
                discoveries: Seq::empty(),
                failed_puts: Seq::empty(),
                local_peer_id: behaviour@.local_peer_id,
                num_connections: 0,
            }),
            behaviour@.well_formed(),
            coherent(behaviour@.dht),
    {
        let local_peer_id = local_public_key.into_peer_id();
        proof {
            use_type_invariant(&local_peer_id);
        }
        let mut kademlia = kademlia::new_kademlia(&local_peer_id);
        let ghost fresh = dht(kademlia);
        assert(fresh == fresh_dht(local_peer_id@));
        let ghost entries = entry_views(user_defined@);
        let mut i: usize = 0;
        let ghost mut states = seq![fresh];
        while i < user_defined.len()
            invariant
                i <= user_defined.len(),
                entries == entry_views(user_defined@),
                adds_up(states, fresh, dht(kademlia), entries.take(i as int)),
                dht(kademlia).connected == Set::<Seq<u8>>::empty(),
            decreases user_defined.len() - i,
        {
            let peer_id = &user_defined[i].0;
            let address = &user_defined[i].1;
            proof {
                use_type_invariant(peer_id);
                use_type_invariant(address);
            }
            kademlia::add_address(&mut kademlia, peer_id, address);
            proof {
                let added = entries.take(i + 1);
                assert(added =~= entries.take(i as int).push((peer_id@, address@)));
                states = states.push(dht(kademlia));
            }
            i = i + 1;
        }
        assert(entries.take(i as int) =~= entries);
        let behaviour = DiscoveryBehaviour {
            user_defined,
            kademlia,
            mdns: enable_mdns,
            duration_to_next_kad: 1,
            discoveries: VecDeque::new(),
            failed_puts: VecDeque::new(),
            local_peer_id,
            num_connections: 0,
        };
        assert(behaviour@.duration_to_next_kad == interval_after(0));
        behaviour
    }

    /// Gives access to the hash table, for the parts of it that talk to the network.
    ///
    /// What is done with it must not lead to a connected node being filed as not connected, on which
    /// `inject_connection_established` relies. Polling the hash table and handing it the events of
    /// its handlers does not.
    pub fn kademlia_mut(&mut self) -> (kademlia: &mut Kademlia<MemoryStore>)
        ensures
            dht(*kademlia) == old(self)@.dht,
            final(self)@ == (DiscoveryView { dht: dht(*final(kademlia)), ..old(self)@ }),
            called(old(self)@, Call::Other, final(self)@),
    {
        &mut self.kademlia
    }

    /// Number of nodes that the local node is currently connected to.
    pub fn num_connections(&self) -> (n: u64)
        ensures
            n as nat == self@.num_connections,
    {
        self.num_connections
    }

    /// Returns the list of nodes that are known to exist in the network: those in the routing
    /// table, each once.
    pub fn known_peers(&mut self) -> (peers: Vec<PeerId>)
        ensures
            final(self)@ == (DiscoveryView { dht: final(self)@.dht, ..old(self)@ }),
            settled(old(self)@.dht, final(self)@.dht),
            peer_views(peers@).no_duplicates(),
            forall|p: Seq<u8>| #[trigger]
                peer_views(peers@).contains(p) <==> routed(final(self)@.dht, p),
            forall|p: Seq<u8>| #[trigger]
                peer_views(peers@).contains(p) <==> final(self)@.dht.table.dom().contains(
                    dht_key(p),
                ) && final(self)@.dht.table[dht_key(p)].0 == p,
            called(old(self)@, Call::Other, final(self)@),
    {
        let list = kademlia::kbuckets(&mut self.kademlia);
        let ghost bytes = all_bytes(list@);
        let ghost table = self@.dht.table;
        let mut peers: Vec<PeerId> = Vec::new();
        for item in it: list
            invariant
                it.seq() == list@,
                bytes == all_bytes(list@),
                forall|i: int| 0 <= i < list@.len() ==> is_peer_id(#[trigger] list@[i]@),
                peer_views(peers@) == bytes.take(it.index() as int),
        {
            assert(bytes.take(it.index() + 1) =~= bytes.take(it.index() as int).push(item@));
            let ghost shown = peer_views(peers@);
            peers.push(PeerId::from_valid_bytes(item));
            assert(peer_views(peers@) =~= shown.push(item@));
        }
        assert(bytes.take(bytes.len() as int) =~= bytes);
        proof {
            assert forall|p: Seq<u8>| #[trigger] bytes.contains(p) implies routed(self@.dht, p) by {
                let i = bytes.index_of(p);
                assert(list@[i]@ == p);
            }
        }
        peers
    }

    /// Whether a node is in the routing table.
    pub fn is_in_kbuckets(&mut self, peer_id: &PeerId) -> (found: bool)
        ensures
            final(self)@ == (DiscoveryView { dht: final(self)@.dht, ..old(self)@ }),
            settled(old(self)@.dht, final(self)@.dht),
            found == routed(final(self)@.dht, peer_id@),
            found == (final(self)@.dht.table.dom().contains(dht_key(peer_id@))
                && final(self)@.dht.table[dht_key(peer_id@)].0 == peer_id@),
            called(old(self)@, Call::Other, final(self)@),
    {
        let peers = self.known_peers();
        contains_peer(&peers, peer_id)
    }

    /// Adds a hard-coded address for the given peer, that never expires.
    ///
    /// This adds an entry to the parameter that was passed to `new`.
    ///
    /// If this address was not known before, also generates a `Discovered` event.
    pub fn add_known_address(&mut self, peer_id: PeerId, addr: Multiaddr)
        ensures
            final(self)@ == old(self)@.with_known_address(peer_id@, addr@),
            called(old(self)@, Call::KnownAddress(peer_id@, addr@), final(self)@),
    {
        let ghost entries = entry_views(self.user_defined@);
        let mut i: usize = 0;
        while i < self.user_defined.len()
            invariant
                i <= self.user_defined@.len(),
                *self == *old(self),
                entries == entry_views(self.user_defined@),
                !entries.take(i as int).contains((peer_id@, addr@)),
            decreases self.user_defined@.len() - i,
        {
            if self.user_defined[i].0.same_as(&peer_id) && self.user_defined[i].1.same_as(&addr) {
                assert(entries[i as int] == (peer_id@, addr@));
                return ;
            }
            assert(entries.take(i + 1) =~= entries.take(i as int).push(entries[i as int]));
            i = i + 1;
        }
        assert(entries.take(i as int) =~= entries);
        let ghost shown = self@;
        self.discoveries.push_back(peer_id.clone());
        assert(self@.discoveries =~= shown.discoveries.push(peer_id@));
        self.user_defined.push((peer_id, addr));
        assert(self@.user_defined =~= shown.user_defined.push((peer_id@, addr@)));
    }

    /// Call this method when a node reports an address for itself.
    ///
    /// **Note**: It is important that you call this method, otherwise the discovery mechanism will
    /// not properly work.
    pub fn add_self_reported_address(&mut self, peer_id: &PeerId, addr: Multiaddr)
        ensures
            final(self)@ == (DiscoveryView { dht: final(self)@.dht, ..old(self)@ }),
            address_added(old(self)@.dht, final(self)@.dht, peer_id@, addr@),
            called(old(self)@, Call::Other, final(self)@),
    {
        proof {
            use_type_invariant(peer_id);
            use_type_invariant(&addr);
        }
        kademlia::add_address(&mut self.kademlia, peer_id, &addr);
    }

    /// Start fetching a record from the hash table.
    ///
    /// A corresponding `ValueFound` or `ValueNotFound` event will later be generated.
    pub fn get_value(&mut self, key: &Key)
        ensures
            final(self)@ == (DiscoveryView { dht: final(self)@.dht, ..old(self)@ }),
            get_started(old(self)@.dht, final(self)@.dht, key@, GET_QUORUM as nat),
            called(old(self)@, Call::Other, final(self)@),
    {
        kademlia::get_record(&mut self.kademlia, &key.bytes, GET_QUORUM);
    }

    /// Start putting a record into the hash table. Other nodes can later fetch that value with
    /// `get_value`.
    ///
    /// A corresponding `ValuePut` or `ValuePutFailed` event will later be generated.
    pub fn put_value(&mut self, key: Key, value: Vec<u8>)
        ensures
            value_put(old(self)@, final(self)@, key@, value@),
            called(old(self)@, Call::Put(key@, value@), final(self)@),
    {
        let taken = kademlia::put_record(
            &mut self.kademlia,
            key.bytes.clone(),
            value,
            PUT_QUORUM,
        );
        if !taken {
            let ghost shown = self@;
            self.failed_puts.push_back(key);
            assert(self@.failed_puts =~= shown.failed_puts.push(key@));
        }
    }

    /// The addresses at which a node may be reached: those that are known for good, then those
    /// of the hash table, then `local_network`, the ones found on the local network.
    pub fn addresses_of_peer(&mut self, peer_id: &PeerId, local_network: Vec<Multiaddr>) -> (list:
        Vec<Multiaddr>)
        ensures
            final(self)@ == (DiscoveryView { dht: final(self)@.dht, ..old(self)@ }),
            settled(old(self)@.dht, final(self)@.dht),
            is_address_list(
                final(self)@,
                peer_id@,
                address_views(local_network@),
                address_views(list@),
            ),
            called(old(self)@, Call::Other, final(self)@),
    {
        proof {
            use_type_invariant(peer_id);
        }
        let mut list = self.user_defined_addresses(peer_id);
        let from_dht = kademlia::addresses_of_peer(&mut self.kademlia, peer_id);
        let ghost bytes = all_bytes(from_dht@);
        let ghost user = self@.user_addresses(peer_id@);
        for item in it: from_dht
            invariant
                it.seq() == from_dht@,
                bytes == all_bytes(from_dht@),
                forall|i: int| 0 <= i < from_dht@.len() ==> is_multiaddr(#[trigger] from_dht@[i]@),
                address_views(list@) == user + bytes.take(it.index() as int),
        {
            assert(bytes.take(it.index() + 1) =~= bytes.take(it.index() as int).push(item@));
            let ghost shown = address_views(list@);
            list.push(Multiaddr::from_valid_bytes(item));
            assert(address_views(list@) =~= shown.push(item@));
        }
        assert(bytes.take(bytes.len() as int) =~= bytes);
        let ghost local = address_views(local_network@);
        for item in it: local_network
            invariant
                it.seq() == local_network@,
                local == address_views(local_network@),
                address_views(list@) == user + bytes + local.take(it.index() as int),
        {
            assert(local.take(it.index() + 1) =~= local.take(it.index() as int).push(item@));
            let ghost shown = address_views(list@);
            list.push(item);
            assert(address_views(list@) =~= shown.push(item@));
        }
        assert(local.take(local.len() as int) =~= local);
        list
    }

    /// The addresses of a node that are known for good.
    fn user_defined_addresses(&self, peer_id: &PeerId) -> (list: Vec<Multiaddr>)
        ensures
            address_views(list@) == self@.user_addresses(peer_id@),
    {
        let ghost entries = entry_views(self.user_defined@);
        let mut list: Vec<Multiaddr> = Vec::new();
        let mut i: usize = 0;
        assert(entries.take(0) =~= Seq::empty());
        while i < self.user_defined.len()
            invariant
                i <= self.user_defined@.len(),
                entries == entry_views(self.user_defined@),
                address_views(list@) == addresses_in(entries.take(i as int), peer_id@),
            decreases self.user_defined@.len() - i,
        {
            let ghost shown = address_views(list@);
            proof {
                entries.lemma_filter_map_take_succ(address_for(peer_id@), i as int);
            }
            if self.user_defined[i].0.same_as(peer_id) {
                list.push(self.user_defined[i].1.clone());
                assert(address_views(list@) =~= shown.push(entries[i as int].1));
            }
            i = i + 1;
        }
        assert(entries.take(i as int) =~= entries);
        list
    }

    /// Takes note that a connection to a node, the first one, was opened.
    pub fn inject_connected(&mut self, peer_id: &PeerId)
        requires
            old(self)@.num_connections < u64::MAX,
        ensures
            final(self)@ == old(self)@.with_connection(peer_id@),
            called(old(self)@, Call::Connected(peer_id@), final(self)@),
    {
        proof {
            use_type_invariant(peer_id);
        }
        self.num_connections = self.num_connections + 1;
        kademlia::inject_connected(&mut self.kademlia, peer_id);
    }

    /// Takes note of the two ends of a connection that was opened. For the first connection to a
    /// node, this comes before `inject_connected`.
    ///
    /// Where the local node dialed, no node that counts as connected may be filed in the hash table
    /// as not connected. That is so as long as calls come in this order, and whatever goes through
    /// `kademlia_mut` has to keep it so.
    pub fn inject_connection_established(&mut self, peer_id: &PeerId, endpoint: &ConnectedPoint)
        requires
            endpoint.dialed() is Some ==> coherent(old(self)@.dht),
        ensures
            final(self)@ == (DiscoveryView { dht: final(self)@.dht, ..old(self)@ }),
            connection_opened(old(self)@.dht, final(self)@.dht, peer_id@, endpoint.dialed()),
            called(old(self)@, Call::Other, final(self)@),
    {
        proof {
            use_type_invariant(peer_id);
        }
        match endpoint {
            ConnectedPoint::Dialer { address } => {
                proof {
                    use_type_invariant(address);
                }
            },
            ConnectedPoint::Listener { local_addr, send_back_addr } => {
                proof {
                    use_type_invariant(local_addr);
                    use_type_invariant(send_back_addr);
                }
            },
        }
        kademlia::inject_connection_established(&mut self.kademlia, peer_id, endpoint);
    }

    /// Takes note that the last connection to a node was closed.
    pub fn inject_disconnected(&mut self, peer_id: &PeerId)
        requires
            old(self)@.num_connections > 0,
        ensures
            old(self)@.connection_closed(final(self)@, peer_id@),
            called(old(self)@, Call::Disconnected(peer_id@), final(self)@),
    {
        proof {
            use_type_invariant(peer_id);
        }
        self.num_connections = self.num_connections - 1;
        kademlia::inject_disconnected(&mut self.kademlia, peer_id);
    }

    /// Takes note that one connection to a node took the place of another.
    pub fn inject_replaced(
        &mut self,
        peer_id: &PeerId,
        closed: &ConnectedPoint,
        opened: &ConnectedPoint,
    )
        ensures
            final(self)@ == (DiscoveryView { dht: final(self)@.dht, ..old(self)@ }),
            address_changed(
                old(self)@.dht,
                final(self)@.dht,
                peer_id@,
                closed.remote(),
                opened.remote(),
            ),
            called(old(self)@, Call::Other, final(self)@),
    {
        let old_address = closed.get_remote_address();
        let new_address = opened.get_remote_address();
        proof {
            use_type_invariant(peer_id);
            use_type_invariant(old_address);
            use_type_invariant(new_address);
        }
        kademlia::inject_address_change(&mut self.kademlia, peer_id, old_address, new_address);
    }

    /// Takes note of an address at which the local node can be reached from outside. Gives the
    /// address in the form in which it is announced, with the identity of the local node.
    pub fn inject_new_external_addr(&self, addr: &Multiaddr) -> (announced: Multiaddr)
        ensures
            announced@ == addr@ + p2p_component(self@.local_peer_id),
    {
        addr.with_peer_id(&self.local_peer_id)
    }

    /// Runs a step of a round of polling. A round starts with `PollInput::Begin`. Each output but
    /// `PollOutput::Done` asks for something, and what comes of it is the next input.
    ///
    /// Nodes that wait to be reported come first, then the timer that starts a random query, then
    /// the hash table and then the search on the local network.
    pub fn poll<TInEvent>(&mut self, input: PollInput<TInEvent>) -> (output: PollOutput<TInEvent>)
        ensures
            output@ == poll_output(old(self)@, input),
            final(self)@ == (DiscoveryView {
                dht: final(self)@.dht,
                ..poll_next(old(self)@, input)
            }),
            if input == PollInput::<TInEvent>::Timer(TimerState::Fired) {
                exists|random: Seq<u8>|
                    is_random_peer_id(random) && #[trigger] lookup_started(
                        old(self)@.dht,
                        final(self)@.dht,
                        random,
                    )
            } else {
                final(self)@.dht == old(self)@.dht
            },
            called(old(self)@, poll_call(old(self)@, input), final(self)@),
    {
        let ghost asked = input;
        let output = match input {
            PollInput::Begin => match self.discoveries.pop_front() {
                Some(peer_id) => Self::ready(DiscoveryOut::Discovered(peer_id)),
                None => PollOutput::PollTimer,
            },
            PollInput::Timer(TimerState::Fired) => {
                let random = PeerId::random();
                let seconds = self.start_random_query(&random);
                PollOutput::ResetTimer { seconds }
            },
            PollInput::Timer(_) => match self.failed_puts.pop_front() {
                Some(key) => Self::ready(DiscoveryOut::ValuePutFailed(key)),
                None => PollOutput::PollKademlia,
            },
            PollInput::Kademlia(Async::NotReady) => {
                if self.mdns {
                    PollOutput::PollMdns
                } else {
                    PollOutput::Done(Async::NotReady)
                }
            },
            PollInput::Kademlia(Async::Ready(action)) => match action {
                NetworkBehaviourAction::GenerateEvent(event) => self.kademlia_event(event),
                NetworkBehaviourAction::DialAddress { address } => PollOutput::Done(
                    Async::Ready(NetworkBehaviourAction::DialAddress { address }),
                ),
                NetworkBehaviourAction::DialPeer { peer_id, condition } => PollOutput::Done(
                    Async::Ready(NetworkBehaviourAction::DialPeer { peer_id, condition }),
                ),
                NetworkBehaviourAction::SendEvent { peer_id, event } => PollOutput::Done(
                    Async::Ready(NetworkBehaviourAction::SendEvent { peer_id, event }),
                ),
                NetworkBehaviourAction::ReportObservedAddr { address } => PollOutput::Done(
                    Async::Ready(NetworkBehaviourAction::ReportObservedAddr { address }),
                ),
            },
            PollInput::Mdns(Async::NotReady) => PollOutput::Done(Async::NotReady),
            PollInput::Mdns(Async::Ready(action)) => match action {
                MdnsAction::GenerateEvent(MdnsEvent::Discovered(list)) => {
                    self.queue_discoveries(list);
                    match self.discoveries.pop_front() {
                        Some(peer_id) => Self::ready(DiscoveryOut::Discovered(peer_id)),
                        None => PollOutput::PollMdns,
                    }
                },
                MdnsAction::GenerateEvent(MdnsEvent::Expired(_)) => PollOutput::PollMdns,
                MdnsAction::DialAddress { address } => PollOutput::Done(
                    Async::Ready(NetworkBehaviourAction::DialAddress { address }),
                ),
                MdnsAction::DialPeer { peer_id, condition } => PollOutput::Done(
                    Async::Ready(NetworkBehaviourAction::DialPeer { peer_id, condition }),
                ),
                MdnsAction::ReportObservedAddr { address } => PollOutput::Done(
                    Async::Ready(NetworkBehaviourAction::ReportObservedAddr { address }),
                ),
            },
        };
        proof {
            assert(self@ =~= (DiscoveryView { dht: self@.dht, ..poll_next(old(self)@, asked) }));
            poll_takes_from_the_front(old(self)@, asked, self@);
        }
        output
    }

    /// Starts a search for the nodes around an identity. Gives the number of seconds until the
    /// next one is due; the one after that is due after twice as long, or after the longest time
    /// between two.
    pub fn start_random_query(&mut self, random: &PeerId) -> (seconds: u64)
        ensures
            seconds as nat == old(self)@.duration_to_next_kad,
            final(self)@ == (DiscoveryView {
                dht: final(self)@.dht,
                duration_to_next_kad: next_interval(old(self)@.duration_to_next_kad),
                ..old(self)@
            }),
            lookup_started(old(self)@.dht, final(self)@.dht, random@),
            called(old(self)@, Call::Other, final(self)@),
    {
        proof {
            use_type_invariant(random);
        }
        kademlia::get_closest_peers(&mut self.kademlia, random);
        let seconds = self.duration_to_next_kad;
        self.duration_to_next_kad = if seconds < MAX_INTERVAL / 2 {
            seconds * 2
        } else {
            MAX_INTERVAL
        };
        proof {
            if old(self)@.well_formed() {
                let queries = choose|queries: nat|
                    old(self)@.duration_to_next_kad == #[trigger] interval_after(queries);
                assert(self@.duration_to_next_kad == interval_after(queries + 1));
            }
        }
        seconds
    }

    /// The outcome of a round in which an event is reported.
    fn ready<TInEvent>(event: DiscoveryOut) -> (output: PollOutput<TInEvent>)
        ensures
            output@ == crate::model::report::<TInEvent>(event@),
    {
        PollOutput::Done(Async::Ready(NetworkBehaviourAction::GenerateEvent(event)))
    }

    /// Deals with an event of the hash table.
    fn kademlia_event<TInEvent>(&self, event: KademliaOut) -> (output: PollOutput<TInEvent>)
        ensures
            output@ == kademlia_output::<TInEvent>(self@, event),
    {
        match event {
            KademliaOut::Discovered { .. } => PollOutput::PollKademlia,
            KademliaOut::KBucketAdded { peer_id, .. } => {
                Self::ready(DiscoveryOut::Discovered(peer_id))
            },
            KademliaOut::UnroutablePeer { peer_id } => {
                Self::ready(DiscoveryOut::Discovered(peer_id))
            },
            KademliaOut::FindNodeResult { closer_peers, .. } => {
                if closer_peers.len() == 0 && self.num_connections != 0 {
                    PollOutput::WarnEmptyResults
                } else {
                    PollOutput::PollKademlia
                }
            },
            KademliaOut::GetValueResult(GetValueResult::Found { results }) => {
                Self::ready(DiscoveryOut::ValueFound(into_pairs(results)))
            },
            KademliaOut::GetValueResult(GetValueResult::NotFound { key }) => {
                Self::ready(DiscoveryOut::ValueNotFound(key))
            },
            KademliaOut::PutValueResult(PutValueResult::Stored { key }) => {
                Self::ready(DiscoveryOut::ValuePut(key))
            },
            KademliaOut::PutValueResult(PutValueResult::NotStored { key }) => {
                Self::ready(DiscoveryOut::ValuePutFailed(key))
            },
            // No other kind of query is ever started.
            KademliaOut::OtherResult => PollOutput::PollKademlia,
        }
    }

    /// Queues the nodes of a list to be reported.
    fn queue_discoveries(&mut self, list: Vec<(PeerId, Multiaddr)>)
        ensures
            final(self)@ == crate::model::with_discoveries(old(self)@, entry_peers(list@)),
    {
        let ghost all = list@;
        let ghost before = self@;
        for entry in it: list
            invariant
                it.seq() == all,
                self@ == crate::model::with_discoveries(
                    before,
                    entry_peers(all.take(it.index() as int)),
                ),
        {
            assert(all.take(it.index() + 1) =~= all.take(it.index() as int).push(entry));
            let ghost shown = self@.discoveries;
            self.discoveries.push_back(entry.0);
            assert(self@.discoveries =~= shown.push(entry.0@));
            assert(entry_peers(all.take(it.index() + 1)) =~= entry_peers(
                all.take(it.index() as int),
            ).push(entry.0@));
        }
        assert(all.take(all.len() as int) =~= all);
    }
}

} // verus!
