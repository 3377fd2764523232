//! The distributed hash table: what the calls into `libp2p::kad::Kademlia` do to it.

use vstd::prelude::*;
use vstd::multiset::Multiset;
use std::convert::TryFrom;
use libp2p::kad::record::store::MemoryStore;
use libp2p::kad::Kademlia;
use crate::address::{is_multiaddr, ConnectedPoint, Multiaddr};
use crate::peer::{is_peer_id, PeerId};

verus! {

/// `libp2p::kad::record::store::MemoryStore`, the records that the local node keeps.
#[verifier::external_type_specification]
#[verifier::external_body]
pub struct ExMemoryStore(MemoryStore);

/// `libp2p::kad::Kademlia`, the node's part of the hash table.
#[verifier::external_type_specification]
#[verifier::external_body]
#[verifier::reject_recursive_types(TStore)]
pub struct ExKademlia<TStore>(Kademlia<TStore>);

/// The key under which a node is filed: what `libp2p::kad::kbucket::Key::new` makes of the
/// identity of the node.
pub uninterp spec fn dht_key(peer_id: Seq<u8>) -> Seq<u8>;

/// Identity of the local node.
pub uninterp spec fn kad_local(kademlia: Kademlia<MemoryStore>) -> Seq<u8>;

/// The routing table: to the key of each node in it, the identity of that node and its addresses.
pub uninterp spec fn kad_table(kademlia: Kademlia<MemoryStore>) -> Map<
    Seq<u8>,
    (Seq<u8>, Seq<Seq<u8>>),
>;

/// The nodes that wait for a place in the routing table, in the form of the table.
pub uninterp spec fn kad_pending(kademlia: Kademlia<MemoryStore>) -> Map<
    Seq<u8>,
    (Seq<u8>, Seq<Seq<u8>>),
>;

/// The nodes to which a connection is open.
pub uninterp spec fn kad_connected(kademlia: Kademlia<MemoryStore>) -> Set<Seq<u8>>;

/// The nodes in the routing table, and those that wait for a place in it, that are filed as not
/// connected.
pub uninterp spec fn kad_offline(kademlia: Kademlia<MemoryStore>) -> Set<Seq<u8>>;

/// The records that the local node keeps: to each key its value.
pub uninterp spec fn kad_records(kademlia: Kademlia<MemoryStore>) -> Map<Seq<u8>, Seq<u8>>;

/// The keys of those records that never expire.
pub uninterp spec fn kad_lasting(kademlia: Kademlia<MemoryStore>) -> Set<Seq<u8>>;

/// The searches for nodes that have yet to be reported on, each by the key that it looks for.
pub uninterp spec fn kad_lookups(kademlia: Kademlia<MemoryStore>) -> Multiset<Seq<u8>>;

/// The searches for records that have yet to be reported on: key, number of answers that are asked
/// for and the answer of the local node itself, if it has one.
pub uninterp spec fn kad_gets(kademlia: Kademlia<MemoryStore>) -> Multiset<
    (Seq<u8>, nat, Option<Seq<u8>>),
>;

/// The publications of records that have yet to be reported on: key, value and number of nodes
/// that have to take it.
pub uninterp spec fn kad_puts(kademlia: Kademlia<MemoryStore>) -> Multiset<
    (Seq<u8>, Seq<u8>, nat),
>;

/// The addresses that those queries came across: identity and address.
pub uninterp spec fn kad_query_addresses(kademlia: Kademlia<MemoryStore>) -> Multiset<
    (Seq<u8>, Seq<u8>),
>;

/// How many records the local node keeps at most.
pub uninterp spec fn kad_max_records(kademlia: Kademlia<MemoryStore>) -> nat;

/// The length that the value of a record does not reach.
pub uninterp spec fn kad_max_value_bytes(kademlia: Kademlia<MemoryStore>) -> nat;

/// How many nodes a record is given to.
pub uninterp spec fn kad_replication(kademlia: Kademlia<MemoryStore>) -> nat;

/// Whether a node gets into the routing table by explicit request only.
pub uninterp spec fn kad_manual(kademlia: Kademlia<MemoryStore>) -> bool;

/// How many nodes fit into one bucket of the routing table.
pub const BUCKET_SIZE: usize = 20;

/// Nodes by their keys: the identity of each and its addresses.
pub type Table = Map<Seq<u8>, (Seq<u8>, Seq<Seq<u8>>)>;

/// Values of records by their keys.
pub type Records = Map<Seq<u8>, Seq<u8>>;

/// Searches for records: key, number of answers and answer of the local node.
pub type Gets = Multiset<(Seq<u8>, nat, Option<Seq<u8>>)>;

/// Publications of records: key, value and number of nodes.
pub type Puts = Multiset<(Seq<u8>, Seq<u8>, nat)>;

/// Addresses that queries came across: identity and address.
pub type QueryAddresses = Multiset<(Seq<u8>, Seq<u8>)>;

/// What is known of a `Kademlia`: the field `table` is what `kad_table` gives, and so on.
#[verifier::ext_equal]
pub struct Dht {
    pub local: Seq<u8>,
    pub table: Table,
    pub pending: Table,
    pub connected: Set<Seq<u8>>,
    pub offline: Set<Seq<u8>>,
    pub records: Records,
    pub lasting: Set<Seq<u8>>,
    pub lookups: Multiset<Seq<u8>>,
    pub gets: Gets,
    pub puts: Puts,
    pub query_addresses: QueryAddresses,
    pub max_records: nat,
    pub max_value_bytes: nat,
    pub replication: nat,
    pub manual: bool,
}

/// The state of a `Kademlia`.
pub open spec fn dht(kademlia: Kademlia<MemoryStore>) -> Dht {
    Dht {
        local: kad_local(kademlia),
        table: kad_table(kademlia),
        pending: kad_pending(kademlia),
        connected: kad_connected(kademlia),
        offline: kad_offline(kademlia),
        records: kad_records(kademlia),
        lasting: kad_lasting(kademlia),
        lookups: kad_lookups(kademlia),
        gets: kad_gets(kademlia),
        puts: kad_puts(kademlia),
        query_addresses: kad_query_addresses(kademlia),
        max_records: kad_max_records(kademlia),
        max_value_bytes: kad_max_value_bytes(kademlia),
        replication: kad_replication(kademlia),
        manual: kad_manual(kademlia),
    }
}

/// The state of a node that has just been set up, with the limits that `libp2p` sets.
pub open spec fn fresh_dht(local: Seq<u8>) -> Dht {
    Dht {
        local,
        table: Map::empty(),
        pending: Map::empty(),
        connected: Set::empty(),
        offline: Set::empty(),
        records: Map::empty(),
        lasting: Set::empty(),
        lookups: Multiset::empty(),
        gets: Multiset::empty(),
        puts: Multiset::empty(),
        query_addresses: Multiset::empty(),
        max_records: 1024,
        max_value_bytes: 66560,
        replication: 20,
        manual: false,
    }
}

/// A bit of a byte string, counted from the most significant one of the first byte.
pub open spec fn bit(bytes: Seq<u8>, i: int) -> u8 {
    (bytes[i / 8] >> ((7 - i % 8) as u8)) & 1
}

/// Whether the first bit in which two keys of 256 bits differ is a given one.
pub open spec fn differ_first_at(a: Seq<u8>, b: Seq<u8>, i: int) -> bool {
    &&& 0 <= i < 256
    &&& bit(a, i) != bit(b, i)
    &&& forall|j: int| 0 <= j < i ==> #[trigger] bit(a, j) == bit(b, j)
}

/// Whether two keys belong into the same bucket of a node: both differ from the key of the node,
/// and the first bit in which they do is the same.
pub open spec fn same_bucket(local: Seq<u8>, a: Seq<u8>, b: Seq<u8>) -> bool {
    exists|i: int| #[trigger] differ_first_at(local, a, i) && differ_first_at(local, b, i)
}

/// The keys in the routing table that are in the bucket that a key belongs into.
pub open spec fn bucket(state: Dht, key: Seq<u8>) -> Set<Seq<u8>> {
    state.table.dom().filter(|k: Seq<u8>| same_bucket(dht_key(state.local), k, key))
}

/// Whether a node waits for a place in the bucket that a key belongs into.
pub open spec fn bucket_awaited(state: Dht, key: Seq<u8>) -> bool {
    exists|k: Seq<u8>| #[trigger]
        state.pending.dom().contains(k) && (k == key || same_bucket(
            dht_key(state.local),
            k,
            key,
        ))
}

/// Whether a node in the bucket that a key belongs into is filed as not connected.
pub open spec fn bucket_has_offline(state: Dht, key: Seq<u8>) -> bool {
    exists|k: Seq<u8>| #[trigger]
        bucket(state, key).contains(k) && state.offline.contains(state.table[k].0)
}

/// Whether a node itself is in the routing table or waits for a place in it.
pub open spec fn filed(state: Dht, peer_id: Seq<u8>) -> bool {
    let key = dht_key(peer_id);
    ||| state.table.dom().contains(key) && state.table[key].0 == peer_id
    ||| state.pending.dom().contains(key) && state.pending[key].0 == peer_id
}

/// Whether nothing but the passing of time separates two states: a node that waited for a place
/// in the routing table may have got one, at the expense of a node of the same bucket that is not
/// connected, or may have given up. Which node had to go, and when, is left open.
pub open spec fn settled(before: Dht, after: Dht) -> bool {
    &&& after == (Dht {
        table: after.table,
        pending: after.pending,
        offline: after.offline,
        ..before
    })
    &&& after.pending.submap_of(before.pending)
    &&& after.offline.subset_of(before.offline)
    &&& forall|p: Seq<u8>| #[trigger]
        before.offline.contains(p) && filed(after, p) ==> after.offline.contains(p)
    &&& forall|key: Seq<u8>| #[trigger]
        after.table.dom().contains(key) ==> if before.table.dom().contains(key) {
            after.table[key] == before.table[key]
        } else {
            &&& before.pending.dom().contains(key)
            &&& after.table[key] == before.pending[key]
            &&& !after.pending.dom().contains(key)
        }
    &&& forall|key: Seq<u8>| #[trigger]
        before.table.dom().contains(key) && !after.table.dom().contains(key) ==> {
            &&& before.offline.contains(before.table[key].0)
            &&& bucket_awaited(before, key)
        }
    &&& before.pending == Table::empty() ==> after == before
}

/// Whether no node to which a connection is open is filed as not connected.
pub open spec fn coherent(state: Dht) -> bool {
    state.connected.disjoint(state.offline)
}

/// An address list with one more address, which is in it once.
pub open spec fn with_address(addresses: Seq<Seq<u8>>, address: Seq<u8>) -> Seq<Seq<u8>> {
    if addresses.contains(address) {
        addresses
    } else {
        addresses.push(address)
    }
}

/// Whether `after` is `before` with an address recorded for a node. A node that is already in the
/// table gets the address as a further one, and so does a node that waits for a place. Another
/// node is put into the table, as connected or not according to `online`. Where its bucket is full,
/// it has to wait, if it is connected, no other node waits and some node of the bucket is not
/// connected; else it is refused. The local node is never recorded.
pub open spec fn recorded(
    before: Dht,
    after: Dht,
    peer_id: Seq<u8>,
    address: Seq<u8>,
    online: bool,
) -> bool {
    let key = dht_key(peer_id);
    if key == dht_key(before.local) {
        after == before
    } else if before.table.dom().contains(key) {
        let (known, addresses) = before.table[key];
        let entry = (known, with_address(addresses, address));
        after == (Dht { table: before.table.insert(key, entry), ..before })
    } else if before.pending.dom().contains(key) {
        let (known, addresses) = before.pending[key];
        let entry = (known, with_address(addresses, address));
        after == (Dht { pending: before.pending.insert(key, entry), ..before })
    } else {
        let entry = (peer_id, seq![address]);
        after == if bucket(before, key).len() < BUCKET_SIZE {
            Dht {
                table: before.table.insert(key, entry),
                offline: if online {
                    before.offline
                } else {
                    before.offline.insert(peer_id)
                },
                ..before
            }
        } else if online && !bucket_awaited(before, key) && bucket_has_offline(before, key) {
            Dht { pending: before.pending.insert(key, entry), ..before }
        } else {
            before
        }
    }
}

/// Whether `after` is `before` once an address of a node was added to it.
pub open spec fn address_added(
    before: Dht,
    after: Dht,
    peer_id: Seq<u8>,
    address: Seq<u8>,
) -> bool {
    exists|mid: Dht|
        #![trigger settled(before, mid)]
        settled(before, mid) && recorded(
            mid,
            after,
            peer_id,
            address,
            mid.connected.contains(peer_id),
        )
}

/// Whether `after` is `before` once a connection to a node was opened. Where the local node dialed
/// an address, that address is recorded, unless the node is unknown and nodes get into the
/// routing table by explicit request only. The node is then filed as connected, and a node that
/// waits for its place gives up.
pub open spec fn connection_opened(
    before: Dht,
    after: Dht,
    peer_id: Seq<u8>,
    dialed: Option<Seq<u8>>,
) -> bool {
    exists|mid: Dht, full: Dht|
        #![trigger settled(before, mid), filed_as_connected(full, after, peer_id)]
        settled(before, mid) && filed_as_connected(full, after, peer_id) && match dialed {
            Some(address) if !mid.manual || known(mid, peer_id) => recorded(
                mid,
                full,
                peer_id,
                address,
                true,
            ),
            _ => full == mid,
        }
}

/// Whether some node is in the routing table, or waits for a place in it, under the key of a node.
pub open spec fn known(state: Dht, peer_id: Seq<u8>) -> bool {
    state.table.dom().contains(dht_key(peer_id)) || state.pending.dom().contains(dht_key(peer_id))
}

/// Whether `after` is `before` with a node filed as connected, if it is filed. Nodes may have given
/// up waiting for a place.
pub open spec fn filed_as_connected(before: Dht, after: Dht, peer_id: Seq<u8>) -> bool {
    &&& after == (Dht { pending: after.pending, offline: after.offline, ..before })
    &&& after.pending.submap_of(before.pending)
    &&& forall|key: Seq<u8>| #[trigger]
        before.pending.dom().contains(key) && !after.pending.dom().contains(key) ==> same_bucket(
            dht_key(before.local),
            key,
            dht_key(peer_id),
        )
    &&& after.offline.subset_of(before.offline.remove(peer_id))
    &&& forall|p: Seq<u8>| #[trigger]
        before.offline.contains(p) && dht_key(p) != dht_key(peer_id) && filed(after, p)
            ==> after.offline.contains(p)
}

/// Whether `after` is `before` once the last connection to a node was closed. The node is filed as
/// not connected, if it is filed.
pub open spec fn connection_lost(before: Dht, after: Dht, peer_id: Seq<u8>) -> bool {
    &&& after.connected == before.connected.remove(peer_id)
    &&& forall|p: Seq<u8>| #[trigger]
        after.offline.contains(p) ==> before.offline.contains(p) || dht_key(p) == dht_key(peer_id)
    &&& forall|p: Seq<u8>|
        filed(after, p) && (p == peer_id || before.offline.contains(p))
            ==> #[trigger] after.offline.contains(p)
    &&& settled(
        before,
        Dht { connected: before.connected, offline: before.offline, ..after },
    )
}

/// An address list in which the first occurrence of an address is replaced.
pub open spec fn replace_address(addresses: Seq<Seq<u8>>, old_address: Seq<u8>, new_address: Seq<
    u8,
>) -> Seq<Seq<u8>> {
    match addresses.index_of_first(old_address) {
        Some(i) => addresses.update(i, new_address),
        None => addresses,
    }
}

/// A table in which the address of one node is replaced.
pub open spec fn replace_in(
    table: Table,
    key: Seq<u8>,
    old_address: Seq<u8>,
    new_address: Seq<u8>,
) -> Table {
    if table.dom().contains(key) {
        let (known, addresses) = table[key];
        table.insert(key, (known, replace_address(addresses, old_address, new_address)))
    } else {
        table
    }
}

/// Whether `after` is `before` once the address of a connected node changed: in the routing table
/// or, where the node is not in it, among the nodes that wait for a place, and in every query.
pub open spec fn address_changed(
    before: Dht,
    after: Dht,
    peer_id: Seq<u8>,
    old_address: Seq<u8>,
    new_address: Seq<u8>,
) -> bool {
    exists|mid: Dht|
        #![trigger settled(before, mid)]
        {
            let key = dht_key(peer_id);
            let in_table = mid.table.dom().contains(key);
            &&& settled(before, mid)
            &&& after == (Dht {
                table: replace_in(mid.table, key, old_address, new_address),
                pending: if in_table {
                    mid.pending
                } else {
                    replace_in(mid.pending, key, old_address, new_address)
                },
                query_addresses: after.query_addresses,
                ..mid
            })
            &&& forall|p: Seq<u8>, a: Seq<u8>| #[trigger]
                after.query_addresses.count((p, a)) == count_after_change(
                    before.query_addresses,
                    p,
                    a,
                    peer_id,
                    old_address,
                    new_address,
                )
        }
}

/// How often a query address occurs once each occurrence of one address of a node is replaced.
pub open spec fn count_after_change(
    addresses: QueryAddresses,
    p: Seq<u8>,
    a: Seq<u8>,
    peer_id: Seq<u8>,
    old_address: Seq<u8>,
    new_address: Seq<u8>,
) -> nat {
    if p != peer_id || old_address == new_address {
        addresses.count((p, a))
    } else if a == old_address {
        0
    } else if a == new_address {
        addresses.count((p, old_address)) + addresses.count((p, new_address))
    } else {
        addresses.count((p, a))
    }
}

/// Whether `after` is `before` once a search for the nodes closest to a key was started.
pub open spec fn lookup_started(before: Dht, after: Dht, key: Seq<u8>) -> bool {
    &&& after.lookups == before.lookups.insert(key)
    &&& settled(before, Dht { lookups: before.lookups, ..after })
}

/// The number of answers or nodes that a query asks for, which is no more than the number of
/// nodes that a record is given to.
pub open spec fn quorum_in(state: Dht, quorum: nat) -> nat {
    if quorum < state.replication {
        quorum
    } else {
        state.replication
    }
}

/// Whether `after` is `before` once a search for a record was started. A record that the local node
/// keeps is the first answer. If it can expire and has done so, it is dropped instead.
pub open spec fn get_started(before: Dht, after: Dht, key: Seq<u8>, quorum: nat) -> bool {
    let kept = before.records.dom().contains(key);
    let searching = |answer: Option<Seq<u8>>|
        before.gets.insert((key, quorum_in(before, quorum), answer));
    &&& settled(before, Dht { gets: before.gets, records: before.records, ..after })
    &&& {
        ||| {
            &&& after.records == before.records
            &&& after.gets == searching(
                if kept {
                    Some(before.records[key])
                } else {
                    None
                },
            )
        }
        ||| {
            &&& kept && !before.lasting.contains(key)
            &&& after.records == before.records.remove(key)
            &&& after.gets == searching(None)
        }
    }
}

/// Whether the local node takes a record.
pub open spec fn takes_record(state: Dht, key: Seq<u8>, value: Seq<u8>) -> bool {
    &&& value.len() < state.max_value_bytes
    &&& state.records.dom().contains(key) || state.records.len() < state.max_records
}

/// Whether `after` is `before` once the publication of a record was started. The local node keeps
/// the record, which never expires there.
pub open spec fn put_started(
    before: Dht,
    after: Dht,
    key: Seq<u8>,
    value: Seq<u8>,
    quorum: nat,
) -> bool {
    &&& after.records == before.records.insert(key, value)
    &&& after.lasting == before.lasting.insert(key)
    &&& after.puts == before.puts.insert((key, value, quorum_in(before, quorum)))
    &&& settled(
        before,
        Dht { puts: before.puts, records: before.records, lasting: before.lasting, ..after },
    )
}

/// Whether a node is in the routing table.
pub open spec fn routed(state: Dht, peer_id: Seq<u8>) -> bool {
    &&& state.table.dom().contains(dht_key(peer_id))
    &&& state.table[dht_key(peer_id)].0 == peer_id
}

/// The addresses of a node in the routing table.
pub open spec fn table_addresses(state: Dht, peer_id: Seq<u8>) -> Seq<Seq<u8>> {
    if state.table.dom().contains(dht_key(peer_id)) {
        state.table[dht_key(peer_id)].1
    } else {
        Seq::empty()
    }
}

/// The byte strings that vectors of bytes hold.
pub open spec fn all_bytes(list: Seq<Vec<u8>>) -> Seq<Seq<u8>> {
    list.map_values(|bytes: Vec<u8>| bytes@)
}

/// Calls `libp2p::kad::Kademlia::new` with a `MemoryStore::new`, both for the local node. Nothing
/// is in the tables, and the limits are the ones that `libp2p` sets.
#[verifier::external_body]
pub(crate) fn new_kademlia(local: &PeerId) -> (kademlia: Kademlia<MemoryStore>)
    requires
        is_peer_id(local@),
    ensures
        kad_local(kademlia) == local@,
        kad_table(kademlia) == Table::empty(),
        kad_pending(kademlia) == Table::empty(),
        kad_connected(kademlia) == Set::<Seq<u8>>::empty(),
        kad_offline(kademlia) == Set::<Seq<u8>>::empty(),
        kad_records(kademlia) == Records::empty(),
        kad_lasting(kademlia) == Set::<Seq<u8>>::empty(),
        kad_lookups(kademlia) == Multiset::<Seq<u8>>::empty(),
        kad_gets(kademlia) == Gets::empty(),
        kad_puts(kademlia) == Puts::empty(),
        kad_query_addresses(kademlia) == QueryAddresses::empty(),
        kad_max_records(kademlia) == 1024,
        kad_max_value_bytes(kademlia) == 65 * 1024,
        kad_replication(kademlia) == 20,
        !kad_manual(kademlia),
{
    let local = libp2p::PeerId::from_bytes(local.as_bytes().clone()).unwrap();
    Kademlia::new(local.clone(), MemoryStore::new(local))
}

/// Calls `libp2p::kad::Kademlia::add_address`.
#[verifier::external_body]
pub(crate) fn add_address(
    kademlia: &mut Kademlia<MemoryStore>,
    peer_id: &PeerId,
    address: &Multiaddr,
)
    requires
        is_peer_id(peer_id@),
        is_multiaddr(address@),
    ensures
        address_added(dht(*old(kademlia)), dht(*final(kademlia)), peer_id@, address@),
{
    let peer_id = libp2p::PeerId::from_bytes(peer_id.as_bytes().clone()).unwrap();
    let address = libp2p::Multiaddr::try_from(address.as_bytes().clone()).unwrap();
    kademlia.add_address(&peer_id, address);
}

/// Calls `libp2p::kad::Kademlia::kbuckets` and hands out the identities of the nodes in the
/// buckets, each once. The order, that of the buckets, is left open.
#[verifier::external_body]
pub(crate) fn kbuckets(kademlia: &mut Kademlia<MemoryStore>) -> (peers: Vec<Vec<u8>>)
    ensures
        settled(dht(*old(kademlia)), dht(*final(kademlia))),
        all_bytes(peers@).no_duplicates(),
        forall|i: int|
            0 <= i < peers@.len() ==> {
                let p = #[trigger] peers@[i]@;
                &&& is_peer_id(p)
                &&& kad_table(*final(kademlia)).dom().contains(dht_key(p))
                &&& kad_table(*final(kademlia))[dht_key(p)].0 == p
            },
        forall|key: Seq<u8>| #[trigger]
            kad_table(*final(kademlia)).dom().contains(key) ==> all_bytes(peers@).contains(
                kad_table(*final(kademlia))[key].0,
            ),
{
    let mut peers = Vec::new();
    for bucket in kademlia.kbuckets() {
        for entry in bucket.iter() {
            peers.push(entry.node.key.preimage().as_bytes().to_vec());
        }
    }
    peers
}

/// Calls `libp2p::swarm::NetworkBehaviour::addresses_of_peer` on the `Kademlia`: the addresses of
/// the node in the routing table, then those that the running queries came across. The order of
/// the latter is left open, since the queries are kept in a hash map.
#[verifier::external_body]
pub(crate) fn addresses_of_peer(kademlia: &mut Kademlia<MemoryStore>, peer_id: &PeerId) -> (addresses:
    Vec<Vec<u8>>)
    requires
        is_peer_id(peer_id@),
    ensures
        settled(dht(*old(kademlia)), dht(*final(kademlia))),
        forall|i: int| 0 <= i < addresses@.len() ==> is_multiaddr(#[trigger] addresses@[i]@),
        dht_addresses(dht(*final(kademlia)), peer_id@, all_bytes(addresses@)),
{
    let peer_id = libp2p::PeerId::from_bytes(peer_id.as_bytes().clone()).unwrap();
    let addresses = libp2p::swarm::NetworkBehaviour::addresses_of_peer(kademlia, &peer_id);
    addresses.iter().map(|address| address.to_vec()).collect()
}

/// Whether a list holds the addresses of a node in the routing table, in their order, and then
/// those that the running queries came across, in any order.
pub open spec fn dht_addresses(state: Dht, peer_id: Seq<u8>, addresses: Seq<Seq<u8>>) -> bool {
    let in_table = table_addresses(state, peer_id);
    &&& in_table.is_prefix_of(addresses)
    &&& forall|a: Seq<u8>|
        addresses.skip(in_table.len() as int).to_multiset().count(a)
            == #[trigger] state.query_addresses.count((peer_id, a))
}

/// Calls `libp2p::kad::Kademlia::get_closest_peers` for the key that an identity stands for.
#[verifier::external_body]
pub(crate) fn get_closest_peers(kademlia: &mut Kademlia<MemoryStore>, key: &PeerId)
    requires
        is_peer_id(key@),
    ensures
        lookup_started(dht(*old(kademlia)), dht(*final(kademlia)), key@),
{
    kademlia.get_closest_peers(libp2p::PeerId::from_bytes(key.as_bytes().clone()).unwrap());
}

/// Calls `libp2p::kad::Kademlia::get_record`.
#[verifier::external_body]
pub(crate) fn get_record(kademlia: &mut Kademlia<MemoryStore>, key: &Vec<u8>, quorum: usize)
    requires
        quorum > 0,
    ensures
        get_started(dht(*old(kademlia)), dht(*final(kademlia)), key@, quorum as nat),
{
    let key = libp2p::kad::record::Key::new(key);
    let quorum = libp2p::kad::Quorum::N(std::num::NonZeroUsize::new(quorum).unwrap());
    kademlia.get_record(&key, quorum);
}

/// Calls `libp2p::kad::Kademlia::put_record` with a `Record::new`: whether the local node took
/// the record. Where it did, the publication is started; where it did not, nothing happens.
#[verifier::external_body]
pub(crate) fn put_record(
    kademlia: &mut Kademlia<MemoryStore>,
    key: Vec<u8>,
    value: Vec<u8>,
    quorum: usize,
) -> (taken: bool)
    requires
        quorum > 0,
    ensures
        taken == takes_record(dht(*old(kademlia)), key@, value@),
        if taken {
            put_started(dht(*old(kademlia)), dht(*final(kademlia)), key@, value@, quorum as nat)
        } else {
            dht(*final(kademlia)) == dht(*old(kademlia))
        },
{
    let quorum = libp2p::kad::Quorum::N(std::num::NonZeroUsize::new(quorum).unwrap());
    kademlia.put_record(libp2p::kad::Record::new(key, value), quorum).is_ok()
}

/// Calls `libp2p::swarm::NetworkBehaviour::inject_connected` on the `Kademlia`.
#[verifier::external_body]
pub(crate) fn inject_connected(kademlia: &mut Kademlia<MemoryStore>, peer_id: &PeerId)
    requires
        is_peer_id(peer_id@),
    ensures
        dht(*final(kademlia)) == (Dht {
            connected: kad_connected(*old(kademlia)).insert(peer_id@),
            ..dht(*old(kademlia))
        }),
{
    let peer_id = libp2p::PeerId::from_bytes(peer_id.as_bytes().clone()).unwrap();
    libp2p::swarm::NetworkBehaviour::inject_connected(kademlia, &peer_id);
}

/// Calls `libp2p::swarm::NetworkBehaviour::inject_disconnected` on the `Kademlia`.
#[verifier::external_body]
pub(crate) fn inject_disconnected(kademlia: &mut Kademlia<MemoryStore>, peer_id: &PeerId)
    requires
        is_peer_id(peer_id@),
    ensures
        connection_lost(dht(*old(kademlia)), dht(*final(kademlia)), peer_id@),
{
    let peer_id = libp2p::PeerId::from_bytes(peer_id.as_bytes().clone()).unwrap();
    libp2p::swarm::NetworkBehaviour::inject_disconnected(kademlia, &peer_id);
}

/// Whether the addresses of a connection are addresses.
pub open spec fn is_endpoint(endpoint: ConnectedPoint) -> bool {
    match endpoint {
        ConnectedPoint::Dialer { address } => is_multiaddr(address@),
        ConnectedPoint::Listener { local_addr, send_back_addr } => {
            is_multiaddr(local_addr@) && is_multiaddr(send_back_addr@)
        },
    }
}

/// Calls `libp2p::swarm::NetworkBehaviour::inject_connection_established` on the `Kademlia`,
/// which does not look at the number of the connection. A debug build of it insists that a node
/// that has to make room for the dialed one is not connected.
#[verifier::external_body]
pub(crate) fn inject_connection_established(
    kademlia: &mut Kademlia<MemoryStore>,
    peer_id: &PeerId,
    endpoint: &ConnectedPoint,
)
    requires
        is_peer_id(peer_id@),
        is_endpoint(*endpoint),
        endpoint.dialed() is Some ==> coherent(dht(*old(kademlia))),
    ensures
        connection_opened(dht(*old(kademlia)), dht(*final(kademlia)), peer_id@, endpoint.dialed()),
{
    let peer_id = libp2p::PeerId::from_bytes(peer_id.as_bytes().clone()).unwrap();
    let to_multiaddr = |a: &Multiaddr| libp2p::Multiaddr::try_from(a.as_bytes().clone()).unwrap();
    let endpoint = match endpoint {
        ConnectedPoint::Dialer { address } => libp2p::core::ConnectedPoint::Dialer {
            address: to_multiaddr(address),
        },
        ConnectedPoint::Listener { local_addr, send_back_addr } => libp2p::core::ConnectedPoint::Listener {
            local_addr: to_multiaddr(local_addr),
            send_back_addr: to_multiaddr(send_back_addr),
        },
    };
    let id = libp2p::core::connection::ConnectionId::new(0);
    libp2p::swarm::NetworkBehaviour::inject_connection_established(kademlia, &peer_id, &id, &endpoint);
}

/// Calls `libp2p::swarm::NetworkBehaviour::inject_address_change` on the `Kademlia`, which looks
/// at nothing but the identity and the address of the other node at either end of the change.
#[verifier::external_body]
pub(crate) fn inject_address_change(
    kademlia: &mut Kademlia<MemoryStore>,
    peer_id: &PeerId,
    old_address: &Multiaddr,
    new_address: &Multiaddr,
)
    requires
        is_peer_id(peer_id@),
        is_multiaddr(old_address@),
        is_multiaddr(new_address@),
    ensures
        address_changed(
            dht(*old(kademlia)),
            dht(*final(kademlia)),
            peer_id@,
            old_address@,
            new_address@,
        ),
{
    let peer_id = libp2p::PeerId::from_bytes(peer_id.as_bytes().clone()).unwrap();
    let closed = libp2p::Multiaddr::try_from(old_address.as_bytes().clone()).unwrap();
    let opened = libp2p::Multiaddr::try_from(new_address.as_bytes().clone()).unwrap();
    let closed = libp2p::core::ConnectedPoint::Dialer { address: closed };
    let opened = libp2p::core::ConnectedPoint::Dialer { address: opened };
    let id = libp2p::core::connection::ConnectionId::new(0);
    libp2p::swarm::NetworkBehaviour::inject_address_change(kademlia, &peer_id, &id, &closed, &opened);
}

} // verus!
