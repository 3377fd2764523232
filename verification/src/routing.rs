//! What the methods that touch the hash table come to, stated on the tables before and after.

use vstd::prelude::*;
use vstd::arithmetic::power2::pow2;
use libp2p::kad::record::store::MemoryStore;
use libp2p::kad::Kademlia;
use crate::kademlia::{
    address_added, address_changed, bit, bucket, bucket_awaited, bucket_has_offline, coherent,
    connection_opened, dht, dht_addresses, dht_key, differ_first_at,
    filed_as_connected, fresh_dht, get_started, kad_connected, kad_gets, kad_lasting, kad_local,
    kad_lookups, kad_manual, kad_max_records, kad_max_value_bytes, kad_offline, kad_pending,
    kad_puts, kad_query_addresses, kad_records, kad_replication, kad_table, lookup_started,
    quorum_in, recorded, routed, same_bucket, settled, table_addresses, takes_record, Dht,
};
use crate::laws::{interval_doubles, reported_address_is_in_table};
use crate::model::{
    addresses_in, adds_up, all_added, interval_after, is_address_list, value_put, DiscoveryView,
    GET_QUORUM,
};

verus! {

/// The state of the hash table shows each of its parts.
pub proof fn state_shows_each_part(kademlia: Kademlia<MemoryStore>)
    ensures
        dht(kademlia).local == kad_local(kademlia),
        dht(kademlia).table == kad_table(kademlia),
        dht(kademlia).pending == kad_pending(kademlia),
        dht(kademlia).connected == kad_connected(kademlia),
        dht(kademlia).records == kad_records(kademlia),
        dht(kademlia).lookups == kad_lookups(kademlia),
        dht(kademlia).gets == kad_gets(kademlia),
        dht(kademlia).puts == kad_puts(kademlia),
        dht(kademlia).query_addresses == kad_query_addresses(kademlia),
        dht(kademlia).offline == kad_offline(kademlia),
        dht(kademlia).lasting == kad_lasting(kademlia),
        dht(kademlia).max_records == kad_max_records(kademlia),
        dht(kademlia).max_value_bytes == kad_max_value_bytes(kademlia),
        dht(kademlia).replication == kad_replication(kademlia),
        dht(kademlia).manual == kad_manual(kademlia),
{
}

/// A fresh node knows no other, keeps no record and has nothing to do.
pub proof fn fresh_node_is_empty(local: Seq<u8>)
    ensures
        fresh_dht(local).local == local,
        forall|key: Seq<u8>| !(#[trigger] fresh_dht(local).table.dom().contains(key)),
        forall|key: Seq<u8>| !(#[trigger] fresh_dht(local).pending.dom().contains(key)),
        forall|p: Seq<u8>| !(#[trigger] fresh_dht(local).connected.contains(p)),
        forall|p: Seq<u8>| !(#[trigger] fresh_dht(local).offline.contains(p)),
        forall|key: Seq<u8>| !(#[trigger] fresh_dht(local).records.dom().contains(key)),
        fresh_dht(local).lookups.len() == 0,
        fresh_dht(local).gets.len() == 0,
        fresh_dht(local).puts.len() == 0,
        fresh_dht(local).query_addresses.len() == 0,
        fresh_dht(local).max_records == 1024,
        fresh_dht(local).max_value_bytes == 65 * 1024,
        fresh_dht(local).replication == 20,
        !fresh_dht(local).manual,
{
}

/// A node is in the routing table exactly if the table has it under its key, whatever the form of
/// its identity.
pub proof fn node_is_routed_by_its_entry(state: Dht, peer_id: Seq<u8>)
    ensures
        routed(state, peer_id) <==> state.table.dom().contains(dht_key(peer_id))
            && state.table[dht_key(peer_id)].0 == peer_id,
        table_addresses(state, peer_id) == if state.table.dom().contains(dht_key(peer_id)) {
            state.table[dht_key(peer_id)].1
        } else {
            Seq::empty()
        },
{
}

/// A node that is in the routing table is in a list that holds the nodes that are routed, and so is
/// any node other than the local one whose address was just added, if no other node has its key,
/// there is room in its bucket and none waits for a place there.
pub proof fn reported_node_is_known(
    before: Dht,
    after: Dht,
    later: Dht,
    peer_id: Seq<u8>,
    address: Seq<u8>,
    known: Seq<Seq<u8>>,
)
    requires
        dht_key(peer_id) != dht_key(before.local),
        before.table.dom().contains(dht_key(peer_id)) ==> before.table[dht_key(peer_id)].0
            == peer_id,
        before.table.dom().contains(dht_key(peer_id)) || bucket(before, dht_key(peer_id)).len()
            < 20,
        !bucket_awaited(before, dht_key(peer_id)),
        address_added(before, after, peer_id, address),
        settled(after, later),
        forall|p: Seq<u8>| #[trigger] known.contains(p) <==> routed(later, p),
    ensures
        later.table.dom().contains(dht_key(peer_id)),
        later.table[dht_key(peer_id)].0 == peer_id,
        known.contains(peer_id),
        forall|p: Seq<u8>| #[trigger]
            later.table.dom().contains(dht_key(p)) && later.table[dht_key(p)].0 == p
                ==> known.contains(p),
{
    let key = dht_key(peer_id);
    reported_address_is_in_table(before, after, later, peer_id, address);
    let mid = choose|mid: Dht|
        #![trigger settled(before, mid)]
        settled(before, mid) && recorded(
            mid,
            after,
            peer_id,
            address,
            mid.connected.contains(peer_id),
        );
    if mid.table.dom().contains(key) {
        if !before.table.dom().contains(key) {
            assert(before.pending.dom().contains(key));
        }
    }
    assert(after.table.dom().contains(key));
    assert(after.table[key].0 == peer_id);
    assert(routed(later, peer_id));
}

/// A key is in the bucket of another one exactly if the routing table has it and the first bit in
/// which it differs from the key of the local node is the first bit in which the other one does.
pub proof fn bucket_goes_by_the_first_bit(state: Dht, key: Seq<u8>, k: Seq<u8>)
    ensures
        bucket(state, key).contains(k) <==> state.table.dom().contains(k) && exists|i: int|
            {
                let local = dht_key(state.local);
                &&& 0 <= i < 256
                &&& #[trigger] bit(k, i) == bit(key, i)
                &&& bit(k, i) != bit(local, i)
                &&& forall|j: int|
                    0 <= j < i ==> #[trigger] bit(local, j) == bit(k, j) && bit(local, j) == bit(
                        key,
                        j,
                    )
            },
        forall|bytes: Seq<u8>, i: int|
            #![trigger bit(bytes, i)]
            bit(bytes, i) == (bytes[i / 8] >> ((7 - i % 8) as u8)) & 1,
{
    let local = dht_key(state.local);
    if bucket(state, key).contains(k) {
        let i = choose|i: int| #[trigger]
            differ_first_at(local, k, i) && differ_first_at(local, key, i);
        two_values(local[i / 8] >> ((7 - i % 8) as u8));
        two_values(k[i / 8] >> ((7 - i % 8) as u8));
        two_values(key[i / 8] >> ((7 - i % 8) as u8));
        assert(bit(k, i) == bit(key, i));
    }
    if state.table.dom().contains(k) && exists|i: int|
        {
            &&& 0 <= i < 256
            &&& #[trigger] bit(k, i) == bit(key, i)
            &&& bit(k, i) != bit(local, i)
            &&& forall|j: int|
                0 <= j < i ==> #[trigger] bit(local, j) == bit(k, j) && bit(local, j) == bit(key, j)
        } {
        let i = choose|i: int|
            {
                &&& 0 <= i < 256
                &&& #[trigger] bit(k, i) == bit(key, i)
                &&& bit(k, i) != bit(local, i)
                &&& forall|j: int|
                    0 <= j < i ==> #[trigger] bit(local, j) == bit(k, j) && bit(local, j) == bit(
                        key,
                        j,
                    )
            };
        assert(differ_first_at(local, k, i));
        assert(differ_first_at(local, key, i));
    }
}

/// A bit has two values.
proof fn two_values(byte: u8)
    ensures
        byte & 1 == 0 || byte & 1 == 1,
{
    assert(byte & 1 == 0 || byte & 1 == 1) by (bit_vector);
}

/// What time may do: a node that waited gets into the table as it is or gives up, and a node leaves
/// the table only if it is not connected and another one waits for a place in its bucket. The rest
/// stays as it is.
pub proof fn time_changes_only_the_waiting(before: Dht, after: Dht)
    requires
        settled(before, after),
    ensures
        after.local == before.local,
        after.connected == before.connected,
        after.records == before.records,
        after.lasting == before.lasting,
        after.lookups == before.lookups,
        after.gets == before.gets,
        after.puts == before.puts,
        after.query_addresses == before.query_addresses,
        after.max_records == before.max_records,
        after.max_value_bytes == before.max_value_bytes,
        after.replication == before.replication,
        after.manual == before.manual,
        forall|key: Seq<u8>| #[trigger]
            after.pending.dom().contains(key) ==> before.pending.dom().contains(key)
                && after.pending[key] == before.pending[key],
        forall|key: Seq<u8>| #[trigger]
            after.table.dom().contains(key) ==> {
                ||| before.table.dom().contains(key) && after.table[key] == before.table[key]
                ||| before.pending.dom().contains(key) && after.table[key] == before.pending[key]
            },
        forall|key: Seq<u8>| #[trigger]
            before.table.dom().contains(key) ==> after.table.dom().contains(key) || (
            before.offline.contains(before.table[key].0) && exists|k: Seq<u8>| #[trigger]
                before.pending.dom().contains(k) && (k == key || same_bucket(
                    dht_key(before.local),
                    k,
                    key,
                ))),
        forall|p: Seq<u8>| #[trigger] after.offline.contains(p) ==> before.offline.contains(p),
        forall|p: Seq<u8>| #[trigger]
            before.offline.contains(p) && (routed(after, p) || (after.pending.dom().contains(
                dht_key(p),
            ) && after.pending[dht_key(p)].0 == p)) ==> after.offline.contains(p),
        (forall|key: Seq<u8>| !(#[trigger] before.pending.dom().contains(key))) ==> after == before,
{
    assert forall|key: Seq<u8>| #[trigger] after.pending.dom().contains(key) implies {
        before.pending.dom().contains(key) && after.pending[key] == before.pending[key]
    } by {
        assert(before.pending.dom().contains(key));
    }
    if forall|key: Seq<u8>| !(#[trigger] before.pending.dom().contains(key)) {
        assert(before.pending =~= Map::empty());
    }
}

/// What adding an address of a node does, but for what time did before: nothing for the local node;
/// a further address, once, for a node that is in the table or waits; a new entry with just that
/// address for any other node if its bucket has fewer than twenty nodes; a place among those that
/// wait if the bucket is full, the node is connected, none waits there yet and some node there is
/// not connected; and nothing otherwise. Other nodes and everything else stay as they are.
pub proof fn adding_an_address(before: Dht, after: Dht, peer_id: Seq<u8>, address: Seq<u8>)
    requires
        address_added(before, after, peer_id, address),
    ensures
        exists|mid: Dht|
            #![trigger settled(before, mid)]
            {
                let key = dht_key(peer_id);
                let in_table = mid.table.dom().contains(key);
                let waits = mid.pending.dom().contains(key);
                let online = mid.connected.contains(peer_id);
                let full = bucket(mid, key).len() >= 20;
                let may_wait = online && (forall|k: Seq<u8>| #[trigger]
                    mid.pending.dom().contains(k) ==> k != key && !same_bucket(
                        dht_key(mid.local),
                        k,
                        key,
                    )) && (exists|k: Seq<u8>| #[trigger]
                    bucket(mid, key).contains(k) && mid.offline.contains(mid.table[k].0));
                &&& settled(before, mid)
                &&& after == (Dht {
                    table: after.table,
                    pending: after.pending,
                    offline: after.offline,
                    ..mid
                })
                &&& forall|k: Seq<u8>|
                    #![trigger after.table.dom().contains(k)]
                    k != key ==> after.table.dom().contains(k) == mid.table.dom().contains(k)
                        && after.table[k] == mid.table[k]
                &&& forall|k: Seq<u8>|
                    #![trigger after.pending.dom().contains(k)]
                    k != key ==> after.pending.dom().contains(k) == mid.pending.dom().contains(k)
                        && after.pending[k] == mid.pending[k]
                &&& key == dht_key(mid.local) ==> after == mid
                &&& key != dht_key(mid.local) && in_table ==> {
                    &&& after.pending == mid.pending && after.offline == mid.offline
                    &&& after.table.dom().contains(key)
                    &&& after.table[key].0 == mid.table[key].0
                    &&& after.table[key].1 == if mid.table[key].1.contains(address) {
                        mid.table[key].1
                    } else {
                        mid.table[key].1.push(address)
                    }
                }
                &&& key != dht_key(mid.local) && !in_table && waits ==> {
                    &&& after.table == mid.table && after.offline == mid.offline
                    &&& after.pending.dom().contains(key)
                    &&& after.pending[key].0 == mid.pending[key].0
                    &&& after.pending[key].1 == if mid.pending[key].1.contains(address) {
                        mid.pending[key].1
                    } else {
                        mid.pending[key].1.push(address)
                    }
                }
                &&& key != dht_key(mid.local) && !in_table && !waits && !full ==> {
                    &&& after.pending == mid.pending
                    &&& after.offline == if online {
                        mid.offline
                    } else {
                        mid.offline.insert(peer_id)
                    }
                    &&& after.table.dom().contains(key)
                    &&& after.table[key] == (peer_id, seq![address])
                }
                &&& key != dht_key(mid.local) && !in_table && !waits && full && may_wait ==> {
                    &&& after.table == mid.table && after.offline == mid.offline
                    &&& after.pending.dom().contains(key)
                    &&& after.pending[key] == (peer_id, seq![address])
                }
                &&& key != dht_key(mid.local) && !in_table && !waits && full && !may_wait ==> after
                    == mid
            },
{
    let mid = choose|mid: Dht|
        #![trigger settled(before, mid)]
        settled(before, mid) && recorded(
            mid,
            after,
            peer_id,
            address,
            mid.connected.contains(peer_id),
        );
    assert(settled(before, mid));
    entry_is_recorded(mid, after, peer_id, address, mid.connected.contains(peer_id));
}

/// What recording an address does.
proof fn entry_is_recorded(
    mid: Dht,
    after: Dht,
    peer_id: Seq<u8>,
    address: Seq<u8>,
    online: bool,
)
    requires
        recorded(mid, after, peer_id, address, online),
    ensures
        ({
            let key = dht_key(peer_id);
            let in_table = mid.table.dom().contains(key);
            let waits = mid.pending.dom().contains(key);
            let full = bucket(mid, key).len() >= 20;
            let may_wait = online && (forall|k: Seq<u8>| #[trigger]
                mid.pending.dom().contains(k) ==> k != key && !same_bucket(
                    dht_key(mid.local),
                    k,
                    key,
                )) && (exists|k: Seq<u8>| #[trigger]
                bucket(mid, key).contains(k) && mid.offline.contains(mid.table[k].0));
            &&& after == (Dht {
                table: after.table,
                pending: after.pending,
                offline: after.offline,
                ..mid
            })
            &&& forall|k: Seq<u8>|
                #![trigger after.table.dom().contains(k)]
                k != key ==> after.table.dom().contains(k) == mid.table.dom().contains(k)
                    && after.table[k] == mid.table[k]
            &&& forall|k: Seq<u8>|
                #![trigger after.pending.dom().contains(k)]
                k != key ==> after.pending.dom().contains(k) == mid.pending.dom().contains(k)
                    && after.pending[k] == mid.pending[k]
            &&& key == dht_key(mid.local) ==> after == mid
            &&& key != dht_key(mid.local) && in_table ==> {
                &&& after.pending == mid.pending && after.offline == mid.offline
                &&& after.table.dom().contains(key)
                &&& after.table[key].0 == mid.table[key].0
                &&& after.table[key].1 == if mid.table[key].1.contains(address) {
                    mid.table[key].1
                } else {
                    mid.table[key].1.push(address)
                }
            }
            &&& key != dht_key(mid.local) && !in_table && waits ==> {
                &&& after.table == mid.table && after.offline == mid.offline
                &&& after.pending.dom().contains(key)
                &&& after.pending[key].0 == mid.pending[key].0
                &&& after.pending[key].1 == if mid.pending[key].1.contains(address) {
                    mid.pending[key].1
                } else {
                    mid.pending[key].1.push(address)
                }
            }
            &&& key != dht_key(mid.local) && !in_table && !waits && !full ==> {
                &&& after.pending == mid.pending
                &&& after.offline == if online {
                    mid.offline
                } else {
                    mid.offline.insert(peer_id)
                }
                &&& after.table.dom().contains(key)
                &&& after.table[key] == (peer_id, seq![address])
            }
            &&& key != dht_key(mid.local) && !in_table && !waits && full && may_wait ==> {
                &&& after.table == mid.table && after.offline == mid.offline
                &&& after.pending.dom().contains(key)
                &&& after.pending[key] == (peer_id, seq![address])
            }
            &&& key != dht_key(mid.local) && !in_table && !waits && full && !may_wait ==> after
                == mid
        }),
{
    let key = dht_key(peer_id);
    assert(bucket_awaited(mid, key) <==> exists|k: Seq<u8>| #[trigger]
        mid.pending.dom().contains(k) && (k == key || same_bucket(dht_key(mid.local), k, key)));
    assert(bucket_has_offline(mid, key) <==> exists|k: Seq<u8>| #[trigger]
        bucket(mid, key).contains(k) && mid.offline.contains(mid.table[k].0));
}

/// Opening a connection, but for what time did before, records the address that was dialed, if one
/// was and the node may get into the table; afterwards the node is not filed as not connected, no
/// other node changes its status, and of those that wait only one of the same bucket may give up.
pub proof fn opening_a_connection(
    before: Dht,
    after: Dht,
    peer_id: Seq<u8>,
    dialed: Option<Seq<u8>>,
)
    requires
        connection_opened(before, after, peer_id, dialed),
    ensures
        after.connected == before.connected,
        after.records == before.records,
        after.gets == before.gets,
        after.puts == before.puts,
        after.lookups == before.lookups,
        after.query_addresses == before.query_addresses,
        after.local == before.local,
        !after.offline.contains(peer_id),
        forall|p: Seq<u8>| #[trigger] after.offline.contains(p) ==> before.offline.contains(p),
        exists|mid: Dht, full: Dht|
            #![trigger settled(before, mid), filed_as_connected(full, after, peer_id)]
            {
                let key = dht_key(peer_id);
                let filed = mid.table.dom().contains(key) || mid.pending.dom().contains(key);
                &&& settled(before, mid)
                &&& after.table == full.table
                &&& forall|k: Seq<u8>| #[trigger]
                    after.pending.dom().contains(k) ==> full.pending.dom().contains(k)
                        && after.pending[k] == full.pending[k]
                &&& forall|k: Seq<u8>| #[trigger]
                    full.pending.dom().contains(k) ==> after.pending.dom().contains(k)
                        || same_bucket(dht_key(before.local), k, key)
                &&& dialed is None ==> full == mid
                &&& mid.manual && !filed ==> full == mid
                &&& (dialed matches Some(address) && (!mid.manual || filed)) ==> recorded(
                    mid,
                    full,
                    peer_id,
                    dialed->0,
                    true,
                )
            },
{
    let (mid, full) = choose|mid: Dht, full: Dht|
        #![trigger settled(before, mid), filed_as_connected(full, after, peer_id)]
        settled(before, mid) && filed_as_connected(full, after, peer_id) && match dialed {
            Some(address) if !mid.manual || crate::kademlia::known(mid, peer_id) => recorded(
                mid,
                full,
                peer_id,
                address,
                true,
            ),
            _ => full == mid,
        };
    assert(settled(before, mid) && filed_as_connected(full, after, peer_id));
    assert forall|k: Seq<u8>| #[trigger] after.pending.dom().contains(k) implies {
        full.pending.dom().contains(k) && after.pending[k] == full.pending[k]
    } by {
        assert(full.pending.dom().contains(k));
    }
}

/// A node that is dialed while none waits in its bucket is in the table afterwards, with the address
/// that was dialed, if it is not the local node, there is room for it and nodes get into the table
/// when they are connected.
pub proof fn dialed_node_is_routed(before: Dht, after: Dht, peer_id: Seq<u8>, address: Seq<u8>)
    requires
        forall|key: Seq<u8>| !(#[trigger] before.pending.dom().contains(key)),
        dht_key(peer_id) != dht_key(before.local),
        before.table.dom().contains(dht_key(peer_id)) || bucket(before, dht_key(peer_id)).len()
            < 20,
        !before.manual,
        connection_opened(before, after, peer_id, Some(address)),
    ensures
        after.table.dom().contains(dht_key(peer_id)),
        after.table[dht_key(peer_id)].1.contains(address),
        !after.offline.contains(peer_id),
{
    opening_a_connection(before, after, peer_id, Some(address));
    let key = dht_key(peer_id);
    let (mid, full) = choose|mid: Dht, full: Dht|
        #![trigger settled(before, mid), filed_as_connected(full, after, peer_id)]
        settled(before, mid) && after.table == full.table && recorded(
            mid,
            full,
            peer_id,
            address,
            true,
        );
    time_changes_only_the_waiting(before, mid);
    entry_is_recorded(mid, full, peer_id, address, true);
    if mid.table.dom().contains(key) {
        let list = mid.table[key].1;
        if !list.contains(address) {
            assert(full.table[key].1[list.len() as int] == address);
        }
    } else {
        assert(full.table[key].1[0] == address);
    }
}

/// Counting a connection adds one to the number of connections and the node to those that are
/// connected, and changes nothing else.
pub proof fn counting_a_connection(state: DiscoveryView, peer_id: Seq<u8>)
    ensures
        ({
            let after = state.with_connection(peer_id);
            &&& after.num_connections == state.num_connections + 1
            &&& forall|p: Seq<u8>| #[trigger]
                after.dht.connected.contains(p) <==> state.dht.connected.contains(p) || p == peer_id
            &&& after == (DiscoveryView {
                num_connections: after.num_connections,
                dht: Dht { connected: after.dht.connected, ..state.dht },
                ..state
            })
        }),
{
}

/// Closing the last connection to a node takes one from the number of connections and the node from
/// those that are connected. The node is filed as not connected if it is in the table or waits, and
/// no other node changes its status. But for what time does, nothing else changes.
pub proof fn closing_a_connection(state: DiscoveryView, after: DiscoveryView, peer_id: Seq<u8>)
    requires
        state.num_connections > 0,
        state.connection_closed(after, peer_id),
    ensures
        after.num_connections == state.num_connections - 1,
        after.user_defined == state.user_defined,
        after.discoveries == state.discoveries,
        after.failed_puts == state.failed_puts,
        after.duration_to_next_kad == state.duration_to_next_kad,
        after.local_peer_id == state.local_peer_id,
        after.mdns == state.mdns,
        forall|p: Seq<u8>| #[trigger]
            after.dht.connected.contains(p) <==> state.dht.connected.contains(p) && p != peer_id,
        routed(after.dht, peer_id) ==> after.dht.offline.contains(peer_id),
        forall|p: Seq<u8>| #[trigger]
            state.dht.offline.contains(p) && routed(after.dht, p) ==> after.dht.offline.contains(p),
        forall|p: Seq<u8>| #[trigger]
            after.dht.offline.contains(p) ==> state.dht.offline.contains(p) || dht_key(p)
                == dht_key(peer_id),
        settled(
            state.dht,
            Dht { connected: state.dht.connected, offline: state.dht.offline, ..after.dht },
        ),
{
}

/// A change of address puts the new address in the place of the first occurrence of the old one in
/// the entry of the node, and in the place of each occurrence in the queries for that node. But for
/// what time did before, nothing else changes.
pub proof fn changing_an_address(
    before: Dht,
    after: Dht,
    peer_id: Seq<u8>,
    old_address: Seq<u8>,
    new_address: Seq<u8>,
)
    requires
        address_changed(before, after, peer_id, old_address, new_address),
    ensures
        after.local == before.local,
        after.connected == before.connected,
        after.records == before.records,
        after.lookups == before.lookups,
        after.gets == before.gets,
        after.puts == before.puts,
        exists|mid: Dht|
            #![trigger settled(before, mid)]
            {
                let key = dht_key(peer_id);
                &&& settled(before, mid)
                &&& after.offline == mid.offline
                &&& after.table.dom() == mid.table.dom()
                &&& after.pending.dom() == mid.pending.dom()
                &&& forall|k: Seq<u8>|
                    k != key && mid.table.dom().contains(k) ==> #[trigger] after.table[k]
                        == mid.table[k]
                &&& forall|k: Seq<u8>|
                    k != key && mid.pending.dom().contains(k) ==> #[trigger] after.pending[k]
                        == mid.pending[k]
                &&& mid.table.dom().contains(key) ==> after.pending == mid.pending && {
                    let list = mid.table[key].1;
                    &&& after.table[key].0 == mid.table[key].0
                    &&& after.table[key].1.len() == list.len()
                    &&& forall|i: int|
                        0 <= i < list.len() ==> #[trigger] after.table[key].1[i] == if list[i]
                            == old_address && !(list.take(i).contains(old_address)) {
                            new_address
                        } else {
                            list[i]
                        }
                }
                &&& !mid.table.dom().contains(key) && mid.pending.dom().contains(key) ==> {
                    let list = mid.pending[key].1;
                    &&& after.pending[key].0 == mid.pending[key].0
                    &&& after.pending[key].1.len() == list.len()
                    &&& forall|i: int|
                        0 <= i < list.len() ==> #[trigger] after.pending[key].1[i] == if list[i]
                            == old_address && !(list.take(i).contains(old_address)) {
                            new_address
                        } else {
                            list[i]
                        }
                }
            },
        forall|p: Seq<u8>, a: Seq<u8>|
            #![trigger after.query_addresses.count((p, a))]
            p != peer_id || a != old_address && a != new_address ==> after.query_addresses.count(
                (p, a),
            ) == before.query_addresses.count((p, a)),
        old_address != new_address ==> after.query_addresses.count((peer_id, old_address)) == 0,
        old_address != new_address ==> after.query_addresses.count((peer_id, new_address))
            == before.query_addresses.count((peer_id, old_address))
            + before.query_addresses.count((peer_id, new_address)),
        old_address == new_address ==> after.query_addresses.count((peer_id, new_address))
            == before.query_addresses.count((peer_id, new_address)),
{
    let key = dht_key(peer_id);
    let mid = choose|mid: Dht|
        #![trigger settled(before, mid)]
        {
            &&& settled(before, mid)
            &&& after == (Dht {
                table: crate::kademlia::replace_in(mid.table, key, old_address, new_address),
                pending: if mid.table.dom().contains(key) {
                    mid.pending
                } else {
                    crate::kademlia::replace_in(mid.pending, key, old_address, new_address)
                },
                query_addresses: after.query_addresses,
                ..mid
            })
        };
    assert(settled(before, mid));
    assert(after.table.dom() =~= mid.table.dom());
    assert(after.pending.dom() =~= mid.pending.dom());
    if mid.table.dom().contains(key) {
        first_is_swapped(mid.table[key].1, old_address, new_address);
    } else if mid.pending.dom().contains(key) {
        first_is_swapped(mid.pending[key].1, old_address, new_address);
    }
}

/// Replacing the first occurrence of an address.
proof fn first_is_swapped(list: Seq<Seq<u8>>, old_address: Seq<u8>, new_address: Seq<u8>)
    ensures
        ({
            let after = crate::kademlia::replace_address(list, old_address, new_address);
            &&& after.len() == list.len()
            &&& forall|i: int|
                0 <= i < list.len() ==> #[trigger] after[i] == if list[i] == old_address && !(
                list.take(i).contains(old_address)) {
                    new_address
                } else {
                    list[i]
                }
        }),
{
    list.index_of_first_ensures(old_address);
    let after = crate::kademlia::replace_address(list, old_address, new_address);
    assert forall|i: int| 0 <= i < list.len() implies #[trigger] after[i] == if list[i]
        == old_address && !(list.take(i).contains(old_address)) {
        new_address
    } else {
        list[i]
    } by {
        if list[i] == old_address {
            assert(list.contains(old_address));
            let first = list.index_of_first(old_address)->0;
            if first < i {
                assert(list.take(i)[first] == old_address);
            } else if list.take(i).contains(old_address) {
                let j = list.take(i).index_of(old_address);
                assert(list[j] == old_address);
            }
        }
    }
}

/// A random query adds one search for exactly the identity that was given. But for what time does,
/// nothing else changes.
pub proof fn looking_up_an_identity(before: Dht, after: Dht, key: Seq<u8>)
    requires
        lookup_started(before, after, key),
    ensures
        after.lookups.count(key) == before.lookups.count(key) + 1,
        forall|k: Seq<u8>|
            k != key ==> #[trigger] after.lookups.count(k) == before.lookups.count(k),
        settled(before, Dht { lookups: before.lookups, ..after }),
{
}

/// `get_value` adds one search, for exactly the key that was given and ten answers, or as many as
/// there are copies of a record if those are fewer. The local node gives its own record as the first
/// answer, if it has one that never expires. But for such as have expired and for what time does,
/// nothing else changes.
pub proof fn getting_a_value(before: Dht, after: Dht, key: Seq<u8>)
    requires
        get_started(before, after, key, GET_QUORUM as nat),
    ensures
        exists|answers: nat, answer: Option<Seq<u8>>|
            {
                &&& after.gets == #[trigger] before.gets.insert((key, answers, answer))
                &&& before.replication >= 10 ==> answers == 10
                &&& before.replication < 10 ==> answers == before.replication
                &&& !before.records.dom().contains(key) ==> answer is None
                &&& before.records.dom().contains(key) && before.lasting.contains(key) ==> answer
                    == Some(before.records[key])
                &&& answer is Some ==> answer == Some(before.records[key])
                &&& answer is Some ==> after.records == before.records
            },
        forall|k: Seq<u8>|
            k != key && before.records.dom().contains(k) ==> #[trigger] after.records.dom().contains(
                k,
            ) && after.records[k] == before.records[k],
        forall|k: Seq<u8>| #[trigger]
            after.records.dom().contains(k) ==> before.records.dom().contains(k),
        before.records.dom().contains(key) && before.lasting.contains(key)
            ==> after.records.dom().contains(key),
        settled(before, Dht { gets: before.gets, records: before.records, ..after }),
{
    let answers = quorum_in(before, 10);
    let kept = if before.records.dom().contains(key) {
        Some(before.records[key])
    } else {
        None
    };
    if after.records == before.records && after.gets == before.gets.insert((key, answers, kept)) {
    } else {
        assert(after.gets == before.gets.insert((key, answers, None)));
    }
}

/// The local node takes a record exactly if the value is shorter than the limit and the key is known
/// or there are fewer records than the limit.
pub proof fn taking_a_record(state: Dht, key: Seq<u8>, value: Seq<u8>)
    ensures
        takes_record(state, key, value) <==> value.len() < state.max_value_bytes && (
        state.records.dom().contains(key) || state.records.len() < state.max_records),
{
}

/// `put_value` keeps the value as it is under the key as it is, for good, and starts to publish
/// exactly these, asking for one other node to take them; other records stay as they are. Where the
/// record is refused, its key goes to the end of those that wait to be reported, and nothing else
/// changes.
pub proof fn putting_a_value(
    before: DiscoveryView,
    after: DiscoveryView,
    key: Seq<u8>,
    value: Seq<u8>,
)
    requires
        value_put(before, after, key, value),
    ensures
        takes_record(before.dht, key, value) ==> {
            let nodes = if before.dht.replication > 1 {
                1
            } else {
                before.dht.replication
            };
            &&& after == (DiscoveryView { dht: after.dht, ..before })
            &&& after.dht.records.dom().contains(key)
            &&& after.dht.records[key] == value
            &&& after.dht.lasting.contains(key)
            &&& forall|k: Seq<u8>|
                k != key ==> #[trigger] after.dht.records.dom().contains(k)
                    == before.dht.records.dom().contains(k) && after.dht.records[k]
                    == before.dht.records[k]
            &&& after.dht.puts == before.dht.puts.insert((key, value, nodes))
            &&& after.dht.gets == before.dht.gets
            &&& after.dht.lookups == before.dht.lookups
            &&& after.dht.connected == before.dht.connected
        },
        !takes_record(before.dht, key, value) ==> {
            &&& after.dht == before.dht
            &&& after.failed_puts.len() == before.failed_puts.len() + 1
            &&& after.failed_puts[before.failed_puts.len() as int] == key
            &&& forall|i: int|
                0 <= i < before.failed_puts.len() ==> #[trigger] after.failed_puts[i]
                    == before.failed_puts[i]
            &&& after == (DiscoveryView { failed_puts: after.failed_puts, ..before })
        },
{
}

/// An address that is made known goes with its node to the end of the list, and the node to the end
/// of those that wait to be reported, if the list does not have that very pair; else nothing
/// changes. Nothing else changes in either case.
pub proof fn making_an_address_known(state: DiscoveryView, peer_id: Seq<u8>, address: Seq<u8>)
    ensures
        ({
            let after = state.with_known_address(peer_id, address);
            let known = exists|i: int|
                0 <= i < state.user_defined.len() && #[trigger] state.user_defined[i] == (
                    peer_id,
                    address,
                );
            &&& known ==> after == state
            &&& !known ==> {
                &&& after.user_defined.len() == state.user_defined.len() + 1
                &&& after.user_defined.last() == (peer_id, address)
                &&& after.user_defined.drop_last() == state.user_defined
                &&& after.discoveries.len() == state.discoveries.len() + 1
                &&& after.discoveries.last() == peer_id
                &&& after.discoveries.drop_last() == state.discoveries
                &&& after == (DiscoveryView {
                    user_defined: after.user_defined,
                    discoveries: after.discoveries,
                    ..state
                })
            }
        }),
{
    let after = state.with_known_address(peer_id, address);
    assert(after.user_defined.drop_last() =~= state.user_defined
        || state.user_defined.contains((peer_id, address)));
    assert(after.discoveries.drop_last() =~= state.discoveries
        || state.user_defined.contains((peer_id, address)));
}

/// The addresses of a node in a list grow by the address of each further entry that is for the
/// node, at the end, and by nothing else.
pub proof fn listing_goes_entry_by_entry(
    entries: Seq<(Seq<u8>, Seq<u8>)>,
    entry: (Seq<u8>, Seq<u8>),
    peer_id: Seq<u8>,
)
    ensures
        addresses_in(Seq::empty(), peer_id) == Seq::<Seq<u8>>::empty(),
        entry.0 == peer_id ==> addresses_in(entries.push(entry), peer_id) == addresses_in(
            entries,
            peer_id,
        ).push(entry.1),
        entry.0 != peer_id ==> addresses_in(entries.push(entry), peer_id) == addresses_in(
            entries,
            peer_id,
        ),
{
    reveal_with_fuel(Seq::filter_map, 2);
    assert(entries.push(entry).drop_last() =~= entries);
    assert(addresses_in(entries.push(entry), peer_id) =~= if entry.0 == peer_id {
        addresses_in(entries, peer_id).push(entry.1)
    } else {
        addresses_in(entries, peer_id)
    });
}

/// The list of the addresses of a node consists of those that are known for good, those of its entry
/// in the routing table, those that queries came across, each as often as they did, and those found
/// on the local network, in that order and with nothing else.
pub proof fn listing_the_addresses(
    state: DiscoveryView,
    peer_id: Seq<u8>,
    local_network: Seq<Seq<u8>>,
    addresses: Seq<Seq<u8>>,
)
    requires
        is_address_list(state, peer_id, local_network, addresses),
    ensures
        ({
            let known = addresses_in(state.user_defined, peer_id);
            let in_table = if state.dht.table.dom().contains(dht_key(peer_id)) {
                state.dht.table[dht_key(peer_id)].1
            } else {
                Seq::empty()
            };
            let n = (known.len() + in_table.len()) as int;
            let m = addresses.len() - local_network.len();
            &&& n <= m
            &&& addresses.take(n) == known + in_table
            &&& forall|a: Seq<u8>| #[trigger]
                addresses.subrange(n, m).to_multiset().count(a) == state.dht.query_addresses.count(
                    (peer_id, a),
                )
            &&& addresses.skip(m) == local_network
        }),
{
    let from_dht = choose|from_dht: Seq<Seq<u8>>|
        #![trigger dht_addresses(state.dht, peer_id, from_dht)]
        dht_addresses(state.dht, peer_id, from_dht) && addresses == state.user_addresses(peer_id)
            + from_dht + local_network;
    let in_table = table_addresses(state.dht, peer_id);
    let from_queries = from_dht.skip(in_table.len() as int);
    assert(from_dht =~= in_table + from_queries);
    let known = addresses_in(state.user_defined, peer_id);
    assert(addresses =~= known + in_table + from_queries + local_network);
    let n = (known.len() + in_table.len()) as int;
    let m = addresses.len() - local_network.len();
    assert(addresses.take(n) =~= known + in_table);
    assert(addresses.subrange(n, m) =~= from_queries);
    assert(addresses.skip(m) =~= local_network);
    assert forall|a: Seq<u8>| #[trigger]
        addresses.subrange(n, m).to_multiset().count(a) == state.dht.query_addresses.count(
            (peer_id, a),
        ) by {
        assert(state.dht.query_addresses.count((peer_id, a)) == from_queries.to_multiset().count(a));
    }
}

/// The nodes that a behaviour is set up with are added one after the other, each with its address,
/// to a table that is empty at first.
pub proof fn setting_up_adds_each_node(
    local: Seq<u8>,
    state: Dht,
    entries: Seq<(Seq<u8>, Seq<u8>)>,
)
    requires
        all_added(fresh_dht(local), state, entries),
    ensures
        exists|states: Seq<Dht>|
            {
                &&& #[trigger] states.len() == entries.len() + 1
                &&& states[0] == fresh_dht(local)
                &&& states[entries.len() as int] == state
                &&& forall|i: int|
                    #![trigger entries[i]]
                    0 <= i < entries.len() ==> address_added(
                        states[i],
                        states[i + 1],
                        entries[i].0,
                        entries[i].1,
                    )
            },
{
    let states = choose|states: Seq<Dht>| #[trigger]
        adds_up(states, fresh_dht(local), state, entries);
    assert(states.len() == entries.len() + 1);
}

/// The state is coherent exactly if no connected node is filed as not connected.
pub proof fn coherence_is_about_connected_nodes(state: Dht)
    ensures
        coherent(state) <==> forall|p: Seq<u8>|
            !(#[trigger] state.connected.contains(p) && state.offline.contains(p)),
{
    if forall|p: Seq<u8>| !(#[trigger] state.connected.contains(p) && state.offline.contains(p)) {
        assert(state.connected.disjoint(state.offline));
    }
}

/// The pause between two random queries is always a power of two, or a minute.
pub proof fn pause_is_a_power_of_two(state: DiscoveryView)
    requires
        state.well_formed(),
    ensures
        1 <= state.duration_to_next_kad <= 60,
        exists|n: nat|
            state.duration_to_next_kad == if #[trigger] pow2(n) < 60 {
                pow2(n)
            } else {
                60
            },
{
    let queries = choose|queries: nat|
        state.duration_to_next_kad == #[trigger] interval_after(queries);
    interval_doubles(queries);
    assert(pow2(queries) == pow2(queries));
}

} // verus!
