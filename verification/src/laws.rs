//! What holds of the discovery as a whole.

use vstd::prelude::*;
use vstd::seq_lib::{lemma_multiset_commutative, seq_to_set_is_finite};
use vstd::set_lib::lemma_len_subset;
use vstd::arithmetic::power2::{lemma2_to64, lemma_pow2_unfold, pow2};
use crate::event::{
    record_views, search_outcome, ActionView, Async, DiscoveryOutView, KademliaOut, Key, MdnsAction,
    MdnsEvent, NetworkBehaviourAction, PollInput, PollOutputView, PutValueResult, Record,
    TimerState,
};
use crate::address::Multiaddr;
use crate::kademlia::{
    address_added, address_changed, bit, bucket, bucket_awaited, coherent, connection_opened,
    dht_addresses, dht_key, differ_first_at, fresh_dht, get_started, lookup_started, put_started,
    quorum_in, recorded, routed, same_bucket, settled, table_addresses, takes_record, with_address,
    Dht, Table, BUCKET_SIZE,
};
use crate::model::{
    addresses_in, address_for, adds_up, all_added, called, entry_peers, interval_after,
    is_address_list, next_interval, poll_next, poll_output, report, value_put, without_first, Call,
    DiscoveryView, GET_QUORUM, MAX_INTERVAL, PUT_QUORUM,
};
use crate::peer::PeerId;

verus! {

/// The addresses of a node in a list are those that the list has for that node.
pub proof fn lists_what_is_known(
    entries: Seq<(Seq<u8>, Seq<u8>)>,
    peer_id: Seq<u8>,
    address: Seq<u8>,
)
    ensures
        addresses_in(entries, peer_id).contains(address) <==> entries.contains((peer_id, address)),
    decreases entries.len(),
{
    let f = address_for(peer_id);
    if entries.len() > 0 {
        let rest = entries.drop_last();
        lists_what_is_known(rest, peer_id, address);
        let listed = addresses_in(rest, peer_id);
        let all = addresses_in(entries, peer_id);
        if entries.contains((peer_id, address)) {
            let i = entries.index_of((peer_id, address));
            if i < rest.len() {
                assert(rest[i] == (peer_id, address));
                let j = listed.index_of(address);
                assert(all[j] == address);
            } else {
                assert(f(entries.last()) == Some(address));
                assert(all[listed.len() as int] == address);
            }
        }
        if all.contains(address) {
            let j = all.index_of(address);
            if j < listed.len() {
                assert(listed[j] == address);
                let i = rest.index_of((peer_id, address));
                assert(entries[i] == (peer_id, address));
            } else {
                assert(entries[entries.len() - 1] == (peer_id, address));
            }
        }
    }
}

/// An address of a node that is known for good is among the addresses of the node, whatever the
/// hash table and the local network have to say.
pub proof fn known_address_is_listed(
    state: DiscoveryView,
    peer_id: Seq<u8>,
    address: Seq<u8>,
    local_network: Seq<Seq<u8>>,
    addresses: Seq<Seq<u8>>,
)
    requires
        state.user_defined.contains((peer_id, address)),
        is_address_list(state, peer_id, local_network, addresses),
    ensures
        addresses.contains(address),
{
    lists_what_is_known(state.user_defined, peer_id, address);
    let user = state.user_addresses(peer_id);
    let i = user.index_of(address);
    assert(addresses[i] == address);
}

/// An address that is made known for one node neither shows up under another node nor hides
/// anything there: the other node has the same addresses before and after.
pub proof fn known_address_is_of_one_node(
    state: DiscoveryView,
    peer_id: Seq<u8>,
    address: Seq<u8>,
    other: Seq<u8>,
)
    requires
        peer_id != other,
    ensures
        ({
            let after = state.with_known_address(peer_id, address);
            &&& after.user_addresses(other) == state.user_addresses(other)
            &&& forall|local_network: Seq<Seq<u8>>, list: Seq<Seq<u8>>|
                is_address_list(after, other, local_network, list) <==> #[trigger] is_address_list(
                    state,
                    other,
                    local_network,
                    list,
                )
        }),
{
    let after = state.with_known_address(peer_id, address);
    if !state.user_defined.contains((peer_id, address)) {
        let f = address_for(other);
        assert(after.user_defined.drop_last() =~= state.user_defined);
        assert(f(after.user_defined.last()) == None::<Seq<u8>>);
        reveal_with_fuel(Seq::filter_map, 2);
    }
    assert(after.user_addresses(other) =~= state.user_addresses(other));
    assert forall|local_network: Seq<Seq<u8>>, list: Seq<Seq<u8>>|
        is_address_list(after, other, local_network, list) <==> #[trigger] is_address_list(
            state,
            other,
            local_network,
            list,
        ) by {
        if is_address_list(after, other, local_network, list) {
            let from_dht = choose|from_dht: Seq<Seq<u8>>|
                #![trigger dht_addresses(after.dht, other, from_dht)]
                dht_addresses(after.dht, other, from_dht) && list == after.user_addresses(other)
                    + from_dht + local_network;
            assert(dht_addresses(state.dht, other, from_dht));
        }
        if is_address_list(state, other, local_network, list) {
            let from_dht = choose|from_dht: Seq<Seq<u8>>|
                #![trigger dht_addresses(state.dht, other, from_dht)]
                dht_addresses(state.dht, other, from_dht) && list == state.user_addresses(other)
                    + from_dht + local_network;
            assert(dht_addresses(after.dht, other, from_dht));
        }
    }
}

/// The addresses of a node that are listed before and after an address is made known for another
/// node are the same, but for the order of those that queries came across. Where the queries came
/// across no more than one address, the order is the same too. Left out is a node that the passing
/// of time may bring into the routing table or out of it: one that waits for a place, or one that
/// is not connected while another waits for a place in its bucket.
pub proof fn listing_is_not_affected_by_other_nodes(
    before: DiscoveryView,
    later: DiscoveryView,
    peer_id: Seq<u8>,
    address: Seq<u8>,
    other: Seq<u8>,
    local_network: Seq<Seq<u8>>,
    first: Seq<Seq<u8>>,
    second: Seq<Seq<u8>>,
)
    requires
        peer_id != other,
        is_address_list(before, other, local_network, first),
        later == (DiscoveryView {
            dht: later.dht,
            ..before.with_known_address(peer_id, address)
        }),
        settled(before.dht, later.dht),
        is_address_list(later, other, local_network, second),
        !before.dht.pending.dom().contains(dht_key(other)),
        before.dht.table.dom().contains(dht_key(other)) && bucket_awaited(
            before.dht,
            dht_key(other),
        ) ==> !before.dht.offline.contains(before.dht.table[dht_key(other)].0),
    ensures
        first.to_multiset() == second.to_multiset(),
        (before.user_addresses(other) + table_addresses(before.dht, other)).is_prefix_of(first),
        (before.user_addresses(other) + table_addresses(before.dht, other)).is_prefix_of(second),
        (forall|a: Seq<u8>, b: Seq<u8>| #[trigger]
            before.dht.query_addresses.count((other, a)) > 0
                && #[trigger] before.dht.query_addresses.count((other, b)) > 0 ==> a == b)
            ==> first == second,
{
    broadcast use vstd::seq_lib::group_to_multiset_ensures;

    known_address_is_of_one_node(before, peer_id, address, other);
    let key = dht_key(other);
    assert(later.dht.table.dom().contains(key) == before.dht.table.dom().contains(key));
    assert(table_addresses(later.dht, other) == table_addresses(before.dht, other));
    let user = before.user_addresses(other);
    assert(later.user_addresses(other) == user);
    let table = table_addresses(before.dht, other);
    let one = choose|from_dht: Seq<Seq<u8>>|
        #![trigger dht_addresses(before.dht, other, from_dht)]
        dht_addresses(before.dht, other, from_dht) && first == user + from_dht + local_network;
    let two = choose|from_dht: Seq<Seq<u8>>|
        #![trigger dht_addresses(later.dht, other, from_dht)]
        dht_addresses(later.dht, other, from_dht) && second == user + from_dht + local_network;
    let n = table.len() as int;
    assert(one =~= table + one.skip(n));
    assert(two =~= table + two.skip(n));
    assert(one.skip(n).to_multiset() =~= two.skip(n).to_multiset()) by {
        assert forall|a: Seq<u8>| #[trigger]
            one.skip(n).to_multiset().count(a) == two.skip(n).to_multiset().count(a) by {
            assert(before.dht.query_addresses.count((other, a)) == one.skip(
                n,
            ).to_multiset().count(a));
            assert(later.dht.query_addresses.count((other, a)) == two.skip(
                n,
            ).to_multiset().count(a));
        }
    }
    lemma_multiset_commutative(table, one.skip(n));
    lemma_multiset_commutative(table, two.skip(n));
    lemma_multiset_commutative(user, one);
    lemma_multiset_commutative(user, two);
    lemma_multiset_commutative(user + one, local_network);
    lemma_multiset_commutative(user + two, local_network);
    assert((user + table).is_prefix_of(first)) by {
        assert(first.take((user + table).len() as int) =~= user + table);
    }
    assert((user + table).is_prefix_of(second)) by {
        assert(second.take((user + table).len() as int) =~= user + table);
    }
    if forall|a: Seq<u8>, b: Seq<u8>| #[trigger]
        before.dht.query_addresses.count((other, a)) > 0
            && #[trigger] before.dht.query_addresses.count((other, b)) > 0 ==> a == b {
        assert forall|a: Seq<u8>, b: Seq<u8>| #[trigger]
            one.skip(n).contains(a) && #[trigger] one.skip(n).contains(b) implies a == b by {
            assert(before.dht.query_addresses.count((other, a)) > 0);
            assert(before.dht.query_addresses.count((other, b)) > 0);
        }
        only_one_order(one.skip(n), two.skip(n));
    }
}

/// Two sequences of the same elements are equal if all the elements are.
proof fn only_one_order(s: Seq<Seq<u8>>, t: Seq<Seq<u8>>)
    requires
        s.to_multiset() == t.to_multiset(),
        forall|a: Seq<u8>, b: Seq<u8>| #[trigger]
            s.contains(a) && #[trigger] s.contains(b) ==> a == b,
    ensures
        s == t,
{
    broadcast use vstd::seq_lib::group_to_multiset_ensures;

    assert(s.to_multiset().len() == s.len());
    assert(t.to_multiset().len() == t.len());
    assert forall|i: int| 0 <= i < s.len() implies s[i] == t[i] by {
        assert(s.contains(s[i]));
        assert(t.contains(t[i]));
        assert(s.to_multiset().count(t[i]) > 0);
        assert(s.contains(t[i]));
    }
    assert(s =~= t);
}

/// Once `add_known_address` was called, the address is known for good, those that were known
/// before still are, and a second call with the same node and address changes nothing. The node is
/// queued to be reported if and only if the address was not known for it before.
pub proof fn known_address_is_added_once(state: DiscoveryView, peer_id: Seq<u8>, address: Seq<u8>)
    ensures
        ({
            let after = state.with_known_address(peer_id, address);
            &&& after.user_defined.contains((peer_id, address))
            &&& state.user_defined.is_prefix_of(after.user_defined)
            &&& after.with_known_address(peer_id, address) == after
            &&& after.discoveries == if state.user_defined.contains((peer_id, address)) {
                state.discoveries
            } else {
                state.discoveries.push(peer_id)
            }
        }),
{
    let after = state.with_known_address(peer_id, address);
    if !state.user_defined.contains((peer_id, address)) {
        assert(after.user_defined[state.user_defined.len() as int] == (peer_id, address));
    }
}

/// Nothing that `poll` is told makes an address that is known for good expire.
pub proof fn known_addresses_outlast_poll<TInEvent>(
    state: DiscoveryView,
    input: PollInput<TInEvent>,
)
    ensures
        poll_next(state, input).user_defined == state.user_defined,
{
}

/// The time between two random queries doubles with each of them, starting from one second, until
/// it reaches the longest time.
pub proof fn interval_doubles(queries: nat)
    ensures
        interval_after(queries) == if pow2(queries) < MAX_INTERVAL {
            pow2(queries)
        } else {
            MAX_INTERVAL as nat
        },
        1 <= interval_after(queries) <= MAX_INTERVAL,
        interval_after(queries) <= interval_after(queries + 1),
    decreases queries,
{
    lemma2_to64();
    if queries > 0 {
        interval_doubles((queries - 1) as nat);
        lemma_pow2_unfold(queries);
    }
    assert(interval_after(queries + 1) == next_interval(interval_after(queries)));
}

/// The state after a number of rounds that end at once, since a discovered node waits to be
/// reported.
pub open spec fn after_rounds<TInEvent>(state: DiscoveryView, rounds: nat) -> DiscoveryView
    decreases rounds,
{
    if rounds == 0 {
        state
    } else {
        poll_next(
            after_rounds::<TInEvent>(state, (rounds - 1) as nat),
            PollInput::<TInEvent>::Begin,
        )
    }
}

/// Discovered nodes that wait to be reported are reported in the order in which they were queued,
/// one in each round. Only when none is left does a round go on to the timer.
pub proof fn discoveries_come_out_in_order<TInEvent>(state: DiscoveryView, rounds: nat)
    requires
        rounds <= state.discoveries.len(),
    ensures
        ({
            let now = after_rounds::<TInEvent>(state, rounds);
            &&& now == (DiscoveryView {
                discoveries: state.discoveries.skip(rounds as int),
                ..state
            })
            &&& poll_output(now, PollInput::<TInEvent>::Begin) == if rounds
                < state.discoveries.len() {
                report::<TInEvent>(
                    DiscoveryOutView::Discovered(state.discoveries[rounds as int]),
                )
            } else {
                PollOutputView::PollTimer
            }
        }),
    decreases rounds,
{
    if rounds > 0 {
        discoveries_come_out_in_order::<TInEvent>(state, (rounds - 1) as nat);
        let before = state.discoveries.skip(rounds - 1);
        assert(without_first(before) =~= state.discoveries.skip(rounds as int));
    } else {
        assert(state.discoveries.skip(0) =~= state.discoveries);
    }
}

/// Of the nodes that are found on the local network none is lost: behind those that already wait,
/// they are reported or wait to be.
pub proof fn local_nodes_are_not_lost<TInEvent>(
    state: DiscoveryView,
    list: Vec<(PeerId, Multiaddr)>,
)
    ensures
        ({
            let input = PollInput::<TInEvent>::Mdns(
                Async::Ready(MdnsAction::GenerateEvent(MdnsEvent::Discovered(list))),
            );
            let waiting = state.discoveries + entry_peers(list@);
            let after = poll_next(state, input);
            match poll_output(state, input) {
                PollOutputView::Ready(
                    ActionView::GenerateEvent(DiscoveryOutView::Discovered(first)),
                ) => waiting == seq![first] + after.discoveries,
                output => output == PollOutputView::<TInEvent>::PollMdns && waiting.len() == 0
                    && after.discoveries.len() == 0,
            }
        }),
{
    let waiting = state.discoveries + entry_peers(list@);
    if waiting.len() > 0 {
        assert(waiting =~= seq![waiting[0]] + waiting.drop_first());
    }
}

/// The state after the timer was found quiet a number of times.
pub open spec fn after_quiet_timers<TInEvent>(state: DiscoveryView, times: nat) -> DiscoveryView
    decreases times,
{
    if times == 0 {
        state
    } else {
        poll_next(
            after_quiet_timers::<TInEvent>(state, (times - 1) as nat),
            PollInput::<TInEvent>::Timer(TimerState::NotReady),
        )
    }
}

/// Each record that the local node refused is reported as a failure, in the order in which they
/// were put, before the hash table is polled again.
pub proof fn refused_records_are_reported_in_order<TInEvent>(state: DiscoveryView, times: nat)
    requires
        times <= state.failed_puts.len(),
    ensures
        ({
            let now = after_quiet_timers::<TInEvent>(state, times);
            &&& now == (DiscoveryView {
                failed_puts: state.failed_puts.skip(times as int),
                ..state
            })
            &&& poll_output(now, PollInput::<TInEvent>::Timer(TimerState::NotReady)) == if times
                < state.failed_puts.len() {
                report::<TInEvent>(
                    DiscoveryOutView::ValuePutFailed(state.failed_puts[times as int]),
                )
            } else {
                PollOutputView::PollKademlia
            }
        }),
    decreases times,
{
    if times > 0 {
        refused_records_are_reported_in_order::<TInEvent>(state, (times - 1) as nat);
        let before = state.failed_puts.skip(times - 1);
        assert(without_first(before) =~= state.failed_puts.skip(times as int));
    } else {
        assert(state.failed_puts.skip(0) =~= state.failed_puts);
    }
}

/// A record that was put is what the local node itself answers when the record is asked for, and a
/// later record under the same key takes its place.
pub proof fn record_is_read_back(
    before: Dht,
    mid: Dht,
    after: Dht,
    key: Seq<u8>,
    value: Seq<u8>,
    put_quorum: nat,
    get_quorum: nat,
)
    requires
        put_started(before, mid, key, value, put_quorum),
        get_started(mid, after, key, get_quorum),
    ensures
        after.gets == mid.gets.insert((key, quorum_in(mid, get_quorum), Some(value))),
        after.records[key] == value,
        forall|k: Seq<u8>|
            k != key && before.records.dom().contains(k) ==> #[trigger] after.records[k]
                == before.records[k],
{
}

/// What `poll` is told when the hash table has an event.
pub open spec fn kademlia_event<TInEvent>(event: KademliaOut) -> PollInput<TInEvent> {
    PollInput::Kademlia(Async::Ready(NetworkBehaviourAction::GenerateEvent(event)))
}

/// Records that a search came across are reported unchanged, however few they are. Only where there
/// are none is the record reported as not found.
pub proof fn found_records_are_reported<TInEvent>(
    state: DiscoveryView,
    key: Key,
    results: Vec<Record>,
)
    ensures
        poll_output(
            state,
            kademlia_event::<TInEvent>(KademliaOut::GetValueResult(search_outcome(key, results))),
        ) == report::<TInEvent>(
            if results@.len() > 0 {
                DiscoveryOutView::ValueFound(record_views(results@))
            } else {
                DiscoveryOutView::ValueNotFound(key@)
            },
        ),
{
}

/// What one node puts, another fetches unchanged, as far as it is up to the two of them. The first
/// publishes the key and the value as they were given and keeps them, and reports that key once the
/// publication has come to its end. The second searches for that key. If its search comes across
/// what the first keeps, then it reports that very key and value.
pub proof fn put_record_is_fetched<TInEvent>(
    before: DiscoveryView,
    after: DiscoveryView,
    key: Key,
    value: Seq<u8>,
    asking: DiscoveryView,
    fetching: DiscoveryView,
    results: Vec<Record>,
)
    requires
        value_put(before, after, key@, value),
        takes_record(before.dht, key@, value),
        get_started(asking.dht, fetching.dht, key@, GET_QUORUM as nat),
        record_views(results@).contains((key@, after.dht.records[key@])),
    ensures
        after.dht.puts == before.dht.puts.insert(
            (key@, value, quorum_in(before.dht, PUT_QUORUM as nat)),
        ),
        poll_output(
            after,
            kademlia_event::<TInEvent>(KademliaOut::PutValueResult(PutValueResult::Stored { key })),
        ) == report::<TInEvent>(DiscoveryOutView::ValuePut(key@)),
        exists|answer: Option<Seq<u8>>|
            fetching.dht.gets == #[trigger] asking.dht.gets.insert(
                (key@, quorum_in(asking.dht, GET_QUORUM as nat), answer),
            ),
        exists|pairs: Seq<(Seq<u8>, Seq<u8>)>| #[trigger]
            pairs.contains((key@, value)) && poll_output(
                fetching,
                kademlia_event::<TInEvent>(
                    KademliaOut::GetValueResult(search_outcome(key, results)),
                ),
            ) == report::<TInEvent>(DiscoveryOutView::ValueFound(pairs)),
{
    found_records_are_reported::<TInEvent>(fetching, key, results);
    let pairs = record_views(results@);
    assert(pairs.contains((key@, value)));
    assert(results@.len() > 0);
}

/// A record that is put is either published or, if the local node does not take it, queued to be
/// reported as a failure; never both, never neither.
pub proof fn put_has_one_outcome(
    before: DiscoveryView,
    after: DiscoveryView,
    key: Seq<u8>,
    value: Seq<u8>,
)
    requires
        value_put(before, after, key, value),
    ensures
        if takes_record(before.dht, key, value) {
            &&& after.dht.puts.len() == before.dht.puts.len() + 1
            &&& after.failed_puts == before.failed_puts
        } else {
            &&& after.dht.puts == before.dht.puts
            &&& after.failed_puts == before.failed_puts.push(key)
        },
{
}

/// The place in a round that an input comes from.
pub open spec fn input_stage<TInEvent>(input: PollInput<TInEvent>) -> nat {
    match input {
        PollInput::Begin => 0,
        PollInput::Timer(_) => 1,
        PollInput::Kademlia(_) => 2,
        PollInput::Mdns(_) => 3,
    }
}

/// The place in a round that an output leads to.
pub open spec fn output_stage<TInEvent>(output: PollOutputView<TInEvent>) -> nat {
    match output {
        PollOutputView::PollTimer | PollOutputView::ResetTimer(_) => 1,
        PollOutputView::PollKademlia | PollOutputView::WarnEmptyResults => 2,
        PollOutputView::PollMdns => 3,
        PollOutputView::Ready(_) | PollOutputView::NotReady => 4,
    }
}

/// A round goes through the timer, the hash table and the local network in that order. It goes on
/// from a source only once that source has nothing more, or ends with something to do; and it ends
/// with nothing to do only when the last source has nothing more.
pub proof fn round_goes_through_the_sources<TInEvent>(
    state: DiscoveryView,
    input: PollInput<TInEvent>,
)
    ensures
        input_stage(input) <= output_stage(poll_output(state, input)),
        poll_output(state, input) is NotReady <==> {
            ||| input == PollInput::<TInEvent>::Mdns(Async::NotReady)
            ||| input == PollInput::<TInEvent>::Kademlia(Async::NotReady) && !state.mdns
        },
        poll_output(state, input) is PollMdns && input is Kademlia ==> input == PollInput::<
            TInEvent,
        >::Kademlia(Async::NotReady) && state.mdns,
        output_stage(poll_output(state, input)) == 2 && input is Timer ==> input
            != PollInput::<TInEvent>::Timer(TimerState::Fired),
{
}

/// Whether an input gives nothing to report and nothing to do.
pub open spec fn ignorable<TInEvent>(input: PollInput<TInEvent>) -> bool {
    match input {
        PollInput::Begin | PollInput::Timer(_) => true,
        PollInput::Kademlia(Async::NotReady) | PollInput::Mdns(Async::NotReady) => true,
        PollInput::Kademlia(Async::Ready(NetworkBehaviourAction::GenerateEvent(event))) => {
            event is Discovered || event is FindNodeResult || event is OtherResult
        },
        PollInput::Mdns(Async::Ready(MdnsAction::GenerateEvent(MdnsEvent::Discovered(list)))) => {
            list@.len() == 0
        },
        PollInput::Mdns(Async::Ready(MdnsAction::GenerateEvent(MdnsEvent::Expired(_)))) => true,
        _ => false,
    }
}

/// Whether inputs make up a round, or the first part of one: it starts with `PollInput::Begin`, and
/// each further input is what the output before it asked for.
pub open spec fn is_round<TInEvent>(
    states: Seq<DiscoveryView>,
    inputs: Seq<PollInput<TInEvent>>,
) -> bool {
    &&& inputs.len() > 0
    &&& states.len() == inputs.len() + 1
    &&& inputs[0] == PollInput::<TInEvent>::Begin
    &&& forall|i: int|
        #![trigger inputs[i]]
        0 <= i < inputs.len() ==> states[i + 1] == (DiscoveryView {
            dht: states[i + 1].dht,
            ..poll_next(states[i], inputs[i])
        })
    &&& forall|i: int|
        #![trigger inputs[i]]
        0 <= i < inputs.len() - 1 ==> {
            let output = poll_output(states[i], inputs[i]);
            &&& !(output is Ready || output is NotReady)
            &&& input_stage(inputs[i + 1]) == output_stage(output)
        }
}

/// A round ends with nothing to do exactly if no discovered node and no refused record waited to be
/// reported and nothing that the hash table and the local network came up with was worth
/// reporting or doing.
pub proof fn round_is_idle_if_nothing_is_there<TInEvent>(
    states: Seq<DiscoveryView>,
    inputs: Seq<PollInput<TInEvent>>,
)
    requires
        is_round(states, inputs),
        ({
            let output = poll_output(states[inputs.len() - 1], inputs.last());
            output is Ready || output is NotReady
        }),
    ensures
        poll_output(states[inputs.len() - 1], inputs.last()) is NotReady <==> {
            &&& states[0].discoveries.len() == 0
            &&& states[0].failed_puts.len() == 0
            &&& forall|i: int| 0 <= i < inputs.len() ==> ignorable(#[trigger] inputs[i])
        },
{
    let last = inputs.len() - 1;
    round_goes_on_while_idle(states, inputs, last);
    assert forall|i: int| 0 <= i < last implies ignorable(#[trigger] inputs[i]) by {
        round_goes_on_while_idle(states, inputs, i);
    }
}

/// What holds when an input of a round comes.
proof fn round_goes_on_while_idle<TInEvent>(
    states: Seq<DiscoveryView>,
    inputs: Seq<PollInput<TInEvent>>,
    i: int,
)
    requires
        is_round(states, inputs),
        0 <= i < inputs.len(),
    ensures
        states[i].mdns == states[0].mdns,
        states[i].failed_puts == states[0].failed_puts,
        i > 0 ==> states[0].discoveries.len() == 0 && states[i].discoveries.len() == 0,
        i > 0 ==> input_stage(inputs[i]) > 0,
        input_stage(inputs[i]) >= 2 ==> states[0].failed_puts.len() == 0,
        i < inputs.len() - 1 ==> ignorable(inputs[i]),
    decreases i,
{
    if i > 0 {
        round_goes_on_while_idle(states, inputs, i - 1);
        let before = states[i - 1];
        assert(states[i] == (DiscoveryView {
            dht: states[i].dht,
            ..poll_next(before, inputs[i - 1])
        }));
    }
}

/// How many of a sequence of calls opened the first connection to a node.
pub open spec fn openings(calls: Seq<Call>) -> nat {
    calls.filter(|call: Call| call is Connected).len()
}

/// How many of a sequence of calls closed the last connection to a node.
pub open spec fn closings(calls: Seq<Call>) -> nat {
    calls.filter(|call: Call| call is Disconnected).len()
}

/// Over any sequence of calls, the addresses that were known for good at the start still are, in
/// their order, and what has been added is what `add_known_address` was called with. The number of
/// connections has grown by the number of those that were opened and shrunk by the number of those
/// that were closed. The identity of the local node, and whether the local network is searched,
/// have not changed.
pub proof fn calls_add_up(states: Seq<DiscoveryView>, calls: Seq<Call>)
    requires
        states.len() == calls.len() + 1,
        forall|i: int|
            #![trigger calls[i]]
            0 <= i < calls.len() ==> called(states[i], calls[i], states[i + 1]),
    ensures
        states.first().user_defined.is_prefix_of(states.last().user_defined),
        forall|peer_id: Seq<u8>, address: Seq<u8>|
            #![trigger states.last().user_defined.contains((peer_id, address))]
            states.last().user_defined.contains((peer_id, address)) <==> {
                ||| states.first().user_defined.contains((peer_id, address))
                ||| calls.contains(Call::KnownAddress(peer_id, address))
            },
        states.last().num_connections + closings(calls) == states.first().num_connections
            + openings(calls),
        states.last().local_peer_id == states.first().local_peer_id,
        states.last().mdns == states.first().mdns,
        states.first().well_formed() ==> states.last().well_formed(),
    decreases calls.len(),
{
    reveal(Seq::filter);
    if calls.len() > 0 {
        let earlier_states = states.drop_last();
        let earlier_calls = calls.drop_last();
        assert forall|i: int|
            #![trigger earlier_calls[i]]
            0 <= i < earlier_calls.len() implies called(
            earlier_states[i],
            earlier_calls[i],
            earlier_states[i + 1],
        ) by {
            assert(calls[i] == earlier_calls[i]);
        }
        calls_add_up(earlier_states, earlier_calls);
        let before = earlier_states.last();
        let after = states.last();
        let call = calls.last();
        assert(called(before, call, after)) by {
            assert(calls[calls.len() - 1] == call);
        }
        assert forall|peer_id: Seq<u8>, address: Seq<u8>|
            #![trigger after.user_defined.contains((peer_id, address))]
            after.user_defined.contains((peer_id, address)) <==> {
                ||| states.first().user_defined.contains((peer_id, address))
                ||| calls.contains(Call::KnownAddress(peer_id, address))
            } by {
            let entry = (peer_id, address);
            let wanted = Call::KnownAddress(peer_id, address);
            assert(calls =~= earlier_calls.push(call));
            assert(calls.contains(wanted) <==> earlier_calls.contains(wanted) || call == wanted) by {
                if earlier_calls.contains(wanted) {
                    let i = earlier_calls.index_of(wanted);
                    assert(calls[i] == wanted);
                }
                if call == wanted {
                    assert(calls[calls.len() - 1] == wanted);
                }
            }
            assert(before.user_defined.contains(entry) <==> {
                ||| states.first().user_defined.contains(entry)
                ||| earlier_calls.contains(wanted)
            });
            match call {
                Call::KnownAddress(p, a) => {
                    known_address_is_added_once(before, p, a);
                    if before.user_defined.contains(entry) {
                        let i = before.user_defined.index_of(entry);
                        assert(after.user_defined[i] == entry);
                    }
                },
                _ => {},
            }
        }
    } else {
        assert(states.last() == states.first());
    }
}

/// Only `poll` takes anything out of the queues of what is yet to be reported: every other method
/// leaves them as they are or adds to their end. `poll` takes at most the first element of one
/// queue, and reports that element.
pub proof fn only_poll_takes_from_the_queues(
    before: DiscoveryView,
    call: Call,
    after: DiscoveryView,
)
    requires
        called(before, call, after),
    ensures
        !(call is Polled) ==> {
            &&& before.discoveries.is_prefix_of(after.discoveries)
            &&& before.failed_puts.is_prefix_of(after.failed_puts)
        },
        call matches Call::Polled { arrived, discovered, refused, event } ==> {
            let waiting = before.discoveries + arrived;
            &&& discovered is None || refused is None
            &&& match discovered {
                Some(peer_id) => {
                    &&& waiting.len() > 0
                    &&& peer_id == waiting[0]
                    &&& after.discoveries == waiting.drop_first()
                    &&& event == Some(DiscoveryOutView::Discovered(peer_id))
                },
                None => after.discoveries == waiting,
            }
            &&& match refused {
                Some(key) => {
                    &&& before.failed_puts.len() > 0
                    &&& key == before.failed_puts[0]
                    &&& after.failed_puts == before.failed_puts.drop_first()
                    &&& event == Some(DiscoveryOutView::ValuePutFailed(key))
                },
                None => after.failed_puts == before.failed_puts,
            }
        },
{
    match call {
        Call::Polled { arrived, discovered, refused, .. } => {
            if let Some(peer_id) = discovered {
                let waiting = before.discoveries + arrived;
                assert(waiting == seq![peer_id] + after.discoveries);
                assert(waiting[0] == peer_id);
                assert(after.discoveries =~= waiting.drop_first());
            }
            if let Some(key) = refused {
                assert(before.failed_puts == seq![key] + after.failed_puts);
                assert(before.failed_puts[0] == key);
                assert(after.failed_puts =~= before.failed_puts.drop_first());
            }
        },
        _ => {},
    }
}

/// The nodes that a call adds to those that are yet to be reported.
pub open spec fn queued_nodes(state: DiscoveryView, call: Call) -> Seq<Seq<u8>> {
    match call {
        Call::KnownAddress(peer_id, address) => if state.user_defined.contains((peer_id, address)) {
            Seq::empty()
        } else {
            seq![peer_id]
        },
        Call::Polled { arrived, .. } => arrived,
        _ => Seq::empty(),
    }
}

/// The keys that a call adds to those of the refused records that are yet to be reported.
pub open spec fn queued_keys(state: DiscoveryView, call: Call) -> Seq<Seq<u8>> {
    match call {
        Call::Put(key, value) => if takes_record(state.dht, key, value) {
            Seq::empty()
        } else {
            seq![key]
        },
        _ => Seq::empty(),
    }
}

/// What a call takes from the nodes that are yet to be reported.
pub open spec fn reported_nodes(call: Call) -> Seq<Seq<u8>> {
    match call {
        Call::Polled { discovered: Some(peer_id), .. } => seq![peer_id],
        _ => Seq::empty(),
    }
}

/// What a call takes from the keys of the refused records that are yet to be reported.
pub open spec fn reported_keys(call: Call) -> Seq<Seq<u8>> {
    match call {
        Call::Polled { refused: Some(key), .. } => seq![key],
        _ => Seq::empty(),
    }
}

/// What the calls of a sequence add to the queues, one after the other: nodes and keys.
pub open spec fn all_queued(states: Seq<DiscoveryView>, calls: Seq<Call>) -> (
    Seq<Seq<u8>>,
    Seq<Seq<u8>>,
)
    decreases calls.len(),
{
    if calls.len() == 0 {
        (Seq::empty(), Seq::empty())
    } else {
        let (nodes, keys) = all_queued(states.drop_last(), calls.drop_last());
        let state = states[calls.len() - 1];
        (nodes + queued_nodes(state, calls.last()), keys + queued_keys(state, calls.last()))
    }
}

/// What the calls of a sequence report from the queues, one after the other: nodes and keys.
pub open spec fn all_reported(calls: Seq<Call>) -> (Seq<Seq<u8>>, Seq<Seq<u8>>)
    decreases calls.len(),
{
    if calls.len() == 0 {
        (Seq::empty(), Seq::empty())
    } else {
        let (nodes, keys) = all_reported(calls.drop_last());
        (nodes + reported_nodes(calls.last()), keys + reported_keys(calls.last()))
    }
}

/// Over any sequence of calls, whatever comes in between, the nodes and the refused records that
/// wait to be reported are reported in the order in which they were queued, each as often as it was
/// queued: what waited at the start and what was queued since is what was reported since and what
/// still waits.
pub proof fn queues_are_reported_in_order(states: Seq<DiscoveryView>, calls: Seq<Call>)
    requires
        states.len() == calls.len() + 1,
        forall|i: int|
            #![trigger calls[i]]
            0 <= i < calls.len() ==> called(states[i], calls[i], states[i + 1]),
    ensures
        states.first().discoveries + all_queued(states, calls).0 == all_reported(calls).0
            + states.last().discoveries,
        states.first().failed_puts + all_queued(states, calls).1 == all_reported(calls).1
            + states.last().failed_puts,
    decreases calls.len(),
{
    if calls.len() > 0 {
        let earlier_states = states.drop_last();
        let earlier_calls = calls.drop_last();
        assert forall|i: int|
            #![trigger earlier_calls[i]]
            0 <= i < earlier_calls.len() implies called(
            earlier_states[i],
            earlier_calls[i],
            earlier_states[i + 1],
        ) by {
            assert(calls[i] == earlier_calls[i]);
        }
        queues_are_reported_in_order(earlier_states, earlier_calls);
        let before = earlier_states.last();
        let after = states.last();
        let call = calls.last();
        assert(called(before, call, after)) by {
            assert(calls[calls.len() - 1] == call);
        }
        assert(before.discoveries + queued_nodes(before, call) =~= reported_nodes(call)
            + after.discoveries);
        assert(before.failed_puts + queued_keys(before, call) =~= reported_keys(call)
            + after.failed_puts);
        let (nodes, keys) = all_queued(earlier_states, earlier_calls);
        let (out_nodes, out_keys) = all_reported(earlier_calls);
        let first = states.first();
        assert(first.discoveries + (nodes + queued_nodes(before, call)) =~= (first.discoveries
            + nodes) + queued_nodes(before, call));
        assert((out_nodes + before.discoveries) + queued_nodes(before, call) =~= out_nodes + (
        before.discoveries + queued_nodes(before, call)));
        assert(out_nodes + (reported_nodes(call) + after.discoveries) =~= (out_nodes
            + reported_nodes(call)) + after.discoveries);
        assert(first.failed_puts + (keys + queued_keys(before, call)) =~= (first.failed_puts + keys)
            + queued_keys(before, call));
        assert((out_keys + before.failed_puts) + queued_keys(before, call) =~= out_keys + (
        before.failed_puts + queued_keys(before, call)));
        assert(out_keys + (reported_keys(call) + after.failed_puts) =~= (out_keys + reported_keys(
            call,
        )) + after.failed_puts);
    } else {
        assert(states.first() == states.last());
    }
}

/// A search for nodes, a search for a record, the publication of a record and a change of address do
/// not lead to a connected node being filed as not connected.
pub proof fn queries_keep_coherence(before: Dht, after: Dht)
    requires
        coherent(before),
        ({
            ||| exists|key: Seq<u8>| #[trigger] lookup_started(before, after, key)
            ||| exists|key: Seq<u8>, quorum: nat| #[trigger]
                get_started(before, after, key, quorum)
            ||| exists|key: Seq<u8>, value: Seq<u8>, quorum: nat| #[trigger]
                put_started(before, after, key, value, quorum)
            ||| exists|peer_id: Seq<u8>, old_address: Seq<u8>, new_address: Seq<u8>| #[trigger]
                address_changed(before, after, peer_id, old_address, new_address)
        }),
    ensures
        coherent(after),
{
}

/// An empty result of a random query is worth a warning only if there is a connection.
pub proof fn no_warning_without_connections<TInEvent>(
    state: DiscoveryView,
    input: PollInput<TInEvent>,
)
    requires
        state.num_connections == 0,
    ensures
        !(poll_output(state, input) is WarnEmptyResults),
{
}

/// Closing the connection to a node undoes opening it, but for what time does to the hash table
/// and for how the node is filed there.
pub proof fn closing_undoes_opening(
    state: DiscoveryView,
    after: DiscoveryView,
    peer_id: Seq<u8>,
)
    requires
        !state.dht.connected.contains(peer_id),
        state.with_connection(peer_id).connection_closed(after, peer_id),
    ensures
        after == (DiscoveryView { dht: after.dht, ..state }),
        settled(state.dht, Dht { offline: state.dht.offline, ..after.dht }),
{
    let open = state.with_connection(peer_id);
    assert(after.dht.connected =~= state.dht.connected);
    let later = Dht {
        connected: open.dht.connected,
        offline: open.dht.offline,
        ..after.dht
    };
    assert(settled(open.dht, later));
    let plain = Dht { offline: state.dht.offline, ..after.dht };
    assert forall|key: Seq<u8>| #[trigger]
        state.dht.table.dom().contains(key) && !plain.table.dom().contains(key) implies {
        &&& state.dht.offline.contains(state.dht.table[key].0)
        &&& bucket_awaited(state.dht, key)
    } by {
        assert(open.dht.table.dom().contains(key));
        let k = choose|k: Seq<u8>| #[trigger]
            open.dht.pending.dom().contains(k) && (k == key || same_bucket(
                dht_key(open.dht.local),
                k,
                key,
            ));
        assert(state.dht.pending.dom().contains(k));
    }
    assert(plain == (Dht { table: plain.table, pending: plain.pending, ..state.dht }));
    if state.dht.pending == Table::empty() {
        assert(later == open.dht);
        assert(plain == state.dht);
    }
}

/// A node whose connection is reported with its two ends before it is counted is not filed as not
/// connected, and neither is any that was connected before.
pub proof fn opening_keeps_coherence(
    before: DiscoveryView,
    opened: DiscoveryView,
    peer_id: Seq<u8>,
    dialed: Option<Seq<u8>>,
)
    requires
        coherent(before.dht),
        connection_opened(before.dht, opened.dht, peer_id, dialed),
    ensures
        coherent(opened.dht),
        coherent(opened.with_connection(peer_id).dht),
{
}

/// The connections that are left after one was closed are still filed as such, as long as the node
/// in question is the only connected one with its key.
pub proof fn closing_keeps_coherence(
    before: DiscoveryView,
    after: DiscoveryView,
    peer_id: Seq<u8>,
)
    requires
        coherent(before.dht),
        before.connection_closed(after, peer_id),
        forall|p: Seq<u8>| #[trigger]
            before.dht.connected.contains(p) && dht_key(p) == dht_key(peer_id) ==> p == peer_id,
    ensures
        coherent(after.dht),
{
}

/// Neither an address that a node reports nor the passing of time leads to a connected node being
/// filed as not connected.
pub proof fn adding_keeps_coherence(
    before: Dht,
    mid: Dht,
    after: Dht,
    peer_id: Seq<u8>,
    address: Seq<u8>,
)
    requires
        coherent(before),
        settled(before, mid),
        address_added(mid, after, peer_id, address),
    ensures
        coherent(mid),
        coherent(after),
{
}

/// A state in which no node waits for a place in the routing table does not change with time.
pub proof fn nothing_settles_without_pending(before: Dht, after: Dht)
    requires
        before.pending == Table::empty(),
    ensures
        settled(before, after) <==> after == before,
{
}

/// A node in the routing table that is not filed as not connected does not lose its place with
/// time.
pub proof fn connected_node_keeps_its_place(before: Dht, after: Dht, peer_id: Seq<u8>)
    requires
        routed(before, peer_id),
        !before.offline.contains(peer_id),
        settled(before, after),
    ensures
        routed(after, peer_id),
        table_addresses(after, peer_id) == table_addresses(before, peer_id),
{
    assert(before.table.dom().contains(dht_key(peer_id)));
    assert(after.table.dom().contains(dht_key(peer_id)));
}

/// An address that a node reports for itself is among the addresses of the node, unless the node
/// is the local one or its bucket of the routing table is full. A node that waits for a place in
/// the bucket might take that of the other, so none may wait.
pub proof fn reported_address_is_found(
    before: Dht,
    after: Dht,
    later: Dht,
    peer_id: Seq<u8>,
    address: Seq<u8>,
    addresses: Seq<Seq<u8>>,
)
    requires
        dht_key(peer_id) != dht_key(before.local),
        before.table.dom().contains(dht_key(peer_id)) || bucket(before, dht_key(peer_id)).len()
            < BUCKET_SIZE,
        !bucket_awaited(before, dht_key(peer_id)),
        address_added(before, after, peer_id, address),
        settled(after, later),
        dht_addresses(later, peer_id, addresses),
    ensures
        addresses.contains(address),
{
    let key = dht_key(peer_id);
    added_address_is_in_table(before, after, peer_id, address);
    assert(after.table.dom().contains(key));
    assert(later.table.dom().contains(key));
    let listed = table_addresses(after, peer_id);
    let i = listed.index_of(address);
    assert(addresses[i] == address);
}

/// A node whose address was just added is in the routing table with that address, and stays there
/// while none waits for a place in its bucket, if it is not the local node and there was room.
pub proof fn reported_address_is_in_table(
    before: Dht,
    after: Dht,
    later: Dht,
    peer_id: Seq<u8>,
    address: Seq<u8>,
)
    requires
        dht_key(peer_id) != dht_key(before.local),
        before.table.dom().contains(dht_key(peer_id)) || bucket(before, dht_key(peer_id)).len()
            < BUCKET_SIZE,
        !bucket_awaited(before, dht_key(peer_id)),
        address_added(before, after, peer_id, address),
        settled(after, later),
    ensures
        after.table.dom().contains(dht_key(peer_id)),
        later.table.dom().contains(dht_key(peer_id)),
        later.table[dht_key(peer_id)] == after.table[dht_key(peer_id)],
        later.table[dht_key(peer_id)].1.contains(address),
{
    added_address_is_in_table(before, after, peer_id, address);
    assert(after.table.dom().contains(dht_key(peer_id)));
    assert(later.table.dom().contains(dht_key(peer_id)));
}

/// Two keys that belong into the bucket of a third one belong into the same bucket.
proof fn bucket_is_shared(local: Seq<u8>, a: Seq<u8>, b: Seq<u8>, c: Seq<u8>)
    requires
        same_bucket(local, a, b),
        same_bucket(local, b, c),
    ensures
        same_bucket(local, a, c),
{
    let i = choose|i: int| #[trigger]
        differ_first_at(local, a, i) && differ_first_at(local, b, i);
    let j = choose|j: int| #[trigger]
        differ_first_at(local, b, j) && differ_first_at(local, c, j);
    if i < j {
        assert(bit(local, i) == bit(b, i));
    }
    if j < i {
        assert(bit(local, j) == bit(b, j));
    }
    assert(differ_first_at(local, a, i) && differ_first_at(local, c, i));
}

/// A bucket in which no node waits for a place does not change with time.
proof fn bucket_keeps(before: Dht, after: Dht, key: Seq<u8>)
    requires
        settled(before, after),
        !bucket_awaited(before, key),
    ensures
        bucket(after, key) == bucket(before, key),
        after.table.dom().contains(key) == before.table.dom().contains(key),
        !after.pending.dom().contains(key),
        !bucket_awaited(after, key),
{
    let local = dht_key(before.local);
    assert forall|k: Seq<u8>| #[trigger]
        before.table.dom().contains(k) && same_bucket(
            local,
            k,
            key,
        ) implies after.table.dom().contains(k) by {
        if !after.table.dom().contains(k) {
            let w = choose|w: Seq<u8>| #[trigger]
                before.pending.dom().contains(w) && (w == k || same_bucket(local, w, k));
            if w != k {
                bucket_is_shared(local, w, k, key);
            }
        }
    }
    assert(bucket(after, key) =~= bucket(before, key));
    if bucket_awaited(after, key) {
        let w = choose|w: Seq<u8>| #[trigger]
            after.pending.dom().contains(w) && (w == key || same_bucket(local, w, key));
        assert(before.pending.dom().contains(w));
    }
}

/// The keys in a list that rival another key for the places of its bucket.
pub open spec fn rivals(entries: Seq<(Seq<u8>, Seq<u8>)>, local: Seq<u8>, key: Seq<u8>) -> Set<
    Seq<u8>,
> {
    entries.map_values(|entry: (Seq<u8>, Seq<u8>)| dht_key(entry.0)).to_set().filter(
        |k: Seq<u8>| k != key && same_bucket(dht_key(local), k, key),
    )
}

/// A node that the discovery is set up with is in the routing table from the start, with all the
/// addresses that it was given, unless the list has a bucketful of nodes for the same bucket before
/// the first time that the node comes. The local node is not in the table, even if it is on the
/// list.
pub proof fn bootstrap_nodes_are_routed(
    local: Seq<u8>,
    state: Dht,
    entries: Seq<(Seq<u8>, Seq<u8>)>,
)
    requires
        all_added(fresh_dht(local), state, entries),
    ensures
        state.local == local,
        state.pending == Table::empty(),
        !state.table.dom().contains(dht_key(local)),
        forall|i: int, j: int|
            #![trigger entries[i], entries[j]]
            0 <= j <= i < entries.len() && dht_key(entries[j].0) == dht_key(entries[i].0)
                && dht_key(entries[i].0) != dht_key(local) && rivals(
                entries.take(j),
                local,
                dht_key(entries[i].0),
            ).len() < BUCKET_SIZE ==> table_addresses(state, entries[i].0).contains(entries[i].1),
{
    let states = choose|states: Seq<Dht>| #[trigger]
        adds_up(states, fresh_dht(local), state, entries);
    prefix_is_routed(local, states, entries, entries.len());
}

/// The nodes that the discovery is set up with are all in the routing table, with all the addresses
/// that they were given, if no more of them than fit share a bucket.
pub proof fn all_bootstrap_nodes_are_routed(
    local: Seq<u8>,
    state: Dht,
    entries: Seq<(Seq<u8>, Seq<u8>)>,
    i: int,
)
    requires
        all_added(fresh_dht(local), state, entries),
        0 <= i < entries.len(),
        dht_key(entries[i].0) != dht_key(local),
        rivals(entries, local, dht_key(entries[i].0)).len() < BUCKET_SIZE,
    ensures
        table_addresses(state, entries[i].0).contains(entries[i].1),
{
    let key = dht_key(entries[i].0);
    let f = |entry: (Seq<u8>, Seq<u8>)| dht_key(entry.0);
    let all = entries.map_values(f);
    let some = entries.take(i).map_values(f);
    seq_to_set_is_finite(all);
    all.to_set().lemma_len_filter(|k: Seq<u8>| k != key && same_bucket(dht_key(local), k, key));
    assert forall|k: Seq<u8>| some.to_set().contains(k) implies all.to_set().contains(k) by {
        let n = some.index_of(k);
        assert(all[n] == k);
    }
    lemma_len_subset(rivals(entries.take(i), local, key), rivals(entries, local, key));
    bootstrap_nodes_are_routed(local, state, entries);
}

/// What the first entries of a list have done to the routing table.
proof fn prefix_is_routed(
    local: Seq<u8>,
    states: Seq<Dht>,
    entries: Seq<(Seq<u8>, Seq<u8>)>,
    n: nat,
)
    requires
        n <= entries.len(),
        adds_up(states, fresh_dht(local), states.last(), entries),
    ensures
        states[n as int].local == local,
        states[n as int].pending == Table::empty(),
        states[n as int].connected == Set::<Seq<u8>>::empty(),
        !states[n as int].table.dom().contains(dht_key(local)),
        forall|key: Seq<u8>| #[trigger]
            states[n as int].table.dom().contains(key) ==> entries.take(n as int).map_values(
                |entry: (Seq<u8>, Seq<u8>)| dht_key(entry.0),
            ).contains(key),
        forall|i: int, j: int|
            #![trigger entries[i], entries[j]]
            0 <= j <= i < n && dht_key(entries[j].0) == dht_key(entries[i].0) && dht_key(
                entries[i].0,
            ) != dht_key(local) && rivals(entries.take(j), local, dht_key(entries[i].0)).len()
                < BUCKET_SIZE ==> table_addresses(states[n as int], entries[i].0).contains(
                entries[i].1,
            ),
    decreases n,
{
    let f = |entry: (Seq<u8>, Seq<u8>)| dht_key(entry.0);
    if n > 0 {
        let m = n - 1;
        prefix_is_routed(local, states, entries, m as nat);
        let before = states[m];
        let after = states[n as int];
        let (peer_id, address) = entries[m];
        let key = dht_key(peer_id);
        assert(address_added(before, after, peer_id, address));
        first_contact(before, after, peer_id, address);
        let keys_before = entries.take(m).map_values(f);
        let keys_after = entries.take(n as int).map_values(f);
        assert(keys_after =~= keys_before.push(key));
        assert forall|k: Seq<u8>| #[trigger]
            after.table.dom().contains(k) implies keys_after.contains(k) by {
            if k == key {
                assert(keys_after[m] == k);
            } else {
                assert(before.table.dom().contains(k));
                let x = keys_before.index_of(k);
                assert(keys_after[x] == k);
            }
        }
        assert forall|i: int, j: int|
            #![trigger entries[i], entries[j]]
            0 <= j <= i < n && dht_key(entries[j].0) == dht_key(entries[i].0) && dht_key(
                entries[i].0,
            ) != dht_key(local) && rivals(entries.take(j), local, dht_key(entries[i].0)).len()
                < BUCKET_SIZE implies table_addresses(after, entries[i].0).contains(
            entries[i].1,
        ) by {
            if i < m {
                assert(table_addresses(before, entries[i].0).contains(entries[i].1));
            } else if j < m {
                assert(table_addresses(before, entries[j].0).contains(entries[j].1));
                assert(before.table.dom().contains(key));
            } else if !before.table.dom().contains(key) {
                seq_to_set_is_finite(keys_before);
                keys_before.to_set().lemma_len_filter(
                    |k: Seq<u8>| k != key && same_bucket(dht_key(local), k, key),
                );
                lemma_len_subset(bucket(before, key), rivals(entries.take(m), local, key));
            }
        }
    } else {
        assert(states[0] == states.first());
    }
}

/// What adding an address does while there is no connection and no node waits for a place.
proof fn first_contact(before: Dht, after: Dht, peer_id: Seq<u8>, address: Seq<u8>)
    requires
        before.pending == Table::empty(),
        before.connected == Set::<Seq<u8>>::empty(),
        address_added(before, after, peer_id, address),
    ensures
        after.local == before.local,
        after.pending == Table::empty(),
        after.connected == Set::<Seq<u8>>::empty(),
        dht_key(peer_id) == dht_key(before.local) ==> after == before,
        forall|k: Seq<u8>| #[trigger]
            after.table.dom().contains(k) ==> before.table.dom().contains(k) || k == dht_key(
                peer_id,
            ),
        forall|p: Seq<u8>, a: Seq<u8>|
            table_addresses(before, p).contains(a) ==> #[trigger] table_addresses(
                after,
                p,
            ).contains(a),
        dht_key(peer_id) != dht_key(before.local) && (before.table.dom().contains(
            dht_key(peer_id),
        ) || bucket(before, dht_key(peer_id)).len() < BUCKET_SIZE) ==> table_addresses(
            after,
            peer_id,
        ).contains(address),
{
    let key = dht_key(peer_id);
    assert(recorded(before, after, peer_id, address, false));
    if before.table.dom().contains(key) {
        added_address_is_listed(before.table[key].1, address);
    } else if after != before {
        assert(after.table[key].1[0] == address);
    }
    assert forall|p: Seq<u8>, a: Seq<u8>|
        table_addresses(before, p).contains(a) implies #[trigger] table_addresses(
        after,
        p,
    ).contains(a) by {
        assert(before.table.dom().contains(dht_key(p)));
    }
}

/// An address list with one more address holds that address and all those that it held.
proof fn added_address_is_listed(addresses: Seq<Seq<u8>>, address: Seq<u8>)
    ensures
        with_address(addresses, address).contains(address),
        forall|a: Seq<u8>| #[trigger]
            addresses.contains(a) ==> with_address(addresses, address).contains(a),
{
    let longer = with_address(addresses, address);
    if !addresses.contains(address) {
        assert(longer[addresses.len() as int] == address);
    }
    assert forall|a: Seq<u8>| #[trigger] addresses.contains(a) implies longer.contains(a) by {
        let i = addresses.index_of(a);
        assert(longer[i] == a);
    }
}

/// What adding an address does where no node waits for a place in the bucket and there is room.
proof fn added_address_is_in_table(
    before: Dht,
    after: Dht,
    peer_id: Seq<u8>,
    address: Seq<u8>,
)
    requires
        dht_key(peer_id) != dht_key(before.local),
        before.table.dom().contains(dht_key(peer_id)) || bucket(before, dht_key(peer_id)).len()
            < BUCKET_SIZE,
        !bucket_awaited(before, dht_key(peer_id)),
        address_added(before, after, peer_id, address),
    ensures
        !bucket_awaited(after, dht_key(peer_id)),
        table_addresses(after, peer_id).contains(address),
{
    let key = dht_key(peer_id);
    let mid = choose|mid: Dht|
        #![trigger settled(before, mid)]
        settled(before, mid) && recorded(
            mid,
            after,
            peer_id,
            address,
            mid.connected.contains(peer_id),
        );
    bucket_keeps(before, mid, key);
    if mid.table.dom().contains(key) {
        added_address_is_listed(mid.table[key].1, address);
    } else {
        assert(after.table[key].1[0] == address);
    }
    assert(after.pending == mid.pending);
    if bucket_awaited(after, key) {
        let w = choose|w: Seq<u8>| #[trigger]
            after.pending.dom().contains(w) && (w == key || same_bucket(
                dht_key(after.local),
                w,
                key,
            ));
        assert(mid.pending.dom().contains(w));
    }
}

} // verus!
