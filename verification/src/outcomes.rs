//! What the steps of a round and the plain values come to, stated on what goes in and what comes
//! out.

use vstd::prelude::*;
use vstd::arithmetic::power2::{lemma2_to64, lemma_pow2_unfold, pow2};
use crate::address::{p2p_component, varint, ConnectedPoint, Multiaddr};
use crate::event::{
    pair_views, record_views, search_outcome, Async, DiscoveryOut,
    GetValueResult, KademliaOut, Key, MdnsAction, MdnsEvent, NetworkBehaviourAction, PollInput,
    PollOutput, PutValueResult, Record, TimerState,
};
use crate::model::{
    address_views, entry_peers, entry_views, next_interval, peer_views, poll_next, poll_output,
    DiscoveryView,
};
use crate::peer::{
    are_peer_id_parts, is_peer_id, is_random_peer_id, is_varint, varint_value, PeerId,
};

verus! {

/// When the hash table says that a node got into the routing table, that very node is reported as
/// discovered, whatever the state and whichever node had to make room.
pub proof fn added_node_is_reported<TInEvent>(
    state: DiscoveryView,
    peer_id: PeerId,
    replaced: Option<PeerId>,
    output: PollOutput<TInEvent>,
)
    requires
        output@ == poll_output(
            state,
            PollInput::<TInEvent>::Kademlia(
                Async::Ready(
                    NetworkBehaviourAction::GenerateEvent(
                        (KademliaOut::KBucketAdded { peer_id, replaced }),
                    ),
                ),
            ),
        ),
    ensures
        output matches PollOutput::Done(
            Async::Ready(NetworkBehaviourAction::GenerateEvent(DiscoveryOut::Discovered(reported))),
        ) && reported@ == peer_id@,
{
}

/// When a node of which no address is known opens a connection, that very node is reported as
/// discovered, whatever the state.
pub proof fn unroutable_node_is_reported<TInEvent>(
    state: DiscoveryView,
    peer_id: PeerId,
    output: PollOutput<TInEvent>,
)
    requires
        output@ == poll_output(
            state,
            PollInput::<TInEvent>::Kademlia(
                Async::Ready(
                    NetworkBehaviourAction::GenerateEvent((KademliaOut::UnroutablePeer { peer_id })),
                ),
            ),
        ),
    ensures
        output matches PollOutput::Done(
            Async::Ready(NetworkBehaviourAction::GenerateEvent(DiscoveryOut::Discovered(reported))),
        ) && reported@ == peer_id@,
{
}

/// When a record was stored, its publication is reported as a success, and when it was not stored,
/// as a failure, with the key of the record, whatever the state.
pub proof fn publication_is_reported_as_it_went<TInEvent>(
    state: DiscoveryView,
    result: PutValueResult,
    output: PollOutput<TInEvent>,
)
    requires
        output@ == poll_output(
            state,
            PollInput::<TInEvent>::Kademlia(
                Async::Ready(
                    NetworkBehaviourAction::GenerateEvent(KademliaOut::PutValueResult(result)),
                ),
            ),
        ),
    ensures
        (result matches PutValueResult::Stored { key } ==> (output matches PollOutput::Done(
            Async::Ready(NetworkBehaviourAction::GenerateEvent(DiscoveryOut::ValuePut(reported))),
        ) && reported.bytes@ == key.bytes@)),
        (result matches PutValueResult::NotStored { key } ==> (output matches PollOutput::Done(
            Async::Ready(
                NetworkBehaviourAction::GenerateEvent(DiscoveryOut::ValuePutFailed(reported)),
            ),
        ) && reported.bytes@ == key.bytes@)),
{
}

/// The records that a search found are reported as many as they are, each with exactly the bytes of
/// its key and of its value, in their order, whatever the state.
pub proof fn found_records_are_reported_byte_by_byte<TInEvent>(
    state: DiscoveryView,
    results: Vec<Record>,
    output: PollOutput<TInEvent>,
)
    requires
        output@ == poll_output(
            state,
            PollInput::<TInEvent>::Kademlia(
                Async::Ready(
                    NetworkBehaviourAction::GenerateEvent(
                        KademliaOut::GetValueResult((GetValueResult::Found { results })),
                    ),
                ),
            ),
        ),
    ensures
        output matches PollOutput::Done(
            Async::Ready(NetworkBehaviourAction::GenerateEvent(DiscoveryOut::ValueFound(pairs))),
        ) && {
            &&& pairs@.len() == results@.len()
            &&& forall|i: int|
                0 <= i < results@.len() ==> {
                    &&& (#[trigger] pairs@[i]).0.bytes@ == results@[i].key.bytes@
                    &&& pairs@[i].1@ == results@[i].value@
                }
        },
{
    match output {
        PollOutput::Done(
            Async::Ready(NetworkBehaviourAction::GenerateEvent(DiscoveryOut::ValueFound(pairs))),
        ) => {
            assert(pair_views(pairs@) == record_views(results@));
            assert(pair_views(pairs@).len() == pairs@.len());
            assert(record_views(results@).len() == results@.len());
            assert forall|i: int| 0 <= i < results@.len() implies {
                &&& (#[trigger] pairs@[i]).0.bytes@ == results@[i].key.bytes@
                &&& pairs@[i].1@ == results@[i].value@
            } by {
                assert(pair_views(pairs@)[i] == record_views(results@)[i]);
                assert(pair_views(pairs@)[i] == (pairs@[i].0.bytes@, pairs@[i].1@));
                assert(record_views(results@)[i] == (
                    results@[i].key.bytes@,
                    results@[i].value@,
                ));
            }
        },
        _ => {},
    }
}

/// When a search found nothing, the key that was looked for is reported as not found, whatever the
/// state.
pub proof fn missing_record_is_reported<TInEvent>(
    state: DiscoveryView,
    key: Key,
    output: PollOutput<TInEvent>,
)
    requires
        output@ == poll_output(
            state,
            PollInput::<TInEvent>::Kademlia(
                Async::Ready(
                    NetworkBehaviourAction::GenerateEvent(
                        KademliaOut::GetValueResult((GetValueResult::NotFound { key })),
                    ),
                ),
            ),
        ),
    ensures
        output matches PollOutput::Done(
            Async::Ready(NetworkBehaviourAction::GenerateEvent(DiscoveryOut::ValueNotFound(reported))),
        ) && reported.bytes@ == key.bytes@,
{
}

/// A search that came to its end is a find with all its records if it has any, and a miss of the
/// key that was looked for if it has none.
pub proof fn search_comes_to_its_records(key: Key, results: Vec<Record>)
    ensures
        results@.len() > 0 ==> search_outcome(key, results) == (GetValueResult::Found { results }),
        results@.len() == 0 ==> search_outcome(key, results) == (GetValueResult::NotFound { key }),
{
}

/// Nothing is reported of a node that was come across without getting into the routing table, of
/// the end of a search for nodes and of queries of another kind: the hash table is polled again. A
/// warning goes with it exactly if a search for nodes found none although there is a connection.
pub proof fn other_events_are_not_reported<TInEvent>(
    state: DiscoveryView,
    event: KademliaOut,
    output: PollOutput<TInEvent>,
)
    requires
        event is Discovered || event is FindNodeResult || event is OtherResult,
        output@ == poll_output(
            state,
            PollInput::<TInEvent>::Kademlia(
                Async::Ready(NetworkBehaviourAction::GenerateEvent(event)),
            ),
        ),
    ensures
        ({
            let worth_a_warning = (event matches KademliaOut::FindNodeResult { closer_peers, .. }
                && closer_peers@.len() == 0) && state.num_connections > 0;
            &&& worth_a_warning ==> output == PollOutput::<TInEvent>::WarnEmptyResults
            &&& !worth_a_warning ==> output == PollOutput::<TInEvent>::PollKademlia
        }),
{
}

/// A round starts with the first node that waits to be reported, which then waits no longer. Only
/// where none waits is the timer polled.
pub proof fn waiting_node_comes_first<TInEvent>(
    state: DiscoveryView,
    output: PollOutput<TInEvent>,
)
    requires
        output@ == poll_output(state, PollInput::<TInEvent>::Begin),
    ensures
        state.discoveries.len() > 0 ==> (output matches PollOutput::Done(
            Async::Ready(NetworkBehaviourAction::GenerateEvent(DiscoveryOut::Discovered(reported))),
        ) && reported@ == state.discoveries[0]),
        state.discoveries.len() > 0 ==> poll_next(
            state,
            PollInput::<TInEvent>::Begin,
        ).discoveries == state.discoveries.subrange(1, state.discoveries.len() as int),
        state.discoveries.len() == 0 ==> output == PollOutput::<TInEvent>::PollTimer,
        state.discoveries.len() == 0 ==> poll_next(
            state,
            PollInput::<TInEvent>::Begin,
        ).discoveries == state.discoveries,
{
}

/// While the timer is quiet, or if it failed, the first refused record is reported as a failure and
/// then waits no longer. Only where none waits is the hash table polled.
pub proof fn refused_record_comes_before_the_hash_table<TInEvent>(
    state: DiscoveryView,
    timer: TimerState,
    output: PollOutput<TInEvent>,
)
    requires
        timer == TimerState::NotReady || timer == TimerState::Failed,
        output@ == poll_output(state, PollInput::<TInEvent>::Timer(timer)),
    ensures
        state.failed_puts.len() > 0 ==> (output matches PollOutput::Done(
            Async::Ready(
                NetworkBehaviourAction::GenerateEvent(DiscoveryOut::ValuePutFailed(reported)),
            ),
        ) && reported.bytes@ == state.failed_puts[0]),
        state.failed_puts.len() > 0 ==> poll_next(
            state,
            PollInput::<TInEvent>::Timer(timer),
        ).failed_puts == state.failed_puts.subrange(1, state.failed_puts.len() as int),
        state.failed_puts.len() == 0 ==> output == PollOutput::<TInEvent>::PollKademlia,
        state.failed_puts.len() == 0 ==> poll_next(
            state,
            PollInput::<TInEvent>::Timer(timer),
        ).failed_puts == state.failed_puts,
{
}

/// Nodes that are found on the local network go to the end of those that wait, and the first of
/// all of them is reported. Where there is none, the local network is polled again.
pub proof fn local_nodes_queue_up<TInEvent>(
    state: DiscoveryView,
    list: Vec<(PeerId, Multiaddr)>,
    after: DiscoveryView,
    output: PollOutput<TInEvent>,
)
    requires
        output@ == poll_output(
            state,
            PollInput::<TInEvent>::Mdns(
                Async::Ready(MdnsAction::GenerateEvent(MdnsEvent::Discovered(list))),
            ),
        ),
        after.discoveries == poll_next(
            state,
            PollInput::<TInEvent>::Mdns(
                Async::Ready(MdnsAction::GenerateEvent(MdnsEvent::Discovered(list))),
            ),
        ).discoveries,
    ensures
        ({
            let waited = state.discoveries.len();
            let all = waited + list@.len();
            &&& all == 0 ==> output == PollOutput::<TInEvent>::PollMdns && after.discoveries.len()
                == 0
            &&& all > 0 ==> (output matches PollOutput::Done(
                Async::Ready(
                    NetworkBehaviourAction::GenerateEvent(DiscoveryOut::Discovered(reported)),
                ),
            ) && reported@ == if waited > 0 {
                state.discoveries[0]
            } else {
                list@[0].0@
            })
            &&& all > 0 ==> after.discoveries.len() == all - 1
            &&& forall|i: int|
                0 <= i < all - 1 ==> #[trigger] after.discoveries[i] == if i + 1 < waited {
                    state.discoveries[i + 1]
                } else {
                    list@[i + 1 - waited].0@
                }
        }),
{
    let peers = entry_peers(list@);
    assert(peers.len() == list@.len());
    assert forall|i: int| 0 <= i < list@.len() implies peers[i] == (#[trigger] list@[i]).0@ by {}
    if state.discoveries.len() == 0 && list@.len() > 0 {
        assert(peers[0] == list@[0].0@);
        assert((state.discoveries + peers)[0] == peers[0]);
    }
}

/// Addresses that expire on the local network are of no consequence.
pub proof fn expired_addresses_are_ignored<TInEvent>(
    state: DiscoveryView,
    list: Vec<(PeerId, Multiaddr)>,
    output: PollOutput<TInEvent>,
)
    requires
        output@ == poll_output(
            state,
            PollInput::<TInEvent>::Mdns(
                Async::Ready(MdnsAction::GenerateEvent(MdnsEvent::Expired(list))),
            ),
        ),
    ensures
        output == PollOutput::<TInEvent>::PollMdns,
        poll_next(
            state,
            PollInput::<TInEvent>::Mdns(
                Async::Ready(MdnsAction::GenerateEvent(MdnsEvent::Expired(list))),
            ),
        ) == state,
{
}

/// A source that has nothing more leads to the next one that there is, or ends the round.
pub proof fn exhausted_source_leads_on<TInEvent>(
    state: DiscoveryView,
    after_kademlia: PollOutput<TInEvent>,
    after_mdns: PollOutput<TInEvent>,
)
    requires
        after_kademlia@ == poll_output(state, PollInput::<TInEvent>::Kademlia(Async::NotReady)),
        after_mdns@ == poll_output(state, PollInput::<TInEvent>::Mdns(Async::NotReady)),
    ensures
        state.mdns ==> after_kademlia == PollOutput::<TInEvent>::PollMdns,
        !state.mdns ==> after_kademlia == PollOutput::<TInEvent>::Done(Async::NotReady),
        after_mdns == PollOutput::<TInEvent>::Done(Async::NotReady),
{
}

/// What the hash table asks the network to do is passed on as it is.
pub proof fn actions_of_the_hash_table_are_passed_on<TInEvent>(
    state: DiscoveryView,
    action: NetworkBehaviourAction<TInEvent, KademliaOut>,
    output: PollOutput<TInEvent>,
)
    requires
        output@ == poll_output(state, PollInput::<TInEvent>::Kademlia(Async::Ready(action))),
    ensures
        (action matches NetworkBehaviourAction::DialAddress { address }
            ==> (output matches PollOutput::Done(
            Async::Ready(NetworkBehaviourAction::DialAddress { address: passed }),
        ) && passed@ == address@)),
        (action matches NetworkBehaviourAction::DialPeer { peer_id, condition }
            ==> (output matches PollOutput::Done(
            Async::Ready(NetworkBehaviourAction::DialPeer { peer_id: passed, condition: when }),
        ) && passed@ == peer_id@ && when == condition)),
        (action matches NetworkBehaviourAction::SendEvent { peer_id, event }
            ==> (output matches PollOutput::Done(
            Async::Ready(NetworkBehaviourAction::SendEvent { peer_id: passed, event: what }),
        ) && passed@ == peer_id@ && what == event)),
        (action matches NetworkBehaviourAction::ReportObservedAddr { address }
            ==> (output matches PollOutput::Done(
            Async::Ready(NetworkBehaviourAction::ReportObservedAddr { address: passed }),
        ) && passed@ == address@)),
{
}

/// What the search on the local network asks the network to do is passed on as it is.
pub proof fn actions_of_the_local_network_are_passed_on<TInEvent>(
    state: DiscoveryView,
    action: MdnsAction,
    output: PollOutput<TInEvent>,
)
    requires
        output@ == poll_output(state, PollInput::<TInEvent>::Mdns(Async::Ready(action))),
    ensures
        (action matches MdnsAction::DialAddress { address } ==> (output matches PollOutput::Done(
            Async::Ready(NetworkBehaviourAction::DialAddress { address: passed }),
        ) && passed@ == address@)),
        (action matches MdnsAction::DialPeer { peer_id, condition }
            ==> (output matches PollOutput::Done(
            Async::Ready(NetworkBehaviourAction::DialPeer { peer_id: passed, condition: when }),
        ) && passed@ == peer_id@ && when == condition)),
        (action matches MdnsAction::ReportObservedAddr { address }
            ==> (output matches PollOutput::Done(
            Async::Ready(NetworkBehaviourAction::ReportObservedAddr { address: passed }),
        ) && passed@ == address@)),
{
}

/// Whatever is reported has its cause: a success of a publication, records and a miss come only
/// from an event of the hash table that says so, a failure from such an event or from a refused
/// record that waits, and a discovered node from the two events that bring one, from those that wait
/// or from the local network.
pub proof fn reports_have_their_cause<TInEvent>(
    state: DiscoveryView,
    input: PollInput<TInEvent>,
    reported: DiscoveryOut,
)
    requires
        poll_output(state, input) == PollOutput::<TInEvent>::Done(
            Async::Ready(NetworkBehaviourAction::GenerateEvent(reported)),
        )@,
    ensures
        match reported {
            DiscoveryOut::ValuePut(key) => (input matches PollInput::Kademlia(
                Async::Ready(
                    NetworkBehaviourAction::GenerateEvent(
                        KademliaOut::PutValueResult(PutValueResult::Stored { key: k }),
                    ),
                ),
            ) && k.bytes@ == key.bytes@),
            DiscoveryOut::ValuePutFailed(key) => {
                ||| (input matches PollInput::Kademlia(
                    Async::Ready(
                        NetworkBehaviourAction::GenerateEvent(
                            KademliaOut::PutValueResult(PutValueResult::NotStored { key: k }),
                        ),
                    ),
                ) && k.bytes@ == key.bytes@)
                ||| (input is Timer && state.failed_puts.len() > 0 && state.failed_puts[0]
                    == key.bytes@)
            },
            DiscoveryOut::ValueNotFound(key) => (input matches PollInput::Kademlia(
                Async::Ready(
                    NetworkBehaviourAction::GenerateEvent(
                        KademliaOut::GetValueResult(GetValueResult::NotFound { key: k }),
                    ),
                ),
            ) && k.bytes@ == key.bytes@),
            DiscoveryOut::ValueFound(pairs) => (input matches PollInput::Kademlia(
                Async::Ready(
                    NetworkBehaviourAction::GenerateEvent(
                        KademliaOut::GetValueResult(GetValueResult::Found { results }),
                    ),
                ),
            ) && results@.len() == pairs@.len()),
            DiscoveryOut::Discovered(peer_id) => {
                ||| (input matches PollInput::Kademlia(
                    Async::Ready(
                        NetworkBehaviourAction::GenerateEvent(
                            KademliaOut::KBucketAdded { peer_id: p, .. },
                        ),
                    ),
                ) && p@ == peer_id@)
                ||| (input matches PollInput::Kademlia(
                    Async::Ready(
                        NetworkBehaviourAction::GenerateEvent(
                            KademliaOut::UnroutablePeer { peer_id: p },
                        ),
                    ),
                ) && p@ == peer_id@)
                ||| (input is Begin || input is Mdns) && state.discoveries.len() > 0
                    && state.discoveries[0] == peer_id@
                ||| (input matches PollInput::Mdns(
                    Async::Ready(MdnsAction::GenerateEvent(MdnsEvent::Discovered(list))),
                ) && state.discoveries.len() == 0 && list@.len() > 0 && list@[0].0@ == peer_id@)
            },
        },
{
    match (input, reported) {
        (
            PollInput::Kademlia(
                Async::Ready(
                    NetworkBehaviourAction::GenerateEvent(
                        KademliaOut::GetValueResult(GetValueResult::Found { results }),
                    ),
                ),
            ),
            DiscoveryOut::ValueFound(pairs),
        ) => {
            assert(pair_views(pairs@).len() == record_views(results@).len());
        },
        (
            PollInput::Mdns(
                Async::Ready(MdnsAction::GenerateEvent(MdnsEvent::Discovered(list))),
            ),
            _,
        ) => {
            assert(entry_peers(list@).len() == list@.len());
            if list@.len() > 0 {
                assert(entry_peers(list@)[0] == list@[0].0@);
            }
        },
        _ => {},
    }
}

/// When the timer fires, it is set to the current pause, whatever the rest of the state, and the
/// pause becomes twice as long, up to a minute. Nothing else that `poll` is told touches the pause.
pub proof fn firing_sets_the_timer<TInEvent>(
    state: DiscoveryView,
    input: PollInput<TInEvent>,
    output: PollOutput<TInEvent>,
)
    requires
        output@ == poll_output(state, input),
    ensures
        input == PollInput::<TInEvent>::Timer(TimerState::Fired) ==> {
            &&& (output matches PollOutput::ResetTimer { seconds } && seconds as nat
                == state.duration_to_next_kad)
            &&& 2 * state.duration_to_next_kad < 60 ==> poll_next(state, input).duration_to_next_kad
                == 2 * state.duration_to_next_kad
            &&& 2 * state.duration_to_next_kad >= 60 ==> poll_next(
                state,
                input,
            ).duration_to_next_kad == 60
        },
        input != PollInput::<TInEvent>::Timer(TimerState::Fired) ==> {
            &&& !(output is ResetTimer)
            &&& poll_next(state, input).duration_to_next_kad == state.duration_to_next_kad
        },
{
}

/// A call, as far as the pause between random queries is concerned.
pub enum Step<TInEvent> {
    /// `poll`, with what it is told and what it asks for.
    Poll(PollInput<TInEvent>, PollOutput<TInEvent>),
    /// `start_random_query`, with the seconds that it gives.
    Query(u64),
    /// Any other method, none of which touches the pause.
    Other,
}

/// Over any sequence of calls from a fresh behaviour, the number of seconds that is given for the
/// pause after the random query that comes after `n` others is the `n`-th power of two, or a minute
/// if that is less, whatever else is called in between.
pub proof fn pauses_double_over_any_calls<TInEvent>(
    states: Seq<DiscoveryView>,
    steps: Seq<Step<TInEvent>>,
    i: int,
)
    requires
        states.len() == steps.len() + 1,
        states[0].duration_to_next_kad == 1,
        forall|k: int|
            #![trigger steps[k]]
            0 <= k < steps.len() ==> match steps[k] {
                Step::Poll(input, output) => {
                    &&& output@ == poll_output(states[k], input)
                    &&& states[k + 1].duration_to_next_kad == poll_next(
                        states[k],
                        input,
                    ).duration_to_next_kad
                },
                Step::Query(seconds) => {
                    &&& seconds as nat == states[k].duration_to_next_kad
                    &&& states[k + 1].duration_to_next_kad == next_interval(
                        states[k].duration_to_next_kad,
                    )
                },
                Step::Other => states[k + 1].duration_to_next_kad == states[k].duration_to_next_kad,
            },
        0 <= i < steps.len(),
    ensures
        ({
            let n = steps.take(i).filter(
                |step: Step<TInEvent>|
                    step is Query || (step matches Step::Poll(input, _) && input
                        == PollInput::<TInEvent>::Timer(TimerState::Fired)),
            ).len();
            let pause = if pow2(n) < 60 {
                pow2(n)
            } else {
                60
            };
            match steps[i] {
                Step::Poll(input, output) => {
                    input == PollInput::<TInEvent>::Timer(TimerState::Fired) ==> (
                    output matches PollOutput::ResetTimer { seconds } && seconds as nat == pause)
                },
                Step::Query(seconds) => seconds as nat == pause,
                Step::Other => true,
            }
        }),
{
    pause_after(states, steps, i);
}

/// The pause after the first calls of a sequence.
proof fn pause_after<TInEvent>(
    states: Seq<DiscoveryView>,
    steps: Seq<Step<TInEvent>>,
    i: int,
)
    requires
        states.len() == steps.len() + 1,
        states[0].duration_to_next_kad == 1,
        forall|k: int|
            #![trigger steps[k]]
            0 <= k < steps.len() ==> match steps[k] {
                Step::Poll(input, output) => {
                    &&& output@ == poll_output(states[k], input)
                    &&& states[k + 1].duration_to_next_kad == poll_next(
                        states[k],
                        input,
                    ).duration_to_next_kad
                },
                Step::Query(seconds) => {
                    &&& seconds as nat == states[k].duration_to_next_kad
                    &&& states[k + 1].duration_to_next_kad == next_interval(
                        states[k].duration_to_next_kad,
                    )
                },
                Step::Other => states[k + 1].duration_to_next_kad == states[k].duration_to_next_kad,
            },
        0 <= i <= steps.len(),
    ensures
        ({
            let n = steps.take(i).filter(
                |step: Step<TInEvent>|
                    step is Query || (step matches Step::Poll(input, _) && input
                        == PollInput::<TInEvent>::Timer(TimerState::Fired)),
            ).len();
            states[i].duration_to_next_kad == if pow2(n) < 60 {
                pow2(n)
            } else {
                60
            }
        }),
    decreases i,
{
    lemma2_to64();
    let counts = |step: Step<TInEvent>|
        step is Query || (step matches Step::Poll(input, _) && input
            == PollInput::<TInEvent>::Timer(TimerState::Fired));
    reveal(Seq::filter);
    if i > 0 {
        pause_after(states, steps, i - 1);
        let step = steps[i - 1];
        let n = steps.take(i - 1).filter(counts).len();
        assert(steps.take(i).drop_last() =~= steps.take(i - 1));
        assert(steps.take(i).last() == step);
        lemma_pow2_unfold(n + 1);
    }
}

/// Nothing that `poll` is told touches the addresses that are known for good, the identity of the
/// local node, the number of connections or whether the local network is searched. The nodes that
/// wait to be reported change only when a round begins and when the local network has nodes, and the
/// refused records only while the timer is quiet.
pub proof fn poll_keeps_the_rest<TInEvent>(state: DiscoveryView, input: PollInput<TInEvent>)
    ensures
        ({
            let after = poll_next(state, input);
            &&& after.user_defined == state.user_defined
            &&& after.local_peer_id == state.local_peer_id
            &&& after.num_connections == state.num_connections
            &&& after.mdns == state.mdns
            &&& input is Kademlia || input is Timer ==> after.discoveries == state.discoveries
            &&& !(input is Timer) || input == PollInput::<TInEvent>::Timer(TimerState::Fired)
                ==> after.failed_puts == state.failed_puts
            &&& input is Kademlia ==> after == state
            &&& (input matches PollInput::Mdns(Async::Ready(action)) ==> action is GenerateEvent
                || after == state)
            &&& input == PollInput::<TInEvent>::Mdns(Async::NotReady) ==> after == state
        }),
{
}

/// A key stands for its bytes, and a record for the bytes of its key and of its value.
pub proof fn keys_and_records_are_their_bytes(key: Key, record: Record)
    ensures
        key@ == key.bytes@,
        record@ == (record.key.bytes@, record.value@),
{
}

/// A pause is followed by one twice as long, up to a minute.
pub proof fn pause_is_followed_by_twice_as_long(seconds: nat)
    ensures
        2 * seconds <= 60 ==> next_interval(seconds) == 2 * seconds,
        2 * seconds > 60 ==> next_interval(seconds) == 60,
{
}

/// The list of records stands for their keys and values as they are.
pub proof fn records_are_listed_as_they_are(records: Seq<Record>, pairs: Seq<(Key, Vec<u8>)>)
    ensures
        record_views(records).len() == records.len(),
        forall|i: int|
            0 <= i < records.len() ==> #[trigger] record_views(records)[i] == (
                records[i].key.bytes@,
                records[i].value@,
            ),
        pair_views(pairs).len() == pairs.len(),
        forall|i: int|
            0 <= i < pairs.len() ==> #[trigger] pair_views(pairs)[i] == (
                pairs[i].0.bytes@,
                pairs[i].1@,
            ),
{
}

/// The lists of nodes and addresses stand for each of their elements, in their order.
pub proof fn lists_are_shown_as_they_are(
    entries: Seq<(PeerId, Multiaddr)>,
    peers: Seq<PeerId>,
    addresses: Seq<Multiaddr>,
)
    ensures
        entry_views(entries).len() == entries.len(),
        forall|i: int|
            0 <= i < entries.len() ==> #[trigger] entry_views(entries)[i] == (
                entries[i].0@,
                entries[i].1@,
            ),
        entry_peers(entries).len() == entries.len(),
        forall|i: int| 0 <= i < entries.len() ==> #[trigger] entry_peers(entries)[i] == entries[i].0@,
        peer_views(peers).len() == peers.len(),
        forall|i: int| 0 <= i < peers.len() ==> #[trigger] peer_views(peers)[i] == peers[i]@,
        address_views(addresses).len() == addresses.len(),
        forall|i: int|
            0 <= i < addresses.len() ==> #[trigger] address_views(addresses)[i] == addresses[i]@,
{
}

/// The other end of a connection is the address that was dialed, or else the one through which data
/// goes back; and an address was dialed exactly if the local node was the one to dial.
pub proof fn connections_have_their_ends(
    address: Multiaddr,
    local_addr: Multiaddr,
    send_back_addr: Multiaddr,
)
    ensures
        (ConnectedPoint::Dialer { address }).remote() == address@,
        (ConnectedPoint::Dialer { address }).dialed() == Some(address@),
        (ConnectedPoint::Listener { local_addr, send_back_addr }).remote() == send_back_addr@,
        (ConnectedPoint::Listener { local_addr, send_back_addr }).dialed() == None::<Seq<u8>>,
{
}

/// A number is written in groups of seven bits: read back group by group, it is the same number,
/// and the top bit is set in every byte but the last.
pub proof fn number_is_read_back(n: nat)
    ensures
        varint_value(varint(n)) == n,
        varint(n).len() > 0,
        forall|i: int|
            0 <= i < varint(n).len() ==> (#[trigger] varint(n)[i] >= 128 <==> i < varint(n).len()
                - 1),
        n < 128 ==> varint(n) == seq![n as u8],
        128 <= n < 16384 ==> varint(n) == seq![(n % 128 + 128) as u8, (n / 128) as u8],
    decreases n,
{
    if n >= 128 {
        number_is_read_back(n / 128);
        let rest = varint(n / 128);
        let first = (n % 128 + 128) as u8;
        assert(varint(n) =~= seq![first] + rest);
        assert(varint(n).drop_first() =~= rest);
        assert(first % 128 == n % 128);
        assert forall|i: int| 0 <= i < varint(n).len() implies (#[trigger] varint(n)[i] >= 128 <==> i
            < varint(n).len() - 1) by {
            if i > 0 {
                assert(varint(n)[i] == rest[i - 1]);
            }
        }
        if n < 16384 {
            assert(varint(n) =~= seq![first, (n / 128) as u8]);
        }
    } else {
        reveal_with_fuel(varint_value, 2);
        assert(varint(n).drop_first().len() == 0);
    }
}

/// An address is announced with the code 421 of the protocol, the length of the identity and the
/// identity itself behind it.
pub proof fn identity_follows_the_address(peer_id: Seq<u8>)
    ensures
        ({
            let n = varint(peer_id.len()).len() as int;
            let component = p2p_component(peer_id);
            &&& component.len() == 2 + n + peer_id.len()
            &&& component[0] == 0xa5 && component[1] == 0x03
            &&& component.subrange(2, 2 + n) == varint(peer_id.len())
            &&& component.skip(2 + n) == peer_id
        }),
        peer_id.len() < 128 ==> p2p_component(peer_id) == seq![
            0xa5u8,
            0x03u8,
            peer_id.len() as u8,
        ] + peer_id,
{
    number_is_read_back(421);
    number_is_read_back(peer_id.len());
    let n = varint(peer_id.len()).len() as int;
    let component = p2p_component(peer_id);
    assert(varint(421) =~= seq![0xa5u8, 0x03u8]);
    assert(component.subrange(2, 2 + n) =~= varint(peer_id.len()));
    assert(component.skip(2 + n) =~= peer_id);
    if peer_id.len() < 128 {
        assert(component =~= seq![0xa5u8, 0x03u8, peer_id.len() as u8] + peer_id);
    }
}

/// A digest with the code of SHA-256 and its length in front is an identity, and a key of at most 42
/// bytes with the code 0 and its length in front is one too.
pub proof fn digests_are_identities(digest: Seq<u8>)
    ensures
        digest.len() < 128 ==> is_peer_id(seq![0x12u8, digest.len() as u8] + digest),
        digest.len() <= 42 ==> is_peer_id(seq![0x00u8, digest.len() as u8] + digest),
{
    reveal_with_fuel(varint_value, 3);
    let length = seq![digest.len() as u8];
    assert(length.drop_first().len() == 0);
    assert(seq![0x12u8].drop_first().len() == 0);
    assert(seq![0x00u8].drop_first().len() == 0);
    if digest.len() < 128 {
        assert(varint_value(length) == digest.len());
        assert(is_varint(seq![0x12u8], 0x12));
        assert(are_peer_id_parts(seq![0x12u8], length, digest));
        assert(seq![0x12u8, digest.len() as u8] + digest =~= seq![0x12u8] + length + digest);
        assert(is_varint(seq![0x00u8], 0));
        if digest.len() <= 42 {
            assert(are_peer_id_parts(seq![0x00u8], length, digest));
            assert(seq![0x00u8, digest.len() as u8] + digest =~= seq![0x00u8] + length + digest);
        }
    }
}

/// A number in groups of seven bits grows by its first group and 128 times the rest.
pub proof fn number_is_read_group_by_group(bytes: Seq<u8>)
    ensures
        bytes.len() == 0 ==> varint_value(bytes) == 0,
        bytes.len() > 0 ==> varint_value(bytes) == bytes[0] % 128 + 128 * varint_value(
            bytes.skip(1),
        ),
{
    if bytes.len() > 0 {
        assert(bytes.skip(1) =~= bytes.drop_first());
    }
}

/// An identity is a code, the length of what follows it and just as many bytes. Each of the two
/// numbers has at most ten bytes, of which the last is the first below 128, and counts for its lower
/// 64 bits. The code is that of SHA-256, or 0 with at most 42 bytes to follow.
pub proof fn identity_has_three_parts(bytes: Seq<u8>)
    ensures
        is_peer_id(bytes) <==> exists|c: int, l: int|
            {
                &&& 1 <= c <= 10 && 1 <= l <= 10 && c + l <= bytes.len()
                &&& forall|i: int|
                    0 <= i < c ==> (#[trigger] bytes.take(c)[i] >= 128 <==> i < c - 1)
                &&& forall|i: int|
                    0 <= i < l ==> (#[trigger] bytes.subrange(c, c + l)[i] >= 128 <==> i < l - 1)
                &&& #[trigger] varint_value(bytes.subrange(c, c + l)) % 0x1_0000_0000_0000_0000
                    == bytes.len() - c - l
                &&& {
                    ||| varint_value(bytes.take(c)) % 0x1_0000_0000_0000_0000 == 0x12
                    ||| varint_value(bytes.take(c)) % 0x1_0000_0000_0000_0000 == 0 && bytes.len()
                        - c - l <= 42
                }
            },
{
    if is_peer_id(bytes) {
        let (code, length, digest) = choose|code: Seq<u8>, length: Seq<u8>, digest: Seq<u8>|
            #[trigger]
            are_peer_id_parts(code, length, digest) && bytes == code + length + digest;
        let c = code.len() as int;
        let l = length.len() as int;
        assert(bytes.take(c) =~= code);
        assert(bytes.subrange(c, c + l) =~= length);
        assert(varint_value(bytes.subrange(c, c + l)) % 0x1_0000_0000_0000_0000 == bytes.len() - c
            - l);
    }
    if exists|c: int, l: int|
        {
            &&& 1 <= c <= 10 && 1 <= l <= 10 && c + l <= bytes.len()
            &&& forall|i: int| 0 <= i < c ==> (#[trigger] bytes.take(c)[i] >= 128 <==> i < c - 1)
            &&& forall|i: int|
                0 <= i < l ==> (#[trigger] bytes.subrange(c, c + l)[i] >= 128 <==> i < l - 1)
            &&& #[trigger] varint_value(bytes.subrange(c, c + l)) % 0x1_0000_0000_0000_0000
                == bytes.len() - c - l
            &&& {
                ||| varint_value(bytes.take(c)) % 0x1_0000_0000_0000_0000 == 0x12
                ||| varint_value(bytes.take(c)) % 0x1_0000_0000_0000_0000 == 0 && bytes.len() - c
                    - l <= 42
            }
        } {
        let (c, l) = choose|c: int, l: int|
            {
                &&& 1 <= c <= 10 && 1 <= l <= 10 && c + l <= bytes.len()
                &&& forall|i: int|
                    0 <= i < c ==> (#[trigger] bytes.take(c)[i] >= 128 <==> i < c - 1)
                &&& forall|i: int|
                    0 <= i < l ==> (#[trigger] bytes.subrange(c, c + l)[i] >= 128 <==> i < l - 1)
                &&& #[trigger] varint_value(bytes.subrange(c, c + l)) % 0x1_0000_0000_0000_0000
                    == bytes.len() - c - l
                &&& {
                    ||| varint_value(bytes.take(c)) % 0x1_0000_0000_0000_0000 == 0x12
                    ||| varint_value(bytes.take(c)) % 0x1_0000_0000_0000_0000 == 0 && bytes.len()
                        - c - l <= 42
                }
            };
        let digest = bytes.skip(c + l);
        assert(are_peer_id_parts(bytes.take(c), bytes.subrange(c, c + l), digest));
        assert(bytes =~= bytes.take(c) + bytes.subrange(c, c + l) + digest);
    }
}

/// An identity that is drawn at random is a key of 32 bytes with the code 0 and its length in front.
pub proof fn random_identity_is_a_short_key(bytes: Seq<u8>)
    ensures
        is_random_peer_id(bytes) <==> bytes.len() == 34 && bytes[0] == 0 && bytes[1] == 32,
{
    if bytes.len() == 34 && bytes[0] == 0 && bytes[1] == 32 {
        digests_are_identities(bytes.skip(2));
        assert(bytes =~= seq![0x00u8, bytes.skip(2).len() as u8] + bytes.skip(2));
    }
}

} // verus!
