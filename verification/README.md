# discovery

Discovery of the nodes of a peer-to-peer network: bootstrap nodes, mDNS on the local network and a
random walk through the Kademlia hash table of libp2p. The library is written in Verus.

- `src/behaviour.rs`: `DiscoveryBehaviour`, which decides what is reported and what is polled next.
- `src/model.rs`: its state and its rules in terms of sequences, sets and numbers.
- `src/laws.rs`: what holds of the discovery as a whole, as proof functions.
- `src/kademlia.rs`: what the calls into `libp2p::kad::Kademlia` do. These contracts are believed,
  not proved, as are those of the calls into libp2p in `src/peer.rs` and `src/address.rs`.
- `src/event.rs`, `src/peer.rs`, `src/address.rs`: the types that go in and out.
- `app/`: the behaviour of a libp2p swarm around the library, with timer, mDNS and logging.
- `tests/`: tests of the library, one of them with a network of nodes in memory.
