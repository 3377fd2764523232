//! Discovery of the nodes that are part of a peer-to-peer network.
//!
//! The `DiscoveryBehaviour` decides how the nodes of a network are found and what is reported of
//! them. It uses the following mechanisms in order to discover nodes:
//!
//! - Bootstrap nodes. These are hard-coded node identities and addresses passed to the constructor
//! of the `DiscoveryBehaviour`. You can also call `add_known_address` later to add an entry.
//!
//! - mDNS. Finds nodes on the local network by broadcasting packets.
//!
//! - Kademlia random walk. Once connected, random requests to the distributed hash table make the
//! nodes propagate their view of the network.
//!
//! Additionally, the `DiscoveryBehaviour` is also capable of storing and loading values in the
//! network-wide hash table.
//!
//! ## Usage
//!
//! The `DiscoveryBehaviour` generates events of type `DiscoveryOut`, most notably
//! `DiscoveryOut::Discovered`, which is generated whenever a node is discovered. Only the identity
//! of the node is returned. The addresses of the node can be queried through `addresses_of_peer`.
//!
//! The `DiscoveryBehaviour` itself neither waits nor talks to the network. `poll` says, step by
//! step, which source to poll next, and is told what came of it.
//!
//! **Important**: In order for the discovery mechanism to work properly, there needs to be an
//! active mechanism that asks nodes for the addresses they are listening on. Whenever a node's
//! address is learned, you must call `add_self_reported_address`.

pub mod address;
pub mod behaviour;
pub mod event;
pub mod kademlia;
pub mod laws;
pub mod model;
pub mod outcomes;
pub mod peer;
pub mod routing;

pub use address::{ConnectedPoint, Multiaddr};
pub use behaviour::DiscoveryBehaviour;
pub use event::{DiscoveryOut, Key};
pub use peer::{PeerId, PublicKey};
