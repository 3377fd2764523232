//! Addresses at which nodes are reached.

use vstd::prelude::*;
use std::convert::TryFrom;
use crate::peer::{is_peer_id, same_bytes, PeerId};

verus! {

/// Whether a byte string is the binary form of an address, that is, whether
/// `libp2p::Multiaddr::try_from` accepts it.
pub uninterp spec fn is_multiaddr(bytes: Seq<u8>) -> bool;

/// A number in groups of seven bits, the least significant group first. The top bit of a byte
/// is set where another byte follows.
pub open spec fn varint(n: nat) -> Seq<u8>
    decreases n,
{
    if n < 128 {
        seq![n as u8]
    } else {
        seq![(n % 128 + 128) as u8] + varint(n / 128)
    }
}

/// The address component `/p2p/<peer_id>`: the code of the protocol, which is 421, the length of
/// the identity and the identity.
pub open spec fn p2p_component(peer_id: Seq<u8>) -> Seq<u8> {
    varint(421) + varint(peer_id.len()) + peer_id
}

/// Address of a node.
#[derive(Debug, PartialEq, Eq, Hash)]
pub struct Multiaddr {
    bytes: Vec<u8>,
}

impl View for Multiaddr {
    type V = Seq<u8>;

    closed spec fn view(&self) -> Seq<u8> {
        self.bytes@
    }
}

impl Clone for Multiaddr {
    fn clone(&self) -> (copy: Multiaddr)
        ensures
            copy@ == self@,
    {
        proof {
            use_type_invariant(self);
        }
        Multiaddr { bytes: self.bytes.clone() }
    }
}

impl Multiaddr {
    /// Only bytes that form an address are ever held.
    #[verifier::type_invariant]
    pub open spec fn valid(self) -> bool {
        is_multiaddr(self@)
    }

    /// Takes the binary form of an address. Gives the bytes back where they are not one.
    pub fn from_bytes(bytes: Vec<u8>) -> (result: Result<Multiaddr, Vec<u8>>)
        ensures
            match result {
                Ok(address) => is_multiaddr(bytes@) && address@ == bytes@,
                Err(rejected) => !is_multiaddr(bytes@) && rejected@ == bytes@,
            },
    {
        if accepts_multiaddr(&bytes) {
            Ok(Multiaddr { bytes })
        } else {
            Err(bytes)
        }
    }

    /// Takes bytes that are known to form an address.
    pub(crate) fn from_valid_bytes(bytes: Vec<u8>) -> (address: Multiaddr)
        requires
            is_multiaddr(bytes@),
        ensures
            address@ == bytes@,
    {
        Multiaddr { bytes }
    }

    /// The binary form of the address.
    pub fn as_bytes(&self) -> (bytes: &Vec<u8>)
        ensures
            bytes@ == self@,
    {
        &self.bytes
    }

    /// Whether two addresses are the same.
    pub fn same_as(&self, other: &Multiaddr) -> (same: bool)
        ensures
            same == (self@ == other@),
    {
        same_bytes(&self.bytes, &other.bytes)
    }

    /// The address followed by the identity of the node that is to be found there.
    pub fn with_peer_id(&self, peer_id: &PeerId) -> (address: Multiaddr)
        ensures
            address@ == self@ + p2p_component(peer_id@),
    {
        proof {
            use_type_invariant(self);
            use_type_invariant(peer_id);
        }
        Multiaddr { bytes: with_p2p(&self.bytes, peer_id.as_bytes()) }
    }
}

/// Calls `libp2p::Multiaddr::try_from` on the bytes: whether it accepts them.
#[verifier::external_body]
fn accepts_multiaddr(bytes: &Vec<u8>) -> (accepted: bool)
    ensures
        accepted == is_multiaddr(bytes@),
{
    libp2p::Multiaddr::try_from(bytes.clone()).is_ok()
}

/// Calls `libp2p::Multiaddr::with` with a `Protocol::P2p`. It appends the component to the
/// address, and an address comes out.
#[verifier::external_body]
fn with_p2p(address: &Vec<u8>, peer_id: &Vec<u8>) -> (extended: Vec<u8>)
    requires
        is_multiaddr(address@),
        is_peer_id(peer_id@),
    ensures
        extended@ == address@ + p2p_component(peer_id@),
        is_multiaddr(extended@),
{
    let address = libp2p::Multiaddr::try_from(address.clone()).unwrap();
    let peer_id = libp2p::PeerId::from_bytes(peer_id.clone()).unwrap();
    address.with(libp2p::multiaddr::Protocol::P2p(peer_id.into())).to_vec()
}

/// The two ends of a connection.
#[derive(Debug, PartialEq, Eq)]
pub enum ConnectedPoint {
    /// The local node dialed the other one.
    Dialer {
        /// The address that was dialed.
        address: Multiaddr,
    },
    /// The other node dialed the local one.
    Listener {
        /// The address at which the local node was reached.
        local_addr: Multiaddr,
        /// The address through which data goes back to the other node.
        send_back_addr: Multiaddr,
    },
}

impl ConnectedPoint {
    /// The address of the other node, as far as the connection shows it.
    pub open spec fn remote(self) -> Seq<u8> {
        match self {
            ConnectedPoint::Dialer { address } => address@,
            ConnectedPoint::Listener { send_back_addr, .. } => send_back_addr@,
        }
    }

    /// The address that the local node dialed, if it was the one to dial.
    pub open spec fn dialed(self) -> Option<Seq<u8>> {
        match self {
            ConnectedPoint::Dialer { address } => Some(address@),
            ConnectedPoint::Listener { .. } => None,
        }
    }

    /// Gives the address of the other node.
    pub fn get_remote_address(&self) -> (address: &Multiaddr)
        ensures
            address@ == self.remote(),
    {
        match self {
            ConnectedPoint::Dialer { address } => address,
            ConnectedPoint::Listener { send_back_addr, .. } => send_back_addr,
        }
    }
}

} // verus!
