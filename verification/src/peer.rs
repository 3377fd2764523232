//! Identities of the nodes.

use vstd::prelude::*;

verus! {

/// The number that a byte string holds in groups of seven bits, the least significant group first.
/// The top bit of each byte does not count.
pub open spec fn varint_value(bytes: Seq<u8>) -> nat
    decreases bytes.len(),
{
    if bytes.len() == 0 {
        0
    } else {
        (bytes[0] % 128) as nat + 128 * varint_value(bytes.drop_first())
    }
}

/// Whether a byte string is read as a number of 64 bits: it has at most ten bytes, and the top bit
/// is set in all of them but the last. It may be longer than it has to be, and what goes beyond 64
/// bits is cut off.
pub open spec fn is_varint(bytes: Seq<u8>, value: nat) -> bool {
    &&& 1 <= bytes.len() <= 10
    &&& forall|i: int|
        0 <= i < bytes.len() ==> (#[trigger] bytes[i] >= 128 <==> i < bytes.len() - 1)
    &&& varint_value(bytes) % 0x1_0000_0000_0000_0000 == value
}

/// Whether a code, a length and a digest make up an identity: the digest has that length, and it
/// is either one of SHA-256, which has the code 0x12, or a key of at most 42 bytes itself, which
/// has the code 0.
pub open spec fn are_peer_id_parts(code: Seq<u8>, length: Seq<u8>, digest: Seq<u8>) -> bool {
    &&& is_varint(code, 0x12) || is_varint(code, 0) && digest.len() <= 42
    &&& is_varint(length, digest.len())
}

/// Whether a byte string is the binary form of the identity of a node: a multihash, which is a
/// code, a length and a digest.
pub open spec fn is_peer_id(bytes: Seq<u8>) -> bool {
    exists|code: Seq<u8>, length: Seq<u8>, digest: Seq<u8>| #[trigger]
        are_peer_id_parts(code, length, digest) && bytes == code + length + digest
}

/// The identity that a public key in protobuf form stands for: what
/// `libp2p::core::PublicKey::into_peer_id` gives for it, or `None` where the bytes are not the
/// protobuf form of a public key. Which types of keys are read is settled when `libp2p` is built.
pub uninterp spec fn public_key_peer_id(encoded: Seq<u8>) -> Option<Seq<u8>>;

/// Whether a byte string is an identity of the form in which identities are drawn at random: the
/// identity multihash of thirty-two bytes.
pub open spec fn is_random_peer_id(bytes: Seq<u8>) -> bool {
    &&& is_peer_id(bytes)
    &&& bytes.len() == 34
    &&& bytes[0] == 0x00
    &&& bytes[1] == 0x20
}

/// Identity of a node: the multihash of its public key.
#[derive(Debug, PartialEq, Eq, Hash)]
pub struct PeerId {
    bytes: Vec<u8>,
}

impl View for PeerId {
    type V = Seq<u8>;

    closed spec fn view(&self) -> Seq<u8> {
        self.bytes@
    }
}

impl Clone for PeerId {
    fn clone(&self) -> (copy: PeerId)
        ensures
            copy@ == self@,
    {
        proof {
            use_type_invariant(self);
        }
        PeerId { bytes: self.bytes.clone() }
    }
}

impl PeerId {
    /// Only bytes that form an identity are ever held.
    #[verifier::type_invariant]
    pub open spec fn valid(self) -> bool {
        is_peer_id(self@)
    }

    /// Takes the binary form of an identity. Gives the bytes back where they are not one.
    pub fn from_bytes(bytes: Vec<u8>) -> (result: Result<PeerId, Vec<u8>>)
        ensures
            match result {
                Ok(peer_id) => is_peer_id(bytes@) && peer_id@ == bytes@,
                Err(rejected) => !is_peer_id(bytes@) && rejected@ == bytes@,
            },
    {
        if accepts_peer_id(&bytes) {
            Ok(PeerId { bytes })
        } else {
            Err(bytes)
        }
    }

    /// Takes bytes that are known to form an identity.
    pub(crate) fn from_valid_bytes(bytes: Vec<u8>) -> (peer_id: PeerId)
        requires
            is_peer_id(bytes@),
        ensures
            peer_id@ == bytes@,
    {
        PeerId { bytes }
    }

    /// Draws an identity at random.
    pub fn random() -> (peer_id: PeerId)
        ensures
            is_random_peer_id(peer_id@),
    {
        PeerId { bytes: random_bytes() }
    }

    /// The binary form of the identity.
    pub fn as_bytes(&self) -> (bytes: &Vec<u8>)
        ensures
            bytes@ == self@,
    {
        &self.bytes
    }

    /// Whether two identities are the same.
    pub fn same_as(&self, other: &PeerId) -> (same: bool)
        ensures
            same == (self@ == other@),
    {
        same_bytes(&self.bytes, &other.bytes)
    }
}

/// Whether two byte strings are equal.
pub fn same_bytes(a: &Vec<u8>, b: &Vec<u8>) -> (same: bool)
    ensures
        same == (a@ == b@),
{
    if a.len() != b.len() {
        return false;
    }
    let mut i: usize = 0;
    while i < a.len()
        invariant
            a.len() == b.len(),
            i <= a.len(),
            a@.take(i as int) == b@.take(i as int),
        decreases a.len() - i,
    {
        if a[i] != b[i] {
            return false;
        }
        i = i + 1;
        assert(a@.take(i as int) =~= a@.take(i - 1).push(a@[i - 1]));
        assert(b@.take(i as int) =~= b@.take(i - 1).push(b@[i - 1]));
    }
    assert(a@.take(i as int) =~= a@);
    assert(b@.take(i as int) =~= b@);
    true
}

/// Calls `libp2p::PeerId::from_bytes`: it accepts the bytes if they are a multihash with one of the
/// two codes that identities have.
#[verifier::external_body]
fn accepts_peer_id(bytes: &Vec<u8>) -> (accepted: bool)
    ensures
        accepted == is_peer_id(bytes@),
{
    libp2p::PeerId::from_bytes(bytes.clone()).is_ok()
}

/// Public key of a node, in protobuf form.
#[derive(Debug, PartialEq, Eq)]
pub struct PublicKey {
    encoded: Vec<u8>,
}

impl View for PublicKey {
    type V = Seq<u8>;

    closed spec fn view(&self) -> Seq<u8> {
        self.encoded@
    }
}

impl PublicKey {
    /// Only the protobuf form of a public key is ever held.
    #[verifier::type_invariant]
    pub open spec fn valid(self) -> bool {
        public_key_peer_id(self@) is Some
    }

    /// Takes a public key in protobuf form. Gives the bytes back where they do not decode.
    pub fn from_protobuf_encoding(encoded: Vec<u8>) -> (result: Result<PublicKey, Vec<u8>>)
        ensures
            match result {
                Ok(key) => public_key_peer_id(encoded@) is Some && key@ == encoded@,
                Err(rejected) => public_key_peer_id(encoded@) is None && rejected@ == encoded@,
            },
    {
        match decode_peer_id(&encoded) {
            Some(_) => Ok(PublicKey { encoded }),
            None => Err(encoded),
        }
    }

    /// The identity of the node that holds the key.
    pub fn into_peer_id(self) -> (peer_id: PeerId)
        ensures
            Some(peer_id@) == public_key_peer_id(self@),
    {
        proof {
            use_type_invariant(&self);
        }
        match decode_peer_id(&self.encoded) {
            Some(bytes) => PeerId { bytes },
            None => vstd::pervasive::unreached(),
        }
    }
}

/// Calls `libp2p::core::PublicKey::into_peer_id` on the key that
/// `libp2p::core::PublicKey::from_protobuf_encoding` reads out of the bytes. The result is a
/// function of the bytes, and what comes out is the binary form of an identity.
#[verifier::external_body]
fn decode_peer_id(encoded: &Vec<u8>) -> (peer_id: Option<Vec<u8>>)
    ensures
        match peer_id {
            Some(bytes) => public_key_peer_id(encoded@) == Some(bytes@) && is_peer_id(bytes@),
            None => public_key_peer_id(encoded@) is None,
        },
{
    match libp2p::core::PublicKey::from_protobuf_encoding(encoded) {
        Ok(key) => Some(key.into_peer_id().into_bytes()),
        Err(_) => None,
    }
}

/// Calls `libp2p::PeerId::random`: an identity multihash of thirty-two bytes drawn at random.
/// Which bytes those are is left open.
#[verifier::external_body]
fn random_bytes() -> (bytes: Vec<u8>)
    ensures
        is_random_peer_id(bytes@),
{
    libp2p::PeerId::random().into_bytes()
}

} // verus!
