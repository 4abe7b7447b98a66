//! Node identity: an asymmetric keypair generated once at startup, and
//! the node identifier derived from its public key.
//!
//! The keypair itself is opaque: it is generated by the transport
//! library and handed back to it for the authenticated handshake. The
//! identifier, by contrast, is a pure, verified derivation from the
//! public key bytes, stable for the node's lifetime.
use vstd::prelude::*;

use crate::message::digest64;

verus! {

/// Declares libp2p's keypair type so values of it can be held and
/// passed through; nothing is assumed about its contents.
#[verifier::external_type_specification]
#[verifier::external_body]
pub struct ExKeypair(libp2p::identity::Keypair);

/// Relies on libp2p's `identity::Keypair::generate_ed25519`: draws a
/// fresh keypair from a cryptographically secure random source.
/// Nothing is assumed of the outcome.
#[verifier::external_body]
fn generate_keypair() -> libp2p::identity::Keypair {
    libp2p::identity::Keypair::generate_ed25519()
}

/// Relies on libp2p's `Keypair::public` and `PublicKey::encode_protobuf`:
/// hands out the keypair's public half as plain bytes. Nothing is
/// assumed of the bytes.
#[verifier::external_body]
fn public_key_bytes(k: &libp2p::identity::Keypair) -> Vec<u8> {
    k.public().encode_protobuf()
}

/// A member of the peer-to-peer network: its keypair, the public key
/// bytes, and the identifier derived from them.
pub struct Node {
    keypair: libp2p::identity::Keypair,
    public: Vec<u8>,
    id: u64,
}

impl Node {
    /// The identifier is exactly the digest of the public key bytes.
    pub closed spec fn wf(self) -> bool {
        self.id == digest64(self.public@)
    }

    /// The stored public key bytes (spec view).
    pub closed spec fn spec_public(self) -> Seq<u8> {
        self.public@
    }

    /// Create a new node, generating its cryptographic keypair. The
    /// identifier is derived from the public key once; it never
    /// changes afterwards, since no method writes these fields.
    pub fn init() -> (r: Node)
        ensures
            r.wf(),
    {
        let keypair = generate_keypair();
        let public = public_key_bytes(&keypair);
        let id = crate::message::content_digest(&public);
        Node { keypair, public, id }
    }

    /// The node's keypair, for the transport handshake.
    pub fn keypair(&self) -> &libp2p::identity::Keypair {
        &self.keypair
    }

    /// The public key bytes the identifier is derived from.
    pub fn public_key(&self) -> (r: &Vec<u8>)
        ensures
            r@ == self.spec_public(),
    {
        &self.public
    }

    /// The node's identifier: a pure derivation from the public key,
    /// stable for the identity's lifetime.
    pub fn peer_id(&self) -> (r: u64)
        requires
            self.wf(),
        ensures
            r == digest64(self.spec_public()),
    {
        self.id
    }
}

impl Default for Node {
    /// A fresh node with a newly generated keypair.
    fn default() -> (r: Node)
        ensures
            r.wf(),
    {
        Node::init()
    }
}

} // verus!
