//! Message identity: each message is content-addressed by a deterministic
//! digest of its content together with its author and nonce, and that
//! address is the deduplication key of the gossip engine.
use vstd::prelude::*;

verus! {

/// Offset basis of the 64-bit FNV-1a digest.
pub const FNV_OFFSET: u64 = 0xcbf2_9ce4_8422_2325;

/// Multiplier of the 64-bit FNV-1a digest.
pub const FNV_PRIME: u64 = 0x100_0000_01b3;

/// One FNV-1a round: fold the next byte into the running digest.
pub open spec fn digest_step(h: u64, b: u8) -> u64 {
    vstd::wrapping::u64_specs::wrapping_mul(h ^ (b as u64), FNV_PRIME)
}

/// 64-bit FNV-1a digest of a byte sequence.
pub open spec fn digest64(bytes: Seq<u8>) -> u64
    decreases bytes.len(),
{
    if bytes.len() == 0 {
        FNV_OFFSET
    } else {
        digest_step(digest64(bytes.drop_last()), bytes.last())
    }
}

/// Content address of a message: digest of the content, plus the author
/// identifier and the publish nonce. Two messages collide only when all
/// three components collide, so repeated nonces from one author collapse
/// intentionally while fresh nonces always yield fresh addresses.
#[derive(Clone, Copy, Debug, PartialEq, Eq, Structural, Hash)]
pub struct MessageAddress {
    pub digest: u64,
    pub author: u64,
    pub nonce: u64,
}

/// The address a message with this content, author and nonce carries.
pub open spec fn spec_content_address(content: Seq<u8>, author: u64, nonce: u64) -> MessageAddress {
    MessageAddress { digest: digest64(content), author, nonce }
}

/// A message in flight: created on publish or receipt, held only as long
/// as the deduplication cache remembers its address.
pub struct Message {
    /// Topic the message is scoped to.
    pub topic: String,
    /// Raw content bytes.
    pub content: Vec<u8>,
    /// Identifier of the signing author.
    pub author: u64,
    /// Per-author nonce making simultaneous identical publishes distinct.
    pub nonce: u64,
}

impl Message {
    /// Compute the content address of this message.
    pub fn address(&self) -> (r: MessageAddress)
        ensures
            r == spec_content_address(self.content@, self.author, self.nonce),
    {
        MessageAddress {
            digest: content_digest(&self.content),
            author: self.author,
            nonce: self.nonce,
        }
    }
}

/// Compute the 64-bit FNV-1a digest of a byte vector.
pub fn content_digest(bytes: &Vec<u8>) -> (r: u64)
    ensures
        r == digest64(bytes@),
{
    let mut h: u64 = FNV_OFFSET;
    let mut i: usize = 0;
    while i < bytes.len()
        invariant
            i <= bytes@.len(),
            h == digest64(bytes@.subrange(0, i as int)),
        decreases bytes@.len() - i,
    {
        proof {
            assert(bytes@.subrange(0, i + 1).drop_last() =~= bytes@.subrange(0, i as int));
            assert(bytes@.subrange(0, i + 1).last() == bytes@[i as int]);
        }
        h = (h ^ (bytes[i] as u64)).wrapping_mul(FNV_PRIME);
        i = i + 1;
    }
    proof {
        assert(bytes@.subrange(0, bytes@.len() as int) =~= bytes@);
    }
    h
}

/// Compute the content address of a message from its parts.
pub fn content_address(content: &Vec<u8>, author: u64, nonce: u64) -> (r: MessageAddress)
    ensures
        r == spec_content_address(content@, author, nonce),
{
    MessageAddress { digest: content_digest(content), author, nonce }
}

/// The content address is deterministic: identical content, author and
/// nonce always yield the identical address.
pub proof fn lemma_content_address_deterministic(
    c1: Seq<u8>,
    a1: u64,
    n1: u64,
    c2: Seq<u8>,
    a2: u64,
    n2: u64,
)
    requires
        c1 == c2,
        a1 == a2,
        n1 == n2,
    ensures
        spec_content_address(c1, a1, n1) == spec_content_address(c2, a2, n2),
{
}

/// A differing nonce yields a differing address, even for identical
/// content from the same author.
pub proof fn lemma_nonce_distinguishes(content: Seq<u8>, author: u64, n1: u64, n2: u64)
    requires
        n1 != n2,
    ensures
        spec_content_address(content, author, n1) != spec_content_address(content, author, n2),
{
}

} // verus!
