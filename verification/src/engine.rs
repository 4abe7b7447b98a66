//! Gossip propagation engine: topic subscription, content-addressed
//! deduplication, and heartbeat-driven maintenance of a bounded-degree
//! forwarding mesh per topic.
//!
//! The engine is a pure state machine. The swarm runtime feeds it received
//! messages, peer membership changes and heartbeat ticks, and carries out
//! the forwarding and graft/prune decisions it returns.
use vstd::pervasive::VecAdditionalExecFns;
use vstd::prelude::*;

use crate::message::{spec_content_address, Message, MessageAddress};

verus! {

broadcast use vstd::seq_lib::lemma_seq_contains_after_push;

/// One deduplication record: a content address and the tick it was
/// delivered or published at.
#[derive(Clone, Copy, Debug, PartialEq, Eq, Structural)]
pub struct CacheEntry {
    pub addr: MessageAddress,
    pub seen_at: u64,
}

/// Largest content accepted for publication, in bytes.
pub const MAX_MESSAGE_BYTES: usize = 65536;

/// Mesh degree the heartbeat grafts towards.
pub const MESH_TARGET: usize = 6;

/// Mesh degree above which the heartbeat prunes.
pub const MESH_HIGH: usize = 12;

/// How strictly received messages are validated before deduplication.
#[derive(Clone, Copy, Debug, PartialEq, Eq, Structural)]
pub enum ValidationMode {
    /// Messages failing validation are rejected before they reach the cache.
    Strict,
    /// Messages are delivered regardless, carrying their validity flag.
    Permissive,
}

/// Why a publication was refused.
#[derive(Clone, Copy, Debug, PartialEq, Eq, Structural)]
pub enum PublishError {
    /// Strict validation demands a local subscription before publishing.
    NotSubscribed,
    /// The content exceeds `MAX_MESSAGE_BYTES`.
    MessageTooLarge,
}

/// What became of a received message.
#[derive(Clone, Copy, Debug, PartialEq, Eq, Structural)]
pub enum DeliveryOutcome {
    /// First sighting: handed to local subscribers and forwarded on.
    Delivered { valid: bool },
    /// Its address is still fresh in the deduplication cache.
    Duplicate,
    /// Strict validation refused it before deduplication.
    Rejected,
}

/// A mesh repair decision taken by the heartbeat.
pub enum MeshAction {
    /// Offer the peer a mesh edge for the topic.
    Graft { topic: String, peer: u64 },
    /// Cut the mesh edge to the peer for the topic.
    Prune { topic: String, peer: u64 },
}

/// The peers a topic's messages are actively forwarded to.
pub struct MeshTopic {
    /// The subscribed topic this entry belongs to.
    pub topic: String,
    /// Current mesh members for the topic.
    pub peers: Vec<u64>,
}

/// A peer's advertised subscription, learnt from membership summaries.
pub struct PeerTopic {
    pub peer: u64,
    pub topic: String,
}

/// The gossip propagation engine's entire state.
pub struct GossipEngine {
    /// Identifier of the local node, the author of published messages.
    pub author: u64,
    /// Validation strictness for received messages.
    pub validation: ValidationMode,
    /// How long a cache entry suppresses redelivery, in ticks.
    pub cache_ttl: u64,
    /// Locally subscribed topics.
    pub subscriptions: Vec<String>,
    /// Mesh membership, one entry per subscribed topic, index-aligned
    /// with `subscriptions`.
    pub mesh: Vec<MeshTopic>,
    /// Peers eligible for meshing, fed in from discovery.
    pub peers: Vec<u64>,
    /// Advertised subscriptions of those peers.
    pub peer_topics: Vec<PeerTopic>,
    /// Deduplication cache: content address to delivery tick.
    pub cache: Vec<CacheEntry>,
    /// Nonce the next locally published message will carry.
    pub next_nonce: u64,
}

/// Some topic name in the list reads `t`.
pub open spec fn topics_has(s: Seq<String>, t: Seq<char>) -> bool {
    exists|i: int| 0 <= i < s.len() && s[i]@ == t
}

/// Some record in the list says peer `q` subscribes to topic `t`.
pub open spec fn pt_has(s: Seq<PeerTopic>, q: u64, t: Seq<char>) -> bool {
    exists|i: int| 0 <= i < s.len() && s[i].peer == q && s[i].topic@ == t
}

/// Some mesh entry for topic `t` lists peer `q`.
pub open spec fn mesh_has(s: Seq<MeshTopic>, t: Seq<char>, q: u64) -> bool {
    exists|i: int| 0 <= i < s.len() && s[i].topic@ == t && #[trigger] s[i].peers@.contains(q)
}

/// Some entry for `addr` is in the cache and unexpired at tick `now`.
pub open spec fn cache_fresh(s: Seq<CacheEntry>, ttl: u64, addr: MessageAddress, now: u64) -> bool {
    exists|e: CacheEntry|
        #[trigger] s.contains(e) && e.addr == addr && e.seen_at <= now && now < e.seen_at + ttl
}

impl GossipEngine {
    /// The node is subscribed to topic `t`.
    pub open spec fn subscribed(self, t: Seq<char>) -> bool {
        topics_has(self.subscriptions@, t)
    }

    /// Peer `p` is in the engine's explicit peer set.
    pub open spec fn has_peer(self, p: u64) -> bool {
        self.peers@.contains(p)
    }

    /// Peer `p` has advertised a subscription to topic `t`.
    pub open spec fn peer_subscribed(self, p: u64, t: Seq<char>) -> bool {
        pt_has(self.peer_topics@, p, t)
    }

    /// Peer `p` is a mesh member for topic `t`.
    pub open spec fn meshed(self, t: Seq<char>, p: u64) -> bool {
        mesh_has(self.mesh@, t, p)
    }

    /// An entry for `addr` is in the cache and unexpired at tick `now`.
    pub open spec fn fresh_at(self, addr: MessageAddress, now: u64) -> bool {
        cache_fresh(self.cache@, self.cache_ttl, addr, now)
    }

    /// Well-formedness: subscriptions are distinct; the mesh has one entry
    /// per subscribed topic; mesh members are distinct, known and
    /// themselves subscribed; the explicit peer set is duplicate-free.
    pub open spec fn wf(self) -> bool {
        &&& forall|i: int, j: int|
            #![trigger self.subscriptions@[i], self.subscriptions@[j]]
            0 <= i < j < self.subscriptions@.len() ==> self.subscriptions@[i]@
                != self.subscriptions@[j]@
        &&& self.mesh@.len() == self.subscriptions@.len()
        &&& forall|i: int|
            0 <= i < self.mesh@.len() ==> #[trigger] self.mesh@[i].topic@
                == self.subscriptions@[i]@
        &&& forall|i: int|
            0 <= i < self.mesh@.len() ==> distinct_u64s(#[trigger] self.mesh@[i].peers@)
        &&& forall|i: int, p: u64|
            0 <= i < self.mesh@.len() && #[trigger] self.mesh@[i].peers@.contains(p)
                ==> self.has_peer(p) && self.peer_subscribed(p, self.mesh@[i].topic@)
        &&& distinct_u64s(self.peers@)
    }

    /// A fresh engine: no subscriptions, no peers, an empty cache.
    pub fn new(author: u64, validation: ValidationMode, cache_ttl: u64) -> (r: GossipEngine)
        requires
            cache_ttl >= 1,
        ensures
            r.wf(),
            r.author == author,
            r.validation == validation,
            r.cache_ttl == cache_ttl,
            r.subscriptions@.len() == 0,
            r.mesh@.len() == 0,
            r.peers@.len() == 0,
            r.peer_topics@.len() == 0,
            r.cache@.len() == 0,
            r.next_nonce == 0,
    {
        GossipEngine {
            author,
            validation,
            cache_ttl,
            subscriptions: Vec::new(),
            mesh: Vec::new(),
            peers: Vec::new(),
            peer_topics: Vec::new(),
            cache: Vec::new(),
            next_nonce: 0,
        }
    }

    /// Subscribe to a topic. Returns `false` when already subscribed, in
    /// which case nothing changes at all: a second call has the same
    /// externally observable effect as the first.
    pub fn subscribe(&mut self, topic: String) -> (fresh: bool)
        requires
            old(self).wf(),
        ensures
            final(self).wf(),
            fresh == !old(self).subscribed(topic@),
            final(self).subscribed(topic@),
            forall|t: Seq<char>|
                final(self).subscribed(t) <==> (old(self).subscribed(t) || t == topic@),
            !fresh ==> *final(self) == *old(self),
            fresh ==> final(self).subscriptions@ == old(self).subscriptions@.push(topic),
            fresh ==> final(self).mesh@.drop_last() == old(self).mesh@
                && final(self).mesh@.last().topic@ == topic@
                && final(self).mesh@.last().peers@.len() == 0,
            *final(self) == (GossipEngine {
                subscriptions: final(self).subscriptions,
                mesh: final(self).mesh,
                ..*old(self)
            }),
    {
        if contains_topic(&self.subscriptions, &topic) {
            return false;
        }
        let ghost pre = *self;
        self.subscriptions.push(topic.clone());
        self.mesh.push(MeshTopic { topic, peers: Vec::new() });
        proof {
            assert(self.subscriptions@.last()@ == self.mesh@.last().topic@);
            assert(self.subscriptions@.last()@ == topic@);
            assert forall|t: Seq<char>| self.subscribed(t) implies (pre.subscribed(t) || t
                == topic@) by {
                let i = choose|i: int|
                    0 <= i < self.subscriptions@.len() && self.subscriptions@[i]@ == t;
                if i < pre.subscriptions@.len() {
                    assert(pre.subscriptions@[i]@ == t);
                }
            }
            assert forall|t: Seq<char>| pre.subscribed(t) || t == topic@ implies self.subscribed(
                t,
            ) by {
                if pre.subscribed(t) {
                    let i = choose|i: int|
                        0 <= i < pre.subscriptions@.len() && pre.subscriptions@[i]@ == t;
                    assert(self.subscriptions@[i]@ == t);
                } else {
                    assert(self.subscriptions@.last()@ == t);
                }
            }
            assert forall|i: int, p: u64|
                0 <= i < self.mesh@.len() && #[trigger] self.mesh@[i].peers@.contains(p) implies self.has_peer(
                p,
            ) && self.peer_subscribed(p, self.mesh@[i].topic@) by {
                if i < pre.mesh@.len() {
                    assert(self.mesh@[i] == pre.mesh@[i]);
                    assert(pre.has_peer(p) && pre.peer_subscribed(p, pre.mesh@[i].topic@));
                    assert(self.peers@ == pre.peers@);
                    assert(self.peer_topics@ == pre.peer_topics@);
                } else {
                    assert(self.mesh@[i].peers@.len() == 0);
                }
            }
        }
        true
    }

    /// Look up whether `addr` is fresh in the cache at tick `now`.
    pub fn is_duplicate(&self, addr: MessageAddress, now: u64) -> (r: bool)
        ensures
            r == self.fresh_at(addr, now),
    {
        let mut i: usize = 0;
        while i < self.cache.len()
            invariant
                i <= self.cache@.len(),
                forall|k: int|
                    0 <= k < i ==> !(self.cache@[k].addr == addr && self.cache@[k].seen_at <= now
                        && now < self.cache@[k].seen_at + self.cache_ttl),
            decreases self.cache@.len() - i,
        {
            let e = &self.cache[i];
            if e.addr == addr && e.seen_at <= now && now - e.seen_at < self.cache_ttl {
                proof {
                    assert(self.cache@.contains(self.cache@[i as int]));
                }
                return true;
            }
            i = i + 1;
        }
        proof {
            if self.fresh_at(addr, now) {
                let e = choose|e: CacheEntry|
                    #[trigger] self.cache@.contains(e) && e.addr == addr && e.seen_at <= now && now
                        < e.seen_at + self.cache_ttl;
                let k = choose|k: int| 0 <= k < self.cache@.len() && self.cache@[k] == e;
                assert(!(self.cache@[k].addr == addr));
            }
        }
        false
    }

    /// Publish content to a topic under the local identity.
    ///
    /// Succeeds for every allowed input, whether or not any mesh peer is
    /// currently subscribed: with no forward target the message only
    /// enters the cache. Fails with `NotSubscribed` exactly when strict
    /// validation is configured and the topic was never subscribed
    /// locally, and with `MessageTooLarge` exactly when the content is
    /// over `MAX_MESSAGE_BYTES`. On success the returned address is the
    /// content address of the content, the local author and the nonce
    /// spent, and the cache remembers it as of `now`.
    pub fn publish(&mut self, topic: &String, content: &Vec<u8>, now: u64) -> (r: Result<
        MessageAddress,
        PublishError,
    >)
        requires
            old(self).wf(),
        ensures
            final(self).wf(),
            (match r {
                Err(PublishError::NotSubscribed) => {
                    &&& old(self).validation is Strict
                    &&& !old(self).subscribed(topic@)
                    &&& *final(self) == *old(self)
                },
                Err(PublishError::MessageTooLarge) => {
                    &&& !(old(self).validation is Strict && !old(self).subscribed(topic@))
                    &&& content@.len() > MAX_MESSAGE_BYTES
                    &&& *final(self) == *old(self)
                },
                Ok(addr) => {
                    &&& !(old(self).validation is Strict && !old(self).subscribed(topic@))
                    &&& content@.len() <= MAX_MESSAGE_BYTES
                    &&& addr == spec_content_address(content@, old(self).author, old(
                        self,
                    ).next_nonce)
                    &&& final(self).cache@ == old(self).cache@.push(
                        CacheEntry { addr, seen_at: now },
                    )
                    &&& (old(self).cache_ttl >= 1 ==> final(self).fresh_at(addr, now))
                    &&& final(self).next_nonce == nonce_after(old(self).next_nonce)
                    &&& *final(self) == (GossipEngine {
                        cache: final(self).cache,
                        next_nonce: final(self).next_nonce,
                        ..*old(self)
                    })
                },
            }),
    {
        if matches!(self.validation, ValidationMode::Strict) && !contains_topic(
            &self.subscriptions,
            topic,
        ) {
            return Err(PublishError::NotSubscribed);
        }
        if content.len() > MAX_MESSAGE_BYTES {
            return Err(PublishError::MessageTooLarge);
        }
        let addr = crate::message::content_address(content, self.author, self.next_nonce);
        self.cache.push(CacheEntry { addr, seen_at: now });
        self.next_nonce = self.next_nonce.wrapping_add(1);
        proof {
            let e = CacheEntry { addr, seen_at: now };
            assert(self.cache@.contains(e)) by {
                assert(self.cache@.last() == e);
            }
            lemma_wf_same_membership(*old(self), *self);
        }
        Ok(addr)
    }

    /// Take delivery of a message received from `sender` at tick `now`.
    ///
    /// Under strict validation an invalid message is rejected before it
    /// reaches the cache. A message whose address is still fresh in the
    /// cache is a duplicate: nothing is delivered, nothing is forwarded,
    /// and the engine does not change. Anything else is delivered, and
    /// its address enters the cache so that later copies arriving on
    /// overlapping paths are recognized.
    pub fn on_receive(&mut self, sender: u64, msg: &Message, valid: bool, now: u64) -> (out:
        DeliveryOutcome)
        requires
            old(self).wf(),
        ensures
            final(self).wf(),
            (match out {
                DeliveryOutcome::Rejected => {
                    &&& old(self).validation is Strict && !valid
                    &&& *final(self) == *old(self)
                },
                DeliveryOutcome::Duplicate => {
                    &&& !(old(self).validation is Strict && !valid)
                    &&& old(self).fresh_at(
                        spec_content_address(msg.content@, msg.author, msg.nonce),
                        now,
                    )
                    &&& *final(self) == *old(self)
                },
                DeliveryOutcome::Delivered { valid: v } => {
                    &&& !(old(self).validation is Strict && !valid)
                    &&& !old(self).fresh_at(
                        spec_content_address(msg.content@, msg.author, msg.nonce),
                        now,
                    )
                    &&& v == valid
                    &&& final(self).cache@ == old(self).cache@.push(
                        CacheEntry {
                            addr: spec_content_address(msg.content@, msg.author, msg.nonce),
                            seen_at: now,
                        },
                    )
                    &&& *final(self) == (GossipEngine { cache: final(self).cache, ..*old(self) })
                },
            }),
    {
        if matches!(self.validation, ValidationMode::Strict) && !valid {
            return DeliveryOutcome::Rejected;
        }
        let addr = msg.address();
        if self.is_duplicate(addr, now) {
            return DeliveryOutcome::Duplicate;
        }
        self.cache.push(CacheEntry { addr, seen_at: now });
        proof {
            lemma_wf_same_membership(*old(self), *self);
        }
        DeliveryOutcome::Delivered { valid }
    }

    /// Index of `topic` in the subscription list, if subscribed.
    pub fn topic_index(&self, topic: &String) -> (r: Option<usize>)
        ensures
            (match r {
                Some(i) => i < self.subscriptions@.len() && self.subscriptions@[i as int]@
                    == topic@,
                None => !self.subscribed(topic@),
            }),
    {
        let mut i: usize = 0;
        while i < self.subscriptions.len()
            invariant
                i <= self.subscriptions@.len(),
                forall|k: int| 0 <= k < i ==> self.subscriptions@[k]@ != topic@,
            decreases self.subscriptions@.len() - i,
        {
            if string_eq(&self.subscriptions[i], topic) {
                return Some(i);
            }
            i = i + 1;
        }
        None
    }

    /// The mesh peers a message on `topic` is forwarded to, leaving out
    /// `exclude` (the peer it arrived from, if any). Exactly the mesh
    /// members of the topic, minus the excluded peer, without duplicates.
    pub fn forward_targets(&self, topic: &String, exclude: Option<u64>) -> (r: Vec<u64>)
        requires
            self.wf(),
        ensures
            forall|p: u64| r@.contains(p) <==> (self.meshed(topic@, p) && exclude != Some(p)),
            forall|a: int, b: int| 0 <= a < b < r@.len() ==> r@[a] != r@[b],
    {
        match self.topic_index(topic) {
            None => {
                let r: Vec<u64> = Vec::new();
                proof {
                    assert forall|p: u64| !self.meshed(topic@, p) by {
                        if self.meshed(topic@, p) {
                            let k = choose|k: int|
                                0 <= k < self.mesh@.len() && self.mesh@[k].topic@ == topic@
                                    && self.mesh@[k].peers@.contains(p);
                            assert(self.subscriptions@[k]@ == topic@);
                        }
                    }
                }
                r
            },
            Some(ti) => {
                let peers = &self.mesh[ti].peers;
                let mut r: Vec<u64> = Vec::new();
                let mut j: usize = 0;
                while j < peers.len()
                    invariant
                        self.wf(),
                        ti < self.mesh@.len(),
                        peers == self.mesh@[ti as int].peers,
                        j <= peers@.len(),
                        forall|p: u64|
                            r@.contains(p) <==> (exists|m: int|
                                0 <= m < j && peers@[m] == p && exclude != Some(p)),
                        forall|a: int, b: int| 0 <= a < b < r@.len() ==> r@[a] != r@[b],
                    decreases peers@.len() - j,
                {
                    let p = peers[j];
                    let keep = match exclude {
                        Some(x) => x != p,
                        None => true,
                    };
                    let ghost r0 = r@;
                    proof {
                        assert(peers@[j as int] == p);
                        assert(distinct_u64s(self.mesh@[ti as int].peers@));
                        assert(!r0.contains(p)) by {
                            if r0.contains(p) {
                                let m = choose|m: int|
                                    0 <= m < j && peers@[m] == p && exclude != Some(p);
                                assert(peers@[m] != peers@[j as int]);
                            }
                        }
                    }
                    if keep {
                        r.push(p);
                    }
                    proof {
                        assert forall|q: u64| r@.contains(q) implies (exists|m: int|
                            0 <= m < j + 1 && peers@[m] == q && exclude != Some(q)) by {
                            if keep && q == p {
                                assert(peers@[j as int] == q && exclude != Some(q));
                            } else {
                                assert(r0.contains(q));
                                let m = choose|m: int|
                                    0 <= m < j && peers@[m] == q && exclude != Some(q);
                            }
                        }
                        assert forall|q: u64| (exists|m: int|
                            0 <= m < j + 1 && peers@[m] == q && exclude != Some(q)) implies r@.contains(
                            q,
                        ) by {
                            let m = choose|m: int|
                                0 <= m < j + 1 && peers@[m] == q && exclude != Some(q);
                            if m == j {
                                assert(q == p && keep);
                                assert(r@.last() == q);
                            } else {
                                assert(r0.contains(q));
                            }
                        }
                        assert forall|a: int, b: int| 0 <= a < b < r@.len() implies r@[a]
                            != r@[b] by {
                            if keep && b == r@.len() - 1 {
                                assert(r@[a] == r0[a]);
                                assert(r0.contains(r0[a]));
                            } else {
                                assert(r@[a] == r0[a] && r@[b] == r0[b]);
                            }
                        }
                    }
                    j = j + 1;
                }
                proof {
                    let t = topic@;
                    assert(self.mesh@[ti as int].topic@ == t);
                    assert forall|p: u64|
                        #[trigger] self.meshed(t, p) implies self.mesh@[ti as int].peers@.contains(
                        p,
                    ) by {
                        let k = choose|k: int|
                            0 <= k < self.mesh@.len() && self.mesh@[k].topic@ == t
                                && self.mesh@[k].peers@.contains(p);
                        if k != ti {
                            assert(self.subscriptions@[k]@ == t);
                            assert(self.subscriptions@[ti as int]@ == t);
                        }
                    }
                    assert forall|p: u64|
                        self.mesh@[ti as int].peers@.contains(p) implies self.meshed(t, p) by {}
                }
                r
            },
        }
    }

    /// Admit a peer into the explicit peer set, making it eligible for
    /// meshing. Adding a peer twice changes nothing the second time.
    pub fn add_peer(&mut self, p: u64)
        requires
            old(self).wf(),
        ensures
            final(self).wf(),
            forall|q: u64| final(self).has_peer(q) <==> (old(self).has_peer(q) || q == p),
            old(self).has_peer(p) ==> *final(self) == *old(self),
            *final(self) == (GossipEngine { peers: final(self).peers, ..*old(self) }),
    {
        if !contains_u64(&self.peers, p) {
            self.peers.push(p);
            proof {
                assert forall|a: int, b: int| 0 <= a < b < self.peers@.len() implies self.peers@[a]
                    != self.peers@[b] by {
                    if b == self.peers@.len() - 1 {
                        assert(old(self).peers@[a] == self.peers@[a]);
                        assert(old(self).peers@.contains(old(self).peers@[a]));
                    } else {
                        assert(self.peers@[a] == old(self).peers@[a]);
                        assert(self.peers@[b] == old(self).peers@[b]);
                    }
                }
            }
        }
    }

    /// Drop an expired peer: it leaves the explicit peer set, its
    /// advertised subscriptions are forgotten, and every mesh edge to it
    /// is pruned, so no topic forwards to it any more.
    pub fn remove_peer(&mut self, p: u64)
        requires
            old(self).wf(),
        ensures
            final(self).wf(),
            !final(self).has_peer(p),
            forall|q: u64| final(self).has_peer(q) <==> (old(self).has_peer(q) && q != p),
            forall|t: Seq<char>, q: u64|
                final(self).meshed(t, q) <==> (old(self).meshed(t, q) && q != p),
            forall|q: u64, t: Seq<char>|
                final(self).peer_subscribed(q, t) <==> (old(self).peer_subscribed(q, t) && q
                    != p),
            *final(self) == (GossipEngine {
                peers: final(self).peers,
                mesh: final(self).mesh,
                peer_topics: final(self).peer_topics,
                ..*old(self)
            }),
    {
        let ghost pre = *old(self);
        self.peers = without_u64(&self.peers, p);
        self.peer_topics = without_peer_records(&self.peer_topics, p);
        proof {
            assert(forall|q: u64| self.has_peer(q) <==> (pre.has_peer(q) && q != p));
        }
        let mut i: usize = 0;
        while i < self.mesh.len()
            invariant
                self.mesh@.len() == pre.mesh@.len(),
                i <= self.mesh@.len(),
                forall|k: int|
                    0 <= k < self.mesh@.len() ==> #[trigger] self.mesh@[k].topic
                        == pre.mesh@[k].topic,
                forall|k: int| i <= k < self.mesh@.len() ==> self.mesh@[k] == pre.mesh@[k],
                forall|k: int|
                    0 <= k < pre.mesh@.len() ==> distinct_u64s(#[trigger] pre.mesh@[k].peers@),
                forall|k: int, q: u64|
                    0 <= k < i ==> (#[trigger] self.mesh@[k].peers@.contains(q) <==> (
                    pre.mesh@[k].peers@.contains(q) && q != p)),
                forall|k: int|
                    0 <= k < i ==> distinct_u64s(#[trigger] self.mesh@[k].peers@),
                *self == (GossipEngine {
                    peers: self.peers,
                    mesh: self.mesh,
                    peer_topics: self.peer_topics,
                    ..pre
                }),
                forall|q: u64| self.has_peer(q) <==> (pre.has_peer(q) && q != p),
                distinct_u64s(self.peers@),
                forall|q: u64, t: Seq<char>|
                    self.peer_subscribed(q, t) <==> (pre.peer_subscribed(q, t) && q != p),
            decreases self.mesh@.len() - i,
        {
            proof {
                assert(self.mesh@[i as int] == pre.mesh@[i as int]);
                assert(distinct_u64s(pre.mesh@[i as int].peers@));
            }
            let topic = self.mesh[i].topic.clone();
            let peers = without_u64(&self.mesh[i].peers, p);
            self.mesh.set(i, MeshTopic { topic, peers });
            i = i + 1;
        }
        proof {
            assert(!self.has_peer(p)) by {
                let ghost was_there = pre.has_peer(p);
            }
            assert forall|t: Seq<char>, q: u64| #[trigger]
                mesh_has(self.mesh@, t, q) implies (mesh_has(pre.mesh@, t, q) && q != p) by {
                let k = choose|k: int|
                    0 <= k < self.mesh@.len() && self.mesh@[k].topic@ == t
                        && self.mesh@[k].peers@.contains(q);
                assert(pre.mesh@[k].peers@.contains(q));
            }
            assert forall|t: Seq<char>, q: u64|
                mesh_has(pre.mesh@, t, q) && q != p implies #[trigger] mesh_has(
                self.mesh@,
                t,
                q,
            ) by {
                let k = choose|k: int|
                    0 <= k < pre.mesh@.len() && pre.mesh@[k].topic@ == t
                        && pre.mesh@[k].peers@.contains(q);
                assert(self.mesh@[k].peers@.contains(q));
                assert(self.mesh@[k].topic@ == t);
            }
            assert forall|k: int, q: u64|
                0 <= k < self.mesh@.len() && #[trigger] self.mesh@[k].peers@.contains(
                    q,
                ) implies self.has_peer(q) && self.peer_subscribed(q, self.mesh@[k].topic@) by {
                assert(pre.mesh@[k].peers@.contains(q));
                assert(pre.has_peer(q) && pre.peer_subscribed(q, pre.mesh@[k].topic@));
            }
        }
    }

    /// Accept or refuse a mesh graft offered by a remote peer. Accepted
    /// exactly when the topic is subscribed locally, the peer is known,
    /// it advertised the topic, and the edge does not exist yet.
    pub fn on_remote_graft(&mut self, p: u64, topic: &String) -> (accepted: bool)
        requires
            old(self).wf(),
        ensures
            final(self).wf(),
            accepted == (old(self).subscribed(topic@) && old(self).has_peer(p) && old(
                self,
            ).peer_subscribed(p, topic@) && !old(self).meshed(topic@, p)),
            !accepted ==> *final(self) == *old(self),
            accepted ==> (forall|t: Seq<char>, q: u64|
                final(self).meshed(t, q) <==> (old(self).meshed(t, q) || (t == topic@ && q
                    == p))),
            *final(self) == (GossipEngine { mesh: final(self).mesh, ..*old(self) }),
    {
        let ghost pre = *old(self);
        let ti_opt = self.topic_index(topic);
        match ti_opt {
            None => {
                proof {
                    lemma_no_entry_for_unsubscribed(*self, topic@);
                }
                false
            },
            Some(ti) => {
                if !contains_u64(&self.peers, p) {
                    return false;
                }
                if !has_peer_record(&self.peer_topics, p, topic) {
                    return false;
                }
                if contains_u64(&self.mesh[ti].peers, p) {
                    proof {
                        assert(mesh_has(self.mesh@, topic@, p));
                    }
                    return false;
                }
                proof {
                    lemma_only_entry(*self, topic@, ti as int);
                }
                let mut tmp = MeshTopic { topic: String::new(), peers: Vec::new() };
                self.mesh.set_and_swap(ti, &mut tmp);
                tmp.peers.push(p);
                self.mesh.set_and_swap(ti, &mut tmp);
                proof {
                    assert(self.mesh@ =~= pre.mesh@.update(
                        ti as int,
                        MeshTopic {
                            topic: pre.mesh@[ti as int].topic,
                            peers: self.mesh@[ti as int].peers,
                        },
                    ));
                    assert(self.mesh@[ti as int].peers@ == pre.mesh@[ti as int].peers@.push(p));
                    assert forall|t: Seq<char>, q: u64| #[trigger]
                        mesh_has(self.mesh@, t, q) implies (mesh_has(pre.mesh@, t, q) || (t
                        == topic@ && q == p)) by {
                        let k = choose|k: int|
                            0 <= k < self.mesh@.len() && self.mesh@[k].topic@ == t
                                && self.mesh@[k].peers@.contains(q);
                        if k != ti {
                            assert(pre.mesh@[k].topic@ == t && pre.mesh@[k].peers@.contains(q));
                        } else {
                            if q != p {
                                assert(pre.mesh@[k].peers@.contains(q));
                            }
                        }
                    }
                    assert forall|t: Seq<char>, q: u64|
                        mesh_has(pre.mesh@, t, q) || (t == topic@ && q == p) implies #[trigger]
                        mesh_has(self.mesh@, t, q) by {
                        if mesh_has(pre.mesh@, t, q) {
                            let k = choose|k: int|
                                0 <= k < pre.mesh@.len() && pre.mesh@[k].topic@ == t
                                    && pre.mesh@[k].peers@.contains(q);
                            assert(self.mesh@[k].topic@ == t);
                            assert(self.mesh@[k].peers@.contains(q));
                        } else {
                            assert(self.mesh@[ti as int].peers@.contains(p));
                            assert(self.mesh@[ti as int].topic@ == t);
                        }
                    }
                    assert forall|a: int, b: int|
                        0 <= a < b < self.mesh@[ti as int].peers@.len() implies self.mesh@[ti as int].peers@[a]
                        != self.mesh@[ti as int].peers@[b] by {
                        let s0 = pre.mesh@[ti as int].peers@;
                        assert(distinct_u64s(s0));
                        if b == s0.len() {
                            assert(s0.contains(s0[a]));
                            assert(!s0.contains(p));
                        }
                    }
                    assert forall|k: int, q: u64|
                        0 <= k < self.mesh@.len() && #[trigger] self.mesh@[k].peers@.contains(
                            q,
                        ) implies self.has_peer(q) && self.peer_subscribed(
                        q,
                        self.mesh@[k].topic@,
                    ) by {
                        if k == ti && q == p {
                        } else {
                            assert(pre.mesh@[k].peers@.contains(q));
                        }
                    }
                }
                true
            },
        }
    }

    /// Carry out a prune requested by a remote peer: the mesh edge for
    /// the topic disappears, and nothing else changes.
    pub fn on_remote_prune(&mut self, p: u64, topic: &String)
        requires
            old(self).wf(),
        ensures
            final(self).wf(),
            forall|t: Seq<char>, q: u64|
                final(self).meshed(t, q) <==> (old(self).meshed(t, q) && !(t == topic@ && q
                    == p)),
            *final(self) == (GossipEngine { mesh: final(self).mesh, ..*old(self) }),
    {
        let ghost pre = *old(self);
        let ti_opt = self.topic_index(topic);
        match ti_opt {
            None => {
                proof {
                    lemma_no_entry_for_unsubscribed(*self, topic@);
                }
            },
            Some(ti) => {
                proof {
                    lemma_only_entry(*self, topic@, ti as int);
                    assert(distinct_u64s(pre.mesh@[ti as int].peers@));
                }
                let mut tmp = MeshTopic { topic: String::new(), peers: Vec::new() };
                self.mesh.set_and_swap(ti, &mut tmp);
                let kept = without_u64(&tmp.peers, p);
                tmp.peers = kept;
                self.mesh.set_and_swap(ti, &mut tmp);
                proof {
                    assert(self.mesh@ =~= pre.mesh@.update(
                        ti as int,
                        MeshTopic {
                            topic: pre.mesh@[ti as int].topic,
                            peers: self.mesh@[ti as int].peers,
                        },
                    ));
                    assert forall|t: Seq<char>, q: u64| #[trigger]
                        mesh_has(self.mesh@, t, q) implies (mesh_has(pre.mesh@, t, q) && !(t
                        == topic@ && q == p)) by {
                        let k = choose|k: int|
                            0 <= k < self.mesh@.len() && self.mesh@[k].topic@ == t
                                && self.mesh@[k].peers@.contains(q);
                        if k == ti {
                            assert(pre.mesh@[k].peers@.contains(q) && q != p);
                        } else {
                            assert(pre.mesh@[k].topic@ == t && pre.mesh@[k].peers@.contains(q));
                            if t == topic@ {
                                assert(self.subscriptions@[k]@ == t);
                                assert(self.subscriptions@[ti as int]@ == t);
                            }
                        }
                    }
                    assert forall|t: Seq<char>, q: u64|
                        mesh_has(pre.mesh@, t, q) && !(t == topic@ && q == p) implies #[trigger]
                        mesh_has(self.mesh@, t, q) by {
                        let k = choose|k: int|
                            0 <= k < pre.mesh@.len() && pre.mesh@[k].topic@ == t
                                && pre.mesh@[k].peers@.contains(q);
                        if k == ti {
                            assert(self.mesh@[k].peers@.contains(q));
                        } else {
                            assert(self.mesh@[k].peers@.contains(q));
                        }
                        assert(self.mesh@[k].topic@ == t);
                    }
                    assert forall|k: int, q: u64|
                        0 <= k < self.mesh@.len() && #[trigger] self.mesh@[k].peers@.contains(
                            q,
                        ) implies self.has_peer(q) && self.peer_subscribed(
                        q,
                        self.mesh@[k].topic@,
                    ) by {
                        assert(pre.mesh@[k].peers@.contains(q));
                    }
                }
            },
        }
    }

    /// Record that `peer` advertised a subscription to `topic`.
    pub fn on_peer_subscribed(&mut self, peer: u64, topic: String)
        requires
            old(self).wf(),
        ensures
            final(self).wf(),
            forall|q: u64, t: Seq<char>|
                final(self).peer_subscribed(q, t) <==> (old(self).peer_subscribed(q, t) || (q
                    == peer && t == topic@)),
            *final(self) == (GossipEngine { peer_topics: final(self).peer_topics, ..*old(self) }),
    {
        let ghost pre = *old(self);
        if !has_peer_record(&self.peer_topics, peer, &topic) {
            self.peer_topics.push(PeerTopic { peer, topic });
            proof {
                assert(self.peer_topics@.last().peer == peer);
                assert forall|q: u64, t: Seq<char>| #[trigger]
                    pt_has(self.peer_topics@, q, t) implies (pt_has(pre.peer_topics@, q, t) || (q
                    == peer && t == self.peer_topics@.last().topic@)) by {
                    let k = choose|k: int|
                        0 <= k < self.peer_topics@.len() && self.peer_topics@[k].peer == q
                            && self.peer_topics@[k].topic@ == t;
                    if k < pre.peer_topics@.len() {
                        assert(pre.peer_topics@[k].peer == q && pre.peer_topics@[k].topic@ == t);
                    }
                }
                assert forall|q: u64, t: Seq<char>|
                    pt_has(pre.peer_topics@, q, t) implies #[trigger] pt_has(
                    self.peer_topics@,
                    q,
                    t,
                ) by {
                    let k = choose|k: int|
                        0 <= k < pre.peer_topics@.len() && pre.peer_topics@[k].peer == q
                            && pre.peer_topics@[k].topic@ == t;
                    assert(self.peer_topics@[k].peer == q && self.peer_topics@[k].topic@ == t);
                }
            }
        }
    }

    /// One maintenance heartbeat at tick `now`: expired deduplication
    /// entries are dropped (without changing any dedup judgement made at
    /// or after `now`), and the mesh of every subscribed topic is
    /// repaired towards `MESH_TARGET` members: topics short of members
    /// graft eligible peers, topics over `MESH_HIGH` members are pruned
    /// back. Afterwards no topic forwards to more than `MESH_HIGH`
    /// peers; a topic still short of the target has grafted every
    /// eligible peer (known and advertising the topic); members of a
    /// topic that was not overloaded are all kept, while an overloaded
    /// topic keeps exactly its first `MESH_TARGET` members; every graft
    /// named in the returned actions is in force, every prune has been
    /// carried out, and every newly meshed peer is named in a `Graft`
    /// action.
    pub fn heartbeat(&mut self, now: u64) -> (actions: Vec<MeshAction>)
        requires
            old(self).wf(),
        ensures
            final(self).wf(),
            forall|e: CacheEntry|
                final(self).cache@.contains(e) <==> (old(self).cache@.contains(e) && now
                    < e.seen_at + old(self).cache_ttl),
            forall|a: MessageAddress, n2: u64|
                n2 >= now ==> final(self).fresh_at(a, n2) == old(self).fresh_at(a, n2),
            final(self).mesh@.len() == old(self).mesh@.len(),
            forall|i: int|
                0 <= i < final(self).mesh@.len() ==> (#[trigger] final(self).mesh@[i]).topic
                    == old(self).mesh@[i].topic,
            forall|i: int|
                0 <= i < final(self).mesh@.len() ==> (#[trigger] final(self).mesh@[i]).peers@.len()
                    <= MESH_HIGH,
            forall|i: int, q: u64|
                #![trigger final(self).mesh@[i].peers@.contains(q)]
                0 <= i < final(self).mesh@.len() && final(self).mesh@[i].peers@.len()
                    < MESH_TARGET && final(self).has_peer(q) && final(self).peer_subscribed(
                    q,
                    final(self).mesh@[i].topic@,
                ) ==> final(self).mesh@[i].peers@.contains(q),
            forall|i: int, q: u64|
                0 <= i < final(self).mesh@.len() && old(self).mesh@[i].peers@.len() <= MESH_HIGH
                    && #[trigger] old(self).mesh@[i].peers@.contains(q)
                    ==> final(self).mesh@[i].peers@.contains(q),
            forall|i: int|
                0 <= i < final(self).mesh@.len() && old(self).mesh@[i].peers@.len() > MESH_HIGH
                    ==> (#[trigger] final(self).mesh@[i]).peers@
                    == old(self).mesh@[i].peers@.subrange(0, MESH_TARGET as int),
            forall|i: int, q: u64|
                0 <= i < final(self).mesh@.len()
                    && #[trigger] final(self).mesh@[i].peers@.contains(q)
                    && !old(self).mesh@[i].peers@.contains(q) ==> (exists|k: int|
                    0 <= k < actions@.len() && (#[trigger] actions@[k]) is Graft
                        && actions@[k]->Graft_topic@ == final(self).mesh@[i].topic@
                        && actions@[k]->Graft_peer == q),
            *final(self) == (GossipEngine {
                mesh: final(self).mesh,
                cache: final(self).cache,
                ..*old(self)
            }),
            forall|k: int|
                0 <= k < actions@.len() ==> ((#[trigger] actions@[k]) is Graft
                    ==> final(self).meshed(actions@[k]->Graft_topic@, actions@[k]->Graft_peer)),
            forall|k: int|
                0 <= k < actions@.len() ==> ((#[trigger] actions@[k]) is Prune
                    ==> !final(self).meshed(actions@[k]->Prune_topic@, actions@[k]->Prune_peer)),
    {
        let ghost pre = *old(self);
        self.cache = sweep_cache(&self.cache, now, self.cache_ttl);
        proof {
            assert forall|a: MessageAddress, n2: u64| n2 >= now implies cache_fresh(
                self.cache@,
                self.cache_ttl,
                a,
                n2,
            ) == cache_fresh(pre.cache@, pre.cache_ttl, a, n2) by {
                if cache_fresh(pre.cache@, pre.cache_ttl, a, n2) {
                    let e = choose|e: CacheEntry|
                        #[trigger] pre.cache@.contains(e) && e.addr == a && e.seen_at <= n2 && n2
                            < e.seen_at + pre.cache_ttl;
                    assert(now < e.seen_at + pre.cache_ttl);
                    assert(self.cache@.contains(e));
                }
                if cache_fresh(self.cache@, self.cache_ttl, a, n2) {
                    let e = choose|e: CacheEntry|
                        #[trigger] self.cache@.contains(e) && e.addr == a && e.seen_at <= n2 && n2
                            < e.seen_at + self.cache_ttl;
                    assert(pre.cache@.contains(e));
                }
            }
        }
        let ghost mid = *self;
        let mut actions: Vec<MeshAction> = Vec::new();
        let mut ti: usize = 0;
        while ti < self.mesh.len()
            invariant
                mid.wf(),
                *self == (GossipEngine { mesh: self.mesh, ..mid }),
                self.mesh@.len() == mid.mesh@.len(),
                ti <= self.mesh@.len(),
                forall|k: int|
                    0 <= k < self.mesh@.len() ==> (#[trigger] self.mesh@[k]).topic
                        == mid.mesh@[k].topic,
                forall|k: int| ti <= k < self.mesh@.len() ==> self.mesh@[k] == mid.mesh@[k],
                forall|k: int|
                    0 <= k < ti ==> (#[trigger] self.mesh@[k]).peers@.len() <= MESH_HIGH,
                forall|k: int, q: u64|
                    #![trigger self.mesh@[k].peers@.contains(q)]
                    0 <= k < ti && self.mesh@[k].peers@.len() < MESH_TARGET
                        && self.peers@.contains(q) && pt_has(
                        self.peer_topics@,
                        q,
                        self.mesh@[k].topic@,
                    ) ==> self.mesh@[k].peers@.contains(q),
                forall|k: int, q: u64|
                    0 <= k < ti && mid.mesh@[k].peers@.len() <= MESH_HIGH
                        && #[trigger] mid.mesh@[k].peers@.contains(q)
                        ==> self.mesh@[k].peers@.contains(q),
                forall|k: int|
                    0 <= k < ti && mid.mesh@[k].peers@.len() > MESH_HIGH
                        ==> (#[trigger] self.mesh@[k]).peers@ == mid.mesh@[k].peers@.subrange(
                        0,
                        MESH_TARGET as int,
                    ),
                forall|k: int, q: u64|
                    0 <= k < ti && #[trigger] self.mesh@[k].peers@.contains(q)
                        && !mid.mesh@[k].peers@.contains(q) ==> (exists|j: int|
                        0 <= j < actions@.len() && (#[trigger] actions@[j]) is Graft
                            && actions@[j]->Graft_topic@ == self.mesh@[k].topic@
                            && actions@[j]->Graft_peer == q),
                forall|k: int|
                    0 <= k < self.mesh@.len() ==> distinct_u64s(
                        (#[trigger] self.mesh@[k]).peers@,
                    ),
                forall|k: int, q: u64|
                    0 <= k < self.mesh@.len() && #[trigger] self.mesh@[k].peers@.contains(q)
                        ==> self.peers@.contains(q) && pt_has(
                        self.peer_topics@,
                        q,
                        self.mesh@[k].topic@,
                    ),
                forall|j: int|
                    0 <= j < actions@.len() ==> ((#[trigger] actions@[j]) is Graft ==> (exists|
                        ix: int,
                    |
                        0 <= ix < ti && (#[trigger] self.mesh@[ix]).topic@
                            == actions@[j]->Graft_topic@ && self.mesh@[ix].peers@.contains(
                            actions@[j]->Graft_peer,
                        ))),
                forall|j: int|
                    0 <= j < actions@.len() ==> ((#[trigger] actions@[j]) is Prune ==> (exists|
                        ix: int,
                    |
                        0 <= ix < ti && (#[trigger] self.mesh@[ix]).topic@
                            == actions@[j]->Prune_topic@ && !self.mesh@[ix].peers@.contains(
                            actions@[j]->Prune_peer,
                        ))),
            decreases self.mesh@.len() - ti,
        {
            let ghost m0 = *self;
            let ghost acts0 = actions@;
            let deg = self.mesh[ti].peers.len();
            if deg > MESH_HIGH {
                let mut tmp = MeshTopic { topic: String::new(), peers: Vec::new() };
                self.mesh.set_and_swap(ti, &mut tmp);
                let ghost entry0 = tmp;
                let mut kept: Vec<u64> = Vec::new();
                let mut k: usize = 0;
                while k < MESH_TARGET
                    invariant
                        tmp == entry0,
                        MESH_TARGET <= entry0.peers@.len(),
                        k <= MESH_TARGET,
                        kept@ == entry0.peers@.subrange(0, k as int),
                    decreases MESH_TARGET - k,
                {
                    kept.push(tmp.peers[k]);
                    proof {
                        assert(kept@ =~= entry0.peers@.subrange(0, k + 1));
                    }
                    k = k + 1;
                }
                let mut k2: usize = MESH_TARGET;
                while k2 < tmp.peers.len()
                    invariant
                        tmp == entry0,
                        MESH_TARGET <= k2 <= entry0.peers@.len(),
                        kept@ == entry0.peers@.subrange(0, MESH_TARGET as int),
                        distinct_u64s(entry0.peers@),
                        forall|j: int| 0 <= j < acts0.len() ==> actions@[j] == acts0[j],
                        acts0.len() <= actions@.len(),
                        forall|j: int|
                            acts0.len() <= j < actions@.len() ==> ((#[trigger] actions@[j])
                                is Prune && actions@[j]->Prune_topic@ == entry0.topic@
                                && !kept@.contains(actions@[j]->Prune_peer)),
                    decreases entry0.peers@.len() - k2,
                {
                    let ghost a0 = actions@;
                    let peer = tmp.peers[k2];
                    proof {
                        assert(!kept@.contains(peer)) by {
                            if kept@.contains(peer) {
                                let m = choose|m: int|
                                    0 <= m < kept@.len() && kept@[m] == peer;
                                assert(entry0.peers@[m] == entry0.peers@[k2 as int]);
                            }
                        }
                    }
                    actions.push(MeshAction::Prune { topic: tmp.topic.clone(), peer });
                    proof {
                        assert forall|j: int|
                            acts0.len() <= j < actions@.len() implies ((#[trigger] actions@[j])
                            is Prune && actions@[j]->Prune_topic@ == entry0.topic@
                            && !kept@.contains(actions@[j]->Prune_peer)) by {
                            if j < a0.len() {
                                assert(actions@[j] == a0[j]);
                            } else {
                                assert(actions@[j] == actions@.last());
                            }
                        }
                    }
                    k2 = k2 + 1;
                }
                tmp = MeshTopic { topic: tmp.topic, peers: kept };
                self.mesh.set_and_swap(ti, &mut tmp);
                proof {
                    assert(self.mesh@ =~= m0.mesh@.update(
                        ti as int,
                        MeshTopic {
                            topic: entry0.topic,
                            peers: self.mesh@[ti as int].peers,
                        },
                    ));
                    assert(self.mesh@[ti as int].peers@ == entry0.peers@.subrange(
                        0,
                        MESH_TARGET as int,
                    ));
                    assert forall|a: int, b: int|
                        0 <= a < b < self.mesh@[ti as int].peers@.len() implies self.mesh@[ti as int].peers@[a]
                        != self.mesh@[ti as int].peers@[b] by {
                        assert(entry0.peers@[a] == self.mesh@[ti as int].peers@[a]);
                        assert(entry0.peers@[b] == self.mesh@[ti as int].peers@[b]);
                    }
                    assert forall|q: u64|
                        self.mesh@[ti as int].peers@.contains(q) implies entry0.peers@.contains(
                        q,
                    ) by {
                        let m = choose|m: int|
                            0 <= m < self.mesh@[ti as int].peers@.len()
                                && self.mesh@[ti as int].peers@[m] == q;
                        assert(entry0.peers@[m] == q);
                    }
                    assert(entry0 == m0.mesh@[ti as int]);
                    assert(self.mesh@[ti as int].peers@.len() == MESH_TARGET);
                }
            } else if deg < MESH_TARGET {
                let mut tmp = MeshTopic { topic: String::new(), peers: Vec::new() };
                self.mesh.set_and_swap(ti, &mut tmp);
                let ghost entry0 = tmp;
                let ghost mesh_d = self.mesh@;
                let mut pi: usize = 0;
                while pi < self.peers.len() && tmp.peers.len() < MESH_TARGET
                    invariant
                        *self == (GossipEngine { mesh: self.mesh, ..m0 }),
                        self.mesh@ == mesh_d,
                        pi <= self.peers@.len(),
                        tmp.topic == entry0.topic,
                        distinct_u64s(tmp.peers@),
                        distinct_u64s(entry0.peers@),
                        tmp.peers@.len() <= MESH_TARGET,
                        forall|q: u64|
                            entry0.peers@.contains(q) ==> tmp.peers@.contains(q),
                        forall|q: u64|
                            tmp.peers@.contains(q) ==> (entry0.peers@.contains(q) || (
                            self.peers@.contains(q) && pt_has(
                                self.peer_topics@,
                                q,
                                entry0.topic@,
                            ))),
                        forall|m: int|
                            #![trigger self.peers@[m]]
                            0 <= m < pi && pt_has(self.peer_topics@, self.peers@[m], entry0.topic@)
                                ==> tmp.peers@.contains(self.peers@[m]),
                        forall|j: int| 0 <= j < acts0.len() ==> actions@[j] == acts0[j],
                        acts0.len() <= actions@.len(),
                        forall|j: int|
                            acts0.len() <= j < actions@.len() ==> ((#[trigger] actions@[j])
                                is Graft && actions@[j]->Graft_topic@ == entry0.topic@
                                && tmp.peers@.contains(actions@[j]->Graft_peer)),
                        forall|q: u64|
                            #[trigger] tmp.peers@.contains(q) && !entry0.peers@.contains(q)
                                ==> (exists|j: int|
                                acts0.len() <= j < actions@.len() && (#[trigger] actions@[j])
                                    is Graft && actions@[j]->Graft_peer == q
                                    && actions@[j]->Graft_topic@ == entry0.topic@),
                    decreases self.peers@.len() - pi,
                {
                    let q = self.peers[pi];
                    let ghost t0 = tmp.peers@;
                    let ghost a0 = actions@;
                    if !contains_u64(&tmp.peers, q) && has_peer_record(
                        &self.peer_topics,
                        q,
                        &tmp.topic,
                    ) {
                        tmp.peers.push(q);
                        actions.push(MeshAction::Graft { topic: tmp.topic.clone(), peer: q });
                        proof {
                            assert(self.peers@[pi as int] == q);
                            assert forall|a: int, b: int|
                                0 <= a < b < tmp.peers@.len() implies tmp.peers@[a]
                                != tmp.peers@[b] by {
                                if b == tmp.peers@.len() - 1 {
                                    assert(tmp.peers@[a] == t0[a]);
                                    assert(t0.contains(t0[a]));
                                } else {
                                    assert(tmp.peers@[a] == t0[a] && tmp.peers@[b] == t0[b]);
                                }
                            }
                            assert forall|j: int|
                                acts0.len() <= j < actions@.len() implies ((
                                #[trigger] actions@[j]) is Graft && actions@[j]->Graft_topic@
                                == entry0.topic@ && tmp.peers@.contains(
                                actions@[j]->Graft_peer,
                            )) by {
                                if j < a0.len() {
                                    assert(actions@[j] == a0[j]);
                                    assert(t0.contains(a0[j]->Graft_peer));
                                } else {
                                    assert(actions@[j] == actions@.last());
                                    assert(tmp.peers@.last() == q);
                                }
                            }
                            assert forall|qq: u64|
                                #[trigger] tmp.peers@.contains(qq) && !entry0.peers@.contains(
                                    qq,
                                ) implies (exists|j: int|
                                acts0.len() <= j < actions@.len() && (#[trigger] actions@[j])
                                    is Graft && actions@[j]->Graft_peer == qq
                                    && actions@[j]->Graft_topic@ == entry0.topic@) by {
                                if qq == q {
                                    assert(actions@[actions@.len() - 1] == actions@.last());
                                    assert(actions@.last() is Graft && actions@.last()->Graft_peer
                                        == q && actions@.last()->Graft_topic@ == entry0.topic@);
                                } else {
                                    assert(t0.contains(qq));
                                    let j = choose|j: int|
                                        acts0.len() <= j < a0.len() && a0[j] is Graft
                                            && a0[j]->Graft_peer == qq && a0[j]->Graft_topic@
                                            == entry0.topic@;
                                    assert(actions@[j] == a0[j]);
                                }
                            }
                        }
                    }
                    proof {
                        assert(self.peers@[pi as int] == q);
                    }
                    pi = pi + 1;
                }
                self.mesh.set_and_swap(ti, &mut tmp);
                proof {
                    assert(self.mesh@ =~= m0.mesh@.update(
                        ti as int,
                        MeshTopic {
                            topic: entry0.topic,
                            peers: self.mesh@[ti as int].peers,
                        },
                    ));
                    assert(entry0 == m0.mesh@[ti as int]);
                    let entry = self.mesh@[ti as int];
                    assert(entry.topic == entry0.topic && entry.peers@.len() <= MESH_TARGET);
                    assert forall|q: u64|
                        entry.peers@.len() < MESH_TARGET && self.peers@.contains(q) && pt_has(
                            self.peer_topics@,
                            q,
                            entry.topic@,
                        ) implies #[trigger] entry.peers@.contains(q) by {
                        assert(pi == self.peers@.len());
                        let m = choose|m: int| 0 <= m < self.peers@.len() && self.peers@[m] == q;
                        assert(pt_has(self.peer_topics@, self.peers@[m], entry0.topic@));
                    }
                    assert forall|q: u64| #[trigger]
                        m0.mesh@[ti as int].peers@.contains(q) implies entry.peers@.contains(
                        q,
                    ) by {}
                    assert forall|q: u64|
                        #[trigger] entry.peers@.contains(q) && !m0.mesh@[ti as int].peers@.contains(
                            q,
                        ) implies (exists|j: int|
                        0 <= j < actions@.len() && (#[trigger] actions@[j]) is Graft
                            && actions@[j]->Graft_topic@ == entry.topic@
                            && actions@[j]->Graft_peer == q) by {
                        let j = choose|j: int|
                            acts0.len() <= j < actions@.len() && actions@[j] is Graft
                                && actions@[j]->Graft_peer == q && actions@[j]->Graft_topic@
                                == entry0.topic@;
                    }
                }
            }
            proof {
                assert forall|k: int, q: u64|
                    0 <= k < self.mesh@.len() && #[trigger] self.mesh@[k].peers@.contains(
                        q,
                    ) implies self.peers@.contains(q) && pt_has(
                    self.peer_topics@,
                    q,
                    self.mesh@[k].topic@,
                ) by {
                    if k != ti {
                        assert(m0.mesh@[k].peers@.contains(q));
                        assert(m0.mesh@[k].topic@ == self.mesh@[k].topic@);
                    } else {
                        if m0.mesh@[k].peers@.contains(q) {
                        }
                    }
                }
                assert forall|k: int, q: u64|
                    #![trigger self.mesh@[k].peers@.contains(q)]
                    0 <= k < ti + 1 && self.mesh@[k].peers@.len() < MESH_TARGET
                        && self.peers@.contains(q) && pt_has(
                        self.peer_topics@,
                        q,
                        self.mesh@[k].topic@,
                    ) implies self.mesh@[k].peers@.contains(q) by {
                    if k < ti {
                        assert(self.mesh@[k] == m0.mesh@[k]);
                    }
                }
                assert forall|k: int, q: u64|
                    0 <= k < ti + 1 && mid.mesh@[k].peers@.len() <= MESH_HIGH
                        && #[trigger] mid.mesh@[k].peers@.contains(
                        q,
                    ) implies self.mesh@[k].peers@.contains(q) by {
                    if k < ti {
                        assert(self.mesh@[k] == m0.mesh@[k]);
                    } else {
                        assert(m0.mesh@[k] == mid.mesh@[k]);
                    }
                }
                assert forall|k: int|
                    0 <= k < ti + 1 && mid.mesh@[k].peers@.len() > MESH_HIGH implies (
                #[trigger] self.mesh@[k]).peers@ == mid.mesh@[k].peers@.subrange(
                    0,
                    MESH_TARGET as int,
                ) by {
                    if k < ti {
                        assert(self.mesh@[k] == m0.mesh@[k]);
                    } else {
                        assert(m0.mesh@[k] == mid.mesh@[k]);
                    }
                }
                assert forall|k: int, q: u64|
                    0 <= k < ti + 1 && #[trigger] self.mesh@[k].peers@.contains(q)
                        && !mid.mesh@[k].peers@.contains(q) implies (exists|j: int|
                    0 <= j < actions@.len() && (#[trigger] actions@[j]) is Graft
                        && actions@[j]->Graft_topic@ == self.mesh@[k].topic@
                        && actions@[j]->Graft_peer == q) by {
                    if k < ti {
                        assert(self.mesh@[k] == m0.mesh@[k]);
                        let j = choose|j: int|
                            0 <= j < acts0.len() && acts0[j] is Graft && acts0[j]->Graft_topic@
                                == m0.mesh@[k].topic@ && acts0[j]->Graft_peer == q;
                        assert(actions@[j] == acts0[j]);
                    } else {
                        assert(mid.mesh@[k] == m0.mesh@[k]);
                    }
                }
                assert forall|j: int|
                    0 <= j < actions@.len() implies ((#[trigger] actions@[j]) is Graft ==> (exists|
                    ix: int,
                |
                    0 <= ix < ti + 1 && (#[trigger] self.mesh@[ix]).topic@
                        == actions@[j]->Graft_topic@ && self.mesh@[ix].peers@.contains(
                        actions@[j]->Graft_peer,
                    ))) by {
                    if actions@[j] is Graft {
                        if j < acts0.len() {
                            assert(actions@[j] == acts0[j]);
                            let ix = choose|ix: int|
                                0 <= ix < ti && m0.mesh@[ix].topic@ == acts0[j]->Graft_topic@
                                    && m0.mesh@[ix].peers@.contains(acts0[j]->Graft_peer);
                            assert(self.mesh@[ix] == m0.mesh@[ix]);
                        } else {
                            assert(self.mesh@[ti as int].topic@ == actions@[j]->Graft_topic@
                                && self.mesh@[ti as int].peers@.contains(
                                actions@[j]->Graft_peer,
                            ));
                        }
                    }
                }
                assert forall|j: int|
                    0 <= j < actions@.len() implies ((#[trigger] actions@[j]) is Prune ==> (exists|
                    ix: int,
                |
                    0 <= ix < ti + 1 && (#[trigger] self.mesh@[ix]).topic@
                        == actions@[j]->Prune_topic@ && !self.mesh@[ix].peers@.contains(
                        actions@[j]->Prune_peer,
                    ))) by {
                    if actions@[j] is Prune {
                        if j < acts0.len() {
                            assert(actions@[j] == acts0[j]);
                            let ix = choose|ix: int|
                                0 <= ix < ti && m0.mesh@[ix].topic@ == acts0[j]->Prune_topic@
                                    && !m0.mesh@[ix].peers@.contains(acts0[j]->Prune_peer);
                            assert(self.mesh@[ix] == m0.mesh@[ix]);
                        } else {
                            assert(self.mesh@[ti as int].topic@ == actions@[j]->Prune_topic@
                                && !self.mesh@[ti as int].peers@.contains(
                                actions@[j]->Prune_peer,
                            ));
                        }
                    }
                }
            }
            ti = ti + 1;
        }
        proof {
            assert(self.wf());
            assert forall|j: int|
                0 <= j < actions@.len() implies (((#[trigger] actions@[j]) is Graft
                ==> self.meshed(actions@[j]->Graft_topic@, actions@[j]->Graft_peer)) && ((
            actions@[j]) is Prune ==> !self.meshed(
                actions@[j]->Prune_topic@,
                actions@[j]->Prune_peer,
            ))) by {
                if actions@[j] is Graft {
                    let ix = choose|ix: int|
                        0 <= ix < self.mesh@.len() && self.mesh@[ix].topic@
                            == actions@[j]->Graft_topic@ && self.mesh@[ix].peers@.contains(
                            actions@[j]->Graft_peer,
                        );
                }
                if actions@[j] is Prune {
                    let t = actions@[j]->Prune_topic@;
                    let p = actions@[j]->Prune_peer;
                    let ix = choose|ix: int|
                        0 <= ix < self.mesh@.len() && self.mesh@[ix].topic@ == t
                            && !self.mesh@[ix].peers@.contains(p);
                    lemma_only_entry(*self, t, ix);
                    if self.meshed(t, p) {
                        let k = choose|k: int|
                            0 <= k < self.mesh@.len() && self.mesh@[k].topic@ == t
                                && self.mesh@[k].peers@.contains(p);
                        assert(k == ix);
                    }
                }
            }
        }
        actions
    }
}

/// Copy of the cache holding exactly the entries still alive at `now`.
fn sweep_cache(v: &Vec<CacheEntry>, now: u64, ttl: u64) -> (r: Vec<CacheEntry>)
    ensures
        forall|e: CacheEntry| r@.contains(e) <==> (v@.contains(e) && now < e.seen_at + ttl),
{
    let mut r: Vec<CacheEntry> = Vec::new();
    let mut i: usize = 0;
    while i < v.len()
        invariant
            i <= v@.len(),
            forall|e: CacheEntry|
                r@.contains(e) <==> (exists|k: int|
                    0 <= k < i && v@[k] == e && now < e.seen_at + ttl),
        decreases v@.len() - i,
    {
        let e = v[i];
        let ghost r0 = r@;
        let keep = e.seen_at > now || now - e.seen_at < ttl;
        if keep {
            r.push(e);
        }
        proof {
            assert(v@[i as int] == e);
            assert forall|x: CacheEntry| r@.contains(x) implies (exists|k: int|
                0 <= k < i + 1 && v@[k] == x && now < x.seen_at + ttl) by {
                if !(keep && x == e) {
                    assert(r0.contains(x));
                    let k = choose|k: int| 0 <= k < i && v@[k] == x && now < x.seen_at + ttl;
                }
            }
            assert forall|x: CacheEntry| (exists|k: int|
                0 <= k < i + 1 && v@[k] == x && now < x.seen_at + ttl) implies r@.contains(x) by {
                let k = choose|k: int| 0 <= k < i + 1 && v@[k] == x && now < x.seen_at + ttl;
                if k == i {
                    assert(r@.last() == x);
                } else {
                    assert(r0.contains(x));
                }
            }
        }
        i = i + 1;
    }
    proof {
        assert forall|e: CacheEntry| v@.contains(e) && now < e.seen_at + ttl implies r@.contains(
            e,
        ) by {
            let k = choose|k: int| 0 <= k < v@.len() && v@[k] == e;
        }
    }
    r
}

/// Whether the record list already says `peer` subscribes to `topic`.
fn has_peer_record(v: &Vec<PeerTopic>, peer: u64, topic: &String) -> (r: bool)
    ensures
        r == pt_has(v@, peer, topic@),
{
    let mut i: usize = 0;
    while i < v.len()
        invariant
            i <= v@.len(),
            forall|k: int| 0 <= k < i ==> !(v@[k].peer == peer && v@[k].topic@ == topic@),
        decreases v@.len() - i,
    {
        if v[i].peer == peer && string_eq(&v[i].topic, topic) {
            return true;
        }
        i = i + 1;
    }
    proof {
        if pt_has(v@, peer, topic@) {
            let k = choose|k: int|
                0 <= k < v@.len() && v@[k].peer == peer && v@[k].topic@ == topic@;
        }
    }
    false
}

/// Copy of a peer list without every occurrence of `x`.
pub(crate) fn without_u64(v: &Vec<u64>, x: u64) -> (r: Vec<u64>)
    requires
        distinct_u64s(v@),
    ensures
        forall|q: u64| r@.contains(q) <==> (v@.contains(q) && q != x),
        distinct_u64s(r@),
{
    let mut r: Vec<u64> = Vec::new();
    let mut i: usize = 0;
    while i < v.len()
        invariant
            distinct_u64s(v@),
            i <= v@.len(),
            forall|q: u64| r@.contains(q) <==> (exists|k: int| 0 <= k < i && v@[k] == q && q != x),
            distinct_u64s(r@),
        decreases v@.len() - i,
    {
        let q = v[i];
        let ghost r0 = r@;
        proof {
            assert(v@[i as int] == q);
            if r0.contains(q) {
                let m = choose|m: int| 0 <= m < i && v@[m] == q && q != x;
                assert(v@[m] != v@[i as int]);
            }
        }
        if q != x {
            r.push(q);
        }
        proof {
            assert forall|p: u64| r@.contains(p) implies (exists|k: int|
                0 <= k < i + 1 && v@[k] == p && p != x) by {
                if !(q != x && p == q) {
                    assert(r0.contains(p));
                    let m = choose|m: int| 0 <= m < i && v@[m] == p && p != x;
                }
            }
            assert forall|p: u64| (exists|k: int| 0 <= k < i + 1 && v@[k] == p && p != x) implies r@.contains(
                p,
            ) by {
                let k = choose|k: int| 0 <= k < i + 1 && v@[k] == p && p != x;
                if k == i {
                    assert(r@.last() == p);
                } else {
                    assert(r0.contains(p));
                }
            }
            assert forall|a: int, b: int| 0 <= a < b < r@.len() implies r@[a] != r@[b] by {
                if q != x && b == r@.len() - 1 {
                    assert(r@[a] == r0[a]);
                    assert(r0.contains(r0[a]));
                } else {
                    assert(r@[a] == r0[a] && r@[b] == r0[b]);
                }
            }
        }
        i = i + 1;
    }
    proof {
        assert forall|q: u64| v@.contains(q) && q != x implies r@.contains(q) by {
            let k = choose|k: int| 0 <= k < v@.len() && v@[k] == q;
        }
    }
    r
}

/// Copy of a subscription-record list without every record of peer `x`.
fn without_peer_records(v: &Vec<PeerTopic>, x: u64) -> (r: Vec<PeerTopic>)
    ensures
        forall|q: u64, t: Seq<char>| pt_has(r@, q, t) <==> (pt_has(v@, q, t) && q != x),
{
    let mut r: Vec<PeerTopic> = Vec::new();
    let mut i: usize = 0;
    while i < v.len()
        invariant
            i <= v@.len(),
            forall|q: u64, t: Seq<char>|
                pt_has(r@, q, t) <==> (exists|k: int|
                    0 <= k < i && v@[k].peer == q && v@[k].topic@ == t && q != x),
        decreases v@.len() - i,
    {
        let keep = v[i].peer != x;
        let ghost r0 = r@;
        if keep {
            r.push(PeerTopic { peer: v[i].peer, topic: v[i].topic.clone() });
        }
        proof {
            let e = v@[i as int];
            if keep {
                assert(r@.last().peer == e.peer && r@.last().topic@ == e.topic@);
                assert(r@.drop_last() == r0);
            }
            assert forall|q: u64, t: Seq<char>| pt_has(r@, q, t) implies (exists|k: int|
                0 <= k < i + 1 && v@[k].peer == q && v@[k].topic@ == t && q != x) by {
                let m = choose|m: int| 0 <= m < r@.len() && r@[m].peer == q && r@[m].topic@ == t;
                if m < r0.len() {
                    assert(r0[m] == r@[m]);
                    assert(pt_has(r0, q, t));
                    let k = choose|k: int|
                        0 <= k < i && v@[k].peer == q && v@[k].topic@ == t && q != x;
                }
            }
            assert forall|q: u64, t: Seq<char>| (exists|k: int|
                0 <= k < i + 1 && v@[k].peer == q && v@[k].topic@ == t && q != x) implies pt_has(
                r@,
                q,
                t,
            ) by {
                let k = choose|k: int|
                    0 <= k < i + 1 && v@[k].peer == q && v@[k].topic@ == t && q != x;
                if k == i {
                    assert(r@.last().peer == q && r@.last().topic@ == t);
                } else {
                    assert(pt_has(r0, q, t));
                    let m = choose|m: int|
                        0 <= m < r0.len() && r0[m].peer == q && r0[m].topic@ == t;
                    assert(r@[m].peer == q && r@[m].topic@ == t);
                }
            }
        }
        i = i + 1;
    }
    proof {
        assert forall|q: u64, t: Seq<char>| pt_has(v@, q, t) && q != x implies pt_has(r@, q, t) by {
            let k = choose|k: int| 0 <= k < v@.len() && v@[k].peer == q && v@[k].topic@ == t;
        }
    }
    r
}

/// Law: a message remembered by the cache — as every locally published
/// message is, from the tick of its publication — is still fresh at any
/// tick within the cache window. By the contract of `on_receive`, an
/// echo of it arriving in that window is judged `Duplicate`: it is
/// neither delivered locally a second time nor forwarded again.
pub proof fn lemma_echo_is_duplicate(
    e: GossipEngine,
    addr: MessageAddress,
    published_at: u64,
    echo_at: u64,
)
    requires
        e.cache@.contains((CacheEntry { addr, seen_at: published_at })),
        published_at <= echo_at < published_at + e.cache_ttl,
    ensures
        e.fresh_at(addr, echo_at),
{
    let entry = CacheEntry { addr, seen_at: published_at };
    assert(e.cache@.contains(entry) && entry.addr == addr && entry.seen_at <= echo_at && echo_at
        < entry.seen_at + e.cache_ttl);
}

/// Law: a peer outside the explicit peer set — as an expired peer is,
/// once `remove_peer` has run — is meshed for no topic at all, so by
/// the contract of `forward_targets` it is never again selected as a
/// forwarding target.
pub proof fn lemma_absent_peer_unreachable(e: GossipEngine, p: u64)
    requires
        e.wf(),
        !e.has_peer(p),
    ensures
        forall|t: Seq<char>| !e.meshed(t, p),
{
    assert forall|t: Seq<char>| !e.meshed(t, p) by {
        if mesh_has(e.mesh@, t, p) {
            let k = choose|k: int|
                0 <= k < e.mesh@.len() && e.mesh@[k].topic@ == t && e.mesh@[k].peers@.contains(p);
        }
    }
}

/// A topic nobody subscribed to has no mesh entry, so nobody is meshed
/// for it.
proof fn lemma_no_entry_for_unsubscribed(e: GossipEngine, t: Seq<char>)
    requires
        e.wf(),
        !e.subscribed(t),
    ensures
        forall|q: u64| !e.meshed(t, q),
{
    assert forall|q: u64| !e.meshed(t, q) by {
        if mesh_has(e.mesh@, t, q) {
            let k = choose|k: int|
                0 <= k < e.mesh@.len() && e.mesh@[k].topic@ == t && e.mesh@[k].peers@.contains(q);
            assert(e.subscriptions@[k]@ == t);
        }
    }
}

/// Subscriptions are distinct, so a topic has at most one mesh entry.
proof fn lemma_only_entry(e: GossipEngine, t: Seq<char>, ti: int)
    requires
        e.wf(),
        0 <= ti < e.mesh@.len(),
        e.mesh@[ti].topic@ == t,
    ensures
        forall|k: int| 0 <= k < e.mesh@.len() && (#[trigger] e.mesh@[k]).topic@ == t ==> k == ti,
{
    assert forall|k: int|
        0 <= k < e.mesh@.len() && (#[trigger] e.mesh@[k]).topic@ == t implies k == ti by {
        if k != ti {
            assert(e.subscriptions@[k]@ == t);
            assert(e.subscriptions@[ti]@ == t);
        }
    }
}

/// An advertised subscription is a fact about the `peer_topics` list
/// alone: engines agreeing there agree on it.
proof fn lemma_peer_subscribed_unchanged(a: GossipEngine, b: GossipEngine, p: u64, t: Seq<char>)
    requires
        a.peer_topics == b.peer_topics,
        a.peer_subscribed(p, t),
    ensures
        b.peer_subscribed(p, t),
{
    let k = choose|k: int|
        0 <= k < a.peer_topics@.len() && a.peer_topics@[k].peer == p && a.peer_topics@[k].topic@
            == t;
    assert(b.peer_topics@[k].peer == p && b.peer_topics@[k].topic@ == t);
}

/// Well-formedness only reads the membership fields: it carries over to
/// any engine that differs in the cache, nonce or configuration alone.
proof fn lemma_wf_same_membership(a: GossipEngine, b: GossipEngine)
    requires
        a.wf(),
        b.subscriptions == a.subscriptions,
        b.mesh == a.mesh,
        b.peers == a.peers,
        b.peer_topics == a.peer_topics,
    ensures
        b.wf(),
{
    assert forall|i: int, p: u64|
        0 <= i < b.mesh@.len() && #[trigger] b.mesh@[i].peers@.contains(p) implies b.has_peer(p)
        && b.peer_subscribed(p, b.mesh@[i].topic@) by {
        assert(a.mesh@[i].peers@.contains(p));
        assert(a.has_peer(p));
        lemma_peer_subscribed_unchanged(a, b, p, a.mesh@[i].topic@);
    }
}

/// No value occurs twice in the sequence.
pub open spec fn distinct_u64s(s: Seq<u64>) -> bool {
    forall|a: int, b: int| #![trigger s[a], s[b]] 0 <= a < b < s.len() ==> s[a] != s[b]
}

/// How the publish nonce advances: one step, wrapping at the top.
pub open spec fn nonce_after(n: u64) -> u64 {
    if n == u64::MAX {
        0
    } else {
        (n + 1) as u64
    }
}

/// Whether a vector of topic names holds `t`.
pub fn contains_topic(v: &Vec<String>, t: &String) -> (r: bool)
    ensures
        r <==> exists|k: int| 0 <= k < v@.len() && v@[k]@ == t@,
{
    let mut i: usize = 0;
    while i < v.len()
        invariant
            i <= v@.len(),
            forall|k: int| 0 <= k < i ==> v@[k]@ != t@,
        decreases v@.len() - i,
    {
        if string_eq(&v[i], t) {
            return true;
        }
        i = i + 1;
    }
    false
}

/// Whether a vector of peer identifiers holds `x`.
pub fn contains_u64(v: &Vec<u64>, x: u64) -> (r: bool)
    ensures
        r == v@.contains(x),
{
    let mut i: usize = 0;
    while i < v.len()
        invariant
            i <= v@.len(),
            forall|k: int| 0 <= k < i ==> v@[k] != x,
        decreases v@.len() - i,
    {
        if v[i] == x {
            proof {
                assert(v@[i as int] == x);
            }
            return true;
        }
        i = i + 1;
    }
    proof {
        if v@.contains(x) {
            let k = choose|k: int| 0 <= k < v@.len() && v@[k] == x;
        }
    }
    false
}

/// String equality by character content.
pub fn string_eq(a: &String, b: &String) -> (r: bool)
    ensures
        r == (a@ == b@),
{
    a.eq(b)
}

} // verus!
