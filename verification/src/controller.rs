//! The controller: owner of the transport-bound session set, composer
//! of the discovery view and the gossip engine, and the single ordering
//! domain every event source funnels into.
//!
//! The surrounding runtime waits on local input, swarm events, the
//! discovery service and the shutdown signal, hands each ready event to
//! `handle_event`, and carries out the actions handed back — publishing
//! frames, updating the swarm's explicit peer set, rendering lines to
//! the operator, draining, and exiting. All decisions are taken here.
use vstd::prelude::*;
use vstd::string::StrSliceExecFns;
use vstd::string::StringExecFns;

use crate::discovery::{lease_has, lease_sees, DiscoveryView};
use crate::engine::{
    contains_u64, distinct_u64s, without_u64, CacheEntry, DeliveryOutcome, GossipEngine,
    ValidationMode, MAX_MESSAGE_BYTES,
};
use crate::message::{spec_content_address, Message};
use crate::text::{
    lossy_utf8, render_delivery, rendered_delivery, rendered_listening, rendered_peer_added,
    rendered_peer_removed,
};

verus! {

broadcast use vstd::seq_lib::lemma_seq_contains_after_push;

/// Whether libp2p parses this string as a multiaddress: a pure function
/// of the characters alone.
pub uninterp spec fn multiaddr_ok(s: Seq<char>) -> bool;

/// Relies on the `FromStr` impl of libp2p's `Multiaddr`: parsing is a
/// deterministic function of the input string.
#[verifier::external_body]
fn multiaddr_valid(s: &str) -> (r: bool)
    ensures
        r == multiaddr_ok(s@),
{
    s.parse::<libp2p::Multiaddr>().is_ok()
}

/// Why a dial was refused.
#[derive(Clone, Copy, Debug, PartialEq, Eq, Structural)]
pub enum DialError {
    /// The address does not parse as a multiaddress.
    InvalidAddress,
}

/// Why a listen could not start.
#[derive(Clone, Copy, Debug, PartialEq, Eq, Structural)]
pub enum ListenError {
    /// The address does not parse as a multiaddress.
    Unsupported,
    /// The transport reported the address already bound.
    AddressInUse,
}

/// The controller's lifecycle.
#[derive(Clone, Copy, Debug, PartialEq, Eq, Structural)]
pub enum Phase {
    /// Waiting for the listener to bind.
    Initializing,
    /// The event loop is live.
    Running,
    /// A shutdown signal arrived; in-flight sends are draining.
    ShuttingDown,
    /// Draining finished; the process may exit.
    Terminated,
}

/// One event from any of the merged sources.
pub enum ControllerEvent {
    /// The transport bound a listening address.
    NewListenAddr { addr: String },
    /// The local input source yielded a line.
    InputLine { line: String },
    /// The local input source closed.
    InputClosed,
    /// The propagation engine received a message from a peer.
    GossipMessage { source: u64, message: Message, valid: bool },
    /// Discovery announced a peer at an address.
    PeerDiscovered { peer: u64, addr: String },
    /// Discovery reported a peer's lease at an address lapsed.
    PeerExpired { peer: u64, addr: String },
    /// A secure session with an authenticated peer is up.
    ConnectionEstablished { peer: u64 },
    /// A session went away.
    ConnectionClosed { peer: u64 },
    /// The external interrupt signal fired.
    ShutdownSignal,
    /// In-flight sends finished draining.
    Drained,
}

/// One decision handed back to the runtime to carry out.
#[derive(Debug)]
pub enum Action {
    /// Send these bytes to the topic's mesh.
    Publish { topic: String, data: Vec<u8> },
    /// Show this line to the operator.
    Render { line: String },
    /// Make this peer eligible for meshing in the swarm.
    AddExplicitPeer { peer: u64 },
    /// Remove this peer from the swarm's explicit peer set.
    RemoveExplicitPeer { peer: u64 },
    /// Stop taking new work and drain in-flight sends.
    BeginDrain,
    /// Draining is done: exit.
    Exit,
}

/// The controller state.
pub struct Controller {
    /// Lifecycle phase.
    pub phase: Phase,
    /// The topic local input is published to.
    pub topic: String,
    /// The gossip propagation engine.
    pub engine: GossipEngine,
    /// The discovery lease view.
    pub discovery: DiscoveryView,
    /// Peers with an authenticated transport session, each proven by
    /// its handshake: a session is keyed here only when the handshake
    /// event for that peer identifier arrived.
    pub sessions: Vec<u64>,
    /// Addresses dialling was requested for.
    pub pending_dials: Vec<String>,
}

impl Controller {
    /// Every component well-formed, sessions duplicate-free.
    pub open spec fn wf(self) -> bool {
        &&& self.engine.wf()
        &&& self.discovery.wf()
        &&& distinct_u64s(self.sessions@)
    }

    /// A controller in `Initializing`, with empty peer, session and
    /// subscription state.
    pub fn new(
        node_id: u64,
        topic: String,
        validation: ValidationMode,
        cache_ttl: u64,
        lease_ttl: u64,
        announce_interval: u64,
    ) -> (r: Controller)
        requires
            cache_ttl >= 1,
            lease_ttl >= 1,
            announce_interval >= 1,
        ensures
            r.wf(),
            r.phase is Initializing,
            r.topic == topic,
            r.engine.author == node_id,
            r.engine.validation == validation,
            r.engine.cache_ttl == cache_ttl,
            r.engine.subscriptions@.len() == 0,
            r.engine.peers@.len() == 0,
            r.engine.cache@.len() == 0,
            r.discovery.lease_ttl == lease_ttl,
            r.discovery.announce_interval == announce_interval,
            r.discovery.leases@.len() == 0,
            r.sessions@.len() == 0,
            r.pending_dials@.len() == 0,
    {
        Controller {
            phase: Phase::Initializing,
            topic,
            engine: GossipEngine::new(node_id, validation, cache_ttl),
            discovery: DiscoveryView::new(lease_ttl, announce_interval),
            sessions: Vec::new(),
            pending_dials: Vec::new(),
        }
    }

    /// The propagation engine.
    pub fn behaviour(&self) -> (r: &GossipEngine)
        ensures
            r == self.engine,
    {
        &self.engine
    }

    /// Mutable access to the propagation engine, for subscribing and
    /// direct engine operations.
    pub fn behaviour_mut(&mut self) -> (r: &mut GossipEngine)
        ensures
            *r == old(self).engine,
            *final(self) == (Controller { engine: *final(r), ..*old(self) }),
    {
        &mut self.engine
    }

    /// Request a dial. The address format is validated here: exactly
    /// the strings libp2p parses as multiaddresses are accepted, and an
    /// accepted address is recorded for the runtime to dial.
    pub fn dial_peer(&mut self, peer_addr: &str) -> (r: Result<(), DialError>)
        ensures
            r is Ok <==> multiaddr_ok(peer_addr@),
            r is Ok ==> final(self).pending_dials@.len() == old(self).pending_dials@.len() + 1
                && final(self).pending_dials@.last()@ == peer_addr@
                && final(self).pending_dials@.drop_last() == old(self).pending_dials@
                && *final(self) == (Controller {
                pending_dials: final(self).pending_dials,
                ..*old(self)
            }),
            r is Err ==> *final(self) == *old(self) && (r matches Err(
                DialError::InvalidAddress,
            )),
    {
        if multiaddr_valid(peer_addr) {
            self.pending_dials.push(peer_addr.to_owned());
            Ok(())
        } else {
            Err(DialError::InvalidAddress)
        }
    }

    /// Validate a listening address. Exactly the strings libp2p parses
    /// as multiaddresses are accepted; binding happens outside, and its
    /// success is reported back as a `NewListenAddr` event.
    pub fn listen_on(&mut self, addr: &str) -> (r: Result<(), ListenError>)
        ensures
            r is Ok <==> multiaddr_ok(addr@),
            *final(self) == *old(self),
            r is Err ==> (r matches Err(ListenError::Unsupported)),
    {
        if multiaddr_valid(addr) {
            Ok(())
        } else {
            Err(ListenError::Unsupported)
        }
    }

    /// Take exactly one event from the merged sources and return the
    /// actions the runtime must carry out. The contract below pins, for
    /// every event, the next phase, the state change, and the actions.
    #[verifier::rlimit(30)]
    pub fn handle_event(&mut self, event: ControllerEvent, now: u64) -> (actions: Vec<Action>)
        requires
            old(self).wf(),
        ensures
            final(self).wf(),
            (match event {
                ControllerEvent::NewListenAddr { addr } => {
                    &&& final(self).phase == (if old(self).phase is Initializing {
                        Phase::Running
                    } else {
                        old(self).phase
                    })
                    &&& *final(self) == (Controller { phase: final(self).phase, ..*old(self) })
                    &&& actions@.len() == 1
                    &&& actions@[0] is Render
                    &&& actions@[0]->Render_line@ == rendered_listening(addr@)
                },
                ControllerEvent::InputLine { line } => {
                    if old(self).phase is Running {
                        if !(old(self).engine.validation is Strict && !old(
                            self,
                        ).engine.subscribed(old(self).topic@)) && vstd::utf8::encode_utf8(line@).len()
                            <= MAX_MESSAGE_BYTES {
                            &&& actions@.len() == 1
                            &&& actions@[0] is Publish
                            &&& actions@[0]->Publish_topic@ == old(self).topic@
                            &&& actions@[0]->Publish_data@ == vstd::utf8::encode_utf8(line@)
                            &&& final(self).engine.cache@ == old(self).engine.cache@.push(
                                CacheEntry {
                                    addr: spec_content_address(
                                        vstd::utf8::encode_utf8(line@),
                                        old(self).engine.author,
                                        old(self).engine.next_nonce,
                                    ),
                                    seen_at: now,
                                },
                            )
                            &&& final(self).engine.next_nonce == crate::engine::nonce_after(
                                old(self).engine.next_nonce,
                            )
                            &&& final(self).engine == (GossipEngine {
                                cache: final(self).engine.cache,
                                next_nonce: final(self).engine.next_nonce,
                                ..old(self).engine
                            })
                            &&& *final(self) == (Controller {
                                engine: final(self).engine,
                                ..*old(self)
                            })
                        } else {
                            actions@.len() == 0 && *final(self) == *old(self)
                        }
                    } else {
                        actions@.len() == 0 && *final(self) == *old(self)
                    }
                },
                ControllerEvent::InputClosed => {
                    if old(self).phase is Running {
                        &&& final(self).phase is Terminated
                        &&& *final(self) == (Controller { phase: final(self).phase, ..*old(self) })
                        &&& actions@.len() == 2
                        &&& actions@[0] is Render
                        &&& actions@[0]->Render_line@ == "Stdin handle closed unexpectedly"@
                        &&& actions@[1] is Exit
                    } else {
                        actions@.len() == 0 && *final(self) == *old(self)
                    }
                },
                ControllerEvent::GossipMessage { source, message, valid } => {
                    if old(self).phase is Running {
                        let addr = spec_content_address(
                            message.content@,
                            message.author,
                            message.nonce,
                        );
                        if old(self).engine.validation is Strict && !valid {
                            actions@.len() == 0 && *final(self) == *old(self)
                        } else if old(self).engine.fresh_at(addr, now) {
                            actions@.len() == 0 && *final(self) == *old(self)
                        } else {
                            &&& final(self).engine.cache@ == old(self).engine.cache@.push(
                                CacheEntry { addr, seen_at: now },
                            )
                            &&& final(self).engine == (GossipEngine {
                                cache: final(self).engine.cache,
                                ..old(self).engine
                            })
                            &&& *final(self) == (Controller {
                                engine: final(self).engine,
                                ..*old(self)
                            })
                            &&& actions@.len() == 1
                            &&& actions@[0] is Render
                            &&& actions@[0]->Render_line@ == rendered_delivery(
                                message.author,
                                lossy_utf8(message.content@),
                                addr,
                            )
                        }
                    } else {
                        actions@.len() == 0 && *final(self) == *old(self)
                    }
                },
                ControllerEvent::PeerDiscovered { peer, addr } => {
                    if old(self).phase is Running {
                        &&& (forall|p2: u64, a2: Seq<char>|
                            lease_has(final(self).discovery.leases@, p2, a2) <==> (lease_has(
                                old(self).discovery.leases@,
                                p2,
                                a2,
                            ) || (p2 == peer && a2 == addr@)))
                        &&& (forall|q: u64|
                            final(self).engine.has_peer(q) <==> (old(self).engine.has_peer(q) || q
                                == peer))
                        &&& final(self).engine == (GossipEngine {
                            peers: final(self).engine.peers,
                            ..old(self).engine
                        })
                        &&& final(self).discovery == (DiscoveryView {
                            leases: final(self).discovery.leases,
                            ..old(self).discovery
                        })
                        &&& *final(self) == (Controller {
                            engine: final(self).engine,
                            discovery: final(self).discovery,
                            ..*old(self)
                        })
                        &&& actions@.len() == 2
                        &&& actions@[0] is AddExplicitPeer
                        &&& actions@[0]->AddExplicitPeer_peer == peer
                        &&& actions@[1] is Render
                        &&& actions@[1]->Render_line@ == rendered_peer_added(peer, addr@)
                    } else {
                        actions@.len() == 0 && *final(self) == *old(self)
                    }
                },
                ControllerEvent::PeerExpired { peer, addr } => {
                    if old(self).phase is Running {
                        &&& (forall|p2: u64, a2: Seq<char>|
                            lease_has(final(self).discovery.leases@, p2, a2) <==> (lease_has(
                                old(self).discovery.leases@,
                                p2,
                                a2,
                            ) && !(p2 == peer && a2 == addr@)))
                        &&& final(self).discovery == (DiscoveryView {
                            leases: final(self).discovery.leases,
                            ..old(self).discovery
                        })
                        &&& if lease_sees(final(self).discovery.leases@, peer) {
                            final(self).engine == old(self).engine && actions@.len() == 0
                                && *final(self) == (Controller {
                                discovery: final(self).discovery,
                                ..*old(self)
                            })
                        } else {
                            &&& !final(self).engine.has_peer(peer)
                            &&& (forall|q: u64|
                                final(self).engine.has_peer(q) <==> (old(self).engine.has_peer(q)
                                    && q != peer))
                            &&& (forall|t: Seq<char>, q: u64|
                                final(self).engine.meshed(t, q) <==> (old(self).engine.meshed(
                                    t,
                                    q,
                                ) && q != peer))
                            &&& final(self).engine == (GossipEngine {
                                peers: final(self).engine.peers,
                                mesh: final(self).engine.mesh,
                                peer_topics: final(self).engine.peer_topics,
                                ..old(self).engine
                            })
                            &&& *final(self) == (Controller {
                                engine: final(self).engine,
                                discovery: final(self).discovery,
                                ..*old(self)
                            })
                            &&& actions@.len() == 2
                            &&& actions@[0] is RemoveExplicitPeer
                            &&& actions@[0]->RemoveExplicitPeer_peer == peer
                            &&& actions@[1] is Render
                            &&& actions@[1]->Render_line@ == rendered_peer_removed(peer, addr@)
                        }
                    } else {
                        actions@.len() == 0 && *final(self) == *old(self)
                    }
                },
                ControllerEvent::ConnectionEstablished { peer } => {
                    if old(self).phase is Running {
                        &&& (forall|q: u64|
                            final(self).sessions@.contains(q) <==> (old(self).sessions@.contains(
                                q,
                            ) || q == peer))
                        &&& *final(self) == (Controller {
                            sessions: final(self).sessions,
                            ..*old(self)
                        })
                        &&& actions@.len() == 0
                    } else {
                        actions@.len() == 0 && *final(self) == *old(self)
                    }
                },
                ControllerEvent::ConnectionClosed { peer } => {
                    if old(self).phase is Running {
                        &&& (forall|q: u64|
                            final(self).sessions@.contains(q) <==> (old(self).sessions@.contains(
                                q,
                            ) && q != peer))
                        &&& *final(self) == (Controller {
                            sessions: final(self).sessions,
                            ..*old(self)
                        })
                        &&& actions@.len() == 0
                    } else {
                        actions@.len() == 0 && *final(self) == *old(self)
                    }
                },
                ControllerEvent::ShutdownSignal => {
                    if old(self).phase is Running {
                        &&& final(self).phase is ShuttingDown
                        &&& *final(self) == (Controller { phase: final(self).phase, ..*old(self) })
                        &&& actions@.len() == 1
                        &&& actions@[0] is BeginDrain
                    } else {
                        actions@.len() == 0 && *final(self) == *old(self)
                    }
                },
                ControllerEvent::Drained => {
                    if old(self).phase is ShuttingDown {
                        &&& final(self).phase is Terminated
                        &&& *final(self) == (Controller { phase: final(self).phase, ..*old(self) })
                        &&& actions@.len() == 1
                        &&& actions@[0] is Exit
                    } else {
                        actions@.len() == 0 && *final(self) == *old(self)
                    }
                },
            }),
    {
        let mut actions: Vec<Action> = Vec::new();
        match event {
            ControllerEvent::NewListenAddr { addr } => {
                if matches!(self.phase, Phase::Initializing) {
                    self.phase = Phase::Running;
                }
                actions.push(Action::Render { line: crate::text::render_listening(&addr) });
            },
            ControllerEvent::InputLine { line } => {
                if matches!(self.phase, Phase::Running) {
                    let data = line.as_str().as_bytes_vec();
                    let topic = self.topic.clone();
                    match self.engine.publish(&topic, &data, now) {
                        Ok(_addr) => {
                            actions.push(Action::Publish { topic, data });
                        },
                        Err(_err) => {},
                    }
                }
            },
            ControllerEvent::InputClosed => {
                if matches!(self.phase, Phase::Running) {
                    self.phase = Phase::Terminated;
                    actions.push(
                        Action::Render {
                            line: String::from_str("Stdin handle closed unexpectedly"),
                        },
                    );
                    actions.push(Action::Exit);
                }
            },
            ControllerEvent::GossipMessage { source, message, valid } => {
                if matches!(self.phase, Phase::Running) {
                    let addr = message.address();
                    match self.engine.on_receive(source, &message, valid, now) {
                        DeliveryOutcome::Delivered { valid: _ } => {
                            let content = crate::text::utf8_lossy(&message.content);
                            let line = render_delivery(message.author, &content, &addr);
                            actions.push(Action::Render { line });
                        },
                        DeliveryOutcome::Duplicate => {},
                        DeliveryOutcome::Rejected => {},
                    }
                }
            },
            ControllerEvent::PeerDiscovered { peer, addr } => {
                if matches!(self.phase, Phase::Running) {
                    let line = crate::text::render_peer_added(peer, &addr);
                    self.discovery.observe(peer, addr, now);
                    self.engine.add_peer(peer);
                    actions.push(Action::AddExplicitPeer { peer });
                    actions.push(Action::Render { line });
                }
            },
            ControllerEvent::PeerExpired { peer, addr } => {
                if matches!(self.phase, Phase::Running) {
                    self.discovery.remove_lease(peer, &addr);
                    if !self.discovery.has_node(peer) {
                        self.engine.remove_peer(peer);
                        actions.push(Action::RemoveExplicitPeer { peer });
                        actions.push(
                            Action::Render { line: crate::text::render_peer_removed(peer, &addr) },
                        );
                    }
                }
            },
            ControllerEvent::ConnectionEstablished { peer } => {
                if matches!(self.phase, Phase::Running) {
                    if !contains_u64(&self.sessions, peer) {
                        let ghost pre = self.sessions@;
                        self.sessions.push(peer);
                        proof {
                            assert forall|a: int, b: int|
                                0 <= a < b < self.sessions@.len() implies self.sessions@[a]
                                != self.sessions@[b] by {
                                if b == self.sessions@.len() - 1 {
                                    assert(self.sessions@[a] == pre[a]);
                                    assert(pre.contains(pre[a]));
                                } else {
                                    assert(self.sessions@[a] == pre[a] && self.sessions@[b]
                                        == pre[b]);
                                }
                            }
                        }
                    }
                }
            },
            ControllerEvent::ConnectionClosed { peer } => {
                if matches!(self.phase, Phase::Running) {
                    let kept = without_u64(&self.sessions, peer);
                    self.sessions = kept;
                }
            },
            ControllerEvent::ShutdownSignal => {
                if matches!(self.phase, Phase::Running) {
                    self.phase = Phase::ShuttingDown;
                    actions.push(Action::BeginDrain);
                }
            },
            ControllerEvent::Drained => {
                if matches!(self.phase, Phase::ShuttingDown) {
                    self.phase = Phase::Terminated;
                    actions.push(Action::Exit);
                }
            },
        }
        actions
    }
}

} // verus!
