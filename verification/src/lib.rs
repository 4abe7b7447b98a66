//! A serverless broadcast substrate: the control plane of a peer-to-peer
//! node that discovers neighbours on the local network, keeps authenticated
//! sessions with them, and propagates text messages over a gossip-based
//! publish/subscribe mesh.
//!
//! The crate holds the decision logic of the node: message identity and
//! deduplication, topic subscription, mesh maintenance, the discovery lease
//! table, and the controller state machine that merges every event source
//! into one ordering domain. Network I/O, timers and the swarm runtime live
//! outside, feed events in, and perform the actions handed back.
use vstd::prelude::*;

pub mod cli;
pub mod controller;
pub mod discovery;
pub mod engine;
pub mod identity;
pub mod message;
pub mod text;

verus! {

/// Topic every node of this substrate publishes and subscribes on.
pub const PUBSUB_TOPIC: &'static str = "coil-05FjJDr9Y8z";

} // verus!
