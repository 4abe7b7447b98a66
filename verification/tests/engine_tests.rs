use coil::engine::{DeliveryOutcome, GossipEngine, MeshAction, PublishError, ValidationMode};
use coil::message::{content_address, content_digest, Message};

fn permissive(author: u64) -> GossipEngine {
    GossipEngine::new(author, ValidationMode::Permissive, 60)
}

#[test]
fn subscribe_is_idempotent() {
    let mut e = permissive(1);
    assert!(e.subscribe("demo".to_string()));
    assert!(!e.subscribe("demo".to_string()));
    assert_eq!(e.subscriptions.len(), 1);
    assert!(e.subscribe("other".to_string()));
    assert_eq!(e.subscriptions.len(), 2);
}

#[test]
fn publisher_echo_is_duplicate() {
    let mut e = permissive(7);
    e.subscribe("demo".to_string());
    let addr = e
        .publish(&"demo".to_string(), &b"hi".to_vec(), 10)
        .expect("publish should succeed");
    let echo = Message {
        topic: "demo".to_string(),
        content: b"hi".to_vec(),
        author: 7,
        nonce: 0,
    };
    assert_eq!(echo.address(), addr);
    let out = e.on_receive(99, &echo, true, 11);
    assert_eq!(out, DeliveryOutcome::Duplicate);
}

#[test]
fn publish_without_mesh_peers_succeeds() {
    let mut e = permissive(3);
    e.subscribe("demo".to_string());
    let r = e.publish(&"demo".to_string(), &b"lonely".to_vec(), 0);
    assert!(r.is_ok());
    assert!(e.forward_targets(&"demo".to_string(), None).is_empty());
}

#[test]
fn strict_publish_requires_subscription() {
    let mut strict = GossipEngine::new(2, ValidationMode::Strict, 60);
    let r = strict.publish(&"demo".to_string(), &b"x".to_vec(), 0);
    assert_eq!(r.unwrap_err(), PublishError::NotSubscribed);
    let mut lax = permissive(2);
    assert!(lax.publish(&"demo".to_string(), &b"x".to_vec(), 0).is_ok());
}

#[test]
fn oversized_publish_is_refused() {
    let mut e = permissive(2);
    e.subscribe("demo".to_string());
    let big = vec![0u8; 65537];
    let r = e.publish(&"demo".to_string(), &big, 0);
    assert_eq!(r.unwrap_err(), PublishError::MessageTooLarge);
}

#[test]
fn strict_receive_rejects_invalid() {
    let mut strict = GossipEngine::new(2, ValidationMode::Strict, 60);
    let m = Message {
        topic: "demo".to_string(),
        content: b"bad".to_vec(),
        author: 9,
        nonce: 0,
    };
    assert_eq!(strict.on_receive(9, &m, false, 0), DeliveryOutcome::Rejected);
    let mut lax = permissive(2);
    assert_eq!(
        lax.on_receive(9, &m, false, 0),
        DeliveryOutcome::Delivered { valid: false }
    );
}

#[test]
fn expired_peer_gets_no_forwards() {
    let mut e = permissive(1);
    let demo = "demo".to_string();
    e.subscribe(demo.clone());
    e.add_peer(5);
    e.on_peer_subscribed(5, demo.clone());
    assert!(e.on_remote_graft(5, &demo));
    assert_eq!(e.forward_targets(&demo, None), vec![5]);
    e.remove_peer(5);
    assert!(e.forward_targets(&demo, None).is_empty());
}

#[test]
fn forward_targets_exclude_sender() {
    let mut e = permissive(1);
    let demo = "demo".to_string();
    e.subscribe(demo.clone());
    for p in [5u64, 6u64] {
        e.add_peer(p);
        e.on_peer_subscribed(p, demo.clone());
        assert!(e.on_remote_graft(p, &demo));
    }
    let all = e.forward_targets(&demo, None);
    assert_eq!(all.len(), 2);
    let excl = e.forward_targets(&demo, Some(5));
    assert_eq!(excl, vec![6]);
}

#[test]
fn heartbeat_grafts_towards_target() {
    let mut e = permissive(1);
    let demo = "demo".to_string();
    e.subscribe(demo.clone());
    for p in 10..20u64 {
        e.add_peer(p);
        e.on_peer_subscribed(p, demo.clone());
    }
    let actions = e.heartbeat(0);
    let grafts = actions
        .iter()
        .filter(|a| matches!(a, MeshAction::Graft { .. }))
        .count();
    assert_eq!(grafts, 6);
    assert_eq!(e.forward_targets(&demo, None).len(), 6);
}

#[test]
fn heartbeat_grafts_every_eligible_peer_when_short() {
    let mut e = permissive(1);
    let demo = "demo".to_string();
    e.subscribe(demo.clone());
    for p in [40u64, 41u64, 42u64] {
        e.add_peer(p);
        e.on_peer_subscribed(p, demo.clone());
    }
    // An eligible peer for another topic must not be grafted here.
    e.add_peer(50);
    e.on_peer_subscribed(50, "other".to_string());
    let actions = e.heartbeat(0);
    let grafts = actions
        .iter()
        .filter(|a| matches!(a, MeshAction::Graft { .. }))
        .count();
    assert_eq!(grafts, 3);
    let mut targets = e.forward_targets(&demo, None);
    targets.sort();
    assert_eq!(targets, vec![40, 41, 42]);
}

#[test]
fn heartbeat_keeps_existing_members() {
    let mut e = permissive(1);
    let demo = "demo".to_string();
    e.subscribe(demo.clone());
    for p in [7u64, 8u64] {
        e.add_peer(p);
        e.on_peer_subscribed(p, demo.clone());
        assert!(e.on_remote_graft(p, &demo));
    }
    e.heartbeat(0);
    let targets = e.forward_targets(&demo, None);
    assert!(targets.contains(&7));
    assert!(targets.contains(&8));
}

#[test]
fn heartbeat_prunes_overfull_mesh() {
    let mut e = permissive(1);
    let demo = "demo".to_string();
    e.subscribe(demo.clone());
    for p in 10..23u64 {
        e.add_peer(p);
        e.on_peer_subscribed(p, demo.clone());
        assert!(e.on_remote_graft(p, &demo));
    }
    assert_eq!(e.forward_targets(&demo, None).len(), 13);
    let actions = e.heartbeat(0);
    let prunes = actions
        .iter()
        .filter(|a| matches!(a, MeshAction::Prune { .. }))
        .count();
    assert_eq!(prunes, 7);
    assert_eq!(e.forward_targets(&demo, None).len(), 6);
}

#[test]
fn heartbeat_keeps_live_cache_entries() {
    let mut e = GossipEngine::new(7, ValidationMode::Permissive, 5);
    e.subscribe("demo".to_string());
    e.publish(&"demo".to_string(), &b"hi".to_vec(), 0)
        .expect("publish should succeed");
    e.heartbeat(2);
    let echo = Message {
        topic: "demo".to_string(),
        content: b"hi".to_vec(),
        author: 7,
        nonce: 0,
    };
    assert_eq!(e.on_receive(9, &echo, true, 3), DeliveryOutcome::Duplicate);
}

#[test]
fn content_address_is_deterministic() {
    let c = b"payload".to_vec();
    let a1 = content_address(&c, 4, 9);
    let a2 = content_address(&c, 4, 9);
    assert_eq!(a1, a2);
    let a3 = content_address(&c, 4, 10);
    assert_ne!(a1, a3);
    assert_eq!(a1.digest, content_digest(&c));
}

#[test]
fn repeated_publishes_get_distinct_addresses() {
    let mut e = permissive(4);
    e.subscribe("demo".to_string());
    let a1 = e.publish(&"demo".to_string(), &b"same".to_vec(), 0).unwrap();
    let a2 = e.publish(&"demo".to_string(), &b"same".to_vec(), 0).unwrap();
    assert_ne!(a1, a2);
    assert_eq!(a1.digest, a2.digest);
    assert_ne!(a1.nonce, a2.nonce);
}
