use coil::controller::{
    Action, Controller, ControllerEvent, DialError, ListenError, Phase,
};
use coil::engine::ValidationMode;
use coil::message::{content_digest, Message};

fn running(node_id: u64) -> Controller {
    let mut c = Controller::new(
        node_id,
        coil::PUBSUB_TOPIC.to_string(),
        ValidationMode::Permissive,
        60,
        30,
        10,
    );
    let actions = c.handle_event(
        ControllerEvent::NewListenAddr {
            addr: "/ip4/127.0.0.1/tcp/15550".to_string(),
        },
        0,
    );
    assert_eq!(actions.len(), 1);
    c
}

#[test]
fn listener_bind_starts_running() {
    let mut c = Controller::new(
        1,
        "demo".to_string(),
        ValidationMode::Permissive,
        60,
        30,
        10,
    );
    assert_eq!(c.phase, Phase::Initializing);
    let actions = c.handle_event(
        ControllerEvent::NewListenAddr {
            addr: "/ip4/0.0.0.0/tcp/15550".to_string(),
        },
        0,
    );
    assert_eq!(c.phase, Phase::Running);
    match &actions[0] {
        Action::Render { line } => {
            assert_eq!(line.as_str(), "Listening on /ip4/0.0.0.0/tcp/15550")
        }
        other => panic!("unexpected action: {other:?}"),
    }
}

#[test]
fn dial_validates_address_format() {
    let mut c = running(1);
    assert_eq!(
        c.dial_peer("certainly not an address"),
        Err(DialError::InvalidAddress)
    );
    assert_eq!(c.dial_peer("/ip4/127.0.0.1/tcp/15550"), Ok(()));
    assert_eq!(c.listen_on("nope"), Err(ListenError::Unsupported));
    assert_eq!(c.listen_on("/ip4/0.0.0.0/tcp/0"), Ok(()));
}

#[test]
fn published_line_is_delivered_and_rendered_exactly_once() {
    // Node A dials nobody here: the wire is simulated by handing B the
    // very message A's publish action carries.
    let a_id = 11u64;
    let b_id = 22u64;
    let mut a = running(a_id);
    let mut b = running(b_id);
    assert!(a.behaviour_mut().subscribe(coil::PUBSUB_TOPIC.to_string()));
    assert!(b.behaviour_mut().subscribe(coil::PUBSUB_TOPIC.to_string()));
    b.handle_event(ControllerEvent::ConnectionEstablished { peer: a_id }, 1);

    let actions = a.handle_event(
        ControllerEvent::InputLine {
            line: "hello".to_string(),
        },
        2,
    );
    assert_eq!(actions.len(), 1);
    let (topic, data) = match &actions[0] {
        Action::Publish { topic, data } => (topic.clone(), data.clone()),
        other => panic!("unexpected action: {other:?}"),
    };
    assert_eq!(topic, coil::PUBSUB_TOPIC);
    assert_eq!(data, b"hello".to_vec());

    let message = Message {
        topic,
        content: data.clone(),
        author: a_id,
        nonce: 0,
    };
    let delivered = b.handle_event(
        ControllerEvent::GossipMessage {
            source: a_id,
            message,
            valid: true,
        },
        3,
    );
    assert_eq!(delivered.len(), 1);
    let expected = format!(
        "[{}] said: \"hello\" (message id: {}-{}-0)",
        a_id,
        content_digest(&data),
        a_id
    );
    match &delivered[0] {
        Action::Render { line } => assert_eq!(line, &expected),
        other => panic!("unexpected action: {other:?}"),
    }

    // The same message arriving again on another path is silent.
    let message_again = Message {
        topic: coil::PUBSUB_TOPIC.to_string(),
        content: data,
        author: a_id,
        nonce: 0,
    };
    let again = b.handle_event(
        ControllerEvent::GossipMessage {
            source: a_id,
            message: message_again,
            valid: true,
        },
        4,
    );
    assert!(again.is_empty());
}

#[test]
fn discovery_alone_forms_the_mesh() {
    // No address is ever dialled: B becomes a forward target of A
    // purely through a discovery announcement and a heartbeat.
    let a_id = 31u64;
    let b_id = 32u64;
    let mut a = running(a_id);
    let topic = coil::PUBSUB_TOPIC.to_string();
    a.behaviour_mut().subscribe(topic.clone());

    let actions = a.handle_event(
        ControllerEvent::PeerDiscovered {
            peer: b_id,
            addr: "/ip4/192.168.1.9/tcp/15550".to_string(),
        },
        1,
    );
    assert_eq!(actions.len(), 2);
    assert!(matches!(actions[0], Action::AddExplicitPeer { peer } if peer == b_id));
    match &actions[1] {
        Action::Render { line } => assert_eq!(
            line,
            &format!("Peer {} discovered at /ip4/192.168.1.9/tcp/15550", b_id)
        ),
        other => panic!("unexpected action: {other:?}"),
    }

    a.behaviour_mut().on_peer_subscribed(b_id, topic.clone());
    a.behaviour_mut().heartbeat(2);
    assert_eq!(a.behaviour().forward_targets(&topic, None), vec![b_id]);
}

#[test]
fn expiry_within_one_lease_removes_peer_from_mesh() {
    let a_id = 41u64;
    let b_id = 42u64;
    let mut a = running(a_id);
    let topic = coil::PUBSUB_TOPIC.to_string();
    let b_addr = "/ip4/192.168.1.7/tcp/15550".to_string();
    a.behaviour_mut().subscribe(topic.clone());
    a.handle_event(
        ControllerEvent::PeerDiscovered {
            peer: b_id,
            addr: b_addr.clone(),
        },
        1,
    );
    a.behaviour_mut().on_peer_subscribed(b_id, topic.clone());
    a.behaviour_mut().heartbeat(2);
    assert_eq!(a.behaviour().forward_targets(&topic, None), vec![b_id]);

    let actions = a.handle_event(
        ControllerEvent::PeerExpired {
            peer: b_id,
            addr: b_addr.clone(),
        },
        35,
    );
    assert_eq!(actions.len(), 2);
    assert!(matches!(actions[0], Action::RemoveExplicitPeer { peer } if peer == b_id));
    match &actions[1] {
        Action::Render { line } => assert_eq!(
            line,
            &format!("Peer {} expired at /ip4/192.168.1.7/tcp/15550", b_id)
        ),
        other => panic!("unexpected action: {other:?}"),
    }
    assert!(a.behaviour().forward_targets(&topic, None).is_empty());
}

#[test]
fn expiry_of_one_address_keeps_peer_with_another() {
    let mut a = running(51);
    let b_id = 52u64;
    let addr1 = "/ip4/192.168.1.2/tcp/15550".to_string();
    let addr2 = "/ip4/192.168.1.3/tcp/15550".to_string();
    a.handle_event(
        ControllerEvent::PeerDiscovered {
            peer: b_id,
            addr: addr1.clone(),
        },
        1,
    );
    a.handle_event(
        ControllerEvent::PeerDiscovered {
            peer: b_id,
            addr: addr2,
        },
        2,
    );
    let actions = a.handle_event(ControllerEvent::PeerExpired { peer: b_id, addr: addr1 }, 3);
    assert!(actions.is_empty());
}

#[test]
fn shutdown_drains_then_exits() {
    let mut c = running(61);
    let actions = c.handle_event(ControllerEvent::ShutdownSignal, 5);
    assert_eq!(c.phase, Phase::ShuttingDown);
    assert_eq!(actions.len(), 1);
    assert!(matches!(actions[0], Action::BeginDrain));
    let actions = c.handle_event(ControllerEvent::Drained, 6);
    assert_eq!(c.phase, Phase::Terminated);
    assert_eq!(actions.len(), 1);
    assert!(matches!(actions[0], Action::Exit));
    // Nothing moves after termination.
    let actions = c.handle_event(
        ControllerEvent::InputLine {
            line: "late".to_string(),
        },
        7,
    );
    assert!(actions.is_empty());
}

#[test]
fn closed_input_terminates_with_a_notice() {
    let mut c = running(71);
    let actions = c.handle_event(ControllerEvent::InputClosed, 1);
    assert_eq!(c.phase, Phase::Terminated);
    assert_eq!(actions.len(), 2);
    match &actions[0] {
        Action::Render { line } => assert_eq!(line.as_str(), "Stdin handle closed unexpectedly"),
        other => panic!("unexpected action: {other:?}"),
    }
    assert!(matches!(actions[1], Action::Exit));
}

#[test]
fn node_identifier_is_digest_of_public_key() {
    let node = coil::identity::Node::init();
    assert_eq!(node.peer_id(), content_digest(node.public_key()));
    assert_eq!(node.peer_id(), node.peer_id());
}
