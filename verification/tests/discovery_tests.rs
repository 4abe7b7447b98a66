use coil::discovery::DiscoveryView;

const ADDR_A: &str = "/ip4/192.168.1.4/tcp/15550";
const ADDR_B: &str = "/ip4/192.168.1.5/tcp/15550";

#[test]
fn announcement_then_silence_expires_within_one_ttl() {
    let mut view = DiscoveryView::new(30, 10);
    assert!(view.observe(9, ADDR_A.to_string(), 0));
    assert!(view.has_node(9));
    let gone = view.expire(29);
    assert!(gone.is_empty());
    assert!(view.has_node(9));
    let gone = view.expire(30);
    assert_eq!(gone.len(), 1);
    assert_eq!(gone[0].peer, 9);
    assert!(!view.has_node(9));
}

#[test]
fn reannouncement_rearms_the_lease() {
    let mut view = DiscoveryView::new(30, 10);
    assert!(view.observe(9, ADDR_A.to_string(), 0));
    assert!(!view.observe(9, ADDR_A.to_string(), 20));
    assert!(view.expire(35).is_empty());
    assert!(view.has_node(9));
    let gone = view.expire(50);
    assert_eq!(gone.len(), 1);
    assert!(!view.has_node(9));
}

#[test]
fn peer_stays_visible_while_another_address_is_armed() {
    let mut view = DiscoveryView::new(30, 10);
    assert!(view.observe(9, ADDR_A.to_string(), 0));
    assert!(view.observe(9, ADDR_B.to_string(), 0));
    view.remove_lease(9, &ADDR_A.to_string());
    assert!(view.has_node(9));
    view.remove_lease(9, &ADDR_B.to_string());
    assert!(!view.has_node(9));
}

#[test]
fn distinct_peers_expire_independently() {
    let mut view = DiscoveryView::new(30, 10);
    view.observe(1, ADDR_A.to_string(), 0);
    view.observe(2, ADDR_B.to_string(), 15);
    let gone = view.expire(31);
    assert_eq!(gone.len(), 1);
    assert_eq!(gone[0].peer, 1);
    assert!(!view.has_node(1));
    assert!(view.has_node(2));
}
