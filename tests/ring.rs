use locutus::location::{Location, HALF_TURN};
use locutus::ring::{PeerKey, PeerKeyLocation, Ring};

fn pkl(id: u64, pos: u32) -> PeerKeyLocation {
    PeerKeyLocation { peer: PeerKey { id }, location: Some(Location::new(pos)) }
}

#[test]
fn distance_boundaries() {
    let l = Location::new(123_456);
    assert_eq!(l.distance(&l).units, 0);
    assert_eq!(Location::new(0).distance(&Location::new(HALF_TURN)).units, HALF_TURN);
    // 0.0 and 0.9999 are 0.0001 apart across the wrap
    let near_one = Location::new(u32::MAX - 429_496);
    let d = Location::new(0).distance(&near_one).units;
    assert_eq!(d, 429_497);
    assert!(((d as f64) / 4_294_967_296.0 - 0.0001).abs() < 1e-6);
    assert_eq!(near_one.distance(&Location::new(0)).units, d);
}

#[test]
fn should_accept_rule() {
    let mut ring = Ring::new(2, 10, 7);
    let me = Location::new(HALF_TURN);
    assert!(ring.should_accept(&me, &Location::new(0)));
    assert!(ring.add_connection(pkl(1, HALF_TURN + 100)));
    assert!(ring.add_connection(pkl(2, HALF_TURN + 1000)));
    // full: only a candidate closer than the farthest neighbour
    assert!(ring.should_accept(&me, &Location::new(HALF_TURN + 500)));
    assert!(!ring.should_accept(&me, &Location::new(HALF_TURN + 1000)));
    assert!(!ring.should_accept(&me, &Location::new(0)));
}

#[test]
fn full_table_replaces_farthest() {
    let mut ring = Ring::new(2, 10, 7);
    ring.set_own_location(Some(Location::new(HALF_TURN)));
    assert!(ring.add_connection(pkl(1, HALF_TURN + 100)));
    assert!(ring.add_connection(pkl(2, HALF_TURN + 1000)));
    assert!(!ring.add_connection(pkl(3, 0)));
    assert!(ring.add_connection(pkl(4, HALF_TURN - 10)));
    assert_eq!(ring.num_connections(), 2);
    assert!(ring.connections().iter().all(|p| p.peer.id != 2));
    assert!(!ring.add_connection(PeerKeyLocation { peer: PeerKey { id: 5 }, location: None }));
    // same location: the newcomer takes the entry
    assert!(ring.add_connection(pkl(6, HALF_TURN + 100)));
    assert_eq!(ring.get(&Location::new(HALF_TURN + 100)).unwrap().peer.id, 6);
    assert_eq!(ring.num_connections(), 2);
}

#[test]
fn closest_peer_ties_prefer_smaller_key() {
    let mut ring = Ring::new(10, 10, 7);
    assert!(ring.add_connection(pkl(9, 1000)));
    assert!(ring.add_connection(pkl(4, 3000)));
    assert!(ring.add_connection(pkl(7, 5000)));
    let target = Location::new(2000);
    assert_eq!(ring.closest_peer(&target, PeerKey { id: 0 }).unwrap().peer.id, 4);
    assert_eq!(ring.closest_peer(&target, PeerKey { id: 4 }).unwrap().peer.id, 9);
    assert_eq!(ring.closest_peer(&Location::new(4000), PeerKey { id: 0 }).unwrap().peer.id, 4);
    let mut lone = Ring::new(10, 10, 7);
    assert!(lone.add_connection(pkl(3, 10)));
    assert!(lone.closest_peer(&target, PeerKey { id: 3 }).is_none());
}

#[test]
fn random_peer_skips_excluded() {
    let mut ring = Ring::new(10, 10, 7);
    assert!(ring.add_connection(pkl(1, 10)));
    assert!(ring.add_connection(pkl(2, 20)));
    assert!(ring.add_connection(pkl(3, 30)));
    for draw in 0..20u64 {
        let p = ring.random_peer(PeerKey { id: 2 }, draw).unwrap();
        assert_ne!(p.peer.id, 2);
    }
    assert_eq!(ring.random_peer(PeerKey { id: 2 }, 0).unwrap().peer.id, 1);
    assert_eq!(ring.random_peer(PeerKey { id: 2 }, 1).unwrap().peer.id, 3);
    assert_eq!(ring.peers_excluding(PeerKey { id: 1 }).len(), 2);
    assert!(Ring::new(3, 1, 1).random_peer(PeerKey { id: 1 }, 5).is_none());
}

#[test]
fn remove_peer_drops_its_entries() {
    let mut ring = Ring::new(10, 10, 7);
    assert!(ring.add_connection(pkl(1, 10)));
    assert!(ring.add_connection(pkl(2, 20)));
    ring.remove_peer(PeerKey { id: 1 });
    assert_eq!(ring.num_connections(), 1);
    assert!(ring.get(&Location::new(10)).is_none());
    assert!(!ring.is_empty());
}

#[test]
fn location_binary64_form() {
    assert_eq!(Location::new(HALF_TURN).to_f64_bits(), 0.5f64.to_bits());
    assert_eq!(Location::new(0).to_f64_bits(), 0.0f64.to_bits());
    assert_eq!(Location::new(1).to_f64_bits(), (1.0f64 / 4_294_967_296.0).to_bits());
    let p = 3_435_973_837u32;
    assert_eq!(Location::new(p).to_f64_bits(), (p as f64 / 4_294_967_296.0).to_bits());
    assert_eq!(Location::new(u32::MAX).to_f64_bits(), (u32::MAX as f64 / 4_294_967_296.0).to_bits());
    assert_eq!(Location::from_f64_bits(0.25f64.to_bits()), Some(Location::new(0x4000_0000)));
    assert_eq!(Location::from_f64_bits(1.0f64.to_bits()), None);
    assert_eq!(Location::from_f64_bits((-0.5f64).to_bits()), None);
    assert_eq!(Location::from_f64_bits(f64::NAN.to_bits()), None);
    assert_eq!(Location::from_f64_bits(0.1f64.to_bits()), None);
}
