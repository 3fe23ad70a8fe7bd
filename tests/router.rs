use locutus::location::{Location, HALF_TURN};
use locutus::ring::PeerKey;
use locutus::router::{EstimateSource, EstimatorIndex, RoutingEvent};

fn event(peer: u64, a: u32, b: u32) -> RoutingEvent {
    RoutingEvent {
        peer: PeerKey { id: peer },
        peer_location: Location::new(a),
        contract_location: Location::new(b),
        result_micros: 1000,
    }
}

#[test]
fn estimator_fallback() {
    let mut history = Vec::new();
    for i in 0..5u32 {
        history.push(event(1, i * 1000, 0));
    }
    for i in 0..195u32 {
        history.push(event(100 + (i % 50) as u64, i * 7919, i * 104_729));
    }
    let mut index = EstimatorIndex::new(&history);
    assert_eq!(index.global_points, 200);
    // five points: peer A has no model of its own, the global one answers
    assert_eq!(index.source(PeerKey { id: 1 }), EstimateSource::Global);
    for i in 0..10u32 {
        index.add_event(&event(1, i, 0));
    }
    assert_eq!(index.source(PeerKey { id: 1 }), EstimateSource::Peer);
    assert_eq!(index.global_points, 210);
}

#[test]
fn peer_model_needs_more_than_ten_points() {
    let mut history = Vec::new();
    for _ in 0..10 {
        history.push(event(1, 0, 0));
    }
    for _ in 0..11 {
        history.push(event(2, 0, 0));
    }
    let index = EstimatorIndex::new(&history);
    assert_eq!(index.source(PeerKey { id: 2 }), EstimateSource::Peer);
    assert_eq!(index.source(PeerKey { id: 1 }), EstimateSource::Global);
    assert_eq!(index.peers, vec![(PeerKey { id: 2 }, 11)]);
}

#[test]
fn too_little_data_gives_no_estimate() {
    let history = vec![event(1, 0, 0); 10];
    let index = EstimatorIndex::new(&history);
    assert_eq!(index.source(PeerKey { id: 1 }), EstimateSource::Unavailable);
    let empty = EstimatorIndex::new(&Vec::new());
    assert_eq!(empty.source(PeerKey { id: 3 }), EstimateSource::Unavailable);
}

#[test]
fn recorded_distance_is_at_most_half() {
    assert_eq!(event(1, 0, HALF_TURN).distance().units, HALF_TURN);
    assert_eq!(event(1, 10, u32::MAX).distance().units, 11);
    assert_eq!(event(1, 5, 5).distance().units, 0);
}
