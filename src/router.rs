//! Bookkeeping of the retrieval-time estimator: which peers have a model of
//! their own and which model answers an estimate. The regressions
//! themselves work on floating point and are kept by the caller.
use vstd::prelude::*;
use crate::location::{arc, Distance, Location, HALF_TURN};
use crate::ring::PeerKey;

verus! {

/// A peer gets a model of its own once it has more points than this.
pub const MIN_PEER_POINTS_FOR_REGRESSION: usize = 10;

/// One observed retrieval: who served it, where it and the contract are,
/// and how long it took, in microseconds.
#[derive(Clone, Copy, Debug, PartialEq, Eq, Structural)]
pub struct RoutingEvent {
    pub peer: PeerKey,
    pub peer_location: Location,
    pub contract_location: Location,
    pub result_micros: u64,
}

impl RoutingEvent {
    /// Distance between the serving peer and the contract: never more than
    /// half a turn.
    pub fn distance(&self) -> (r: Distance)
        ensures
            r.units == arc(self.peer_location.pos as int, self.contract_location.pos as int),
            0 <= r.units <= HALF_TURN,
    {
        self.peer_location.distance(&self.contract_location)
    }
}

/// Number of events of `peer` in `events`.
pub open spec fn count_of(events: Seq<RoutingEvent>, peer: PeerKey) -> nat
    decreases events.len(),
{
    if events.len() == 0 {
        0
    } else {
        count_of(events.drop_last(), peer) + if events.last().peer == peer {
            1nat
        } else {
            0nat
        }
    }
}

/// Which model answers an estimate.
#[derive(Clone, Copy, Debug, PartialEq, Eq, Structural)]
pub enum EstimateSource {
    /// The peer's own regression.
    Peer,
    /// The regression over all events.
    Global,
    /// Too little data for either.
    Unavailable,
}

/// The peer's own model if it has one; else the global one if it has more
/// than the threshold of points; else none.
pub open spec fn source_spec(has_peer_model: bool, global_points: int) -> EstimateSource {
    if has_peer_model {
        EstimateSource::Peer
    } else if global_points > MIN_PEER_POINTS_FOR_REGRESSION {
        EstimateSource::Global
    } else {
        EstimateSource::Unavailable
    }
}

/// Counts of the points each model was given.
pub struct EstimatorIndex {
    pub global_points: usize,
    /// Peers with a model of their own and their number of points; no peer
    /// twice.
    pub peers: Vec<(PeerKey, usize)>,
}

/// Position of `peer` among the modelled peers.
pub open spec fn peer_index(peers: Seq<(PeerKey, usize)>, peer: PeerKey) -> Option<int> {
    if exists|i: int| 0 <= i < peers.len() && (#[trigger] peers[i]).0 == peer {
        Some(choose|i: int| 0 <= i < peers.len() && (#[trigger] peers[i]).0 == peer)
    } else {
        None
    }
}

/// The number of points of `peer`'s own model, if it has one.
pub open spec fn peer_count(peers: Seq<(PeerKey, usize)>, peer: PeerKey) -> Option<usize> {
    match peer_index(peers, peer) {
        Some(i) => Some(peers[i].1),
        None => None,
    }
}

proof fn lemma_peer_count_at(peers: Seq<(PeerKey, usize)>, i: int)
    requires
        0 <= i < peers.len(),
        forall|a: int, b: int|
            0 <= a < peers.len() && 0 <= b < peers.len() && a != b ==> (#[trigger] peers[a]).0
                != (#[trigger] peers[b]).0,
    ensures
        peer_count(peers, peers[i].0) == Some(peers[i].1),
{
    let p = peers[i].0;
    assert(exists|k: int| 0 <= k < peers.len() && (#[trigger] peers[k]).0 == p);
    let k = choose|k: int| 0 <= k < peers.len() && (#[trigger] peers[k]).0 == p;
    if k != i {
        assert(peers[k].0 != peers[i].0);
    }
}

fn count_in(events: &Vec<RoutingEvent>, peer: PeerKey, upto: usize) -> (r: usize)
    requires
        upto <= events@.len(),
    ensures
        r == count_of(events@.subrange(0, upto as int), peer),
        r <= upto,
{
    let mut c: usize = 0;
    let mut i: usize = 0;
    while i < upto
        invariant
            i <= upto <= events@.len(),
            c == count_of(events@.subrange(0, i as int), peer),
            c <= i,
        decreases upto - i,
    {
        let ghost s = events@.subrange(0, i + 1);
        assert(s.drop_last() =~= events@.subrange(0, i as int));
        if events[i].peer == peer {
            c = c + 1;
        }
        i = i + 1;
    }
    c
}

impl EstimatorIndex {
    pub open spec fn wf(&self) -> bool {
        forall|i: int, j: int|
            0 <= i < self.peers@.len() && 0 <= j < self.peers@.len() && i != j ==> (
            #[trigger] self.peers@[i]).0 != (#[trigger] self.peers@[j]).0
    }

    /// Whether `peer` has a model of its own.
    pub open spec fn has_model(&self, peer: PeerKey) -> bool {
        peer_index(self.peers@, peer) is Some
    }

    /// The models built from a history: the global one from every event,
    /// and one for each peer with more than the threshold of events.
    pub fn new(history: &Vec<RoutingEvent>) -> (r: EstimatorIndex)
        ensures
            r.wf(),
            r.global_points == history@.len(),
            forall|p: PeerKey|
                r.has_model(p) <==> count_of(history@, p) > MIN_PEER_POINTS_FOR_REGRESSION,
            forall|i: int|
                0 <= i < r.peers@.len() ==> (#[trigger] r.peers@[i]).1 == count_of(
                    history@,
                    r.peers@[i].0,
                ),
    {
        let n = history.len();
        let mut peers: Vec<(PeerKey, usize)> = Vec::new();
        let mut i: usize = 0;
        while i < n
            invariant
                i <= n == history@.len(),
                forall|a: int, b: int|
                    0 <= a < peers@.len() && 0 <= b < peers@.len() && a != b ==> (
                    #[trigger] peers@[a]).0 != (#[trigger] peers@[b]).0,
                forall|a: int|
                    0 <= a < peers@.len() ==> (#[trigger] peers@[a]).1 == count_of(
                        history@,
                        peers@[a].0,
                    ) && count_of(history@, peers@[a].0) > MIN_PEER_POINTS_FOR_REGRESSION
                        && exists|k: int| 0 <= k < i && history@[k].peer == peers@[a].0,
                forall|k: int|
                    0 <= k < i && count_of(history@, (#[trigger] history@[k]).peer)
                        > MIN_PEER_POINTS_FOR_REGRESSION ==> exists|a: int|
                        0 <= a < peers@.len() && (#[trigger] peers@[a]).0 == history@[k].peer,
            decreases n - i,
        {
            let p = history[i].peer;
            let ghost pb = peers@;
            let seen_before = count_in(history, p, i) > 0;
            if !seen_before {
                let c = count_in(history, p, n);
                assert(history@.subrange(0, n as int) =~= history@);
                if c > MIN_PEER_POINTS_FOR_REGRESSION {
                    proof {
                        assert forall|a: int| 0 <= a < peers@.len() implies (#[trigger] peers@[a]).0 != p by {
                            let k = choose|k: int| 0 <= k < i && history@[k].peer == peers@[a].0;
                            if peers@[a].0 == p {
                                lemma_count_positive(history@.subrange(0, i as int), k, p);
                            }
                        }
                    }
                    peers.push((p, c));
                    assert(peers@[peers@.len() - 1].0 == p);
                    assert(history@[i as int].peer == p);
                }
            } else {
                proof {
                    let k = lemma_count_witness(history@.subrange(0, i as int), p);
                    assert(history@[k].peer == p);
                }
            }
            proof {
                assert forall|k: int|
                    0 <= k < i + 1 && count_of(history@, (#[trigger] history@[k]).peer)
                        > MIN_PEER_POINTS_FOR_REGRESSION implies exists|a: int|
                        0 <= a < peers@.len() && (#[trigger] peers@[a]).0 == history@[k].peer by {
                    if k < i {
                        let a = choose|a: int| 0 <= a < pb.len() && (#[trigger] pb[a]).0 == history@[k].peer;
                        assert(peers@[a] == pb[a]);
                    } else if seen_before {
                        let k2 = lemma_count_witness(history@.subrange(0, i as int), p);
                        assert(history@[k2].peer == p);
                        let a = choose|a: int| 0 <= a < pb.len() && (#[trigger] pb[a]).0 == history@[k2].peer;
                        assert(peers@[a] == pb[a]);
                    } else {
                        assert(peers@[peers@.len() - 1].0 == p);
                    }
                }
            }
            i = i + 1;
        }
        let r = EstimatorIndex { global_points: n, peers };
        proof {
            assert forall|p: PeerKey|
                r.has_model(p) <==> count_of(history@, p) > MIN_PEER_POINTS_FOR_REGRESSION by {
                if count_of(history@, p) > MIN_PEER_POINTS_FOR_REGRESSION {
                    let k = lemma_count_witness(history@, p);
                    assert(history@[k].peer == p);
                }
                if r.has_model(p) {
                    let a = choose|a: int| 0 <= a < r.peers@.len() && (#[trigger] r.peers@[a]).0 == p;
                    assert(peers@[a].0 == p);
                }
            }
        }
        r
    }

    /// Records one more event: a point for the global model and one for the
    /// peer's own, made now if the peer had none.
    pub fn add_event(&mut self, event: &RoutingEvent)
        requires
            old(self).wf(),
            old(self).global_points < usize::MAX,
            forall|i: int| 0 <= i < old(self).peers@.len() ==> (#[trigger] old(self).peers@[i]).1 < usize::MAX,
        ensures
            final(self).wf(),
            final(self).global_points == old(self).global_points + 1,
            final(self).has_model(event.peer),
            forall|p: PeerKey| p != event.peer ==> (final(self).has_model(p) <==> old(self).has_model(p)),
            peer_count(final(self).peers@, event.peer) == Some(
                match peer_count(old(self).peers@, event.peer) {
                    Some(c) => (c + 1) as usize,
                    None => 1usize,
                },
            ),
            forall|p: PeerKey|
                p != event.peer ==> peer_count(final(self).peers@, p) == peer_count(
                    old(self).peers@,
                    p,
                ),
    {
        self.global_points = self.global_points + 1;
        let mut i: usize = 0;
        while i < self.peers.len()
            invariant
                i <= self.peers@.len(),
                self.peers@ == old(self).peers@,
                self.global_points == old(self).global_points + 1,
                old(self).wf(),
                forall|k: int| 0 <= k < old(self).peers@.len() ==> (#[trigger] old(self).peers@[k]).1 < usize::MAX,
                forall|k: int| 0 <= k < i ==> (#[trigger] self.peers@[k]).0 != event.peer,
            decreases self.peers@.len() - i,
        {
            if self.peers[i].0 == event.peer {
                let c = self.peers[i].1;
                let ghost before = self.peers@;
                self.peers.set(i, (event.peer, c + 1));
                proof {
                    assert(self.peers@[i as int].0 == event.peer);
                    assert forall|p: PeerKey| p != event.peer implies (self.has_model(p) <==> old(self).has_model(p)) by {
                        if self.has_model(p) {
                            let a = choose|a: int| 0 <= a < self.peers@.len() && (#[trigger] self.peers@[a]).0 == p;
                            assert(before[a].0 == p);
                        }
                        if old(self).has_model(p) {
                            let a = choose|a: int| 0 <= a < before.len() && (#[trigger] before[a]).0 == p;
                            assert(self.peers@[a].0 == p);
                        }
                    }
                    assert forall|a: int, b: int|
                        0 <= a < self.peers@.len() && 0 <= b < self.peers@.len() && a != b implies (
                        #[trigger] self.peers@[a]).0 != (#[trigger] self.peers@[b]).0 by {
                        assert(before[a].0 != before[b].0);
                    }
                    lemma_peer_count_at(before, i as int);
                    lemma_peer_count_at(self.peers@, i as int);
                    assert forall|p: PeerKey| p != event.peer implies peer_count(self.peers@, p)
                        == peer_count(before, p) by {
                        if old(self).has_model(p) {
                            let a = choose|a: int| 0 <= a < before.len() && (#[trigger] before[a]).0 == p;
                            lemma_peer_count_at(before, a);
                            lemma_peer_count_at(self.peers@, a);
                        }
                    }
                }
                return;
            }
            i = i + 1;
        }
        let ghost before = self.peers@;
        self.peers.push((event.peer, 1));
        proof {
            assert(self.peers@[before.len() as int].0 == event.peer);
            assert forall|p: PeerKey| p != event.peer implies (self.has_model(p) <==> old(self).has_model(p)) by {
                if self.has_model(p) {
                    let a = choose|a: int| 0 <= a < self.peers@.len() && (#[trigger] self.peers@[a]).0 == p;
                    assert(before[a].0 == p);
                }
                if old(self).has_model(p) {
                    let a = choose|a: int| 0 <= a < before.len() && (#[trigger] before[a]).0 == p;
                    assert(self.peers@[a].0 == p);
                }
            }
            assert forall|a: int, b: int|
                0 <= a < self.peers@.len() && 0 <= b < self.peers@.len() && a != b implies (
                #[trigger] self.peers@[a]).0 != (#[trigger] self.peers@[b]).0 by {
                if a < before.len() && b < before.len() {
                    assert(before[a].0 != before[b].0);
                } else if a < before.len() {
                    assert(before[a].0 == self.peers@[a].0);
                } else {
                    assert(before[b].0 == self.peers@[b].0);
                }
            }
            lemma_peer_count_at(self.peers@, before.len() as int);
            assert forall|p: PeerKey| p != event.peer implies peer_count(self.peers@, p)
                == peer_count(before, p) by {
                if old(self).has_model(p) {
                    let a = choose|a: int| 0 <= a < before.len() && (#[trigger] before[a]).0 == p;
                    lemma_peer_count_at(before, a);
                    lemma_peer_count_at(self.peers@, a);
                }
            }
        }
    }

    /// Which model answers an estimate for `peer`.
    pub fn source(&self, peer: PeerKey) -> (r: EstimateSource)
        ensures
            r == source_spec(self.has_model(peer), self.global_points as int),
    {
        let mut i: usize = 0;
        while i < self.peers.len()
            invariant
                i <= self.peers@.len(),
                forall|k: int| 0 <= k < i ==> (#[trigger] self.peers@[k]).0 != peer,
            decreases self.peers@.len() - i,
        {
            if self.peers[i].0 == peer {
                return EstimateSource::Peer;
            }
            i = i + 1;
        }
        if self.global_points > MIN_PEER_POINTS_FOR_REGRESSION {
            EstimateSource::Global
        } else {
            EstimateSource::Unavailable
        }
    }
}

/// A peer that occurs in a history has a positive count there.
pub proof fn lemma_count_positive(events: Seq<RoutingEvent>, k: int, peer: PeerKey)
    requires
        0 <= k < events.len(),
        events[k].peer == peer,
    ensures
        count_of(events, peer) > 0,
    decreases events.len(),
{
    if k < events.len() - 1 {
        lemma_count_positive(events.drop_last(), k, peer);
    }
}

/// A peer with a positive count occurs in the history.
pub proof fn lemma_count_witness(events: Seq<RoutingEvent>, peer: PeerKey) -> (k: int)
    requires
        count_of(events, peer) > 0,
    ensures
        0 <= k < events.len(),
        events[k].peer == peer,
    decreases events.len(),
{
    if events.last().peer == peer {
        events.len() - 1
    } else {
        lemma_count_witness(events.drop_last(), peer)
    }
}

} // verus!
