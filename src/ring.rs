//! A peer's view of the overlay: its own location and its open connections,
//! keyed by the location of the peer at the other end.
use vstd::prelude::*;
use crate::location::{arc, Location};

verus! {

/// Identifier of a peer, derived from its public key.
#[derive(Clone, Copy, Debug, PartialEq, Eq, Structural, Hash)]
pub struct PeerKey {
    pub id: u64,
}

/// A peer and, once learnt, its location.
#[derive(Clone, Copy, Debug, PartialEq, Eq, Structural, Hash)]
pub struct PeerKeyLocation {
    pub peer: PeerKey,
    pub location: Option<Location>,
}

/// Arc between a location and a peer whose location is known.
pub open spec fn peer_dist(target: Location, p: PeerKeyLocation) -> int {
    arc(target.pos as int, p.location->0.pos as int)
}

/// Each connection has a location, no two share one, and there are at most
/// `max` of them.
pub open spec fn connections_wf(c: Seq<PeerKeyLocation>, max: int) -> bool {
    &&& c.len() <= max
    &&& forall|i: int| 0 <= i < c.len() ==> (#[trigger] c[i]).location is Some
    &&& forall|i: int, j: int|
        0 <= i < c.len() && 0 <= j < c.len() && i != j ==> (#[trigger] c[i]).location
            != (#[trigger] c[j]).location
}

/// The connection keyed by `loc`: the one whose location is `loc`.
pub open spec fn entry_at(c: Seq<PeerKeyLocation>, loc: Location) -> Option<PeerKeyLocation> {
    if exists|i: int| 0 <= i < c.len() && (#[trigger] c[i]).location == Some(loc) {
        let i = choose|i: int| 0 <= i < c.len() && (#[trigger] c[i]).location == Some(loc);
        Some(c[i])
    } else {
        None
    }
}

/// `p` is the best of the candidates for `target`: no other candidate is
/// closer, and of those as close, none has a smaller key.
pub open spec fn is_closest(
    c: Seq<PeerKeyLocation>,
    target: Location,
    exclude: PeerKey,
    p: PeerKeyLocation,
) -> bool {
    &&& c.contains(p)
    &&& p.peer != exclude
    &&& forall|j: int|
        0 <= j < c.len() && (#[trigger] c[j]).peer != exclude ==> peer_dist(target, p) < peer_dist(
            target,
            c[j],
        ) || (peer_dist(target, p) == peer_dist(target, c[j]) && p.peer.id <= c[j].peer.id)
}

/// The connections whose peer is not `exclude`, in table order.
pub open spec fn others(c: Seq<PeerKeyLocation>, exclude: PeerKey) -> Seq<PeerKeyLocation> {
    c.filter(|p: PeerKeyLocation| p.peer != exclude)
}

/// Neighbour table of one peer, with its tuning constants.
pub struct Ring {
    own_location: Option<Location>,
    connections: Vec<PeerKeyLocation>,
    max_connections: usize,
    max_hops_to_live: usize,
    rnd_if_htl_above: usize,
}

impl Ring {
    pub closed spec fn spec_own_location(&self) -> Option<Location> {
        self.own_location
    }

    pub closed spec fn spec_max_connections(&self) -> usize {
        self.max_connections
    }

    pub closed spec fn spec_max_hops_to_live(&self) -> usize {
        self.max_hops_to_live
    }

    pub closed spec fn spec_rnd_if_htl_above(&self) -> usize {
        self.rnd_if_htl_above
    }

    /// This peer's location, once assigned.
    #[verifier::when_used_as_spec(spec_own_location)]
    pub fn own_location(&self) -> (r: Option<Location>)
        ensures
            r == self.spec_own_location(),
    {
        self.own_location
    }

    /// Most neighbours the table holds.
    #[verifier::when_used_as_spec(spec_max_connections)]
    pub fn max_connections(&self) -> (r: usize)
        ensures
            r == self.spec_max_connections(),
    {
        self.max_connections
    }

    /// Most hops a forwarded join request is given.
    #[verifier::when_used_as_spec(spec_max_hops_to_live)]
    pub fn max_hops_to_live(&self) -> (r: usize)
        ensures
            r == self.spec_max_hops_to_live(),
    {
        self.max_hops_to_live
    }

    /// Hop count from which a join request goes to a random neighbour.
    #[verifier::when_used_as_spec(spec_rnd_if_htl_above)]
    pub fn rnd_if_htl_above(&self) -> (r: usize)
        ensures
            r == self.spec_rnd_if_htl_above(),
    {
        self.rnd_if_htl_above
    }

    /// Assigns this peer's location; the table is untouched.
    pub fn set_own_location(&mut self, loc: Option<Location>)
        requires
            old(self).wf(),
        ensures
            final(self).wf(),
            final(self).own_location() == loc,
            final(self).conns() == old(self).conns(),
            final(self).max_connections() == old(self).max_connections(),
            final(self).max_hops_to_live() == old(self).max_hops_to_live(),
            final(self).rnd_if_htl_above() == old(self).rnd_if_htl_above(),
    {
        self.own_location = loc;
    }

    /// The open connections, in table order.
    pub closed spec fn conns(&self) -> Seq<PeerKeyLocation> {
        self.connections@
    }

    pub open spec fn wf(&self) -> bool {
        connections_wf(self.conns(), self.max_connections() as int)
    }

    /// An empty table.
    pub fn new(max_connections: usize, max_hops_to_live: usize, rnd_if_htl_above: usize) -> (r:
        Ring)
        ensures
            r.wf(),
            r.conns() == Seq::<PeerKeyLocation>::empty(),
            r.own_location() is None,
            r.max_connections() == max_connections,
            r.max_hops_to_live() == max_hops_to_live,
            r.rnd_if_htl_above() == rnd_if_htl_above,
    {
        Ring {
            own_location: None,
            connections: Vec::new(),
            max_connections,
            max_hops_to_live,
            rnd_if_htl_above,
        }
    }

    pub fn connections(&self) -> (r: &[PeerKeyLocation])
        ensures
            r@ == self.conns(),
    {
        self.connections.as_slice()
    }

    pub fn num_connections(&self) -> (r: usize)
        ensures
            r == self.conns().len(),
    {
        self.connections.len()
    }

    pub fn is_empty(&self) -> (r: bool)
        ensures
            r == (self.conns().len() == 0),
    {
        self.connections.len() == 0
    }

    /// Position in the table of the connection keyed by `loc`.
    fn index_of(&self, loc: Location) -> (r: Option<usize>)
        ensures
            match r {
                Some(i) => i < self.conns().len() && self.conns()[i as int].location == Some(loc),
                None => forall|i: int|
                    0 <= i < self.conns().len() ==> (#[trigger] self.conns()[i]).location != Some(
                        loc,
                    ),
            },
    {
        let mut i: usize = 0;
        while i < self.connections.len()
            invariant
                i <= self.conns().len(),
                forall|j: int| 0 <= j < i ==> (#[trigger] self.conns()[j]).location != Some(loc),
            decreases self.conns().len() - i,
        {
            if self.connections[i].location == Some(loc) {
                return Some(i);
            }
            i = i + 1;
        }
        None
    }

    /// The connection keyed by `loc`, if any.
    pub fn get(&self, loc: &Location) -> (r: Option<PeerKeyLocation>)
        requires
            self.wf(),
        ensures
            r == entry_at(self.conns(), *loc),
    {
        match self.index_of(*loc) {
            Some(i) => {
                let ghost c = self.conns();
                assert forall|k: int|
                    0 <= k < c.len() && (#[trigger] c[k]).location == Some(*loc) implies k
                    == i by {}
                Some(self.connections[i])
            },
            None => None,
        }
    }

    /// The acceptance rule: room in the table, or a neighbour farther from
    /// `my_loc` than the candidate.
    pub open spec fn should_accept_spec(&self, my_loc: Location, candidate: Location) -> bool {
        self.conns().len() < self.max_connections() || exists|i: int|
            0 <= i < self.conns().len() && arc(my_loc.pos as int, candidate.pos as int)
                < peer_dist(my_loc, #[trigger] self.conns()[i])
    }

    /// The neighbour that `random_peer` picks with `draw`.
    pub open spec fn random_peer_spec(&self, exclude: PeerKey, draw: u64) -> Option<PeerKeyLocation> {
        let c = others(self.conns(), exclude);
        if c.len() == 0 {
            None
        } else {
            Some(c[(draw as int) % (c.len() as int)])
        }
    }

    /// Whether `add_connection` takes `pkl`: it has a location, and that
    /// location is taken, or there is room, or some neighbour is farther from
    /// this peer than it.
    pub open spec fn would_add(&self, pkl: PeerKeyLocation) -> bool {
        &&& pkl.location is Some
        &&& (entry_at(self.conns(), pkl.location->0) is Some || self.conns().len()
            < self.max_connections() || (self.own_location() is Some && exists|i: int|
            0 <= i < self.conns().len() && peer_dist(self.own_location()->0, pkl) < peer_dist(
                self.own_location()->0,
                #[trigger] self.conns()[i],
            )))
    }

    /// Whether a connection to a peer at `candidate` is worth having, seen
    /// from `my_loc`: the table has room, or some neighbour is farther than
    /// the candidate.
    pub fn should_accept(&self, my_loc: &Location, candidate: &Location) -> (r: bool)
        requires
            self.wf(),
        ensures
            r == self.should_accept_spec(*my_loc, *candidate),
    {
        if self.connections.len() < self.max_connections() {
            return true;
        }
        let d = my_loc.distance(candidate);
        let mut i: usize = 0;
        while i < self.connections.len()
            invariant
                self.wf(),
                i <= self.conns().len(),
                d.units == arc(my_loc.pos as int, candidate.pos as int),
                forall|j: int|
                    0 <= j < i ==> arc(my_loc.pos as int, candidate.pos as int) >= peer_dist(
                        *my_loc,
                        #[trigger] self.conns()[j],
                    ),
            decreases self.conns().len() - i,
        {
            let p = self.connections[i];
            assert(self.conns()[i as int].location is Some);
            let loc = p.location.unwrap();
            if d.units < my_loc.distance(&loc).units {
                return true;
            }
            i = i + 1;
        }
        false
    }

    /// Position of the neighbour farthest from `me`, the first of them on a tie.
    fn farthest_index(&self, me: &Location) -> (r: usize)
        requires
            self.wf(),
            self.conns().len() > 0,
        ensures
            r < self.conns().len(),
            forall|j: int|
                0 <= j < self.conns().len() ==> peer_dist(*me, #[trigger] self.conns()[j])
                    <= peer_dist(*me, self.conns()[r as int]),
    {
        let mut best: usize = 0;
        assert(self.conns()[0].location is Some);
        let mut best_d = me.distance(&self.connections[0].location.unwrap()).units;
        let mut i: usize = 1;
        while i < self.connections.len()
            invariant
                self.wf(),
                1 <= i <= self.conns().len(),
                best < self.conns().len(),
                best_d == peer_dist(*me, self.conns()[best as int]),
                forall|j: int|
                    0 <= j < i ==> peer_dist(*me, #[trigger] self.conns()[j]) <= best_d,
            decreases self.conns().len() - i,
        {
            assert(self.conns()[i as int].location is Some);
            let d = me.distance(&self.connections[i].location.unwrap()).units;
            if d > best_d {
                best = i;
                best_d = d;
            }
            i = i + 1;
        }
        best
    }

    /// Opens a connection in the table. A peer whose location is taken
    /// replaces the one there; otherwise it is added while there is room, or
    /// else replaces the neighbour farthest from this peer if it is closer
    /// than that one. Returns whether the table now holds it.
    pub fn add_connection(&mut self, pkl: PeerKeyLocation) -> (r: bool)
        requires
            old(self).wf(),
        ensures
            final(self).wf(),
            final(self).own_location() == old(self).own_location(),
            final(self).max_connections() == old(self).max_connections(),
            final(self).max_hops_to_live() == old(self).max_hops_to_live(),
            final(self).rnd_if_htl_above() == old(self).rnd_if_htl_above(),
            r == old(self).would_add(pkl),
            r ==> final(self).conns().contains(pkl),
            !r ==> final(self).conns() == old(self).conns(),
            forall|x: PeerKeyLocation|
                #[trigger] final(self).conns().contains(x) ==> old(self).conns().contains(x) || x
                    == pkl,
            pkl.location is None ==> !r,
            pkl.location is Some ==> match entry_at(old(self).conns(), pkl.location->0) {
                Some(_) => r && exists|i: int|
                    0 <= i < old(self).conns().len() && (#[trigger] old(self).conns()[i]).location
                        == pkl.location && final(self).conns() == old(self).conns().update(i, pkl),
                None => if old(self).conns().len() < old(self).max_connections() {
                    r && final(self).conns() == old(self).conns().push(pkl)
                } else {
                    r == (old(self).own_location() is Some && exists|i: int|
                        0 <= i < old(self).conns().len() && peer_dist(
                            old(self).own_location()->0,
                            pkl,
                        ) < peer_dist(old(self).own_location()->0, #[trigger] old(self).conns()[i]))
                        && (r ==> exists|i: int|
                        0 <= i < old(self).conns().len() && final(self).conns()
                            == old(self).conns().update(i, pkl) && (forall|j: int|
                            0 <= j < old(self).conns().len() ==> peer_dist(
                                old(self).own_location()->0,
                                #[trigger] old(self).conns()[j],
                            ) <= peer_dist(old(self).own_location()->0, old(self).conns()[i])))
                },
            },
    {
        let loc = match pkl.location {
            Some(l) => l,
            None => return false,
        };
        let ghost c = self.conns();
        match self.index_of(loc) {
            Some(i) => {
                self.connections.set(i, pkl);
                assert(self.conns()[i as int] == pkl);
                assert forall|a: int, b: int|
                    0 <= a < self.conns().len() && 0 <= b < self.conns().len() && a != b
                        implies (#[trigger] self.conns()[a]).location
                        != (#[trigger] self.conns()[b]).location by {
                    if a != i && b != i {
                        assert(c[a].location != c[b].location);
                    } else if a == i {
                        assert(c[b].location != c[a].location);
                    } else {
                        assert(c[a].location != c[b].location);
                    }
                }
                assert(entry_at(c, loc) is Some);
                return true;
            },
            None => {},
        }
        assert(entry_at(c, loc) is None);
        if self.connections.len() < self.max_connections() {
            self.connections.push(pkl);
            assert(self.conns()[c.len() as int] == pkl);
            return true;
        }
        let me = match self.own_location() {
            Some(m) => m,
            None => {
                return false;
            },
        };
        if self.connections.len() == 0 {
            return false;
        }
        let f = self.farthest_index(&me);
        assert(c[f as int].location is Some);
        let fd = me.distance(&self.connections[f].location.unwrap()).units;
        if me.distance(&loc).units < fd {
            self.connections.set(f, pkl);
            assert(self.conns()[f as int] == pkl);
            assert forall|a: int, b: int|
                0 <= a < self.conns().len() && 0 <= b < self.conns().len() && a != b
                    implies (#[trigger] self.conns()[a]).location
                    != (#[trigger] self.conns()[b]).location by {
                if a != f && b != f {
                    assert(c[a].location != c[b].location);
                }
            }
            true
        } else {
            false
        }
    }

    /// The neighbour closest to `target` among those whose peer is not
    /// `exclude`; of neighbours equally close, the one with the smaller key.
    pub fn closest_peer(&self, target: &Location, exclude: PeerKey) -> (r: Option<PeerKeyLocation>)
        requires
            self.wf(),
        ensures
            match r {
                Some(p) => is_closest(self.conns(), *target, exclude, p),
                None => forall|j: int|
                    0 <= j < self.conns().len() ==> (#[trigger] self.conns()[j]).peer == exclude,
            },
    {
        let mut best: Option<usize> = None;
        let mut best_d: u32 = 0;
        let mut i: usize = 0;
        while i < self.connections.len()
            invariant
                self.wf(),
                i <= self.conns().len(),
                match best {
                    Some(b) => b < i && self.conns()[b as int].peer != exclude && best_d
                        == peer_dist(*target, self.conns()[b as int]) && forall|j: int|
                        0 <= j < i && (#[trigger] self.conns()[j]).peer != exclude ==> best_d
                            < peer_dist(*target, self.conns()[j]) || (best_d == peer_dist(
                            *target,
                            self.conns()[j],
                        ) && self.conns()[b as int].peer.id <= self.conns()[j].peer.id),
                    None => forall|j: int|
                        0 <= j < i ==> (#[trigger] self.conns()[j]).peer == exclude,
                },
            decreases self.conns().len() - i,
        {
            let p = self.connections[i];
            if p.peer != exclude {
                assert(self.conns()[i as int].location is Some);
                let d = target.distance(&p.location.unwrap()).units;
                match best {
                    Some(b) => {
                        if d < best_d || (d == best_d && p.peer.id < self.connections[b].peer.id) {
                            best = Some(i);
                            best_d = d;
                        }
                    },
                    None => {
                        best = Some(i);
                        best_d = d;
                    },
                }
            }
            i = i + 1;
        }
        match best {
            Some(b) => {
                assert(self.conns()[b as int] == self.conns()[b as int]);
                assert(self.conns().contains(self.conns()[b as int]));
                Some(self.connections[b])
            },
            None => None,
        }
    }

    /// The neighbours whose peer is not `exclude`, in table order.
    pub fn peers_excluding(&self, exclude: PeerKey) -> (r: Vec<PeerKeyLocation>)
        ensures
            r@ == others(self.conns(), exclude),
    {
        let mut out: Vec<PeerKeyLocation> = Vec::new();
        let mut i: usize = 0;
        while i < self.connections.len()
            invariant
                i <= self.conns().len(),
                out@ == others(self.conns().subrange(0, i as int), exclude),
            decreases self.conns().len() - i,
        {
            let p = self.connections[i];
            proof {
                let pre = self.conns().subrange(0, i as int);
                assert(self.conns().subrange(0, i + 1) =~= pre.push(p));
                pre.lemma_filter_push(p, |q: PeerKeyLocation| q.peer != exclude);
            }
            if p.peer != exclude {
                out.push(p);
            }
            i = i + 1;
        }
        assert(self.conns().subrange(0, i as int) =~= self.conns());
        out
    }

    /// A neighbour other than `exclude`, picked by `draw`: a uniform `draw`
    /// gives a uniform pick (up to the draw's range).
    pub fn random_peer(&self, exclude: PeerKey, draw: u64) -> (r: Option<PeerKeyLocation>)
        ensures
            r == self.random_peer_spec(exclude, draw),
    {
        let candidates = self.peers_excluding(exclude);
        let n = candidates.len();
        if n == 0 {
            None
        } else {
            let k = (draw % (n as u64)) as usize;
            Some(candidates[k])
        }
    }

    /// Closes every connection to `peer`.
    pub fn remove_peer(&mut self, peer: PeerKey)
        requires
            old(self).wf(),
        ensures
            final(self).wf(),
            final(self).conns() == others(old(self).conns(), peer),
            final(self).own_location() == old(self).own_location(),
            final(self).max_connections() == old(self).max_connections(),
            final(self).max_hops_to_live() == old(self).max_hops_to_live(),
            final(self).rnd_if_htl_above() == old(self).rnd_if_htl_above(),
    {
        let kept = self.peers_excluding(peer);
        proof {
            lemma_others_wf(self.conns(), peer, self.max_connections() as int);
        }
        self.connections = kept;
    }
}

/// Dropping the connections of one peer keeps a table well formed.
pub proof fn lemma_others_wf(c: Seq<PeerKeyLocation>, peer: PeerKey, max: int)
    requires
        connections_wf(c, max),
    ensures
        connections_wf(others(c, peer), max),
        forall|p: PeerKeyLocation| #[trigger] others(c, peer).contains(p) <==> c.contains(p) && p.peer != peer,
    decreases c.len(),
{
    let f = |q: PeerKeyLocation| q.peer != peer;
    if c.len() == 0 {
        assert(others(c, peer) =~= Seq::<PeerKeyLocation>::empty());
    } else {
        let pre = c.drop_last();
        let last = c.last();
        assert(pre.push(last) =~= c);
        assert(connections_wf(pre, max)) by {
            assert forall|i: int, j: int|
                0 <= i < pre.len() && 0 <= j < pre.len() && i != j implies (#[trigger] pre[i]).location
                    != (#[trigger] pre[j]).location by {
                assert(c[i] == pre[i] && c[j] == pre[j]);
            }
            assert forall|i: int| 0 <= i < pre.len() implies (#[trigger] pre[i]).location is Some by {
                assert(c[i] == pre[i]);
            }
        }
        lemma_others_wf(pre, peer, max);
        pre.lemma_filter_push(last, f);
        let fp = others(pre, peer);
        assert forall|p: PeerKeyLocation| fp.contains(p) implies p.location != last.location by {
            let k = choose|k: int| 0 <= k < pre.len() && pre[k] == p;
            assert(c[k] == p && c[c.len() - 1] == last);
        }
        if last.peer != peer {
            let fc = others(c, peer);
            assert(fc =~= fp.push(last));
            assert forall|i: int, j: int|
                0 <= i < fc.len() && 0 <= j < fc.len() && i != j implies (#[trigger] fc[i]).location
                    != (#[trigger] fc[j]).location by {
                if i < fp.len() && j < fp.len() {
                } else if i < fp.len() {
                    assert(fp.contains(fc[i]));
                } else {
                    assert(fp.contains(fc[j]));
                }
            }
            assert forall|p: PeerKeyLocation| #[trigger] fc.contains(p) <==> c.contains(p) && p.peer != peer by {
                if c.contains(p) && p.peer != peer {
                    let k = choose|k: int| 0 <= k < c.len() && c[k] == p;
                    if k < pre.len() {
                        assert(pre[k] == p);
                        assert(pre.contains(p));
                    } else {
                        assert(fc[fc.len() - 1] == p);
                    }
                }
                if fc.contains(p) {
                    let k = choose|k: int| 0 <= k < fc.len() && fc[k] == p;
                    if k < fp.len() {
                        assert(fp.contains(p));
                        let m = choose|m: int| 0 <= m < pre.len() && pre[m] == p;
                        assert(c[m] == p);
                    } else {
                        assert(c[c.len() - 1] == p);
                    }
                }
            }
        } else {
            assert(others(c, peer) =~= fp);
            assert forall|p: PeerKeyLocation| #[trigger] fp.contains(p) <==> c.contains(p) && p.peer != peer by {
                if c.contains(p) && p.peer != peer {
                    let k = choose|k: int| 0 <= k < c.len() && c[k] == p;
                    assert(k < pre.len());
                    assert(pre[k] == p);
                }
                if fp.contains(p) {
                    let m = choose|m: int| 0 <= m < pre.len() && pre[m] == p;
                    assert(c[m] == p);
                }
            }
        }
    }
}

/// Every neighbour of a well-formed table has a location, and the table's
/// entry at that location is that neighbour; the table never holds more
/// than `max_connections` of them.
pub proof fn lemma_ring_keyed_by_location(ring: &Ring)
    requires
        ring.wf(),
    ensures
        ring.conns().len() <= ring.max_connections(),
        forall|i: int|
            0 <= i < ring.conns().len() ==> (#[trigger] ring.conns()[i]).location is Some
                && entry_at(ring.conns(), ring.conns()[i].location->0) == Some(ring.conns()[i]),
{
    let c = ring.conns();
    assert forall|i: int| 0 <= i < c.len() implies (#[trigger] c[i]).location is Some
        && entry_at(c, c[i].location->0) == Some(c[i]) by {
        let loc = c[i].location->0;
        assert(c[i].location == Some(loc));
        let k = choose|k: int| 0 <= k < c.len() && (#[trigger] c[k]).location == Some(loc);
        if k != i {
            assert(c[k].location != c[i].location);
        }
    }
}

} // verus!
