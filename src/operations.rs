//! The forwarding decision of a join request, the merging of acceptors, and
//! the table of in-flight operations.
use vstd::prelude::*;
use crate::join_ring::{JRState, JoinRingOp, Transaction};
use crate::location::{arc, Location};
use crate::ring::{is_closest, others, PeerKey, PeerKeyLocation, Ring};

verus! {

/// What a peer does with a join request it received.
pub struct ForwardDecision {
    /// This peer, when it accepts the joiner; else empty.
    pub accepted_by: Vec<PeerKeyLocation>,
    /// The neighbour to pass the request on to, if it goes on.
    pub forward_to: Option<PeerKeyLocation>,
    /// Hops left for the forwarded request.
    pub next_hops: usize,
}

/// `a` is no greater than `b`, `a` otherwise.
pub open spec fn min_usize(a: usize, b: usize) -> usize {
    if a <= b { a } else { b }
}

/// The neighbour a request for a joiner at `joiner_loc` may go on to: none
/// when no hops are left or there are no neighbours; else the one `draw`
/// picks among those other than `exclude`, while the hop count is at least
/// `rnd_if_htl_above`; else the one closest to the joiner.
pub open spec fn valid_target(
    ring: Ring,
    exclude: PeerKey,
    joiner_loc: Location,
    hops_to_live: usize,
    draw: u64,
    t: Option<PeerKeyLocation>,
) -> bool {
    if min_usize(hops_to_live, ring.max_hops_to_live()) == 0 || ring.conns().len() == 0 {
        t is None
    } else if hops_to_live >= ring.rnd_if_htl_above() {
        t == ring.random_peer_spec(exclude, draw)
    } else {
        match t {
            Some(p) => is_closest(ring.conns(), joiner_loc, exclude, p),
            None => forall|j: int|
                0 <= j < ring.conns().len() ==> (#[trigger] ring.conns()[j]).peer == exclude,
        }
    }
}

/// This peer, as an acceptor, when the acceptance rule takes the joiner.
pub open spec fn acceptors_of(ring: Ring, me: PeerKeyLocation, my_loc: Location, joiner_loc: Location) -> Seq<
    PeerKeyLocation,
> {
    if ring.should_accept_spec(my_loc, joiner_loc) {
        seq![me]
    } else {
        Seq::empty()
    }
}

/// Decides acceptance and forwarding of a joiner at `joiner_loc`, seen from
/// `me` at `my_loc`, as `acceptors_of` and `valid_target` say; a forwarded
/// request gets one hop less than the smaller of its own and this ring's
/// hop limit.
pub fn forward_decision(
    ring: &Ring,
    me: PeerKeyLocation,
    my_loc: Location,
    joiner_loc: Location,
    exclude: PeerKey,
    hops_to_live: usize,
    draw: u64,
) -> (r: ForwardDecision)
    requires
        ring.wf(),
    ensures
        r.accepted_by@ == acceptors_of(*ring, me, my_loc, joiner_loc),
        valid_target(*ring, exclude, joiner_loc, hops_to_live, draw, r.forward_to),
        hops_to_live == 0 ==> r.forward_to is None,
        ring.conns().len() == 0 ==> r.forward_to is None,
        r.forward_to is Some ==> r.next_hops == min_usize(hops_to_live, ring.max_hops_to_live())
            - 1,
{
    let accept = ring.should_accept(&my_loc, &joiner_loc);
    let mut accepted_by: Vec<PeerKeyLocation> = Vec::new();
    if accept {
        accepted_by.push(me);
    }
    let hops = if hops_to_live <= ring.max_hops_to_live() {
        hops_to_live
    } else {
        ring.max_hops_to_live()
    };
    if hops == 0 || ring.is_empty() {
        return ForwardDecision { accepted_by, forward_to: None, next_hops: 0 };
    }
    let forward_to = if hops_to_live >= ring.rnd_if_htl_above() {
        ring.random_peer(exclude, draw)
    } else {
        ring.closest_peer(&joiner_loc, exclude)
    };
    ForwardDecision { accepted_by, forward_to, next_hops: hops - 1 }
}

/// Adds to `acc` each of `new` it does not hold yet, in order.
pub fn merge_acceptors(acc: &mut Vec<PeerKeyLocation>, new: &[PeerKeyLocation])
    ensures
        final(acc)@.len() >= old(acc)@.len(),
        final(acc)@.subrange(0, old(acc)@.len() as int) == old(acc)@,
        forall|p: PeerKeyLocation|
            #[trigger] final(acc)@.contains(p) <==> old(acc)@.contains(p) || new@.contains(p),
        old(acc)@.no_duplicates() ==> final(acc)@.no_duplicates(),
{
    let ghost start = acc@;
    let mut i: usize = 0;
    while i < new.len()
        invariant
            i <= new@.len(),
            acc@.len() >= start.len(),
            acc@.subrange(0, start.len() as int) == start,
            forall|p: PeerKeyLocation|
                #[trigger] acc@.contains(p) <==> start.contains(p) || new@.subrange(
                    0,
                    i as int,
                ).contains(p),
            start.no_duplicates() ==> acc@.no_duplicates(),
        decreases new@.len() - i,
    {
        let p = new[i];
        let ghost before = acc@;
        let mut found = false;
        let mut j: usize = 0;
        while j < acc.len()
            invariant
                j <= acc@.len(),
                acc@ == before,
                found == exists|k: int| 0 <= k < j && acc@[k] == p,
            decreases acc@.len() - j,
        {
            if acc[j] == p {
                found = true;
            }
            j = j + 1;
        }
        if !found {
            acc.push(p);
            assert(acc@.subrange(0, start.len() as int) =~= before.subrange(0, start.len() as int));
        }
        proof {
            let seen = new@.subrange(0, i as int);
            let seen2 = new@.subrange(0, i + 1);
            assert(seen2 =~= seen.push(p));
            assert forall|q: PeerKeyLocation| #[trigger] seen2.contains(q) <==> seen.contains(q) || q == p by {
                if seen2.contains(q) {
                    let k = choose|k: int| 0 <= k < seen2.len() && seen2[k] == q;
                    if k < seen.len() {
                        assert(seen[k] == q);
                    }
                }
                if seen.contains(q) {
                    let k = choose|k: int| 0 <= k < seen.len() && seen[k] == q;
                    assert(seen2[k] == q);
                }
                if q == p {
                    assert(seen2[i as int] == q);
                }
            }
            if !found {
                assert forall|q: PeerKeyLocation| #[trigger] acc@.contains(q) <==> before.contains(q) || q == p by {
                    if acc@.contains(q) {
                        let k = choose|k: int| 0 <= k < acc@.len() && acc@[k] == q;
                        if k < before.len() {
                            assert(before[k] == q);
                        }
                    }
                    if before.contains(q) {
                        let k = choose|k: int| 0 <= k < before.len() && before[k] == q;
                        assert(acc@[k] == q);
                    }
                    if q == p {
                        assert(acc@[before.len() as int] == q);
                    }
                }
            } else {
                let k = choose|k: int| 0 <= k < j && acc@[k] == p;
                assert(before.contains(p));
            }
        }
        i = i + 1;
    }
    assert(new@.subrange(0, i as int) =~= new@);
}

/// No live operation has reached the terminal state, and no transaction
/// appears twice.
pub open spec fn ops_wf(ops: Seq<(Transaction, JoinRingOp)>) -> bool {
    &&& forall|i: int| 0 <= i < ops.len() ==> (#[trigger] ops[i]).1.state != JRState::Connected
    &&& forall|i: int, j: int|
        0 <= i < ops.len() && 0 <= j < ops.len() && i != j ==> (#[trigger] ops[i]).0
            != (#[trigger] ops[j]).0
}

/// Whether `tx` has a live operation.
pub open spec fn ops_has(ops: Seq<(Transaction, JoinRingOp)>, tx: Transaction) -> bool {
    exists|i: int| 0 <= i < ops.len() && (#[trigger] ops[i]).0 == tx
}

/// The operation stored under `tx`, if any.
pub open spec fn ops_get(ops: Seq<(Transaction, JoinRingOp)>, tx: Transaction) -> Option<JoinRingOp> {
    if ops_has(ops, tx) {
        Some(ops[choose|i: int| 0 <= i < ops.len() && (#[trigger] ops[i]).0 == tx].1)
    } else {
        None
    }
}

/// In a table without repeated transactions, the entry at `i` is the one
/// stored under its transaction.
pub proof fn lemma_ops_get_at(ops: Seq<(Transaction, JoinRingOp)>, i: int)
    requires
        ops_wf(ops),
        0 <= i < ops.len(),
    ensures
        ops_get(ops, ops[i].0) == Some(ops[i].1),
{
    let tx = ops[i].0;
    assert(ops_has(ops, tx));
    let k = choose|k: int| 0 <= k < ops.len() && (#[trigger] ops[k]).0 == tx;
    if k != i {
        assert(ops[k].0 != ops[i].0);
    }
}

/// The in-flight operations of one peer, by transaction.
pub struct OpStorage {
    ops: Vec<(Transaction, JoinRingOp)>,
}

impl OpStorage {
    /// The stored operations with their transactions.
    pub closed spec fn entries(&self) -> Seq<(Transaction, JoinRingOp)> {
        self.ops@
    }

    pub open spec fn wf(&self) -> bool {
        ops_wf(self.entries())
    }

    pub open spec fn has(&self, tx: Transaction) -> bool {
        ops_has(self.entries(), tx)
    }

    pub open spec fn get(&self, tx: Transaction) -> Option<JoinRingOp> {
        ops_get(self.entries(), tx)
    }

    /// Takes every stored operation out, leaving the table empty.
    pub fn take_all(&mut self) -> (r: Vec<(Transaction, JoinRingOp)>)
        ensures
            r@ == old(self).entries(),
            final(self).entries().len() == 0,
    {
        let mut empty: Vec<(Transaction, JoinRingOp)> = Vec::new();
        std::mem::swap(&mut empty, &mut self.ops);
        empty
    }

    /// A table holding `ops`, which must have no repeated transaction and
    /// no terminal operation.
    pub fn from_entries(ops: Vec<(Transaction, JoinRingOp)>) -> (r: OpStorage)
        requires
            ops_wf(ops@),
        ensures
            r.entries() == ops@,
            r.wf(),
    {
        OpStorage { ops }
    }

    pub fn new() -> (r: OpStorage)
        ensures
            r.wf(),
            r.entries().len() == 0,
    {
        OpStorage { ops: Vec::new() }
    }

    fn find(&self, tx: Transaction) -> (r: Option<usize>)
        ensures
            match r {
                Some(i) => i < self.ops@.len() && self.ops@[i as int].0 == tx,
                None => !self.has(tx),
            },
    {
        let mut i: usize = 0;
        while i < self.ops.len()
            invariant
                i <= self.ops@.len(),
                forall|j: int| 0 <= j < i ==> (#[trigger] self.ops@[j]).0 != tx,
            decreases self.ops@.len() - i,
        {
            if self.ops[i].0 == tx {
                return Some(i);
            }
            i = i + 1;
        }
        None
    }

    pub fn contains(&self, tx: Transaction) -> (r: bool)
        ensures
            r == self.has(tx),
    {
        self.find(tx).is_some()
    }

    /// Takes out the operation of `tx`, if there is one.
    pub fn pop(&mut self, tx: Transaction) -> (r: Option<JoinRingOp>)
        requires
            old(self).wf(),
        ensures
            final(self).wf(),
            !final(self).has(tx),
            r is Some <==> old(self).has(tx),
            r == old(self).get(tx),
            r matches Some(op) ==> op.state != JRState::Connected && exists|i: int|
                0 <= i < old(self).entries().len() && old(self).entries()[i] == (tx, op),
            forall|t: Transaction| t != tx ==> (final(self).has(t) <==> old(self).has(t)),
    {
        match self.find(tx) {
            Some(i) => {
                let ghost before = self.ops@;
                let (_, op) = self.ops.remove(i);
                assert(before[i as int] == (tx, op));
                proof {
                    lemma_ops_get_at(before, i as int);
                }
                assert forall|t: Transaction| t != tx implies (self.has(t) <==> ops_has(before, t)) by {
                    if ops_has(before, t) {
                        let k = choose|k: int| 0 <= k < before.len() && (#[trigger] before[k]).0 == t;
                        if k < i {
                            assert(self.ops@[k] == before[k]);
                        } else {
                            assert(self.ops@[k - 1] == before[k]);
                        }
                    }
                    if self.has(t) {
                        let k = choose|k: int| 0 <= k < self.ops@.len() && (#[trigger] self.ops@[k]).0 == t;
                        if k < i {
                            assert(self.ops@[k] == before[k]);
                        } else {
                            assert(self.ops@[k] == before[k + 1]);
                        }
                    }
                }
                assert(!self.has(tx)) by {
                    if self.has(tx) {
                        let k = choose|k: int| 0 <= k < self.ops@.len() && (#[trigger] self.ops@[k]).0 == tx;
                        if k < i {
                            assert(self.ops@[k] == before[k]);
                        } else {
                            assert(self.ops@[k] == before[k + 1]);
                        }
                    }
                }
                assert forall|a: int, b: int|
                    0 <= a < self.ops@.len() && 0 <= b < self.ops@.len() && a != b implies (#[trigger] self.ops@[a]).0
                        != (#[trigger] self.ops@[b]).0 by {
                    let a2 = if a < i { a } else { a + 1 };
                    let b2 = if b < i { b } else { b + 1 };
                    assert(self.ops@[a] == before[a2] && self.ops@[b] == before[b2]);
                }
                assert forall|a: int| 0 <= a < self.ops@.len() implies (#[trigger] self.ops@[a]).1.state != JRState::Connected by {
                    let a2 = if a < i { a } else { a + 1 };
                    assert(self.ops@[a] == before[a2]);
                }
                Some(op)
            },
            None => None,
        }
    }

    /// Stores the operation of `tx`, replacing any it had. A terminal
    /// operation is not stored: it is over. Returns whether it was stored.
    pub fn push(&mut self, tx: Transaction, op: JoinRingOp) -> (r: bool)
        requires
            old(self).wf(),
        ensures
            final(self).wf(),
            r == (op.state != JRState::Connected),
            final(self).has(tx) == r,
            r ==> final(self).get(tx) == Some(op),
            forall|t: Transaction| t != tx ==> (final(self).has(t) <==> old(self).has(t)),
    {
        let _ = self.pop(tx);
        if let JRState::Connected = op.state {
            return false;
        }
        let ghost before = self.ops@;
        self.ops.push((tx, op));
        assert(self.ops@[before.len() as int].0 == tx);
        assert forall|t: Transaction| t != tx implies (self.has(t) <==> ops_has(before, t)) by {
            if self.has(t) {
                let k = choose|k: int| 0 <= k < self.ops@.len() && (#[trigger] self.ops@[k]).0 == t;
                assert(k < before.len());
                assert(before[k] == self.ops@[k]);
            }
            if ops_has(before, t) {
                let k = choose|k: int| 0 <= k < before.len() && (#[trigger] before[k]).0 == t;
                assert(self.ops@[k] == before[k]);
            }
        }
        assert forall|a: int, b: int|
            0 <= a < self.ops@.len() && 0 <= b < self.ops@.len() && a != b implies (#[trigger] self.ops@[a]).0
                != (#[trigger] self.ops@[b]).0 by {
            if a < before.len() && b < before.len() {
                assert(self.ops@[a] == before[a] && self.ops@[b] == before[b]);
            } else if a < before.len() {
                assert(self.ops@[a] == before[a]);
                assert(ops_has(before, tx) == false);
            } else {
                assert(self.ops@[b] == before[b]);
            }
        }
        proof {
            lemma_ops_get_at(self.ops@, before.len() as int);
        }
        true
    }
}

/// A well-formed table holds no operation that has reached the terminal
/// state: terminal operations are removed, never stored.
pub proof fn lemma_live_ops_not_terminal(storage: &OpStorage)
    requires
        storage.wf(),
    ensures
        forall|i: int|
            0 <= i < storage.entries().len() ==> (#[trigger] storage.entries()[i]).1.state
                != JRState::Connected,
{
}

} // verus!
