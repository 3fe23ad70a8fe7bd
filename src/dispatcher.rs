//! One step of the dispatcher: a received join-ring message is matched to
//! its operation, the operation advances, and the messages to send come out.
//! The caller performs the sending; nothing here does I/O.
use vstd::prelude::*;
use crate::join_ring::{
    ConnectionInfo, Forwarding, JRState, JoinRequest, JoinResponse, JoinRingMsg, JoinRingOp,
    Joining, OpError, PendingOC, Transaction,
};
use crate::location::Location;
use crate::codec::{JoinRingMsgView, MessageView, ResponseView};
use crate::operations::{acceptors_of, forward_decision, merge_acceptors, min_usize, valid_target, OpStorage};
use crate::ring::{PeerKey, PeerKeyLocation, Ring};

verus! {

/// How long the joiner keeps trying to open one connection, in milliseconds.
pub const OC_TIMEOUT_MS: u64 = 30_000;

/// How often the joiner repeats its open-connection request, in milliseconds.
pub const OC_RETRY_MS: u64 = 200;

/// What peers send each other.
#[derive(Clone, Debug, PartialEq, Eq)]
pub enum Message {
    JoinRing(JoinRingMsg),
    /// The transaction failed at the sender and was dropped there.
    Canceled(Transaction),
}

/// A message to send, with its recipient and the transaction of its frame.
#[derive(Clone, Debug, PartialEq, Eq)]
pub struct Outbound {
    pub to: PeerKey,
    pub tx: Transaction,
    pub msg: Message,
}

#[derive(Clone, Copy, Debug, PartialEq, Eq, Structural)]
pub enum JoinFailure {
    /// No peer accepted the joiner.
    NoAcceptor,
    /// Every handshake ran out of time.
    Timeout,
}

/// Signals a finished join emits.
#[derive(Clone, Copy, Debug, PartialEq, Eq, Structural)]
pub enum JoinEvent {
    JoinSuccess { gateway: PeerKey, new_node: PeerKey },
    JoinFailed { reason: JoinFailure },
}

/// What a step produced: messages to send, the error that ended the
/// operation if one did, and the signal of a finished join.
pub struct DispatchResult {
    pub outbound: Vec<Outbound>,
    pub error: Option<OpError>,
    pub event: Option<JoinEvent>,
}

/// A handler's result: messages, the operation to keep (`None` once it is
/// over), and a signal.
pub struct Step {
    pub outbound: Vec<Outbound>,
    pub op: Option<JoinRingOp>,
    pub event: Option<JoinEvent>,
}

/// The acceptors a response carries, whichever kind it is.
pub open spec fn carried_acceptors(o: Outbound) -> Seq<PeerKeyLocation> {
    match o.msg@ {
        MessageView::JoinRing(
            JoinRingMsgView::Resp { msg: ResponseView::Initial { accepted_by, .. }, .. },
        ) => accepted_by,
        MessageView::JoinRing(JoinRingMsgView::Resp { msg: ResponseView::Proxy { accepted_by }, .. }) => accepted_by,
        _ => Seq::empty(),
    }
}

/// The outbound message carrying `msg` to `to` in a frame of `tx`.
pub open spec fn out_msg(to: PeerKey, tx: Transaction, msg: JoinRingMsg) -> Outbound {
    Outbound { to, tx, msg: Message::JoinRing(msg) }
}

/// A fresh operation of this peer's part in a transaction: nothing
/// remembered for any role.
pub open spec fn plain_op(o: JoinRingOp) -> bool {
    o.forward is None && o.joining is None && o.peer is None
}

/// An operation that passed a request on and waits for the acceptors from
/// further on, with this peer's own acceptors `acc` so far.
pub open spec fn forwarding_op(
    o: JoinRingOp,
    acc: Seq<PeerKeyLocation>,
    reply_to: PeerKey,
    joiner: PeerKey,
    joiner_location: Location,
    me: PeerKeyLocation,
    from_gateway: bool,
) -> bool {
    &&& o.state is Connecting
    &&& o.joining is None
    &&& o.peer is None
    &&& match o.forward {
        Some(fw) => fw.acceptors@ == acc && fw.reply_to == reply_to && fw.joiner == joiner
            && fw.joiner_location == joiner_location && fw.me == me && fw.from_gateway
            == from_gateway && fw.self_accepted == (acc.len() > 0),
        None => false,
    }
}

/// The joiner's operation once the gateway has answered: every acceptor
/// pending, in order, with the deadline and retry time set from `now`.
pub open spec fn joining_op(
    o: JoinRingOp,
    info: ConnectionInfo,
    me: PeerKeyLocation,
    acc: Seq<PeerKeyLocation>,
    now: u64,
) -> bool {
    &&& o.state == JRState::OCReceived
    &&& o.forward is None
    &&& o.peer is None
    &&& match o.joining {
        Some(j) => j.info == info && j.me == me && j.connected@.len() == 0 && j.pending@.len()
            == acc.len() && forall|i: int|
            0 <= i < acc.len() ==> #[trigger] j.pending@[i] == (PendingOC {
                peer: acc[i],
                deadline: oc_deadline(now),
                next_send: oc_retry_at(now),
            }),
        None => false,
    }
}

fn send(to: PeerKey, tx: Transaction, msg: JoinRingMsg) -> (r: Outbound)
    ensures
        r == out_msg(to, tx, msg),
{
    Outbound { to, tx, msg: Message::JoinRing(msg) }
}

/// What the gateway `gateway` does with the first request of `req_peer`,
/// placing it at `new_location`: the request goes on, as a `Proxy` with one
/// hop less, to the neighbour `valid_target` allows, and the operation
/// remembers the gateway's own acceptance; or, with no such neighbour, the
/// joiner gets a `Resp::Initial` naming this transaction, the gateway as
/// sender, the acceptors, its location and its key, and the operation stays
/// only if the gateway accepted.
pub open spec fn initial_request_result(
    ring: Ring,
    tx: Transaction,
    gateway: PeerKeyLocation,
    req_peer: PeerKey,
    hops_to_live: usize,
    new_location: Location,
    draw: u64,
    out: Seq<Outbound>,
    op: Option<JoinRingOp>,
) -> bool {
    let acc = acceptors_of(ring, gateway, gateway.location->0, new_location);
    let joiner = PeerKeyLocation { peer: req_peer, location: Some(new_location) };
    exists|t: Option<PeerKeyLocation>|
        #[trigger] valid_target(ring, req_peer, new_location, hops_to_live, draw, t) && match t {
            Some(f) => out == seq![
                out_msg(
                    f.peer,
                    tx,
                    JoinRingMsg::Req {
                        id: tx,
                        msg: JoinRequest::Proxy {
                            joiner,
                            hops_to_live: (min_usize(hops_to_live, ring.max_hops_to_live()) - 1) as usize,
                        },
                    },
                ),
            ] && (op matches Some(o) && forwarding_op(o, acc, req_peer, req_peer, new_location, gateway, true)),
            None => out.len() == 1 && out[0].to == req_peer && out[0].tx == tx && out[0].msg@
                == MessageView::JoinRing(
                JoinRingMsgView::Resp {
                    id: tx,
                    sender: gateway,
                    msg: ResponseView::Initial {
                        accepted_by: acc,
                        your_location: new_location,
                        your_peer_id: req_peer,
                    },
                },
            ) && (op is Some <==> acc.len() > 0) && (op matches Some(o) ==> o.state is Connecting
                && plain_op(o)),
        }
}

/// The gateway's handling of a joiner's first request.
pub fn on_initial_request(
    ring: &Ring,
    tx: Transaction,
    target_loc: PeerKeyLocation,
    req_peer: PeerKey,
    hops_to_live: usize,
    max_hops_to_live: usize,
    new_location: Location,
    draw: u64,
) -> (r: Result<Step, OpError>)
    requires
        ring.wf(),
    ensures
        target_loc.location is None ==> r == Err::<Step, OpError>(OpError::TxUpdateFailure(tx)),
        target_loc.location is Some ==> (r matches Ok(step) && step.event is None
            && initial_request_result(
            *ring,
            tx,
            target_loc,
            req_peer,
            hops_to_live,
            new_location,
            draw,
            step.outbound@,
            step.op,
        )),
{
    let my_loc = match target_loc.location {
        Some(l) => l,
        None => return Err(OpError::TxUpdateFailure(tx)),
    };
    let d = forward_decision(ring, target_loc, my_loc, new_location, req_peer, hops_to_live, draw);
    let mut op = JoinRingOp::new();
    let req = JoinRingMsg::Req {
        id: tx,
        msg: JoinRequest::Initial { target_loc, req_peer, hops_to_live, max_hops_to_live },
    };
    let _ = op.consume(&req);
    let joiner = PeerKeyLocation { peer: req_peer, location: Some(new_location) };
    let self_accepted = d.accepted_by.len() > 0;
    let ghost acc = d.accepted_by@;
    let mut outbound: Vec<Outbound> = Vec::new();
    match d.forward_to {
        Some(next) => {
            outbound.push(
                send(
                    next.peer,
                    tx,
                    JoinRingMsg::Req {
                        id: tx,
                        msg: JoinRequest::Proxy { joiner, hops_to_live: d.next_hops },
                    },
                ),
            );
            op.forward = Some(
                Forwarding {
                    reply_to: req_peer,
                    joiner: req_peer,
                    joiner_location: new_location,
                    me: target_loc,
                    from_gateway: true,
                    self_accepted,
                    acceptors: d.accepted_by,
                },
            );
            let step = Step { outbound, op: Some(op), event: None };
            assert(valid_target(*ring, req_peer, new_location, hops_to_live, draw, Some(next)));
            assert(step.outbound@ =~= seq![step.outbound@[0]]);
            Ok(step)
        },
        None => {
            outbound.push(
                send(
                    req_peer,
                    tx,
                    JoinRingMsg::Resp {
                        id: tx,
                        sender: target_loc,
                        msg: JoinResponse::Initial {
                            accepted_by: d.accepted_by,
                            your_location: new_location,
                            your_peer_id: req_peer,
                        },
                    },
                ),
            );
            let kept = if self_accepted {
                Some(op)
            } else {
                None
            };
            let step = Step { outbound, op: kept, event: None };
            assert(valid_target(*ring, req_peer, new_location, hops_to_live, draw, None));
            Ok(step)
        },
    }
}

/// What the forwarder `this_peer` does with a request passed on by `from`:
/// as at the gateway, with the joiner's location the one it was given,
/// except that an unforwarded request is answered with a `Resp::Proxy` to
/// `from`.
pub open spec fn proxy_request_result(
    ring: Ring,
    this_peer: PeerKey,
    from: PeerKey,
    tx: Transaction,
    joiner: PeerKeyLocation,
    hops_to_live: usize,
    draw: u64,
    out: Seq<Outbound>,
    op: Option<JoinRingOp>,
) -> bool {
    let my_loc = ring.own_location()->0;
    let jl = joiner.location->0;
    let me = PeerKeyLocation { peer: this_peer, location: Some(my_loc) };
    let acc = acceptors_of(ring, me, my_loc, jl);
    exists|t: Option<PeerKeyLocation>|
        #[trigger] valid_target(ring, joiner.peer, jl, hops_to_live, draw, t) && match t {
            Some(f) => out == seq![
                out_msg(
                    f.peer,
                    tx,
                    JoinRingMsg::Req {
                        id: tx,
                        msg: JoinRequest::Proxy {
                            joiner,
                            hops_to_live: (min_usize(hops_to_live, ring.max_hops_to_live()) - 1) as usize,
                        },
                    },
                ),
            ] && (op matches Some(o) && forwarding_op(o, acc, from, joiner.peer, jl, me, false)),
            None => out.len() == 1 && out[0].to == from && out[0].tx == tx && out[0].msg@
                == MessageView::JoinRing(
                JoinRingMsgView::Resp { id: tx, sender: me, msg: ResponseView::Proxy { accepted_by: acc } },
            ) && (op is Some <==> acc.len() > 0) && (op matches Some(o) ==> o.state
                == JRState::Initializing && plain_op(o)),
        }
}

/// A forwarder's handling of a passed-on request.
pub fn on_proxy_request(
    ring: &Ring,
    this_peer: PeerKey,
    from: PeerKey,
    tx: Transaction,
    joiner: PeerKeyLocation,
    hops_to_live: usize,
    draw: u64,
) -> (r: Result<Step, OpError>)
    requires
        ring.wf(),
    ensures
        (ring.own_location() is None || joiner.location is None) ==> r == Err::<Step, OpError>(
            OpError::LocationUnknown,
        ),
        ring.own_location() is Some && joiner.location is Some ==> (r matches Ok(step)
            && step.event is None && proxy_request_result(
            *ring,
            this_peer,
            from,
            tx,
            joiner,
            hops_to_live,
            draw,
            step.outbound@,
            step.op,
        )),
{
    let my_loc = match ring.own_location() {
        Some(l) => l,
        None => return Err(OpError::LocationUnknown),
    };
    let joiner_loc = match joiner.location {
        Some(l) => l,
        None => return Err(OpError::LocationUnknown),
    };
    let me = PeerKeyLocation { peer: this_peer, location: Some(my_loc) };
    let d = forward_decision(ring, me, my_loc, joiner_loc, joiner.peer, hops_to_live, draw);
    let self_accepted = d.accepted_by.len() > 0;
    let mut outbound: Vec<Outbound> = Vec::new();
    match d.forward_to {
        Some(next) => {
            outbound.push(
                send(
                    next.peer,
                    tx,
                    JoinRingMsg::Req {
                        id: tx,
                        msg: JoinRequest::Proxy { joiner, hops_to_live: d.next_hops },
                    },
                ),
            );
            let mut op = JoinRingOp::new();
            op.state = JRState::Connecting(
                ConnectionInfo {
                    gateway: me,
                    this_peer: joiner.peer,
                    max_hops_to_live: hops_to_live,
                },
            );
            op.forward = Some(
                Forwarding {
                    reply_to: from,
                    joiner: joiner.peer,
                    joiner_location: joiner_loc,
                    me,
                    from_gateway: false,
                    self_accepted,
                    acceptors: d.accepted_by,
                },
            );
            let step = Step { outbound, op: Some(op), event: None };
            assert(valid_target(*ring, joiner.peer, joiner_loc, hops_to_live, draw, Some(next)));
            assert(step.outbound@ =~= seq![step.outbound@[0]]);
            Ok(step)
        },
        None => {
            outbound.push(
                send(
                    from,
                    tx,
                    JoinRingMsg::Resp {
                        id: tx,
                        sender: me,
                        msg: JoinResponse::Proxy { accepted_by: d.accepted_by },
                    },
                ),
            );
            let kept = if self_accepted {
                Some(JoinRingOp::new())
            } else {
                None
            };
            let step = Step { outbound, op: kept, event: None };
            assert(valid_target(*ring, joiner.peer, joiner_loc, hops_to_live, draw, None));
            Ok(step)
        },
    }
}

/// What a forwarder does with the acceptors `accepted_by` reported back
/// from further on: the union with its own, without repeats, goes back to
/// `reply_to`, as a `Resp::Initial` to the joiner from the gateway and as a
/// `Resp::Proxy` from any other forwarder; the operation stays only if this
/// peer accepted, and forgets the forwarding.
pub open spec fn proxy_response_result(
    op: JoinRingOp,
    tx: Transaction,
    accepted_by: Seq<PeerKeyLocation>,
    out: Seq<Outbound>,
    kept: Option<JoinRingOp>,
) -> bool {
    let fw = op.forward->0;
    &&& out.len() == 1
    &&& out[0].to == fw.reply_to
    &&& out[0].tx == tx
    &&& carried_acceptors(out[0]).no_duplicates()
    &&& forall|p: PeerKeyLocation|
        #[trigger] carried_acceptors(out[0]).contains(p) <==> fw.acceptors@.contains(p)
            || accepted_by.contains(p)
    &&& if fw.from_gateway {
        out[0].msg@ == MessageView::JoinRing(
            JoinRingMsgView::Resp {
                id: tx,
                sender: fw.me,
                msg: ResponseView::Initial {
                    accepted_by: carried_acceptors(out[0]),
                    your_location: fw.joiner_location,
                    your_peer_id: fw.joiner,
                },
            },
        )
    } else {
        out[0].msg@ == MessageView::JoinRing(
            JoinRingMsgView::Resp {
                id: tx,
                sender: fw.me,
                msg: ResponseView::Proxy { accepted_by: carried_acceptors(out[0]) },
            },
        )
    }
    &&& (kept is Some <==> fw.self_accepted)
    &&& (kept matches Some(o) ==> o.state == op.state && o.forward is None && o.joining
        == op.joining && o.peer == op.peer)
}

/// A forwarder's handling of the acceptors reported back from further on.
pub fn on_proxy_response(op: JoinRingOp, tx: Transaction, accepted_by: &Vec<PeerKeyLocation>) -> (r:
    Result<Step, OpError>)
    requires
        op.state != JRState::Connected,
    ensures
        op.forward is None ==> r == Err::<Step, OpError>(OpError::IllegalStateTransition),
        op.forward is Some ==> (r matches Ok(step) && step.event is None && proxy_response_result(
            op,
            tx,
            accepted_by@,
            step.outbound@,
            step.op,
        )),
{
    let ghost op0 = op;
    let mut op = op;
    let fw = match op.forward {
        Some(f) => f,
        None => return Err(OpError::IllegalStateTransition),
    };
    op.forward = None;
    let mut acceptors: Vec<PeerKeyLocation> = Vec::new();
    merge_acceptors(&mut acceptors, fw.acceptors.as_slice());
    merge_acceptors(&mut acceptors, accepted_by.as_slice());
    let ghost acc = acceptors@;
    let reply = if fw.from_gateway {
        JoinRingMsg::Resp {
            id: tx,
            sender: fw.me,
            msg: JoinResponse::Initial {
                accepted_by: acceptors,
                your_location: fw.joiner_location,
                your_peer_id: fw.joiner,
            },
        }
    } else {
        JoinRingMsg::Resp { id: tx, sender: fw.me, msg: JoinResponse::Proxy { accepted_by: acceptors } }
    };
    let mut outbound: Vec<Outbound> = Vec::new();
    outbound.push(send(fw.reply_to, tx, reply));
    assert(carried_acceptors(outbound@[0]) == acc);
    let kept = if fw.self_accepted {
        Some(op)
    } else {
        None
    };
    Ok(Step { outbound, op: kept, event: None })
}

/// Later of `now + OC_TIMEOUT_MS` and the largest clock reading.
pub open spec fn oc_deadline(now: u64) -> u64 {
    if now as int + OC_TIMEOUT_MS as int <= u64::MAX as int {
        (now + OC_TIMEOUT_MS) as u64
    } else {
        u64::MAX
    }
}

/// When a request sent at `now` is next due, `OC_RETRY_MS` later.
pub open spec fn oc_retry_at(now: u64) -> u64 {
    if now as int + OC_RETRY_MS as int <= u64::MAX as int {
        (now + OC_RETRY_MS) as u64
    } else {
        u64::MAX
    }
}

/// What the joiner does with the gateway's answer: an open-connection
/// request to each acceptor, in order, naming the joiner at its new
/// location; each acceptor pending with the deadline `oc_deadline(now)`;
/// with no acceptor, the join fails at once.
pub open spec fn initial_response_result(
    info: ConnectionInfo,
    tx: Transaction,
    accepted_by: Seq<PeerKeyLocation>,
    your_location: Location,
    now: u64,
    out: Seq<Outbound>,
    op: Option<JoinRingOp>,
    event: Option<JoinEvent>,
) -> bool {
    let me = PeerKeyLocation { peer: info.this_peer, location: Some(your_location) };
    &&& out.len() == accepted_by.len()
    &&& forall|i: int|
        0 <= i < accepted_by.len() ==> #[trigger] out[i] == out_msg(
            accepted_by[i].peer,
            tx,
            JoinRingMsg::Resp {
                id: tx,
                sender: me,
                msg: JoinResponse::ReceivedOC { by_peer: accepted_by[i] },
            },
        )
    &&& accepted_by.len() == 0 ==> op is None && event == Some(
        JoinEvent::JoinFailed { reason: JoinFailure::NoAcceptor },
    )
    &&& accepted_by.len() > 0 ==> event is None && (op matches Some(o) && joining_op(
        o,
        info,
        me,
        accepted_by,
        now,
    ))
}

/// The joiner's handling of the gateway's answer: take the assigned
/// location and start a handshake with every acceptor.
pub fn on_initial_response(
    ring: &mut Ring,
    op: JoinRingOp,
    tx: Transaction,
    accepted_by: &Vec<PeerKeyLocation>,
    your_location: Location,
    now: u64,
) -> (r: Result<Step, OpError>)
    requires
        old(ring).wf(),
    ensures
        final(ring).wf(),
        final(ring).conns() == old(ring).conns(),
        final(ring).max_connections() == old(ring).max_connections(),
        final(ring).max_hops_to_live() == old(ring).max_hops_to_live(),
        final(ring).rnd_if_htl_above() == old(ring).rnd_if_htl_above(),
        !(op.state is Connecting) ==> r == Err::<Step, OpError>(OpError::IllegalStateTransition)
            && *final(ring) == *old(ring),
        op.state is Connecting ==> final(ring).own_location() == Some(your_location) && (r matches Ok(
            step,
        ) && initial_response_result(
            op.state->Connecting_0,
            tx,
            accepted_by@,
            your_location,
            now,
            step.outbound@,
            step.op,
            step.event,
        )),
{
    let info = match op.state {
        JRState::Connecting(info) => info,
        _ => return Err(OpError::IllegalStateTransition),
    };
    ring.set_own_location(Some(your_location));
    let me = PeerKeyLocation { peer: info.this_peer, location: Some(your_location) };
    let deadline = now.saturating_add(OC_TIMEOUT_MS);
    let next_send = now.saturating_add(OC_RETRY_MS);
    let mut pending: Vec<PendingOC> = Vec::new();
    let mut outbound: Vec<Outbound> = Vec::new();
    let mut i: usize = 0;
    while i < accepted_by.len()
        invariant
            i <= accepted_by@.len(),
            outbound@.len() == i,
            pending@.len() == i,
            deadline == oc_deadline(now),
            next_send == oc_retry_at(now),
            me == (PeerKeyLocation { peer: info.this_peer, location: Some(your_location) }),
            forall|k: int|
                0 <= k < i ==> #[trigger] outbound@[k] == out_msg(
                    accepted_by@[k].peer,
                    tx,
                    JoinRingMsg::Resp {
                        id: tx,
                        sender: me,
                        msg: JoinResponse::ReceivedOC { by_peer: accepted_by@[k] },
                    },
                ),
            forall|k: int|
                0 <= k < i ==> #[trigger] pending@[k] == (PendingOC {
                    peer: accepted_by@[k],
                    deadline: oc_deadline(now),
                    next_send: oc_retry_at(now),
                }),
        decreases accepted_by@.len() - i,
    {
        let a = accepted_by[i];
        pending.push(PendingOC { peer: a, deadline, next_send });
        outbound.push(
            send(
                a.peer,
                tx,
                JoinRingMsg::Resp { id: tx, sender: me, msg: JoinResponse::ReceivedOC { by_peer: a } },
            ),
        );
        i = i + 1;
    }
    if accepted_by.len() == 0 {
        return Ok(
            Step {
                outbound,
                op: None,
                event: Some(JoinEvent::JoinFailed { reason: JoinFailure::NoAcceptor }),
            },
        );
    }
    let mut op = op;
    op.state = JRState::OCReceived;
    op.forward = None;
    op.peer = None;
    op.joining = Some(Joining { info, me, pending, connected: Vec::new() });
    Ok(Step { outbound, op: Some(op), event: None })
}

/// What an acceptor does with the joiner's open-connection request: answer
/// `Connected` to the sender and wait in `OCReceived` for the final
/// `Connected`; a repeated request gets the same answer and changes nothing.
pub open spec fn received_oc_result(
    op: JoinRingOp,
    tx: Transaction,
    sender: PeerKeyLocation,
    out: Seq<Outbound>,
    kept: Option<JoinRingOp>,
) -> bool {
    &&& out == seq![out_msg(sender.peer, tx, JoinRingMsg::Connected)]
    &&& kept matches Some(o) && o.state == JRState::OCReceived
    &&& op.state == JRState::OCReceived ==> kept == Some(op)
    &&& op.state != JRState::OCReceived ==> (kept matches Some(o) && o.peer == Some(sender)
        && o.forward == op.forward && o.joining == op.joining)
}

/// An acceptor's handling of the joiner's open-connection request.
pub fn on_received_oc(op: JoinRingOp, tx: Transaction, sender: PeerKeyLocation) -> (r: Result<
    Step,
    OpError,
>)
    requires
        op.state != JRState::Connected,
    ensures
        r matches Ok(step) && step.event is None && received_oc_result(
            op,
            tx,
            sender,
            step.outbound@,
            step.op,
        ),
{
    let mut op = op;
    let mut outbound: Vec<Outbound> = Vec::new();
    outbound.push(send(sender.peer, tx, JoinRingMsg::Connected));
    if let JRState::OCReceived = op.state {
        return Ok(Step { outbound, op: Some(op), event: None });
    }
    let input = JoinRingMsg::Resp { id: tx, sender, msg: JoinResponse::ReceivedOC { by_peer: sender } };
    match op.consume(&input) {
        Ok(_) => {
            op.peer = Some(sender);
            Ok(Step { outbound, op: Some(op), event: None })
        },
        Err(_) => Err(OpError::IllegalStateTransition),
    }
}

/// Position of `from` among the pending handshakes.
fn find_pending(pending: &Vec<PendingOC>, from: PeerKey) -> (r: Option<usize>)
    ensures
        match r {
            Some(i) => i < pending@.len() && pending@[i as int].peer.peer == from,
            None => forall|i: int| 0 <= i < pending@.len() ==> (#[trigger] pending@[i]).peer.peer != from,
        },
{
    let mut i: usize = 0;
    while i < pending.len()
        invariant
            i <= pending@.len(),
            forall|k: int| 0 <= k < i ==> (#[trigger] pending@[k]).peer.peer != from,
        decreases pending@.len() - i,
    {
        if pending[i].peer.peer == from {
            return Some(i);
        }
        i = i + 1;
    }
    None
}

/// `new` is `old` with `p` added where the table takes it (see
/// `Ring::would_add`), and nothing else added.
pub open spec fn ring_took(old: Ring, new: Ring, p: PeerKeyLocation) -> bool {
    &&& old.would_add(p) ==> new.conns().contains(p)
    &&& !old.would_add(p) ==> new.conns() == old.conns()
}

/// What `Connected` from `from` does. At the joiner, for a pending
/// acceptor: the acceptor goes into the table, `Connected` goes back once,
/// and the join ends when no handshake is left; from anyone else it is a
/// protocol error. At an acceptor waiting for `from`: the joiner goes into
/// the table and the operation ends, with no reply; otherwise an error.
pub open spec fn connected_result(
    op: JoinRingOp,
    from: PeerKey,
    tx: Transaction,
    old_ring: Ring,
    new_ring: Ring,
    ok: bool,
    out: Seq<Outbound>,
    kept: Option<JoinRingOp>,
) -> bool {
    match op.joining {
        Some(j) => if exists|i: int|
            0 <= i < j.pending@.len() && (#[trigger] j.pending@[i]).peer.peer == from {
            &&& ok
            &&& out == seq![out_msg(from, tx, JoinRingMsg::Connected)]
            &&& exists|i: int|
                0 <= i < j.pending@.len() && (#[trigger] j.pending@[i]).peer.peer == from
                    && ring_took(old_ring, new_ring, j.pending@[i].peer)
        } else {
            !ok && new_ring == old_ring
        },
        None => if op.peer matches Some(p) && p.peer == from && (op.state == JRState::OCReceived
            || op.state is Connecting) {
            ok && out.len() == 0 && kept is None && ring_took(old_ring, new_ring, op.peer->0)
        } else {
            !ok && new_ring == old_ring
        },
    }
}

/// The joiner's or the acceptor's handling of `Connected` from `from`.
pub fn on_connected(ring: &mut Ring, op: JoinRingOp, from: PeerKey, tx: Transaction) -> (r: Result<
    Step,
    OpError,
>)
    requires
        old(ring).wf(),
        op.state != JRState::Connected,
    ensures
        final(ring).wf(),
        final(ring).own_location() == old(ring).own_location(),
        final(ring).max_connections() == old(ring).max_connections(),
        final(ring).max_hops_to_live() == old(ring).max_hops_to_live(),
        final(ring).rnd_if_htl_above() == old(ring).rnd_if_htl_above(),
        r is Err ==> r == Err::<Step, OpError>(OpError::IllegalStateTransition),
        r matches Ok(step) ==> (step.op matches Some(o) ==> o.state != JRState::Connected),
        forall|x: PeerKeyLocation|
            #[trigger] final(ring).conns().contains(x) ==> old(ring).conns().contains(x) || x.peer
                == from,
        connected_result(
            op,
            from,
            tx,
            *old(ring),
            *final(ring),
            r is Ok,
            match r {
                Ok(step) => step.outbound@,
                Err(_) => Seq::empty(),
            },
            match r {
                Ok(step) => step.op,
                Err(_) => None,
            },
        ),
{
    let mut op = op;
    match op.joining {
        Some(j) => {
            let mut joining = j;
            let mut outbound: Vec<Outbound> = Vec::new();
            let ghost pend = joining.pending@;
            match find_pending(&joining.pending, from) {
                Some(i) => {
                    let p = joining.pending.remove(i);
                    assert(pend[i as int] == p);
                    if ring.add_connection(p.peer) {
                        joining.connected.push(p.peer);
                    }
                    outbound.push(send(from, tx, JoinRingMsg::Connected));
                    assert(outbound@ =~= seq![out_msg(from, tx, JoinRingMsg::Connected)]);
                },
                None => {
                    return Err(OpError::IllegalStateTransition);
                },
            }
            if joining.pending.len() == 0 {
                let event = if joining.connected.len() > 0 {
                    JoinEvent::JoinSuccess { gateway: joining.info.gateway.peer, new_node: joining.me.peer }
                } else {
                    JoinEvent::JoinFailed { reason: JoinFailure::Timeout }
                };
                Ok(Step { outbound, op: None, event: Some(event) })
            } else {
                op.joining = Some(joining);
                Ok(Step { outbound, op: Some(op), event: None })
            }
        },
        None => {
            let joiner = match op.peer {
                Some(p) => p,
                None => return Err(OpError::IllegalStateTransition),
            };
            if joiner.peer != from {
                return Err(OpError::IllegalStateTransition);
            }
            match op.consume(&JoinRingMsg::Connected) {
                Ok(_) => {},
                Err(_) => return Err(OpError::IllegalStateTransition),
            }
            let _ = ring.add_connection(joiner);
            Ok(Step { outbound: Vec::new(), op: None, event: None })
        },
    }
}

fn cancel(from: PeerKey, tx: Transaction, e: OpError) -> (r: DispatchResult)
    ensures
        r.outbound@ == seq![Outbound { to: from, tx, msg: Message::Canceled(tx) }],
        r.error == Some(e),
        r.event is None,
{
    let mut outbound: Vec<Outbound> = Vec::new();
    outbound.push(Outbound { to: from, tx, msg: Message::Canceled(tx) });
    DispatchResult { outbound, error: Some(e), event: None }
}

/// Processes `msg`, received from `from` in a frame of transaction `tx`.
/// The operation of `tx` is taken out of `storage` (or begun, for a
/// message that starts one), advanced, and put back unless it is over. A
/// message that does not fit the operation ends it, and the sender is told
/// with `Canceled`. `new_location` is the place a gateway gives a joiner,
/// `draw` the random number for picking a neighbour, `now` the clock.
pub fn join_ring_op(
    storage: &mut OpStorage,
    ring: &mut Ring,
    this_peer: PeerKey,
    from: PeerKey,
    tx: Transaction,
    msg: JoinRingMsg,
    now: u64,
    new_location: Location,
    draw: u64,
) -> (r: DispatchResult)
    requires
        old(storage).wf(),
        old(ring).wf(),
    ensures
        final(storage).wf(),
        final(ring).wf(),
        final(ring).max_connections() == old(ring).max_connections(),
        final(ring).max_hops_to_live() == old(ring).max_hops_to_live(),
        final(ring).rnd_if_htl_above() == old(ring).rnd_if_htl_above(),
        forall|t: Transaction| t != tx ==> (final(storage).has(t) <==> old(storage).has(t)),
        r.error is Some ==> !final(storage).has(tx) && r.event is None && r.outbound@ == seq![
            Outbound { to: from, tx, msg: Message::Canceled(tx) },
        ],
        forall|x: PeerKeyLocation|
            #[trigger] final(ring).conns().contains(x) ==> old(ring).conns().contains(x) || (
            msg is Connected && x.peer == from),
        !(msg is Connected) ==> final(ring).conns() == old(ring).conns(),
        !(msg is Resp && msg->Resp_msg is Initial) ==> final(ring).own_location() == old(
            ring,
        ).own_location(),
        match msg {
            JoinRingMsg::Req { id, msg: JoinRequest::Initial { target_loc, req_peer, hops_to_live, .. } } => (id
                == tx && target_loc.location is Some && !old(storage).has(tx)) ==> r.error is None
                && r.event is None && initial_request_result(
                *old(ring),
                tx,
                target_loc,
                req_peer,
                hops_to_live,
                new_location,
                draw,
                r.outbound@,
                final(storage).get(tx),
            ),
            JoinRingMsg::Req { id, msg: JoinRequest::Proxy { joiner, hops_to_live } } => id == tx ==> (
            if old(storage).has(tx) {
                r.error is None && final(storage).get(tx) == old(storage).get(tx) && r.outbound@.len()
                    == 1 && r.outbound@[0].to == from && r.outbound@[0].msg@ == MessageView::JoinRing(
                    JoinRingMsgView::Resp {
                        id: tx,
                        sender: PeerKeyLocation { peer: this_peer, location: old(ring).own_location() },
                        msg: ResponseView::Proxy { accepted_by: Seq::empty() },
                    },
                )
            } else {
                old(ring).own_location() is Some && joiner.location is Some ==> r.error is None
                    && proxy_request_result(
                    *old(ring),
                    this_peer,
                    from,
                    tx,
                    joiner,
                    hops_to_live,
                    draw,
                    r.outbound@,
                    final(storage).get(tx),
                )
            }),
            JoinRingMsg::Resp { id, msg: JoinResponse::Proxy { accepted_by }, .. } => (id == tx && old(
                storage,
            ).get(tx) is Some && old(storage).get(tx)->0.forward is Some) ==> r.error is None
                && proxy_response_result(
                old(storage).get(tx)->0,
                tx,
                accepted_by@,
                r.outbound@,
                final(storage).get(tx),
            ),
            JoinRingMsg::Resp { id, msg: JoinResponse::Initial { accepted_by, your_location, .. }, .. } => (
            id == tx && old(storage).get(tx) is Some && old(storage).get(tx)->0.state is Connecting)
                ==> r.error is None && final(ring).own_location() == Some(your_location)
                && initial_response_result(
                old(storage).get(tx)->0.state->Connecting_0,
                tx,
                accepted_by@,
                your_location,
                now,
                r.outbound@,
                final(storage).get(tx),
                r.event,
            ),
            JoinRingMsg::Resp { id, sender, msg: JoinResponse::ReceivedOC { .. } } => id == tx ==> (
            r.error is None && received_oc_result(
                match old(storage).get(tx) {
                    Some(o) => o,
                    None => JoinRingOp {
                        state: JRState::Initializing,
                        forward: None,
                        joining: None,
                        peer: None,
                    },
                },
                tx,
                sender,
                r.outbound@,
                final(storage).get(tx),
            )),
            JoinRingMsg::Connected => match old(storage).get(tx) {
                Some(o) => connected_result(
                    o,
                    from,
                    tx,
                    *old(ring),
                    *final(ring),
                    r.error is None,
                    r.outbound@,
                    final(storage).get(tx),
                ),
                None => r.error is Some,
            },
        },
{
    match msg.id() {
        Some(id) => {
            if id != tx {
                let _ = storage.pop(tx);
                return cancel(from, tx, OpError::TxUpdateFailure(tx));
            }
        },
        None => {},
    }
    let existing = storage.pop(tx);
    let step = match msg {
        JoinRingMsg::Req {
            msg: JoinRequest::Initial { target_loc, req_peer, hops_to_live, max_hops_to_live },
            ..
        } => {
            if existing.is_some() {
                Err(OpError::IllegalStateTransition)
            } else {
                on_initial_request(
                    ring,
                    tx,
                    target_loc,
                    req_peer,
                    hops_to_live,
                    max_hops_to_live,
                    new_location,
                    draw,
                )
            }
        },
        JoinRingMsg::Req { msg: JoinRequest::Proxy { joiner, hops_to_live }, .. } => match existing {
            Some(op) => {
                // The request came round to a peer already in the chain: it
                // adds no acceptor and keeps its own part of the operation.
                let mut outbound: Vec<Outbound> = Vec::new();
                let me = PeerKeyLocation { peer: this_peer, location: ring.own_location() };
                outbound.push(
                    send(
                        from,
                        tx,
                        JoinRingMsg::Resp {
                            id: tx,
                            sender: me,
                            msg: JoinResponse::Proxy { accepted_by: Vec::new() },
                        },
                    ),
                );
                Ok(Step { outbound, op: Some(op), event: None })
            },
            None => on_proxy_request(ring, this_peer, from, tx, joiner, hops_to_live, draw),
        },
        JoinRingMsg::Resp { msg: JoinResponse::Proxy { accepted_by }, .. } => match existing {
            Some(op) => on_proxy_response(op, tx, &accepted_by),
            None => Err(OpError::IllegalStateTransition),
        },
        JoinRingMsg::Resp { msg: JoinResponse::Initial { accepted_by, your_location, .. }, .. } => {
            match existing {
                Some(op) => on_initial_response(ring, op, tx, &accepted_by, your_location, now),
                None => Err(OpError::IllegalStateTransition),
            }
        },
        JoinRingMsg::Resp { sender, msg: JoinResponse::ReceivedOC { .. }, .. } => {
            let op = match existing {
                Some(op) => op,
                None => JoinRingOp::new(),
            };
            on_received_oc(op, tx, sender)
        },
        JoinRingMsg::Connected => match existing {
            Some(op) => on_connected(ring, op, from, tx),
            None => Err(OpError::IllegalStateTransition),
        },
    };
    match step {
        Ok(s) => {
            match s.op {
                Some(op) => {
                    let _ = storage.push(tx, op);
                },
                None => {},
            }
            DispatchResult { outbound: s.outbound, error: None, event: s.event }
        },
        Err(e) => cancel(from, tx, e),
    }
}

/// Every handshake the joiner still waits on has a deadline after `now`.
pub open spec fn pending_live(op: JoinRingOp, now: u64) -> bool {
    op.joining matches Some(j) ==> forall|k: int|
        0 <= k < j.pending@.len() ==> (#[trigger] j.pending@[k]).deadline > now
}

/// Some handshake of the join is still within its deadline.
pub open spec fn has_live(j: Joining, now: u64) -> bool {
    exists|k: int| 0 <= k < j.pending@.len() && (#[trigger] j.pending@[k]).deadline > now
}

/// The handshake is within its deadline and its request is due again.
pub open spec fn due(p: PendingOC, now: u64) -> bool {
    p.deadline > now && p.next_send <= now
}

/// The repeated open-connection request of a pending handshake.
pub open spec fn resend_msg(tx: Transaction, j: Joining, p: PendingOC) -> Outbound {
    out_msg(
        p.peer.peer,
        tx,
        JoinRingMsg::Resp { id: tx, sender: j.me, msg: JoinResponse::ReceivedOC { by_peer: p.peer } },
    )
}

/// The signal of a join with no handshake left: success if some acceptor
/// was connected, else a time-out.
pub open spec fn end_event(j: Joining) -> JoinEvent {
    if j.connected@.len() > 0 {
        JoinEvent::JoinSuccess { gateway: j.info.gateway.peer, new_node: j.me.peer }
    } else {
        JoinEvent::JoinFailed { reason: JoinFailure::Timeout }
    }
}

/// Drops the handshakes whose deadline has passed, repeats the requests
/// that are due (and sets them due again `OC_RETRY_MS` later), and ends a
/// join left with no handshake under way.
fn tick_op(op: JoinRingOp, tx: Transaction, now: u64, outbound: &mut Vec<Outbound>) -> (r: (
    Option<JoinRingOp>,
    Option<JoinEvent>,
))
    requires
        op.state != JRState::Connected,
    ensures
        final(outbound)@.len() >= old(outbound)@.len(),
        final(outbound)@.subrange(0, old(outbound)@.len() as int) == old(outbound)@,
        r.0 matches Some(o) ==> o.state == op.state && pending_live(o, now),
        op.joining is None ==> r.0 == Some(op) && r.1 is None,
        op.joining matches Some(j) ==> (r.0 is Some <==> has_live(j, now)) && (!has_live(j, now)
            ==> r.1 == Some(end_event(j))) && forall|k: int|
            0 <= k < j.pending@.len() && due(#[trigger] j.pending@[k], now) ==> final(outbound)@.contains(
                resend_msg(tx, j, j.pending@[k]),
            ),
{
    let mut op = op;
    let j = match op.joining {
        Some(j) => j,
        None => return (Some(op), None),
    };
    let ghost start = outbound@;
    let mut kept: Vec<PendingOC> = Vec::new();
    let mut i: usize = 0;
    while i < j.pending.len()
        invariant
            i <= j.pending@.len(),
            forall|k: int| 0 <= k < kept@.len() ==> (#[trigger] kept@[k]).deadline > now,
            kept@.len() > 0 <==> exists|k: int| 0 <= k < i && (#[trigger] j.pending@[k]).deadline > now,
            outbound@.len() >= start.len(),
            outbound@.subrange(0, start.len() as int) == start,
            forall|k: int|
                0 <= k < i && due(#[trigger] j.pending@[k], now) ==> outbound@.contains(
                    resend_msg(tx, j, j.pending@[k]),
                ),
        decreases j.pending@.len() - i,
    {
        let p = j.pending[i];
        let ghost before = outbound@;
        if p.deadline > now {
            if p.next_send <= now {
                kept.push(PendingOC { peer: p.peer, deadline: p.deadline, next_send: now.saturating_add(OC_RETRY_MS) });
                outbound.push(
                    send(
                        p.peer.peer,
                        tx,
                        JoinRingMsg::Resp {
                            id: tx,
                            sender: j.me,
                            msg: JoinResponse::ReceivedOC { by_peer: p.peer },
                        },
                    ),
                );
                assert(outbound@[before.len() as int] == resend_msg(tx, j, p));
            } else {
                kept.push(p);
            }
            assert(kept@[kept@.len() - 1].deadline > now);
        }
        proof {
            assert(outbound@.subrange(0, start.len() as int) =~= before.subrange(0, start.len() as int));
            assert forall|k: int|
                0 <= k < i + 1 && due(#[trigger] j.pending@[k], now) implies outbound@.contains(
                    resend_msg(tx, j, j.pending@[k]),
                ) by {
                if k < i {
                    let a = choose|a: int| 0 <= a < before.len() && before[a] == resend_msg(tx, j, j.pending@[k]);
                    assert(outbound@[a] == before[a]);
                } else {
                    assert(outbound@[before.len() as int] == resend_msg(tx, j, j.pending@[k]));
                }
            }
            if p.deadline > now {
                assert(j.pending@[i as int].deadline > now);
            }
        }
        i = i + 1;
    }
    if kept.len() == 0 {
        let event = if j.connected.len() > 0 {
            JoinEvent::JoinSuccess { gateway: j.info.gateway.peer, new_node: j.me.peer }
        } else {
            JoinEvent::JoinFailed { reason: JoinFailure::Timeout }
        };
        (None, Some(event))
    } else {
        op.joining = Some(Joining { info: j.info, me: j.me, pending: kept, connected: j.connected });
        (Some(op), None)
    }
}

/// What the clock step owes the operation at `k` of the table before it:
/// one without a join in progress stays as it was; a join stays exactly
/// while some handshake is within its deadline, and otherwise ends with
/// its signal; each due request is repeated.
pub open spec fn ticked(
    start: Seq<(Transaction, JoinRingOp)>,
    k: int,
    kept: Seq<(Transaction, JoinRingOp)>,
    out: Seq<Outbound>,
    events: Seq<JoinEvent>,
    now: u64,
) -> bool {
    let (t, o) = start[k];
    match o.joining {
        None => kept.contains((t, o)),
        Some(j) => (crate::operations::ops_has(kept, t) <==> has_live(j, now)) && (!has_live(j, now)
            ==> events.contains(end_event(j))) && forall|m: int|
            0 <= m < j.pending@.len() && due(#[trigger] j.pending@[m], now) ==> out.contains(
                resend_msg(t, j, j.pending@[m]),
            ),
    }
}

/// Clock step: gives up the handshakes past their deadline (the acceptor
/// is then never added), repeats the requests that are due, and removes
/// the joins that have nothing left to wait for, with their signal.
pub fn tick(storage: &mut OpStorage, now: u64) -> (r: (Vec<Outbound>, Vec<JoinEvent>))
    requires
        old(storage).wf(),
    ensures
        final(storage).wf(),
        forall|t: Transaction| final(storage).has(t) ==> old(storage).has(t),
        forall|i: int|
            0 <= i < final(storage).entries().len() ==> pending_live(
                #[trigger] final(storage).entries()[i].1,
                now,
            ),
        forall|k: int|
            0 <= k < old(storage).entries().len() ==> #[trigger] ticked(
                old(storage).entries(),
                k,
                final(storage).entries(),
                r.0@,
                r.1@,
                now,
            ),
{
    let mut outbound: Vec<Outbound> = Vec::new();
    let mut events: Vec<JoinEvent> = Vec::new();
    let mut kept: Vec<(Transaction, JoinRingOp)> = Vec::new();
    let mut ops = storage.take_all();
    let ghost start = ops@;
    while ops.len() > 0
        invariant
            crate::operations::ops_wf(ops@),
            crate::operations::ops_wf(kept@),
            crate::operations::ops_wf(start),
            ops@ == start.subrange(0, ops@.len() as int),
            ops@.len() <= start.len(),
            forall|a: int, b: int|
                0 <= a < kept@.len() && 0 <= b < ops@.len() ==> (#[trigger] kept@[a]).0
                    != (#[trigger] ops@[b]).0,
            forall|a: int|
                0 <= a < kept@.len() ==> crate::operations::ops_has(start, (#[trigger] kept@[a]).0),
            forall|a: int| 0 <= a < kept@.len() ==> pending_live((#[trigger] kept@[a]).1, now),
            forall|k: int|
                ops@.len() <= k < start.len() ==> #[trigger] ticked(
                    start,
                    k,
                    kept@,
                    outbound@,
                    events@,
                    now,
                ),
        decreases ops@.len(),
    {
        let ghost before = ops@;
        let ghost kb = kept@;
        let ghost ob = outbound@;
        let ghost eb = events@;
        let (t, op) = ops.pop().unwrap();
        let ghost cur = before.len() - 1;
        assert(before[cur] == (t, op));
        assert(start[cur] == (t, op));
        assert(ops@ =~= before.subrange(0, cur));
        assert(ops@ =~= start.subrange(0, ops@.len() as int));
        assert(op.state != JRState::Connected);
        let (next, event) = tick_op(op, t, now, &mut outbound);
        match event {
            Some(e) => events.push(e),
            None => {},
        }
        match next {
            Some(o) => {
                kept.push((t, o));
                assert forall|a: int, b: int|
                    0 <= a < kept@.len() && 0 <= b < kept@.len() && a != b implies (#[trigger] kept@[a]).0
                        != (#[trigger] kept@[b]).0 by {
                    if a < kb.len() && b < kb.len() {
                        assert(kb[a] == kept@[a] && kb[b] == kept@[b]);
                    } else if a < kb.len() {
                        assert(kb[a] == kept@[a]);
                    } else {
                        assert(kb[b] == kept@[b]);
                    }
                }
                assert forall|a: int, b: int|
                    0 <= a < kept@.len() && 0 <= b < ops@.len() implies (#[trigger] kept@[a]).0
                        != (#[trigger] ops@[b]).0 by {
                    assert(ops@[b] == before[b]);
                    if a < kb.len() {
                        assert(kb[a] == kept@[a]);
                    } else {
                        assert(before[b].0 != before[cur].0);
                    }
                }
                assert forall|a: int|
                    0 <= a < kept@.len() implies crate::operations::ops_has(start, (#[trigger] kept@[a]).0) by {
                    if a < kb.len() {
                        assert(kb[a] == kept@[a]);
                    } else {
                        assert(start[cur].0 == t);
                    }
                }
                assert forall|a: int| 0 <= a < kept@.len() implies pending_live((#[trigger] kept@[a]).1, now) by {
                    if a < kb.len() {
                        assert(kb[a] == kept@[a]);
                    }
                }
            },
            None => {
                assert forall|a: int, b: int|
                    0 <= a < kept@.len() && 0 <= b < ops@.len() implies (#[trigger] kept@[a]).0
                        != (#[trigger] ops@[b]).0 by {
                    assert(ops@[b] == before[b]);
                }
            },
        }
        proof {
            lemma_ticked_step(start, cur, kb, kept@, ob, outbound@, eb, events@, now, t, op, next, event);
        }
    }
    *storage = OpStorage::from_entries(kept);
    (outbound, events)
}

proof fn lemma_contains_grow<A>(s: Seq<A>, u: Seq<A>, x: A)
    requires
        s.contains(x),
        u.len() >= s.len(),
        u.subrange(0, s.len() as int) == s,
    ensures
        u.contains(x),
{
    let a = choose|a: int| 0 <= a < s.len() && s[a] == x;
    assert(u.subrange(0, s.len() as int)[a] == u[a]);
}

proof fn lemma_has_grow(s: Seq<(Transaction, JoinRingOp)>, u: Seq<(Transaction, JoinRingOp)>, t: Transaction)
    requires
        crate::operations::ops_has(s, t),
        u.len() >= s.len(),
        u.subrange(0, s.len() as int) == s,
    ensures
        crate::operations::ops_has(u, t),
{
    let a = choose|a: int| 0 <= a < s.len() && (#[trigger] s[a]).0 == t;
    assert(u.subrange(0, s.len() as int)[a] == u[a]);
}

/// One step of the clock loop keeps what earlier steps owed, and owes the
/// new entry its own part.
#[verifier::rlimit(40)]
proof fn lemma_ticked_step(
    start: Seq<(Transaction, JoinRingOp)>,
    cur: int,
    kb: Seq<(Transaction, JoinRingOp)>,
    ka: Seq<(Transaction, JoinRingOp)>,
    ob: Seq<Outbound>,
    oa: Seq<Outbound>,
    eb: Seq<JoinEvent>,
    ea: Seq<JoinEvent>,
    now: u64,
    t: Transaction,
    op: JoinRingOp,
    next: Option<JoinRingOp>,
    event: Option<JoinEvent>,
)
    requires
        0 <= cur < start.len(),
        start[cur] == (t, op),
        crate::operations::ops_wf(start),
        forall|a: int| 0 <= a < kb.len() ==> (#[trigger] kb[a]).0 != t,
        forall|a: int| 0 <= a < kb.len() ==> crate::operations::ops_has(start, (#[trigger] kb[a]).0),
        forall|k: int| cur < k < start.len() ==> #[trigger] ticked(start, k, kb, ob, eb, now),
        oa.len() >= ob.len(),
        oa.subrange(0, ob.len() as int) == ob,
        next matches Some(o) ==> ka == kb.push((t, o)),
        next is None ==> ka == kb,
        event matches Some(e) ==> ea == eb.push(e),
        event is None ==> ea == eb,
        next matches Some(o) ==> o.state == op.state,
        op.joining is None ==> next == Some(op) && event is None,
        op.joining matches Some(j) ==> (next is Some <==> has_live(j, now)) && (!has_live(j, now)
            ==> event == Some(end_event(j))) && forall|k: int|
            0 <= k < j.pending@.len() && due(#[trigger] j.pending@[k], now) ==> oa.contains(
                resend_msg(t, j, j.pending@[k]),
            ),
    ensures
        forall|k: int| cur <= k < start.len() ==> #[trigger] ticked(start, k, ka, oa, ea, now),
{
    assert(ka.len() >= kb.len() && ka.subrange(0, kb.len() as int) =~= kb);
    assert(ea.len() >= eb.len() && ea.subrange(0, eb.len() as int) =~= eb);
    assert forall|k: int| cur <= k < start.len() implies #[trigger] ticked(start, k, ka, oa, ea, now) by {
        let (tk, ok) = start[k];
        if k == cur {
            match op.joining {
                None => {
                    assert(ka[kb.len() as int] == (t, op));
                },
                Some(j) => {
                    if has_live(j, now) {
                        assert(ka[kb.len() as int].0 == t);
                    } else {
                        if crate::operations::ops_has(ka, t) {
                            let a = choose|a: int| 0 <= a < ka.len() && (#[trigger] ka[a]).0 == t;
                            assert(kb[a].0 == t);
                        }
                        assert(ea[eb.len() as int] == end_event(j));
                    }
                },
            }
        } else {
            assert(ticked(start, k, kb, ob, eb, now));
            assert(tk != t) by {
                assert(start[k].0 != start[cur].0);
            }
            match ok.joining {
                None => {
                    lemma_contains_grow(kb, ka, (tk, ok));
                },
                Some(j) => {
                    if crate::operations::ops_has(kb, tk) {
                        lemma_has_grow(kb, ka, tk);
                    }
                    if crate::operations::ops_has(ka, tk) {
                        let a = choose|a: int| 0 <= a < ka.len() && (#[trigger] ka[a]).0 == tk;
                        if a >= kb.len() {
                            assert(ka[a].0 == t);
                        } else {
                            assert(kb[a] == ka[a]);
                        }
                    }
                    if !has_live(j, now) {
                        lemma_contains_grow(eb, ea, end_event(j));
                    }
                    assert forall|m: int|
                        0 <= m < j.pending@.len() && due(#[trigger] j.pending@[m], now) implies oa.contains(
                            resend_msg(tk, j, j.pending@[m]),
                        ) by {
                        lemma_contains_grow(ob, oa, resend_msg(tk, j, j.pending@[m]));
                    }
                },
            }
        }
    }
}


/// Whether a peer runs its own join at startup: gateways never do, other
/// peers when configured to connect.
pub fn should_join(is_gateway: bool, should_connect: bool) -> (r: bool)
    ensures
        r == (!is_gateway && should_connect),
{
    !is_gateway && should_connect
}

/// Starts this peer's own join: the operation made by
/// `JoinRingOp::initial_request` is stored under `tx`, and the request to
/// the gateway comes back for sending (the caller opens the connection to
/// the gateway first).
pub fn initial_join_request(storage: &mut OpStorage, join_op: JoinRingOp, tx: Transaction) -> (r:
    Result<Outbound, OpError>)
    requires
        old(storage).wf(),
    ensures
        final(storage).wf(),
        match join_op.state {
            JRState::Connecting(info) => match info.gateway.location {
                Some(_) => r == Ok::<Outbound, OpError>(
                    Outbound {
                        to: info.gateway.peer,
                        tx,
                        msg: Message::JoinRing(
                            JoinRingMsg::Req {
                                id: tx,
                                msg: JoinRequest::Initial {
                                    target_loc: info.gateway,
                                    req_peer: info.this_peer,
                                    hops_to_live: info.max_hops_to_live,
                                    max_hops_to_live: info.max_hops_to_live,
                                },
                            },
                        ),
                    },
                ) && final(storage).get(tx) == Some(join_op) && forall|t: Transaction|
                    t != tx ==> (final(storage).has(t) <==> old(storage).has(t)),
                None => r == Err::<Outbound, OpError>(OpError::LocationUnknown) && *final(storage)
                    == *old(storage),
            },
            _ => r == Err::<Outbound, OpError>(OpError::IllegalStateTransition) && *final(storage)
                == *old(storage),
        },
{
    let ConnectionInfo { gateway, this_peer, max_hops_to_live } = join_op.state.try_unwrap_connecting()?;
    if gateway.location.is_none() {
        return Err(OpError::LocationUnknown);
    }
    let join_req = JoinRingMsg::Req {
        id: tx,
        msg: JoinRequest::Initial {
            target_loc: gateway,
            req_peer: this_peer,
            hops_to_live: max_hops_to_live,
            max_hops_to_live,
        },
    };
    let _ = storage.push(tx, join_op);
    Ok(send(gateway.peer, tx, join_req))
}

} // verus!
