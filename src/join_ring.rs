//! The join-ring handshake: its messages and the per-transaction state
//! machine that each peer of the chain runs.
use vstd::prelude::*;
use crate::location::Location;
use crate::ring::{PeerKey, PeerKeyLocation};

verus! {

/// Identifier of one operation: a random 128-bit id and the kind of
/// operation. Created by the initiator, carried by every message of it.
#[derive(Clone, Copy, Debug, PartialEq, Eq, Structural, Hash)]
pub struct Transaction {
    pub uuid: u128,
    pub type_tag: u8,
}

/// Kind tag of join-ring transactions.
pub const JOIN_RING_TX_TYPE: u8 = 0;

impl Transaction {
    /// A join-ring transaction with the given random id.
    pub fn new(uuid: u128) -> (r: Transaction)
        ensures
            r.uuid == uuid,
            r.type_tag == JOIN_RING_TX_TYPE,
    {
        Transaction { uuid, type_tag: JOIN_RING_TX_TYPE }
    }
}

#[derive(Clone, Debug, PartialEq, Eq)]
pub enum JoinRequest {
    /// From the joiner to the gateway.
    Initial {
        target_loc: PeerKeyLocation,
        req_peer: PeerKey,
        hops_to_live: usize,
        max_hops_to_live: usize,
    },
    /// From one forwarder to the next, with the joiner's assigned location.
    Proxy { joiner: PeerKeyLocation, hops_to_live: usize },
}

#[derive(Clone, Debug, PartialEq, Eq)]
pub enum JoinResponse {
    /// From the gateway to the joiner: who accepted it, and where it is.
    Initial { accepted_by: Vec<PeerKeyLocation>, your_location: Location, your_peer_id: PeerKey },
    /// From the joiner to an acceptor: the open-connection request.
    ReceivedOC { by_peer: PeerKeyLocation },
    /// From a forwarder back along the chain: who accepted the joiner.
    Proxy { accepted_by: Vec<PeerKeyLocation> },
}

/// Messages of the join-ring operation. `Connected` carries no transaction:
/// it takes the one of the frame it travels in.
#[derive(Clone, Debug, PartialEq, Eq)]
pub enum JoinRingMsg {
    Req { id: Transaction, msg: JoinRequest },
    Resp { id: Transaction, sender: PeerKeyLocation, msg: JoinResponse },
    Connected,
}

impl JoinRingMsg {
    /// The transaction the message names, if it names one.
    pub fn id(&self) -> (r: Option<Transaction>)
        ensures
            r == match *self {
                JoinRingMsg::Req { id, .. } => Some(id),
                JoinRingMsg::Resp { id, .. } => Some(id),
                JoinRingMsg::Connected => None,
            },
    {
        match self {
            JoinRingMsg::Req { id, .. } => Some(*id),
            JoinRingMsg::Resp { id, .. } => Some(*id),
            JoinRingMsg::Connected => None,
        }
    }

    /// The peer that sent a response.
    pub fn sender(&self) -> (r: Option<PeerKeyLocation>)
        ensures
            r == match *self {
                JoinRingMsg::Resp { sender, .. } => Some(sender),
                _ => None,
            },
    {
        match self {
            JoinRingMsg::Resp { sender, .. } => Some(*sender),
            _ => None,
        }
    }
}

/// What a joiner keeps from its initial request.
#[derive(Clone, Copy, Debug, PartialEq, Eq, Structural)]
pub struct ConnectionInfo {
    pub gateway: PeerKeyLocation,
    pub this_peer: PeerKey,
    pub max_hops_to_live: usize,
}

#[derive(Clone, Copy, Debug, PartialEq, Eq, Structural)]
pub enum JRState {
    Initializing,
    Connecting(ConnectionInfo),
    OCReceived,
    Connected,
}

/// Next state on an input; `None` where the input is not allowed.
pub open spec fn spec_transition(state: JRState, input: JoinRingMsg) -> Option<JRState> {
    match (state, input) {
        (
            JRState::Initializing,
            JoinRingMsg::Req {
                msg: JoinRequest::Initial { req_peer, target_loc, max_hops_to_live, .. },
                ..
            },
        ) => Some(
            JRState::Connecting(
                ConnectionInfo { gateway: target_loc, this_peer: req_peer, max_hops_to_live },
            ),
        ),
        (
            JRState::Connecting(_),
            JoinRingMsg::Resp { msg: JoinResponse::ReceivedOC { .. }, .. },
        ) => Some(JRState::OCReceived),
        (
            JRState::Initializing,
            JoinRingMsg::Resp { msg: JoinResponse::ReceivedOC { .. }, .. },
        ) => Some(JRState::OCReceived),
        (
            JRState::Connecting(_),
            JoinRingMsg::Resp { msg: JoinResponse::Initial { .. }, .. },
        ) => Some(JRState::OCReceived),
        (JRState::Connecting(_), JoinRingMsg::Connected) => Some(JRState::Connected),
        (JRState::OCReceived, JoinRingMsg::Connected) => Some(JRState::Connected),
        _ => None,
    }
}

/// Reply produced on an input, if any.
pub open spec fn spec_output(state: JRState, input: JoinRingMsg) -> Option<JoinRingMsg> {
    match (state, input) {
        (
            JRState::Initializing,
            JoinRingMsg::Req { id, msg: JoinRequest::Initial { target_loc, req_peer, .. } },
        ) => Some(
            JoinRingMsg::Resp {
                id,
                msg: JoinResponse::ReceivedOC { by_peer: target_loc },
                sender: PeerKeyLocation { peer: req_peer, location: None },
            },
        ),
        (
            JRState::Initializing,
            JoinRingMsg::Resp { msg: JoinResponse::ReceivedOC { .. }, .. },
        ) => Some(JoinRingMsg::Connected),
        (
            JRState::Connecting(_),
            JoinRingMsg::Resp { msg: JoinResponse::ReceivedOC { .. }, .. },
        ) => Some(JoinRingMsg::Connected),
        (JRState::Initializing, JoinRingMsg::Connected) => Some(JoinRingMsg::Connected),
        (JRState::Connecting(_), JoinRingMsg::Connected) => Some(JoinRingMsg::Connected),
        (JRState::OCReceived, JoinRingMsg::Connected) => Some(JoinRingMsg::Connected),
        _ => None,
    }
}

impl JRState {
    pub fn transition(&self, input: &JoinRingMsg) -> (r: Option<JRState>)
        ensures
            r == spec_transition(*self, *input),
    {
        match (self, input) {
            (
                JRState::Initializing,
                JoinRingMsg::Req {
                    msg: JoinRequest::Initial { req_peer, target_loc, max_hops_to_live, .. },
                    ..
                },
            ) => Some(
                JRState::Connecting(
                    ConnectionInfo {
                        gateway: *target_loc,
                        this_peer: *req_peer,
                        max_hops_to_live: *max_hops_to_live,
                    },
                ),
            ),
            (
                JRState::Connecting(_) | JRState::Initializing,
                JoinRingMsg::Resp { msg: JoinResponse::ReceivedOC { .. }, .. },
            ) => Some(JRState::OCReceived),
            (
                JRState::Connecting(_),
                JoinRingMsg::Resp { msg: JoinResponse::Initial { .. }, .. },
            ) => Some(JRState::OCReceived),
            (
                JRState::Connecting(_) | JRState::OCReceived,
                JoinRingMsg::Connected,
            ) => Some(JRState::Connected),
            _ => None,
        }
    }

    pub fn output(&self, input: &JoinRingMsg) -> (r: Option<JoinRingMsg>)
        ensures
            r == spec_output(*self, *input),
    {
        match (self, input) {
            (
                JRState::Initializing,
                JoinRingMsg::Req { id, msg: JoinRequest::Initial { target_loc, req_peer, .. } },
            ) => Some(
                JoinRingMsg::Resp {
                    id: *id,
                    msg: JoinResponse::ReceivedOC { by_peer: *target_loc },
                    sender: PeerKeyLocation { peer: *req_peer, location: None },
                },
            ),
            (
                JRState::Initializing | JRState::Connecting(_),
                JoinRingMsg::Resp { msg: JoinResponse::ReceivedOC { .. }, .. }
                | JoinRingMsg::Connected,
            ) => Some(JoinRingMsg::Connected),
            (JRState::OCReceived, JoinRingMsg::Connected) => Some(JoinRingMsg::Connected),
            _ => None,
        }
    }

    /// The joiner's connection info, when the state holds it.
    pub fn try_unwrap_connecting(self) -> (r: Result<ConnectionInfo, OpError>)
        ensures
            match self {
                JRState::Connecting(info) => r == Ok::<ConnectionInfo, OpError>(info),
                _ => r == Err::<ConnectionInfo, OpError>(OpError::IllegalStateTransition),
            },
    {
        if let JRState::Connecting(conn_info) = self {
            Ok(conn_info)
        } else {
            Err(OpError::IllegalStateTransition)
        }
    }
}

/// Nothing leaves the terminal state.
pub proof fn lemma_connected_absorbing(input: JoinRingMsg)
    ensures
        spec_transition(JRState::Connected, input) is None,
{
}

/// Why processing a message failed.
#[derive(Clone, Copy, Debug, PartialEq, Eq, Structural)]
pub enum OpError {
    /// The message is not allowed in the operation's state.
    IllegalStateTransition,
    /// The message cannot be applied to the transaction it names.
    TxUpdateFailure(Transaction),
    /// A location that the step needs is not known.
    LocationUnknown,
}

/// The input was refused and the state machine left as it was.
#[derive(Clone, Copy, Debug, PartialEq, Eq, Structural)]
pub struct TransitionImpossibleError;

/// A forwarder's memory of a request it passed on.
#[derive(Clone, Debug)]
pub struct Forwarding {
    /// Where the merged acceptors go back to.
    pub reply_to: PeerKey,
    /// The joiner.
    pub joiner: PeerKey,
    /// The location the joiner was given.
    pub joiner_location: Location,
    /// This peer, as it names itself to the joiner.
    pub me: PeerKeyLocation,
    /// Whether this peer is the gateway, which answers the joiner itself.
    pub from_gateway: bool,
    /// Whether this peer accepted the joiner.
    pub self_accepted: bool,
    /// Acceptors gathered so far, without repeats.
    pub acceptors: Vec<PeerKeyLocation>,
}

/// An acceptor the joiner is opening a connection to.
#[derive(Clone, Copy, Debug, PartialEq, Eq, Structural)]
pub struct PendingOC {
    pub peer: PeerKeyLocation,
    /// Clock reading (in milliseconds) after which the attempt is given up.
    pub deadline: u64,
    /// Clock reading from which the request is due to be repeated.
    pub next_send: u64,
}

/// The joiner's memory once the gateway has answered.
#[derive(Clone, Debug)]
pub struct Joining {
    pub info: ConnectionInfo,
    /// The joiner, with its assigned location.
    pub me: PeerKeyLocation,
    /// Acceptors whose handshake is under way.
    pub pending: Vec<PendingOC>,
    /// Acceptors the joiner is now connected to.
    pub connected: Vec<PeerKeyLocation>,
}

/// One join-ring operation: the state machine of a transaction, with what
/// this peer's role in it needs to remember.
#[derive(Clone, Debug)]
pub struct JoinRingOp {
    pub state: JRState,
    pub forward: Option<Forwarding>,
    pub joining: Option<Joining>,
    /// At an acceptor: the joiner at the other end of the handshake.
    pub peer: Option<PeerKeyLocation>,
}

impl JoinRingOp {
    /// A machine that has seen nothing yet.
    pub fn new() -> (r: JoinRingOp)
        ensures
            r.state == JRState::Initializing,
            r.forward is None,
            r.joining is None,
            r.peer is None,
    {
        JoinRingOp { state: JRState::Initializing, forward: None, joining: None, peer: None }
    }

    /// Feeds one input: moves to the next state and returns the reply, or
    /// refuses the input and keeps the state.
    pub fn consume(&mut self, input: &JoinRingMsg) -> (r: Result<
        Option<JoinRingMsg>,
        TransitionImpossibleError,
    >)
        ensures
            match spec_transition(old(self).state, *input) {
                Some(next) => final(self).state == next && r == Ok::<
                    Option<JoinRingMsg>,
                    TransitionImpossibleError,
                >(spec_output(old(self).state, *input)),
                None => final(self).state == old(self).state && r is Err,
            },
            final(self).forward == old(self).forward,
            final(self).joining == old(self).joining,
            final(self).peer == old(self).peer,
    {
        match self.state.transition(input) {
            Some(next) => {
                let out = self.state.output(input);
                self.state = next;
                Ok(out)
            },
            None => Err(TransitionImpossibleError),
        }
    }

    /// The joiner's machine after its initial request to `target_loc`.
    pub fn initial_request(
        id: Transaction,
        req_peer: PeerKey,
        target_loc: PeerKeyLocation,
        max_hops_to_live: usize,
    ) -> (r: JoinRingOp)
        ensures
            r.state == JRState::Connecting(
                ConnectionInfo { gateway: target_loc, this_peer: req_peer, max_hops_to_live },
            ),
            r.forward is None,
            r.joining is None,
            r.peer is None,
    {
        let mut op = JoinRingOp::new();
        let req = JoinRingMsg::Req {
            id,
            msg: JoinRequest::Initial {
                req_peer,
                target_loc,
                max_hops_to_live,
                hops_to_live: max_hops_to_live,
            },
        };
        let _ = op.consume(&req);
        op
    }
}

} // verus!
