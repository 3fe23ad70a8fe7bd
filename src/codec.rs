//! The binary wire form of messages. Integers are little-endian; a peer key
//! is a 16-bit length and its bytes; a location is its binary64 value; a
//! vector is a 32-bit count and its items; an option and an enum start with
//! one tag byte. A frame is the transaction followed by the message.
use vstd::prelude::*;
use crate::bytes::{le_bytes, le_value, lemma_le_bytes_len, lemma_le_round_trip, lemma_radix_pow_values, read_le, write_le};
use crate::dispatcher::Message;
use crate::join_ring::{JoinRequest, JoinResponse, JoinRingMsg, Transaction};
use crate::location::{f64_bits_of, lemma_f64_bits_of_round_trip, pos_of_f64_bits, Location};
use crate::ring::{PeerKey, PeerKeyLocation};

verus! {

/// A response with its vectors seen as sequences.
pub enum ResponseView {
    Initial { accepted_by: Seq<PeerKeyLocation>, your_location: Location, your_peer_id: PeerKey },
    ReceivedOC { by_peer: PeerKeyLocation },
    Proxy { accepted_by: Seq<PeerKeyLocation> },
}

/// A join-ring message with its vectors seen as sequences.
pub enum JoinRingMsgView {
    Req { id: Transaction, msg: JoinRequest },
    Resp { id: Transaction, sender: PeerKeyLocation, msg: ResponseView },
    Connected,
}

/// A message with its vectors seen as sequences.
pub enum MessageView {
    JoinRing(JoinRingMsgView),
    Canceled(Transaction),
}

impl View for JoinResponse {
    type V = ResponseView;

    open spec fn view(&self) -> ResponseView {
        match *self {
            JoinResponse::Initial { accepted_by, your_location, your_peer_id } => ResponseView::Initial {
                accepted_by: accepted_by@,
                your_location,
                your_peer_id,
            },
            JoinResponse::ReceivedOC { by_peer } => ResponseView::ReceivedOC { by_peer },
            JoinResponse::Proxy { accepted_by } => ResponseView::Proxy { accepted_by: accepted_by@ },
        }
    }
}

impl View for JoinRingMsg {
    type V = JoinRingMsgView;

    open spec fn view(&self) -> JoinRingMsgView {
        match *self {
            JoinRingMsg::Req { id, msg } => JoinRingMsgView::Req { id, msg },
            JoinRingMsg::Resp { id, sender, msg } => JoinRingMsgView::Resp { id, sender, msg: msg@ },
            JoinRingMsg::Connected => JoinRingMsgView::Connected,
        }
    }
}

impl View for Message {
    type V = MessageView;

    open spec fn view(&self) -> MessageView {
        match *self {
            Message::JoinRing(m) => MessageView::JoinRing(m@),
            Message::Canceled(t) => MessageView::Canceled(t),
        }
    }
}

pub open spec fn two64() -> nat {
    0x1_0000_0000_0000_0000
}

pub open spec fn enc_tx(t: Transaction) -> Seq<u8> {
    le_bytes((t.uuid as nat) % two64(), 8) + le_bytes((t.uuid as nat) / two64(), 8) + seq![t.type_tag]
}

pub open spec fn enc_peer(p: PeerKey) -> Seq<u8> {
    le_bytes(8, 2) + le_bytes(p.id as nat, 8)
}

pub open spec fn enc_loc(l: Location) -> Seq<u8> {
    le_bytes(f64_bits_of(l.pos) as nat, 8)
}

pub open spec fn enc_opt_loc(o: Option<Location>) -> Seq<u8> {
    match o {
        None => seq![0u8],
        Some(l) => seq![1u8] + enc_loc(l),
    }
}

pub open spec fn enc_pkl(p: PeerKeyLocation) -> Seq<u8> {
    enc_peer(p.peer) + enc_opt_loc(p.location)
}

/// The items of a vector, one after the other.
pub open spec fn enc_pkl_items(s: Seq<PeerKeyLocation>) -> Seq<u8>
    decreases s.len(),
{
    if s.len() == 0 {
        Seq::empty()
    } else {
        enc_pkl_items(s.drop_last()) + enc_pkl(s.last())
    }
}

pub open spec fn enc_pkls(s: Seq<PeerKeyLocation>) -> Seq<u8> {
    le_bytes(s.len(), 4) + enc_pkl_items(s)
}

pub open spec fn enc_usize(n: usize) -> Seq<u8> {
    le_bytes(n as nat, 8)
}

pub open spec fn enc_request(r: JoinRequest) -> Seq<u8> {
    match r {
        JoinRequest::Initial { target_loc, req_peer, hops_to_live, max_hops_to_live } => seq![0u8]
            + enc_pkl(target_loc) + enc_peer(req_peer) + enc_usize(hops_to_live) + enc_usize(
            max_hops_to_live,
        ),
        JoinRequest::Proxy { joiner, hops_to_live } => seq![1u8] + enc_pkl(joiner) + enc_usize(
            hops_to_live,
        ),
    }
}

pub open spec fn enc_response(r: ResponseView) -> Seq<u8> {
    match r {
        ResponseView::Initial { accepted_by, your_location, your_peer_id } => seq![0u8] + enc_pkls(
            accepted_by,
        ) + enc_loc(your_location) + enc_peer(your_peer_id),
        ResponseView::ReceivedOC { by_peer } => seq![1u8] + enc_pkl(by_peer),
        ResponseView::Proxy { accepted_by } => seq![2u8] + enc_pkls(accepted_by),
    }
}

pub open spec fn enc_jr(m: JoinRingMsgView) -> Seq<u8> {
    match m {
        JoinRingMsgView::Req { id, msg } => seq![0u8] + enc_tx(id) + enc_request(msg),
        JoinRingMsgView::Resp { id, sender, msg } => seq![1u8] + enc_tx(id) + enc_pkl(sender)
            + enc_response(msg),
        JoinRingMsgView::Connected => seq![2u8],
    }
}

pub open spec fn enc_message(m: MessageView) -> Seq<u8> {
    match m {
        MessageView::JoinRing(j) => seq![0u8] + enc_jr(j),
        MessageView::Canceled(t) => seq![1u8] + enc_tx(t),
    }
}

/// A frame: the transaction, then the message.
pub open spec fn enc_frame(tx: Transaction, m: MessageView) -> Seq<u8> {
    enc_tx(tx) + enc_message(m)
}

// ---- decoding, as functions of the bytes and the offset to read at ----

pub open spec fn dec_le(s: Seq<u8>, off: int, k: nat) -> Option<(nat, int)> {
    if 0 <= off && off + k <= s.len() {
        Some((le_value(s.subrange(off, off + k)), off + k))
    } else {
        None
    }
}

pub open spec fn dec_u8(s: Seq<u8>, off: int) -> Option<(u8, int)> {
    if 0 <= off && off < s.len() {
        Some((s[off], off + 1))
    } else {
        None
    }
}

pub open spec fn dec_tx(s: Seq<u8>, off: int) -> Option<(Transaction, int)> {
    match dec_le(s, off, 8) {
        Some((lo, o1)) => match dec_le(s, o1, 8) {
            Some((hi, o2)) => match dec_u8(s, o2) {
                Some((tag, o3)) => Some(
                    (Transaction { uuid: (hi * two64() + lo) as u128, type_tag: tag }, o3),
                ),
                None => None,
            },
            None => None,
        },
        None => None,
    }
}

pub open spec fn dec_peer(s: Seq<u8>, off: int) -> Option<(PeerKey, int)> {
    match dec_le(s, off, 2) {
        Some((len, o1)) => if len != 8 {
            None
        } else {
            match dec_le(s, o1, 8) {
                Some((id, o2)) => Some((PeerKey { id: id as u64 }, o2)),
                None => None,
            }
        },
        None => None,
    }
}

pub open spec fn dec_loc(s: Seq<u8>, off: int) -> Option<(Location, int)> {
    match dec_le(s, off, 8) {
        Some((bits, o1)) => match pos_of_f64_bits(bits as u64) {
            Some(v) => if v < 0x1_0000_0000 {
                Some((Location { pos: v as u32 }, o1))
            } else {
                None
            },
            None => None,
        },
        None => None,
    }
}

pub open spec fn dec_opt_loc(s: Seq<u8>, off: int) -> Option<(Option<Location>, int)> {
    match dec_u8(s, off) {
        Some((tag, o1)) => if tag == 0 {
            Some((None, o1))
        } else if tag == 1 {
            match dec_loc(s, o1) {
                Some((l, o2)) => Some((Some(l), o2)),
                None => None,
            }
        } else {
            None
        },
        None => None,
    }
}

pub open spec fn dec_pkl(s: Seq<u8>, off: int) -> Option<(PeerKeyLocation, int)> {
    match dec_peer(s, off) {
        Some((peer, o1)) => match dec_opt_loc(s, o1) {
            Some((location, o2)) => Some((PeerKeyLocation { peer, location }, o2)),
            None => None,
        },
        None => None,
    }
}

/// `n` items read one after the other from `off`.
pub open spec fn dec_pkl_items(s: Seq<u8>, off: int, n: nat) -> Option<(Seq<PeerKeyLocation>, int)>
    decreases n,
{
    if n == 0 {
        Some((Seq::empty(), off))
    } else {
        match dec_pkl_items(s, off, (n - 1) as nat) {
            Some((items, o1)) => match dec_pkl(s, o1) {
                Some((p, o2)) => Some((items.push(p), o2)),
                None => None,
            },
            None => None,
        }
    }
}

pub open spec fn dec_pkls(s: Seq<u8>, off: int) -> Option<(Seq<PeerKeyLocation>, int)> {
    match dec_le(s, off, 4) {
        Some((n, o1)) => dec_pkl_items(s, o1, n),
        None => None,
    }
}

pub open spec fn dec_usize(s: Seq<u8>, off: int) -> Option<(usize, int)> {
    match dec_le(s, off, 8) {
        Some((n, o1)) => if n <= usize::MAX {
            Some((n as usize, o1))
        } else {
            None
        },
        None => None,
    }
}

pub open spec fn dec_request(s: Seq<u8>, off: int) -> Option<(JoinRequest, int)> {
    match dec_u8(s, off) {
        Some((tag, o1)) => if tag == 0 {
            match dec_pkl(s, o1) {
                Some((target_loc, o2)) => match dec_peer(s, o2) {
                    Some((req_peer, o3)) => match dec_usize(s, o3) {
                        Some((hops_to_live, o4)) => match dec_usize(s, o4) {
                            Some((max_hops_to_live, o5)) => Some(
                                (
                                    JoinRequest::Initial {
                                        target_loc,
                                        req_peer,
                                        hops_to_live,
                                        max_hops_to_live,
                                    },
                                    o5,
                                ),
                            ),
                            None => None,
                        },
                        None => None,
                    },
                    None => None,
                },
                None => None,
            }
        } else if tag == 1 {
            match dec_pkl(s, o1) {
                Some((joiner, o2)) => match dec_usize(s, o2) {
                    Some((hops_to_live, o3)) => Some(
                        (JoinRequest::Proxy { joiner, hops_to_live }, o3),
                    ),
                    None => None,
                },
                None => None,
            }
        } else {
            None
        },
        None => None,
    }
}

pub open spec fn dec_response(s: Seq<u8>, off: int) -> Option<(ResponseView, int)> {
    match dec_u8(s, off) {
        Some((tag, o1)) => if tag == 0 {
            match dec_pkls(s, o1) {
                Some((accepted_by, o2)) => match dec_loc(s, o2) {
                    Some((your_location, o3)) => match dec_peer(s, o3) {
                        Some((your_peer_id, o4)) => Some(
                            (ResponseView::Initial { accepted_by, your_location, your_peer_id }, o4),
                        ),
                        None => None,
                    },
                    None => None,
                },
                None => None,
            }
        } else if tag == 1 {
            match dec_pkl(s, o1) {
                Some((by_peer, o2)) => Some((ResponseView::ReceivedOC { by_peer }, o2)),
                None => None,
            }
        } else if tag == 2 {
            match dec_pkls(s, o1) {
                Some((accepted_by, o2)) => Some((ResponseView::Proxy { accepted_by }, o2)),
                None => None,
            }
        } else {
            None
        },
        None => None,
    }
}

pub open spec fn dec_jr(s: Seq<u8>, off: int) -> Option<(JoinRingMsgView, int)> {
    match dec_u8(s, off) {
        Some((tag, o1)) => if tag == 0 {
            match dec_tx(s, o1) {
                Some((id, o2)) => match dec_request(s, o2) {
                    Some((msg, o3)) => Some((JoinRingMsgView::Req { id, msg }, o3)),
                    None => None,
                },
                None => None,
            }
        } else if tag == 1 {
            match dec_tx(s, o1) {
                Some((id, o2)) => match dec_pkl(s, o2) {
                    Some((sender, o3)) => match dec_response(s, o3) {
                        Some((msg, o4)) => Some((JoinRingMsgView::Resp { id, sender, msg }, o4)),
                        None => None,
                    },
                    None => None,
                },
                None => None,
            }
        } else if tag == 2 {
            Some((JoinRingMsgView::Connected, o1))
        } else {
            None
        },
        None => None,
    }
}

pub open spec fn dec_message(s: Seq<u8>, off: int) -> Option<(MessageView, int)> {
    match dec_u8(s, off) {
        Some((tag, o1)) => if tag == 0 {
            match dec_jr(s, o1) {
                Some((m, o2)) => Some((MessageView::JoinRing(m), o2)),
                None => None,
            }
        } else if tag == 1 {
            match dec_tx(s, o1) {
                Some((t, o2)) => Some((MessageView::Canceled(t), o2)),
                None => None,
            }
        } else {
            None
        },
        None => None,
    }
}

/// A whole frame: it must end where the bytes end.
pub open spec fn dec_frame(s: Seq<u8>) -> Option<(Transaction, MessageView)> {
    match dec_tx(s, 0) {
        Some((tx, o1)) => match dec_message(s, o1) {
            Some((m, o2)) => if o2 == s.len() {
                Some((tx, m))
            } else {
                None
            },
            None => None,
        },
        None => None,
    }
}

// ---- reading back what was written ----

/// The bytes of `s` at `off` are `e`.
pub open spec fn at(s: Seq<u8>, off: int, e: Seq<u8>) -> bool {
    0 <= off && off + e.len() <= s.len() && s.subrange(off, off + e.len()) == e
}

proof fn lemma_split(s: Seq<u8>, off: int, a: Seq<u8>, b: Seq<u8>)
    requires
        at(s, off, a + b),
    ensures
        at(s, off, a),
        at(s, off + a.len(), b),
{
    assert(s.subrange(off, off + a.len()) =~= s.subrange(off, off + (a + b).len()).subrange(0, a.len() as int));
    assert((a + b).subrange(0, a.len() as int) =~= a);
    assert(s.subrange(off + a.len(), off + a.len() + b.len()) =~= s.subrange(off, off + (a + b).len()).subrange(a.len() as int, (a + b).len() as int));
    assert((a + b).subrange(a.len() as int, (a + b).len() as int) =~= b);
}

proof fn lemma_rt_le(s: Seq<u8>, off: int, v: nat, k: nat)
    requires
        at(s, off, le_bytes(v, k)),
        v < crate::bytes::radix_pow(k),
    ensures
        dec_le(s, off, k) == Some((v, off + k)),
{
    lemma_le_round_trip(v, k);
}

proof fn lemma_rt_u8(s: Seq<u8>, off: int, b: u8)
    requires
        at(s, off, seq![b]),
    ensures
        dec_u8(s, off) == Some((b, off + 1)),
{
    assert(s.subrange(off, off + 1)[0] == s[off]);
}

proof fn lemma_rt_tx(s: Seq<u8>, off: int, t: Transaction)
    requires
        at(s, off, enc_tx(t)),
    ensures
        dec_tx(s, off) == Some((t, off + enc_tx(t).len())),
        enc_tx(t).len() == 17,
{
    lemma_radix_pow_values();
    let lo = (t.uuid as nat) % two64();
    let hi = (t.uuid as nat) / two64();
    let a = le_bytes(lo, 8);
    let b = le_bytes(hi, 8);
    lemma_le_bytes_len(lo, 8);
    lemma_le_bytes_len(hi, 8);
    lemma_split(s, off, a + b, seq![t.type_tag]);
    lemma_split(s, off, a, b);
    lemma_rt_le(s, off, lo, 8);
    lemma_rt_le(s, off + 8, hi, 8);
    lemma_rt_u8(s, off + 16, t.type_tag);
    assert(hi * two64() + lo == t.uuid as nat);
}

proof fn lemma_rt_peer(s: Seq<u8>, off: int, p: PeerKey)
    requires
        at(s, off, enc_peer(p)),
    ensures
        dec_peer(s, off) == Some((p, off + enc_peer(p).len())),
        enc_peer(p).len() == 10,
{
    lemma_radix_pow_values();
    lemma_le_bytes_len(8, 2);
    lemma_le_bytes_len(p.id as nat, 8);
    lemma_split(s, off, le_bytes(8, 2), le_bytes(p.id as nat, 8));
    lemma_rt_le(s, off, 8, 2);
    lemma_rt_le(s, off + 2, p.id as nat, 8);
}

proof fn lemma_rt_loc(s: Seq<u8>, off: int, l: Location)
    requires
        at(s, off, enc_loc(l)),
    ensures
        dec_loc(s, off) == Some((l, off + enc_loc(l).len())),
        enc_loc(l).len() == 8,
{
    lemma_radix_pow_values();
    lemma_le_bytes_len(crate::location::f64_bits_of(l.pos) as nat, 8);
    lemma_rt_le(s, off, crate::location::f64_bits_of(l.pos) as nat, 8);
    lemma_f64_bits_of_round_trip(l.pos);
}

proof fn lemma_rt_opt_loc(s: Seq<u8>, off: int, o: Option<Location>)
    requires
        at(s, off, enc_opt_loc(o)),
    ensures
        dec_opt_loc(s, off) == Some((o, off + enc_opt_loc(o).len())),
{
    match o {
        None => {
            lemma_rt_u8(s, off, 0);
        },
        Some(l) => {
            lemma_split(s, off, seq![1u8], enc_loc(l));
            lemma_rt_u8(s, off, 1);
            lemma_rt_loc(s, off + 1, l);
        },
    }
}

proof fn lemma_rt_pkl(s: Seq<u8>, off: int, p: PeerKeyLocation)
    requires
        at(s, off, enc_pkl(p)),
    ensures
        dec_pkl(s, off) == Some((p, off + enc_pkl(p).len())),
{
    lemma_split(s, off, enc_peer(p.peer), enc_opt_loc(p.location));
    lemma_rt_peer(s, off, p.peer);
    lemma_rt_opt_loc(s, off + 10, p.location);
}

proof fn lemma_rt_pkl_items(s: Seq<u8>, off: int, items: Seq<PeerKeyLocation>)
    requires
        at(s, off, enc_pkl_items(items)),
    ensures
        dec_pkl_items(s, off, items.len()) == Some((items, off + enc_pkl_items(items).len())),
    decreases items.len(),
{
    if items.len() > 0 {
        let init = items.drop_last();
        lemma_split(s, off, enc_pkl_items(init), enc_pkl(items.last()));
        lemma_rt_pkl_items(s, off, init);
        lemma_rt_pkl(s, off + enc_pkl_items(init).len(), items.last());
        assert(init.push(items.last()) =~= items);
    }
}

proof fn lemma_rt_pkls(s: Seq<u8>, off: int, items: Seq<PeerKeyLocation>)
    requires
        at(s, off, enc_pkls(items)),
        items.len() < 0x1_0000_0000,
    ensures
        dec_pkls(s, off) == Some((items, off + enc_pkls(items).len())),
{
    lemma_radix_pow_values();
    lemma_le_bytes_len(items.len(), 4);
    lemma_split(s, off, le_bytes(items.len(), 4), enc_pkl_items(items));
    lemma_rt_le(s, off, items.len(), 4);
    lemma_rt_pkl_items(s, off + 4, items);
}

proof fn lemma_rt_usize(s: Seq<u8>, off: int, n: usize)
    requires
        at(s, off, enc_usize(n)),
    ensures
        dec_usize(s, off) == Some((n, off + enc_usize(n).len())),
        enc_usize(n).len() == 8,
{
    lemma_radix_pow_values();
    lemma_le_bytes_len(n as nat, 8);
    lemma_rt_le(s, off, n as nat, 8);
}

/// Every vector in a message can be counted in 32 bits.
pub open spec fn encodable(m: MessageView) -> bool {
    match m {
        MessageView::JoinRing(JoinRingMsgView::Resp { msg: ResponseView::Initial { accepted_by, .. }, .. }) => accepted_by.len() < 0x1_0000_0000,
        MessageView::JoinRing(JoinRingMsgView::Resp { msg: ResponseView::Proxy { accepted_by }, .. }) => accepted_by.len() < 0x1_0000_0000,
        _ => true,
    }
}

proof fn lemma_rt_request(s: Seq<u8>, off: int, r: JoinRequest)
    requires
        at(s, off, enc_request(r)),
    ensures
        dec_request(s, off) == Some((r, off + enc_request(r).len())),
{
    match r {
        JoinRequest::Initial { target_loc, req_peer, hops_to_live, max_hops_to_live } => {
            let a = seq![0u8];
            let b = enc_pkl(target_loc);
            let c = enc_peer(req_peer);
            let d = enc_usize(hops_to_live);
            let e = enc_usize(max_hops_to_live);
            lemma_split(s, off, a + b + c + d, e);
            lemma_split(s, off, a + b + c, d);
            lemma_split(s, off, a + b, c);
            lemma_split(s, off, a, b);
            lemma_rt_u8(s, off, 0);
            lemma_rt_pkl(s, off + 1, target_loc);
            lemma_rt_peer(s, off + 1 + b.len(), req_peer);
            lemma_rt_usize(s, off + 1 + b.len() + c.len(), hops_to_live);
            lemma_rt_usize(s, off + 1 + b.len() + c.len() + d.len(), max_hops_to_live);
        },
        JoinRequest::Proxy { joiner, hops_to_live } => {
            let a = seq![1u8];
            let b = enc_pkl(joiner);
            let d = enc_usize(hops_to_live);
            lemma_split(s, off, a + b, d);
            lemma_split(s, off, a, b);
            lemma_rt_u8(s, off, 1);
            lemma_rt_pkl(s, off + 1, joiner);
            lemma_rt_usize(s, off + 1 + b.len(), hops_to_live);
        },
    }
}

proof fn lemma_rt_response(s: Seq<u8>, off: int, r: ResponseView)
    requires
        at(s, off, enc_response(r)),
        encodable(MessageView::JoinRing(JoinRingMsgView::Resp { id: Transaction { uuid: 0, type_tag: 0 }, sender: PeerKeyLocation { peer: PeerKey { id: 0 }, location: None }, msg: r })),
    ensures
        dec_response(s, off) == Some((r, off + enc_response(r).len())),
{
    match r {
        ResponseView::Initial { accepted_by, your_location, your_peer_id } => {
            let a = seq![0u8];
            let b = enc_pkls(accepted_by);
            let c = enc_loc(your_location);
            let d = enc_peer(your_peer_id);
            lemma_split(s, off, a + b + c, d);
            lemma_split(s, off, a + b, c);
            lemma_split(s, off, a, b);
            lemma_rt_u8(s, off, 0);
            lemma_rt_pkls(s, off + 1, accepted_by);
            lemma_rt_loc(s, off + 1 + b.len(), your_location);
            lemma_rt_peer(s, off + 1 + b.len() + c.len(), your_peer_id);
        },
        ResponseView::ReceivedOC { by_peer } => {
            lemma_split(s, off, seq![1u8], enc_pkl(by_peer));
            lemma_rt_u8(s, off, 1);
            lemma_rt_pkl(s, off + 1, by_peer);
        },
        ResponseView::Proxy { accepted_by } => {
            lemma_split(s, off, seq![2u8], enc_pkls(accepted_by));
            lemma_rt_u8(s, off, 2);
            lemma_rt_pkls(s, off + 1, accepted_by);
        },
    }
}

#[verifier::rlimit(40)]
proof fn lemma_rt_jr(s: Seq<u8>, o: int, j: JoinRingMsgView)
    requires
        at(s, o, enc_jr(j)),
        encodable(MessageView::JoinRing(j)),
    ensures
        dec_jr(s, o) == Some((j, o + enc_jr(j).len())),
{
    match j {
        JoinRingMsgView::Req { id, msg } => {
            lemma_split(s, o, seq![0u8] + enc_tx(id), enc_request(msg));
            lemma_split(s, o, seq![0u8], enc_tx(id));
            lemma_rt_u8(s, o, 0);
            lemma_rt_tx(s, o + 1, id);
            lemma_rt_request(s, o + 18, msg);
        },
        JoinRingMsgView::Resp { id, sender, msg } => {
            let a = seq![1u8];
            let b = enc_tx(id);
            let c = enc_pkl(sender);
            let d = enc_response(msg);
            lemma_split(s, o, a + b + c, d);
            lemma_split(s, o, a + b, c);
            lemma_split(s, o, a, b);
            lemma_rt_u8(s, o, 1);
            lemma_rt_tx(s, o + 1, id);
            lemma_rt_pkl(s, o + 18, sender);
            lemma_rt_response(s, o + 18 + c.len(), msg);
        },
        JoinRingMsgView::Connected => {
            lemma_rt_u8(s, o, 2);
        },
    }
}

#[verifier::rlimit(40)]
proof fn lemma_rt_message(s: Seq<u8>, off: int, m: MessageView)
    requires
        at(s, off, enc_message(m)),
        encodable(m),
    ensures
        dec_message(s, off) == Some((m, off + enc_message(m).len())),
{
    match m {
        MessageView::JoinRing(j) => {
            lemma_split(s, off, seq![0u8], enc_jr(j));
            lemma_rt_u8(s, off, 0);
            lemma_rt_jr(s, off + 1, j);
        },
        MessageView::Canceled(t) => {
            lemma_split(s, off, seq![1u8], enc_tx(t));
            lemma_rt_u8(s, off, 1);
            lemma_rt_tx(s, off + 1, t);
        },
    }
}

/// Decoding an encoded frame gives back its transaction and message.
pub proof fn lemma_frame_round_trip(tx: Transaction, m: MessageView)
    requires
        encodable(m),
    ensures
        dec_frame(enc_frame(tx, m)) == Some((tx, m)),
{
    let s = enc_frame(tx, m);
    assert(s.subrange(0, s.len() as int) =~= s);
    lemma_split(s, 0, enc_tx(tx), enc_message(m));
    lemma_rt_tx(s, 0, tx);
    lemma_rt_message(s, 17, m);
}

// ---- executable encoding ----

fn write_u8(out: &mut Vec<u8>, b: u8)
    ensures
        final(out)@ == old(out)@ + seq![b],
{
    out.push(b);
}

fn write_tx(out: &mut Vec<u8>, t: Transaction)
    ensures
        final(out)@ == old(out)@ + enc_tx(t),
{
    let lo = (t.uuid % 0x1_0000_0000_0000_0000u128) as u64;
    let hi = (t.uuid / 0x1_0000_0000_0000_0000u128) as u64;
    write_le(out, lo, 8);
    write_le(out, hi, 8);
    write_u8(out, t.type_tag);
    assert(out@ =~= old(out)@ + enc_tx(t));
}

fn write_peer(out: &mut Vec<u8>, p: PeerKey)
    ensures
        final(out)@ == old(out)@ + enc_peer(p),
{
    write_le(out, 8, 2);
    write_le(out, p.id, 8);
    assert(out@ =~= old(out)@ + enc_peer(p));
}

fn write_loc(out: &mut Vec<u8>, l: Location)
    ensures
        final(out)@ == old(out)@ + enc_loc(l),
{
    let bits = l.to_f64_bits();
    write_le(out, bits, 8);
}

fn write_opt_loc(out: &mut Vec<u8>, o: Option<Location>)
    ensures
        final(out)@ == old(out)@ + enc_opt_loc(o),
{
    match o {
        None => write_u8(out, 0),
        Some(l) => {
            write_u8(out, 1);
            write_loc(out, l);
            assert(out@ =~= old(out)@ + enc_opt_loc(o));
        },
    }
}

fn write_pkl(out: &mut Vec<u8>, p: PeerKeyLocation)
    ensures
        final(out)@ == old(out)@ + enc_pkl(p),
{
    write_peer(out, p.peer);
    write_opt_loc(out, p.location);
    assert(out@ =~= old(out)@ + enc_pkl(p));
}

fn write_pkls(out: &mut Vec<u8>, items: &Vec<PeerKeyLocation>)
    requires
        items@.len() < 0x1_0000_0000,
    ensures
        final(out)@ == old(out)@ + enc_pkls(items@),
{
    write_le(out, items.len() as u64, 4);
    let ghost head = out@;
    let mut i: usize = 0;
    while i < items.len()
        invariant
            i <= items@.len(),
            out@ == head + enc_pkl_items(items@.subrange(0, i as int)),
        decreases items@.len() - i,
    {
        write_pkl(out, items[i]);
        let ghost pre = items@.subrange(0, i as int);
        let ghost next = items@.subrange(0, i + 1);
        assert(next.drop_last() =~= pre);
        assert(out@ =~= head + enc_pkl_items(next));
        i = i + 1;
    }
    assert(items@.subrange(0, i as int) =~= items@);
    assert(out@ =~= old(out)@ + enc_pkls(items@));
}

fn write_usize(out: &mut Vec<u8>, n: usize)
    ensures
        final(out)@ == old(out)@ + enc_usize(n),
{
    write_le(out, n as u64, 8);
}

fn write_request(out: &mut Vec<u8>, r: &JoinRequest)
    ensures
        final(out)@ == old(out)@ + enc_request(*r),
{
    match r {
        JoinRequest::Initial { target_loc, req_peer, hops_to_live, max_hops_to_live } => {
            write_u8(out, 0);
            write_pkl(out, *target_loc);
            write_peer(out, *req_peer);
            write_usize(out, *hops_to_live);
            write_usize(out, *max_hops_to_live);
        },
        JoinRequest::Proxy { joiner, hops_to_live } => {
            write_u8(out, 1);
            write_pkl(out, *joiner);
            write_usize(out, *hops_to_live);
        },
    }
    assert(out@ =~= old(out)@ + enc_request(*r));
}

fn write_response(out: &mut Vec<u8>, r: &JoinResponse)
    requires
        encodable(MessageView::JoinRing(JoinRingMsgView::Resp { id: Transaction { uuid: 0, type_tag: 0 }, sender: PeerKeyLocation { peer: PeerKey { id: 0 }, location: None }, msg: r@ })),
    ensures
        final(out)@ == old(out)@ + enc_response(r@),
{
    match r {
        JoinResponse::Initial { accepted_by, your_location, your_peer_id } => {
            write_u8(out, 0);
            write_pkls(out, accepted_by);
            write_loc(out, *your_location);
            write_peer(out, *your_peer_id);
        },
        JoinResponse::ReceivedOC { by_peer } => {
            write_u8(out, 1);
            write_pkl(out, *by_peer);
        },
        JoinResponse::Proxy { accepted_by } => {
            write_u8(out, 2);
            write_pkls(out, accepted_by);
        },
    }
    assert(out@ =~= old(out)@ + enc_response(r@));
}

fn write_message(out: &mut Vec<u8>, m: &Message)
    requires
        encodable(m@),
    ensures
        final(out)@ == old(out)@ + enc_message(m@),
{
    match m {
        Message::JoinRing(j) => {
            write_u8(out, 0);
            match j {
                JoinRingMsg::Req { id, msg } => {
                    write_u8(out, 0);
                    write_tx(out, *id);
                    write_request(out, msg);
                },
                JoinRingMsg::Resp { id, sender, msg } => {
                    write_u8(out, 1);
                    write_tx(out, *id);
                    write_pkl(out, *sender);
                    write_response(out, msg);
                },
                JoinRingMsg::Connected => {
                    write_u8(out, 2);
                },
            }
        },
        Message::Canceled(t) => {
            write_u8(out, 1);
            write_tx(out, *t);
        },
    }
    assert(out@ =~= old(out)@ + enc_message(m@));
}

fn pkls_fit(items: &Vec<PeerKeyLocation>) -> (r: bool)
    ensures
        r == (items@.len() < 0x1_0000_0000),
{
    (items.len() as u64) < 0x1_0000_0000u64
}

/// Whether every vector of `m` can be counted in 32 bits.
pub fn is_encodable(m: &Message) -> (r: bool)
    ensures
        r == encodable(m@),
{
    match m {
        Message::JoinRing(JoinRingMsg::Resp { msg: JoinResponse::Initial { accepted_by, .. }, .. }) => pkls_fit(accepted_by),
        Message::JoinRing(JoinRingMsg::Resp { msg: JoinResponse::Proxy { accepted_by }, .. }) => pkls_fit(accepted_by),
        _ => true,
    }
}

/// The frame carrying `m` in transaction `tx`; `None` when a vector of the
/// message is too long for its 32-bit count.
pub fn encode_frame(tx: Transaction, m: &Message) -> (r: Option<Vec<u8>>)
    ensures
        encodable(m@) ==> (r matches Some(bytes) && bytes@ == enc_frame(tx, m@)),
        !encodable(m@) ==> r is None,
{
    if !is_encodable(m) {
        return None;
    }
    let mut out: Vec<u8> = Vec::new();
    write_tx(&mut out, tx);
    write_message(&mut out, m);
    assert(out@ =~= enc_frame(tx, m@));
    Some(out)
}

// ---- executable decoding ----

fn get_le(buf: &[u8], off: usize, k: usize) -> (r: Option<(u64, usize)>)
    requires
        k <= 8,
    ensures
        match dec_le(buf@, off as int, k as nat) {
            Some((v, o)) => r matches Some((x, n)) && x as nat == v && n == o,
            None => r is None,
        },
{
    if off > buf.len() || k > buf.len() - off {
        return None;
    }
    let v = read_le(buf, off, k);
    Some((v, off + k))
}

fn get_u8(buf: &[u8], off: usize) -> (r: Option<(u8, usize)>)
    ensures
        match dec_u8(buf@, off as int) {
            Some((v, o)) => r matches Some((x, n)) && x == v && n == o,
            None => r is None,
        },
{
    if off >= buf.len() {
        return None;
    }
    Some((buf[off], off + 1))
}

fn read_tx(buf: &[u8], off: usize) -> (r: Option<(Transaction, usize)>)
    ensures
        match dec_tx(buf@, off as int) {
            Some((v, o)) => r matches Some((x, n)) && x == v && n == o,
            None => r is None,
        },
{
    let (lo, o1) = get_le(buf, off, 8)?;
    let (hi, o2) = get_le(buf, o1, 8)?;
    let (tag, o3) = get_u8(buf, o2)?;
    let uuid = (hi as u128) * 0x1_0000_0000_0000_0000u128 + lo as u128;
    Some((Transaction { uuid, type_tag: tag }, o3))
}

fn read_peer(buf: &[u8], off: usize) -> (r: Option<(PeerKey, usize)>)
    ensures
        match dec_peer(buf@, off as int) {
            Some((v, o)) => r matches Some((x, n)) && x == v && n == o,
            None => r is None,
        },
{
    let (len, o1) = get_le(buf, off, 2)?;
    if len != 8 {
        return None;
    }
    let (id, o2) = get_le(buf, o1, 8)?;
    Some((PeerKey { id }, o2))
}

fn read_loc(buf: &[u8], off: usize) -> (r: Option<(Location, usize)>)
    ensures
        match dec_loc(buf@, off as int) {
            Some((v, o)) => r matches Some((x, n)) && x == v && n == o,
            None => r is None,
        },
{
    let (bits, o1) = get_le(buf, off, 8)?;
    let l = Location::from_f64_bits(bits)?;
    Some((l, o1))
}

fn read_opt_loc(buf: &[u8], off: usize) -> (r: Option<(Option<Location>, usize)>)
    ensures
        match dec_opt_loc(buf@, off as int) {
            Some((v, o)) => r matches Some((x, n)) && x == v && n == o,
            None => r is None,
        },
{
    let (tag, o1) = get_u8(buf, off)?;
    if tag == 0 {
        Some((None, o1))
    } else if tag == 1 {
        let (l, o2) = read_loc(buf, o1)?;
        Some((Some(l), o2))
    } else {
        None
    }
}

fn read_pkl(buf: &[u8], off: usize) -> (r: Option<(PeerKeyLocation, usize)>)
    ensures
        match dec_pkl(buf@, off as int) {
            Some((v, o)) => r matches Some((x, n)) && x == v && n == o,
            None => r is None,
        },
{
    let (peer, o1) = read_peer(buf, off)?;
    let (location, o2) = read_opt_loc(buf, o1)?;
    Some((PeerKeyLocation { peer, location }, o2))
}

proof fn lemma_items_fail(s: Seq<u8>, off: int, m: nat, n: nat)
    requires
        m <= n,
        dec_pkl_items(s, off, m) is None,
    ensures
        dec_pkl_items(s, off, n) is None,
    decreases n,
{
    if m < n {
        lemma_items_fail(s, off, m, (n - 1) as nat);
    }
}

fn read_pkls(buf: &[u8], off: usize) -> (r: Option<(Vec<PeerKeyLocation>, usize)>)
    ensures
        match dec_pkls(buf@, off as int) {
            Some((v, o)) => r matches Some((x, n)) && x@ == v && n == o,
            None => r is None,
        },
{
    let (count, o1) = get_le(buf, off, 4)?;
    let ghost n = count as nat;
    let mut items: Vec<PeerKeyLocation> = Vec::new();
    let mut cur = o1;
    let mut i: u64 = 0;
    while i < count
        invariant
            i <= count,
            n == count as nat,
            dec_le(buf@, off as int, 4) == Some((n, o1 as int)),
            dec_pkl_items(buf@, o1 as int, i as nat) == Some((items@, cur as int)),
        decreases count - i,
    {
        match read_pkl(buf, cur) {
            Some((p, next)) => {
                let ghost before = items@;
                items.push(p);
                cur = next;
                i = i + 1;
                assert(dec_pkl_items(buf@, o1 as int, i as nat) == Some((before.push(p), next as int)));
            },
            None => {
                proof {
                    assert(dec_pkl_items(buf@, o1 as int, (i + 1) as nat) is None);
                    lemma_items_fail(buf@, o1 as int, (i + 1) as nat, n);
                }
                return None;
            },
        }
    }
    Some((items, cur))
}

fn read_usize(buf: &[u8], off: usize) -> (r: Option<(usize, usize)>)
    ensures
        match dec_usize(buf@, off as int) {
            Some((v, o)) => r matches Some((x, n)) && x == v && n == o,
            None => r is None,
        },
{
    let (v, o1) = get_le(buf, off, 8)?;
    if v > usize::MAX as u64 {
        return None;
    }
    Some((v as usize, o1))
}

fn read_request(buf: &[u8], off: usize) -> (r: Option<(JoinRequest, usize)>)
    ensures
        match dec_request(buf@, off as int) {
            Some((v, o)) => r matches Some((x, n)) && x == v && n == o,
            None => r is None,
        },
{
    let (tag, o1) = get_u8(buf, off)?;
    if tag == 0 {
        let (target_loc, o2) = read_pkl(buf, o1)?;
        let (req_peer, o3) = read_peer(buf, o2)?;
        let (hops_to_live, o4) = read_usize(buf, o3)?;
        let (max_hops_to_live, o5) = read_usize(buf, o4)?;
        Some((JoinRequest::Initial { target_loc, req_peer, hops_to_live, max_hops_to_live }, o5))
    } else if tag == 1 {
        let (joiner, o2) = read_pkl(buf, o1)?;
        let (hops_to_live, o3) = read_usize(buf, o2)?;
        Some((JoinRequest::Proxy { joiner, hops_to_live }, o3))
    } else {
        None
    }
}

fn read_response(buf: &[u8], off: usize) -> (r: Option<(JoinResponse, usize)>)
    ensures
        match dec_response(buf@, off as int) {
            Some((v, o)) => r matches Some((x, n)) && x@ == v && n == o,
            None => r is None,
        },
{
    let (tag, o1) = get_u8(buf, off)?;
    if tag == 0 {
        let (accepted_by, o2) = read_pkls(buf, o1)?;
        let (your_location, o3) = read_loc(buf, o2)?;
        let (your_peer_id, o4) = read_peer(buf, o3)?;
        Some((JoinResponse::Initial { accepted_by, your_location, your_peer_id }, o4))
    } else if tag == 1 {
        let (by_peer, o2) = read_pkl(buf, o1)?;
        Some((JoinResponse::ReceivedOC { by_peer }, o2))
    } else if tag == 2 {
        let (accepted_by, o2) = read_pkls(buf, o1)?;
        Some((JoinResponse::Proxy { accepted_by }, o2))
    } else {
        None
    }
}

fn read_jr(buf: &[u8], off: usize) -> (r: Option<(JoinRingMsg, usize)>)
    ensures
        match dec_jr(buf@, off as int) {
            Some((v, o)) => r matches Some((x, n)) && x@ == v && n == o,
            None => r is None,
        },
{
    let (tag, o1) = get_u8(buf, off)?;
    if tag == 0 {
        let (id, o2) = read_tx(buf, o1)?;
        let (msg, o3) = read_request(buf, o2)?;
        Some((JoinRingMsg::Req { id, msg }, o3))
    } else if tag == 1 {
        let (id, o2) = read_tx(buf, o1)?;
        let (sender, o3) = read_pkl(buf, o2)?;
        let (msg, o4) = read_response(buf, o3)?;
        Some((JoinRingMsg::Resp { id, sender, msg }, o4))
    } else if tag == 2 {
        Some((JoinRingMsg::Connected, o1))
    } else {
        None
    }
}

fn read_message(buf: &[u8], off: usize) -> (r: Option<(Message, usize)>)
    ensures
        match dec_message(buf@, off as int) {
            Some((v, o)) => r matches Some((x, n)) && x@ == v && n == o,
            None => r is None,
        },
{
    let (tag, o1) = get_u8(buf, off)?;
    if tag == 0 {
        let (m, o2) = read_jr(buf, o1)?;
        Some((Message::JoinRing(m), o2))
    } else if tag == 1 {
        let (t, o2) = read_tx(buf, o1)?;
        Some((Message::Canceled(t), o2))
    } else {
        None
    }
}

/// Reads a whole frame; `None` when the bytes are not exactly one frame.
pub fn decode_frame(bytes: &[u8]) -> (r: Option<(Transaction, Message)>)
    ensures
        match dec_frame(bytes@) {
            Some((tx, m)) => r matches Some((t, x)) && t == tx && x@ == m,
            None => r is None,
        },
{
    let (tx, o1) = read_tx(bytes, 0)?;
    let (m, o2) = read_message(bytes, o1)?;
    if o2 != bytes.len() {
        return None;
    }
    Some((tx, m))
}

/// Decoding what `encode_frame` wrote gives back the transaction and a
/// message equal to the one written.
pub proof fn lemma_codec_round_trip(tx: Transaction, m: Message, bytes: Seq<u8>)
    requires
        encodable(m@),
        bytes == enc_frame(tx, m@),
    ensures
        dec_frame(bytes) == Some((tx, m@)),
{
    lemma_frame_round_trip(tx, m@);
}

} // verus!
