use locutus::codec::{decode_frame, encode_frame};
use locutus::dispatcher::Message;
use locutus::join_ring::{JoinRequest, JoinResponse, JoinRingMsg, Transaction};
use locutus::location::Location;
use locutus::ring::{PeerKey, PeerKeyLocation};

fn pkl(id: u64, pos: Option<u32>) -> PeerKeyLocation {
    PeerKeyLocation { peer: PeerKey { id }, location: pos.map(Location::new) }
}

fn round_trip(tx: Transaction, m: Message) {
    let bytes = encode_frame(tx, &m).unwrap();
    assert_eq!(decode_frame(&bytes), Some((tx, m)));
}

#[test]
fn frames_round_trip() {
    let tx = Transaction { uuid: 0x0123_4567_89ab_cdef_0011_2233_4455_6677, type_tag: 0 };
    round_trip(tx, Message::Canceled(tx));
    round_trip(tx, Message::JoinRing(JoinRingMsg::Connected));
    round_trip(tx, Message::JoinRing(JoinRingMsg::Req {
        id: tx,
        msg: JoinRequest::Initial { target_loc: pkl(1, Some(0x8000_0000)), req_peer: PeerKey { id: 2 }, hops_to_live: 10, max_hops_to_live: 10 },
    }));
    round_trip(tx, Message::JoinRing(JoinRingMsg::Req { id: tx, msg: JoinRequest::Proxy { joiner: pkl(3, Some(12345)), hops_to_live: 1 } }));
    round_trip(tx, Message::JoinRing(JoinRingMsg::Resp {
        id: tx,
        sender: pkl(1, None),
        msg: JoinResponse::Initial { accepted_by: vec![pkl(4, Some(1)), pkl(5, None)], your_location: Location::new(u32::MAX), your_peer_id: PeerKey { id: 6 } },
    }));
    round_trip(tx, Message::JoinRing(JoinRingMsg::Resp { id: tx, sender: pkl(1, Some(7)), msg: JoinResponse::ReceivedOC { by_peer: pkl(8, Some(9)) } }));
    round_trip(tx, Message::JoinRing(JoinRingMsg::Resp { id: tx, sender: pkl(1, Some(7)), msg: JoinResponse::Proxy { accepted_by: vec![] } }));
}

#[test]
fn wire_layout() {
    let tx = Transaction { uuid: 1, type_tag: 2 };
    let bytes = encode_frame(tx, &Message::Canceled(tx)).unwrap();
    let mut expected = vec![1u8];
    expected.extend_from_slice(&[0; 15]);
    expected.push(2);
    expected.push(1);
    expected.push(1);
    expected.extend_from_slice(&[0; 15]);
    expected.push(2);
    assert_eq!(bytes, expected);
    let m = Message::JoinRing(JoinRingMsg::Req { id: tx, msg: JoinRequest::Proxy { joiner: pkl(5, Some(0x8000_0000)), hops_to_live: 3 } });
    let bytes = encode_frame(tx, &m).unwrap();
    // frame tx, message tag, join-ring tag, tx, request tag
    let peer_at = 17 + 1 + 1 + 17 + 1;
    assert_eq!(&bytes[peer_at..peer_at + 2], &[8, 0]);
    assert_eq!(&bytes[peer_at + 2..peer_at + 10], &5u64.to_le_bytes());
    assert_eq!(bytes[peer_at + 10], 1);
    assert_eq!(&bytes[peer_at + 11..peer_at + 19], &0.5f64.to_bits().to_le_bytes());
    assert_eq!(&bytes[peer_at + 19..], &3u64.to_le_bytes());
}

#[test]
fn malformed_frames_are_refused() {
    let tx = Transaction { uuid: 1, type_tag: 2 };
    let bytes = encode_frame(tx, &Message::JoinRing(JoinRingMsg::Connected)).unwrap();
    assert!(decode_frame(&bytes[..bytes.len() - 1]).is_none());
    let mut longer = bytes.clone();
    longer.push(0);
    assert!(decode_frame(&longer).is_none());
    let mut bad_tag = bytes.clone();
    bad_tag[17] = 9;
    assert!(decode_frame(&bad_tag).is_none());
    assert!(decode_frame(&[]).is_none());
}
