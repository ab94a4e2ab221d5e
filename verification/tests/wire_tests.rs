use lan_chat::message::Message;
use lan_chat::message_types::MessageType;
use lan_chat::wire::{encode_frame, encode_message, decode_message, DecodeStep, Decoder};

fn chat_message(user: &str, body: &str, kind: MessageType) -> Message {
    Message::builder()
        .username(&user.to_string())
        .message(&body.to_string())
        .message_type(kind)
        .build()
}

#[test]
fn encode_decode_round_trip() {
    let m = chat_message("alice", "hi", MessageType::Message);
    let bytes = encode_message(&m);
    let back = decode_message(bytes.as_slice()).expect("own encoding must decode");
    assert_eq!(m, back);
}

#[test]
fn encode_decode_round_trip_every_kind() {
    let kinds = [
        MessageType::Ping,
        MessageType::Join,
        MessageType::Leave,
        MessageType::SetUsername,
        MessageType::UsernameTaken,
        MessageType::UsernameAvailable,
        MessageType::FetchMessages,
        MessageType::ClearToSend,
        MessageType::Message,
    ];
    for kind in kinds {
        let m = chat_message("bob", "some text, with punctuation!", kind);
        let back = decode_message(encode_message(&m).as_slice()).unwrap();
        assert_eq!(m, back);
    }
}

#[test]
fn encode_decode_round_trip_unicode_and_empty() {
    let m = chat_message("ren\u{00e9}e", "", MessageType::Message);
    let back = decode_message(encode_message(&m).as_slice()).unwrap();
    assert_eq!(m, back);
    let m2 = chat_message("", "\u{1f600} caf\u{00e9}\nsecond line", MessageType::Join);
    let back2 = decode_message(encode_message(&m2).as_slice()).unwrap();
    assert_eq!(m2, back2);
}

#[test]
fn record_shape_is_textual() {
    let mut m = chat_message("ab", "xyz", MessageType::Message);
    m.timestamp = 7;
    let bytes = encode_message(&m);
    assert_eq!(bytes, b"32 7 2 3\nabxyz".to_vec());
    let mut neg = chat_message("", "", MessageType::Ping);
    neg.timestamp = -5;
    assert_eq!(encode_message(&neg), b"0 -5 0 0\n".to_vec());
}

#[test]
fn decode_rejects_malformed_records() {
    assert!(decode_message(b"").is_none());
    assert!(decode_message(b"garbage").is_none());
    // Missing body bytes: lengths do not use up the record.
    assert!(decode_message(b"32 7 2 3\nab").is_none());
    // Trailing garbage beyond the stated lengths.
    assert!(decode_message(b"32 7 2 3\nabxyzZZZ").is_none());
    // Non-numeric timestamp.
    assert!(decode_message(b"32 x7 2 3\nabxyz").is_none());
    // Sender bytes are not UTF-8.
    assert!(decode_message(b"32 7 2 3\n\xff\xfexyz").is_none());
}

#[test]
fn unknown_kind_tag_is_a_protocol_error() {
    // A record carrying an unassigned kind tag is an unrecognized kind:
    // the decoder must discard the unit, never hand it on as chat.
    assert!(decode_message(b"99 7 2 3\nabxyz").is_none());
    assert!(decode_message(b"8 7 0 0\n").is_none());
    assert!(decode_message(b"31 7 0 0\n").is_none());
    let mut d = Decoder::new();
    d.feed(b"9\n99 7 0 0\n");
    assert!(matches!(d.next(), DecodeStep::Discarded));
    // Every assigned tag still decodes.
    assert!(decode_message(b"32 7 0 0\n").is_some());
    assert!(decode_message(b"7 7 0 0\n").is_some());
}

#[test]
fn frame_round_trip_through_decoder() {
    let m = chat_message("alice", "hello there", MessageType::Message);
    let frame = encode_frame(&m);
    let mut d = Decoder::new();
    assert!(matches!(d.next(), DecodeStep::NeedMore));
    d.feed(frame.as_slice());
    match d.next() {
        DecodeStep::Ready(back) => assert_eq!(m, back),
        _ => panic!("expected one decoded frame"),
    }
    assert!(matches!(d.next(), DecodeStep::NeedMore));
}

#[test]
fn split_frame_decodes_identically() {
    // Splitting the byte stream at any boundary must not change what is
    // decoded: the receive buffer accumulates partial frames.
    let m = chat_message("carol", "fragmented delivery", MessageType::Message);
    let frame = encode_frame(&m);
    for cut in 0..frame.len() + 1 {
        let mut d = Decoder::new();
        d.feed(&frame[..cut]);
        let mut early = Vec::new();
        loop {
            match d.next() {
                DecodeStep::Ready(x) => early.push(x),
                DecodeStep::Discarded => panic!("nothing to discard"),
                DecodeStep::NeedMore => break,
            }
        }
        d.feed(&frame[cut..]);
        loop {
            match d.next() {
                DecodeStep::Ready(x) => early.push(x),
                DecodeStep::Discarded => panic!("nothing to discard"),
                DecodeStep::NeedMore => break,
            }
        }
        assert_eq!(early.len(), 1, "cut at {cut}");
        assert_eq!(early[0], m, "cut at {cut}");
    }
}

#[test]
fn coalesced_frames_decode_in_order() {
    // One read may carry several complete logical messages.
    let m1 = chat_message("a", "first", MessageType::Message);
    let m2 = chat_message("b", "second", MessageType::Message);
    let mut bytes = encode_frame(&m1);
    bytes.extend_from_slice(encode_frame(&m2).as_slice());
    let mut d = Decoder::new();
    d.feed(bytes.as_slice());
    match d.next() {
        DecodeStep::Ready(x) => assert_eq!(x, m1),
        _ => panic!("first frame"),
    }
    match d.next() {
        DecodeStep::Ready(x) => assert_eq!(x, m2),
        _ => panic!("second frame"),
    }
    assert!(matches!(d.next(), DecodeStep::NeedMore));
}

#[test]
fn malformed_units_are_discarded_not_fatal() {
    let mut d = Decoder::new();
    // A length line that is not a numeral is dropped through its line feed.
    d.feed(b"notalength\n");
    assert!(matches!(d.next(), DecodeStep::Discarded));
    // A well-framed but unparsable record is dropped too.
    d.feed(b"3\nabc");
    assert!(matches!(d.next(), DecodeStep::Discarded));
    // The stream then carries on with a good frame.
    let m = chat_message("dave", "still alive", MessageType::Message);
    d.feed(encode_frame(&m).as_slice());
    match d.next() {
        DecodeStep::Ready(x) => assert_eq!(x, m),
        _ => panic!("recovered frame"),
    }
}
