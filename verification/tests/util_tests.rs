use lan_chat::adapter::{parse_adapters, parse_ipv4, Adapter, Ipv4Octets};
use lan_chat::client_logic::{
    classify_received, decide_input, fetch_complete, interpret_name_reply, InputAction, NameReply,
    RecvAction,
};
use lan_chat::discovery::{discovery_request, handle_discovery_datagram, is_discovery_response};
use lan_chat::message::{i64_dec_string, Message};
use lan_chat::message_types::MessageType;
use lan_chat::numeral::{parse_dec, u64_to_dec};
use lan_chat::server_core::validate_username;

#[test]
fn message_type_tag_round_trip() {
    let kinds = [
        (MessageType::Ping, 0),
        (MessageType::Join, 1),
        (MessageType::Leave, 2),
        (MessageType::SetUsername, 3),
        (MessageType::UsernameTaken, 4),
        (MessageType::UsernameAvailable, 5),
        (MessageType::FetchMessages, 6),
        (MessageType::ClearToSend, 7),
        (MessageType::Message, 32),
    ];
    for (k, tag) in kinds {
        assert_eq!(k.as_int(), tag);
        assert_eq!(MessageType::from_int(tag), k);
    }
    // Unknown tags fall back to the chat kind.
    assert_eq!(MessageType::from_int(99), MessageType::Message);
    assert_eq!(MessageType::from_int(-1), MessageType::Message);
    assert_eq!(MessageType::Join.as_str(), "Join");
    assert_eq!(MessageType::ClearToSend.as_str(), "ClearToSend");
}

#[test]
fn decimal_numerals() {
    assert_eq!(u64_to_dec(0), b"0".to_vec());
    assert_eq!(u64_to_dec(12345), b"12345".to_vec());
    assert_eq!(u64_to_dec(u64::MAX), b"18446744073709551615".to_vec());
    assert_eq!(parse_dec(b"12345"), Some(12345));
    assert_eq!(parse_dec(b"0"), Some(0));
    assert_eq!(parse_dec(b""), None);
    assert_eq!(parse_dec(b"12x"), None);
    assert_eq!(parse_dec(b"18446744073709551615"), Some(u64::MAX));
    assert_eq!(parse_dec(b"18446744073709551616"), None);
    assert_eq!(i64_dec_string(-42), "-42");
    assert_eq!(i64_dec_string(0), "0");
    assert_eq!(i64_dec_string(i64::MIN), "-9223372036854775808");
}

#[test]
fn message_rendering_per_kind() {
    let m = Message::builder()
        .username(&"alice".to_string())
        .message(&"hi".to_string())
        .message_type(MessageType::Message)
        .build();
    assert_eq!(m.render("01:02:03 AM"), "[01:02:03 AM @ alice]: hi");
    let mk = |k: MessageType| {
        Message::builder()
            .username(&"alice".to_string())
            .message_type(k)
            .build()
    };
    assert_eq!(mk(MessageType::Join).to_string(), "[SERVER]: alice joined the chat");
    assert_eq!(mk(MessageType::Leave).to_string(), "[SERVER]: alice left the chat");
    assert_eq!(mk(MessageType::SetUsername).to_string(), "[SERVER]: username to alice");
    assert_eq!(mk(MessageType::UsernameAvailable).to_string(), "[SERVER]: alice is available");
    assert_eq!(mk(MessageType::UsernameTaken).to_string(), "[SERVER]: alice is not available");
    assert_eq!(mk(MessageType::FetchMessages).to_string(), "FetchMessages");
    assert_eq!(mk(MessageType::ClearToSend).to_string(), "ClearToSend");
    assert_eq!(mk(MessageType::Ping).render("17"), "Ping: 17");
}

#[test]
fn username_validation_rules() {
    assert!(validate_username("alice"));
    assert!(validate_username("abc"));
    assert!(validate_username("a_b-c.20_characters_"));
    assert!(!validate_username(""));
    assert!(!validate_username("ab"));
    assert!(!validate_username("123456789012345678901"));
    assert!(!validate_username("has space"));
    assert!(!validate_username("SERVER"));
    assert!(!validate_username("server"));
    assert!(!validate_username("sErVeR"));
    // The long s (U+017F) upper-cases to an ASCII S, so it spells the
    // reserved name too.
    assert!(!validate_username("\u{17f}erver"));
    assert!(!validate_username("\u{17f}ERVER"));
    // The reserved word only matches whole, in any case.
    assert!(validate_username("server1"));
}

#[test]
fn client_decisions() {
    assert!(matches!(decide_input(&"exit".to_string()), InputAction::Quit));
    assert!(matches!(decide_input(&"hello".to_string()), InputAction::Send));
    assert!(matches!(decide_input(&"".to_string()), InputAction::Send));

    assert!(matches!(classify_received(MessageType::Message), RecvAction::Display));
    assert!(matches!(classify_received(MessageType::Join), RecvAction::Display));
    assert!(matches!(classify_received(MessageType::Leave), RecvAction::Display));
    assert!(matches!(classify_received(MessageType::UsernameAvailable), RecvAction::Forward));
    assert!(matches!(classify_received(MessageType::UsernameTaken), RecvAction::Forward));
    assert!(matches!(classify_received(MessageType::ClearToSend), RecvAction::Forward));
    assert!(matches!(classify_received(MessageType::Ping), RecvAction::Ignore));
    assert!(matches!(classify_received(MessageType::SetUsername), RecvAction::Ignore));

    let granted = Message::builder()
        .username(&"alice".to_string())
        .message_type(MessageType::UsernameAvailable)
        .build();
    match interpret_name_reply(&granted) {
        NameReply::Accepted(u) => assert_eq!(u, "alice"),
        _ => panic!("grant must be accepted"),
    }
    let taken = Message::builder().message_type(MessageType::UsernameTaken).build();
    assert!(matches!(interpret_name_reply(&taken), NameReply::Rejected));
    let odd = Message::builder().message_type(MessageType::Ping).build();
    assert!(matches!(interpret_name_reply(&odd), NameReply::Unexpected));

    let cts = Message::builder().message_type(MessageType::ClearToSend).build();
    assert!(fetch_complete(&cts));
    assert!(!fetch_complete(&taken));
}

#[test]
fn discovery_exchange() {
    let req = discovery_request();
    assert_eq!(req, b"DISCOVER_CHAT_SERVER_REQUEST".to_vec());
    let reply = handle_discovery_datagram(req.as_slice()).expect("request must be answered");
    assert_eq!(reply, b"DISCOVER_CHAT_SERVER_RESPONSE".to_vec());
    assert!(handle_discovery_datagram(b"something else").is_none());
    assert!(handle_discovery_datagram(b"DISCOVER_CHAT_SERVER_REQUEST ").is_none());

    assert!(is_discovery_response(b"DISCOVER_CHAT_SERVER_RESPONSE"));
    assert!(is_discovery_response(b"  DISCOVER_CHAT_SERVER_RESPONSE\r\n"));
    assert!(!is_discovery_response(b"DISCOVER_CHAT_SERVER_REQUEST"));
}

#[test]
fn ipv4_parsing() {
    assert_eq!(
        parse_ipv4(b"192.168.1.2"),
        Some(Ipv4Octets { o0: 192, o1: 168, o2: 1, o3: 2 })
    );
    assert_eq!(parse_ipv4(b"0.0.0.0"), Some(Ipv4Octets { o0: 0, o1: 0, o2: 0, o3: 0 }));
    assert_eq!(
        parse_ipv4(b"255.255.255.255"),
        Some(Ipv4Octets { o0: 255, o1: 255, o2: 255, o3: 255 })
    );
    assert_eq!(parse_ipv4(b"256.0.0.1"), None);
    assert_eq!(parse_ipv4(b"1.2.3"), None);
    assert_eq!(parse_ipv4(b"1.2.3.4.5"), None);
    assert_eq!(parse_ipv4(b"01.2.3.4"), None);
    assert_eq!(parse_ipv4(b"a.b.c.d"), None);
    assert_eq!(parse_ipv4(b""), None);
}

#[test]
fn broadcast_address_computation() {
    let adapter = Adapter {
        name: b"Ethernet".to_vec(),
        ipv4_address: Some(Ipv4Octets { o0: 192, o1: 168, o2: 1, o3: 2 }),
        subnet_mask: Some(Ipv4Octets { o0: 255, o1: 255, o2: 255, o3: 0 }),
    };
    assert_eq!(
        adapter.broadcast_address(),
        Some(Ipv4Octets { o0: 192, o1: 168, o2: 1, o3: 255 })
    );
    let incomplete = Adapter { name: b"lo".to_vec(), ipv4_address: None, subnet_mask: None };
    assert_eq!(incomplete.broadcast_address(), None);
}

#[test]
fn adapter_listing_walk() {
    let listing = b"\r\nWindows IP Configuration\r\n\r\nEthernet adapter Ethernet:\r\n\r\n   IPv4 Address. . . . . . . . . . . : 192.168.1.7 (Preferred)\r\n   Subnet Mask . . . . . . . . . . . : 255.255.255.0\r\n\r\nWireless LAN adapter Wi-Fi:\r\n\r\n   Media State . . . . . . . . . . . : Media disconnected\r\n";
    let adapters = parse_adapters(listing);
    assert_eq!(adapters.len(), 1);
    assert_eq!(adapters[0].name, b"Ethernet adapter Ethernet".to_vec());
    assert_eq!(adapters[0].ipv4_address, Some(Ipv4Octets { o0: 192, o1: 168, o2: 1, o3: 7 }));
    assert_eq!(adapters[0].subnet_mask, Some(Ipv4Octets { o0: 255, o1: 255, o2: 255, o3: 0 }));
}
