use lan_chat::message::Message;
use lan_chat::message_types::MessageType;
use lan_chat::server_core::{remove_client, Delivery, ServerCore, SessionState};

fn set_username_request(name: &str) -> Message {
    Message::builder()
        .username(&name.to_string())
        .message_type(MessageType::SetUsername)
        .build()
}

fn chat(user: &str, body: &str) -> Message {
    Message::builder()
        .username(&user.to_string())
        .message(&body.to_string())
        .message_type(MessageType::Message)
        .build()
}

fn targets(out: &[Delivery]) -> Vec<u64> {
    out.iter().map(|d| d.target).collect()
}

#[test]
fn username_uniqueness() {
    // At most one session holds a name; a second request for a held
    // name always yields UsernameTaken.
    let mut core = ServerCore::new();
    let a = core.register();
    let b = core.register();
    let out = core.handle_message(a, &set_username_request("alice"));
    assert_eq!(targets(&out), vec![a]);
    assert_eq!(out[0].msg.get_type(), MessageType::UsernameAvailable);
    assert_eq!(out[0].msg.get_username(), "alice");

    let out = core.handle_message(b, &set_username_request("alice"));
    assert_eq!(targets(&out), vec![b]);
    assert_eq!(out[0].msg.get_type(), MessageType::UsernameTaken);

    let out = core.handle_message(b, &set_username_request("bob"));
    assert_eq!(out[0].msg.get_type(), MessageType::UsernameAvailable);
    assert_eq!(core.sessions[0].username, "alice");
    assert_eq!(core.sessions[1].username, "bob");
}

#[test]
fn reserved_name_rejected_in_any_case() {
    let mut core = ServerCore::new();
    let a = core.register();
    for name in ["SERVER", "server", "SeRvEr", "sErVeR"] {
        let out = core.handle_message(a, &set_username_request(name));
        assert_eq!(out[0].msg.get_type(), MessageType::UsernameTaken, "{name}");
    }
    assert_eq!(core.sessions[0].username, "");
    assert_eq!(core.sessions[0].state, SessionState::Negotiating);
}

#[test]
fn invalid_name_formats_rejected() {
    let mut core = ServerCore::new();
    let a = core.register();
    for name in ["", "ab", "has space", "123456789012345678901"] {
        let out = core.handle_message(a, &set_username_request(name));
        assert_eq!(out[0].msg.get_type(), MessageType::UsernameTaken, "{name:?}");
    }
    let out = core.handle_message(a, &set_username_request("ok_name"));
    assert_eq!(out[0].msg.get_type(), MessageType::UsernameAvailable);
    assert_eq!(core.sessions[0].state, SessionState::Active);
}

#[test]
fn broadcast_excludes_origin() {
    // A session never receives its own chat broadcast back.
    let mut core = ServerCore::new();
    let a = core.register();
    let b = core.register();
    let c = core.register();
    let out = core.handle_message(a, &chat("alice", "hi"));
    assert_eq!(targets(&out), vec![b, c]);
    assert!(out.iter().all(|d| d.target != a));
    for d in &out {
        assert_eq!(d.msg.get_message(), "hi");
    }
}

#[test]
fn broadcasts_arrive_in_one_total_order() {
    // Two observers both see m1 before m2 when m1 was dispatched first.
    let mut core = ServerCore::new();
    let a = core.register();
    let b = core.register();
    let c = core.register();
    let first = core.handle_message(a, &chat("alice", "m1"));
    let second = core.handle_message(b, &chat("bob", "m2"));
    // Deliveries of one dispatch go out before the next dispatch runs;
    // per observer that is m1 then m2.
    let to_c_first: Vec<&Delivery> = first.iter().filter(|d| d.target == c).collect();
    let to_c_second: Vec<&Delivery> = second.iter().filter(|d| d.target == c).collect();
    assert_eq!(to_c_first.len(), 1);
    assert_eq!(to_c_second.len(), 1);
    assert_eq!(to_c_first[0].msg.get_message(), "m1");
    assert_eq!(to_c_second[0].msg.get_message(), "m2");
    // The history log records the same order.
    assert_eq!(core.history[0].msg.get_message(), "m1");
    assert_eq!(core.history[1].msg.get_message(), "m2");
}

#[test]
fn fetch_messages_returns_snapshot_then_clear_to_send() {
    let mut core = ServerCore::new();
    let a = core.register();
    let b = core.register();
    core.handle_message(a, &chat("alice", "one"));
    core.handle_message(a, &chat("alice", "two"));
    let c = core.register();
    let out = core.handle_message(c, &Message::builder().message_type(MessageType::FetchMessages).build());
    assert_eq!(out.len(), 3);
    assert!(out.iter().all(|d| d.target == c));
    assert_eq!(out[0].msg.get_message(), "one");
    assert_eq!(out[1].msg.get_message(), "two");
    assert_eq!(out[2].msg.get_type(), MessageType::ClearToSend);
    // Nothing broadcast after the snapshot is missing or repeated: the
    // next live message follows the snapshot exactly once.
    let out = core.handle_message(b, &chat("bob", "three"));
    let to_c: Vec<&Delivery> = out.iter().filter(|d| d.target == c).collect();
    assert_eq!(to_c.len(), 1);
    assert_eq!(to_c[0].msg.get_message(), "three");
}

#[test]
fn disconnect_cleans_up_exactly_once() {
    let mut core = ServerCore::new();
    let a = core.register();
    let b = core.register();
    core.handle_message(a, &set_username_request("alice"));
    let out = core.handle_disconnect(a);
    // One Leave, delivered to the others only.
    assert_eq!(targets(&out), vec![b]);
    assert_eq!(out[0].msg.get_type(), MessageType::Leave);
    assert_eq!(out[0].msg.get_username(), "alice");
    assert!(!core.session_exists(a));
    assert_eq!(core.history.len(), 1);
    // A second disconnect for the same id finds nothing to do.
    let out = core.handle_disconnect(a);
    assert!(out.is_empty());
    assert_eq!(core.history.len(), 1);
}

#[test]
fn remove_client_is_idempotent() {
    let mut core = ServerCore::new();
    let a = core.register();
    let b = core.register();
    remove_client(&mut core, a);
    assert!(!core.session_exists(a));
    assert!(core.session_exists(b));
    remove_client(&mut core, a);
    assert!(core.session_exists(b));
    assert_eq!(core.sessions.len(), 1);
}

#[test]
fn unknown_kinds_are_ignored() {
    let mut core = ServerCore::new();
    let a = core.register();
    let out = core.handle_message(a, &Message::builder().message_type(MessageType::Ping).build());
    assert!(out.is_empty());
    assert_eq!(core.history.len(), 0);
}

#[test]
fn full_session_scenario() {
    // A claims "alice", B fails on "alice" then claims "bob"; A chats;
    // B (not A) receives it; A disconnects; B gets the Leave; a fresh C
    // fetches history: the chat and the Leave, then ClearToSend.
    let mut core = ServerCore::new();
    let a = core.register();
    let b = core.register();

    let out = core.handle_message(a, &set_username_request("alice"));
    assert_eq!(out[0].msg.get_type(), MessageType::UsernameAvailable);
    let out = core.handle_message(b, &set_username_request("alice"));
    assert_eq!(out[0].msg.get_type(), MessageType::UsernameTaken);
    let out = core.handle_message(b, &set_username_request("bob"));
    assert_eq!(out[0].msg.get_type(), MessageType::UsernameAvailable);

    let out = core.handle_message(a, &chat("alice", "hi"));
    assert_eq!(targets(&out), vec![b]);
    let rendered = out[0].msg.render("12:00:00 PM");
    assert_eq!(rendered, "[12:00:00 PM @ alice]: hi");

    let out = core.handle_disconnect(a);
    assert_eq!(targets(&out), vec![b]);
    assert_eq!(out[0].msg.get_type(), MessageType::Leave);
    assert_eq!(out[0].msg.get_username(), "alice");
    assert_eq!(out[0].msg.render(""), "[SERVER]: alice left the chat");

    let c = core.register();
    let out = core.handle_message(c, &Message::builder().message_type(MessageType::FetchMessages).build());
    assert_eq!(out.len(), 3);
    assert_eq!(out[0].msg.get_message(), "hi");
    assert_eq!(out[1].msg.get_type(), MessageType::Leave);
    assert_eq!(out[2].msg.get_type(), MessageType::ClearToSend);
}
