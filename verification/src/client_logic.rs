//! The client's decisions, separated from its sockets and console: what
//! to do with one line of input, with one message received from the
//! server, and with the reply to a negotiation or history-sync request.

use vstd::prelude::*;
use vstd::string::StringExecFns;

use crate::message::Message;
use crate::message_types::MessageType;
use crate::server_core::is_chat_kind;

verus! {

/// What one line of console input asks for.
pub enum InputAction {
    /// Close the connection and leave.
    Quit,
    /// Send the line as a chat message.
    Send,
}

/// Decide on one trimmed line of console input: the exit word closes
/// the session, anything else is sent as chat.
pub fn decide_input(line: &String) -> (r: InputAction)
    ensures
        r is Quit <==> line@ == "exit"@,
{
    let quit_word = String::from_str("exit");
    if line.eq(&quit_word) {
        InputAction::Quit
    } else {
        InputAction::Send
    }
}

/// What the receive loop does with one decoded message.
pub enum RecvAction {
    /// Chat traffic: render it to the console.
    Display,
    /// A negotiation or sync reply: hand it to the waiting requester.
    Forward,
    /// Anything else: drop it.
    Ignore,
}

/// Classify one received message for the client's receive loop.
pub fn classify_received(kind: MessageType) -> (r: RecvAction)
    ensures
        r is Display <==> is_chat_kind(kind),
        r is Forward <==> (kind == MessageType::UsernameAvailable || kind
            == MessageType::UsernameTaken || kind == MessageType::ClearToSend),
{
    match kind {
        MessageType::Message | MessageType::Join | MessageType::Leave => RecvAction::Display,
        MessageType::UsernameAvailable | MessageType::UsernameTaken | MessageType::ClearToSend
            => RecvAction::Forward,
        _ => RecvAction::Ignore,
    }
}

/// The outcome of one username request, read off the server's reply.
pub enum NameReply {
    /// The name was granted; carry the name the server confirmed.
    Accepted(String),
    /// The name is taken or was refused; pick another and retry.
    Rejected,
    /// Not a negotiation reply at all.
    Unexpected,
}

/// Interpret the server's reply to a `SetUsername` request.
pub fn interpret_name_reply(msg: &Message) -> (r: NameReply)
    ensures
        msg@.kind == MessageType::UsernameAvailable ==> (r matches NameReply::Accepted(u) && u@
            == msg@.username),
        msg@.kind == MessageType::UsernameTaken ==> r is Rejected,
        msg@.kind != MessageType::UsernameAvailable && msg@.kind != MessageType::UsernameTaken
            ==> r is Unexpected,
{
    match msg.get_type() {
        MessageType::UsernameAvailable => NameReply::Accepted(msg.get_username()),
        MessageType::UsernameTaken => NameReply::Rejected,
        _ => NameReply::Unexpected,
    }
}

/// Whether the server's reply to a `FetchMessages` request signals that
/// the history snapshot is complete.
pub fn fetch_complete(msg: &Message) -> (r: bool)
    ensures
        r == (msg@.kind == MessageType::ClearToSend),
{
    match msg.get_type() {
        MessageType::ClearToSend => true,
        _ => false,
    }
}

} // verus!
