//! The closed set of message kinds carried on the wire, and their
//! integer tags and display names.

use vstd::prelude::*;

verus! {

/// One kind per protocol message.  Chat traffic uses `Message`, `Join` and
/// `Leave`; username negotiation uses `SetUsername`, `UsernameTaken` and
/// `UsernameAvailable`; history sync uses `FetchMessages` and `ClearToSend`;
/// `Ping` is an informational latency probe.
#[derive(Clone, Copy, Debug, PartialEq, Eq, Structural)]
pub enum MessageType {
    Ping,
    Join,
    Leave,
    SetUsername,
    UsernameTaken,
    UsernameAvailable,
    FetchMessages,
    ClearToSend,
    Message,
}

impl MessageType {
    /// The integer tag this kind is encoded as on the wire.
    pub open spec fn tag(self) -> i32 {
        match self {
            MessageType::Ping => 0,
            MessageType::Join => 1,
            MessageType::Leave => 2,
            MessageType::SetUsername => 3,
            MessageType::UsernameTaken => 4,
            MessageType::UsernameAvailable => 5,
            MessageType::FetchMessages => 6,
            MessageType::ClearToSend => 7,
            MessageType::Message => 32,
        }
    }

    /// Whether `i` is one of the nine assigned wire tags.  The wire
    /// decoder admits only these: a record carrying any other tag is an
    /// unrecognized kind, a protocol error whose unit is discarded.
    pub open spec fn known_tag(i: i32) -> bool {
        i == 0 || i == 1 || i == 2 || i == 3 || i == 4 || i == 5 || i == 6 || i == 7 || i == 32
    }

    /// Whether `i` is one of the nine assigned wire tags.
    pub fn is_known_tag(i: i32) -> (r: bool)
        ensures
            r == MessageType::known_tag(i),
    {
        i == 0 || i == 1 || i == 2 || i == 3 || i == 4 || i == 5 || i == 6 || i == 7 || i == 32
    }

    /// The kind an assigned wire tag decodes to.  An unassigned tag
    /// falls back to `Message` here, but never reaches this conversion
    /// from the wire: the decoder discards such a record first.
    pub open spec fn of_tag(i: i32) -> MessageType {
        if i == 0 {
            MessageType::Ping
        } else if i == 1 {
            MessageType::Join
        } else if i == 2 {
            MessageType::Leave
        } else if i == 3 {
            MessageType::SetUsername
        } else if i == 4 {
            MessageType::UsernameTaken
        } else if i == 5 {
            MessageType::UsernameAvailable
        } else if i == 6 {
            MessageType::FetchMessages
        } else if i == 7 {
            MessageType::ClearToSend
        } else {
            MessageType::Message
        }
    }

    /// The display name of this kind.
    pub open spec fn name_chars(self) -> Seq<char> {
        match self {
            MessageType::Ping => "Ping"@,
            MessageType::Join => "Join"@,
            MessageType::Leave => "Leave"@,
            MessageType::SetUsername => "SetUsername"@,
            MessageType::UsernameTaken => "UsernameTaken"@,
            MessageType::UsernameAvailable => "UsernameAvailable"@,
            MessageType::FetchMessages => "FetchMessages"@,
            MessageType::ClearToSend => "ClearToSend"@,
            MessageType::Message => "Message"@,
        }
    }

    pub fn as_int(&self) -> (r: i32)
        ensures
            r == self.tag(),
    {
        match self {
            MessageType::Ping => 0,
            MessageType::Join => 1,
            MessageType::Leave => 2,
            MessageType::SetUsername => 3,
            MessageType::UsernameTaken => 4,
            MessageType::UsernameAvailable => 5,
            MessageType::FetchMessages => 6,
            MessageType::ClearToSend => 7,
            MessageType::Message => 32,
        }
    }

    pub fn from_int(i: i32) -> (r: MessageType)
        ensures
            r == MessageType::of_tag(i),
    {
        match i {
            0 => MessageType::Ping,
            1 => MessageType::Join,
            2 => MessageType::Leave,
            3 => MessageType::SetUsername,
            4 => MessageType::UsernameTaken,
            5 => MessageType::UsernameAvailable,
            6 => MessageType::FetchMessages,
            7 => MessageType::ClearToSend,
            _ => MessageType::Message,
        }
    }

    pub fn as_str(&self) -> (r: String)
        ensures
            r@ == self.name_chars(),
    {
        match self {
            MessageType::Ping => String::from_str("Ping"),
            MessageType::Join => String::from_str("Join"),
            MessageType::Leave => String::from_str("Leave"),
            MessageType::SetUsername => String::from_str("SetUsername"),
            MessageType::UsernameTaken => String::from_str("UsernameTaken"),
            MessageType::UsernameAvailable => String::from_str("UsernameAvailable"),
            MessageType::FetchMessages => String::from_str("FetchMessages"),
            MessageType::ClearToSend => String::from_str("ClearToSend"),
            MessageType::Message => String::from_str("Message"),
        }
    }
}

/// Decoding the tag a kind was encoded with yields the kind again; every
/// kind is encoded as an assigned tag.
pub proof fn lemma_tag_round_trip(t: MessageType)
    ensures
        MessageType::of_tag(t.tag()) == t,
        MessageType::known_tag(t.tag()),
{
}

} // verus!
