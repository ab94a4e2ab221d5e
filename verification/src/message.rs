//! The protocol's message value: an immutable record of sender, body,
//! creation instant and kind, with a builder for constructing one and a
//! canonical human-readable rendering per kind.

use vstd::prelude::*;
use chrono::TimeZone;

use crate::message_types::MessageType;

verus! {

/// Mathematical model of a [`Message`].
pub ghost struct MessageView {
    pub username: Seq<char>,
    pub body: Seq<char>,
    pub timestamp: int,
    pub kind: MessageType,
}

/// One protocol message.  Immutable once constructed; fan-out clones it.
/// `username` is the display name of the sender (empty for server-originated
/// control messages), `message` the chat text (empty for control messages),
/// `timestamp` the wall-clock creation instant in nanoseconds.
#[derive(Debug, PartialEq)]
pub struct Message {
    pub username: String,
    pub message: String,
    pub timestamp: i64,
    pub type_: MessageType,
}

impl View for Message {
    type V = MessageView;

    open spec fn view(&self) -> MessageView {
        MessageView {
            username: self.username@,
            body: self.message@,
            timestamp: self.timestamp as int,
            kind: self.type_,
        }
    }
}

impl Clone for Message {
    fn clone(&self) -> (r: Self)
        ensures
            r@ == self@,
    {
        Message {
            username: self.username.clone(),
            message: self.message.clone(),
            timestamp: self.timestamp,
            type_: self.type_,
        }
    }
}

/// Relies on chrono's `Local::now` and `DateTime::timestamp_nanos_opt`:
/// the current wall-clock instant in nanoseconds since the epoch, or
/// `None` for an instant out of `i64` range.  The result depends on the
/// clock, so nothing is promised of it.
#[verifier::external_body]
pub(crate) fn clock_now_nanos() -> Option<i64> {
    chrono::Local::now().timestamp_nanos_opt()
}

impl Message {
    pub fn builder() -> (r: MessageBuilder)
        ensures
            r.username@ == Seq::<char>::empty(),
            r.message@ == Seq::<char>::empty(),
            r.type_ == MessageType::Message,
    {
        MessageBuilder::new()
    }

    pub fn get_timestamp(&self) -> (r: i64)
        ensures
            r == self@.timestamp,
    {
        self.timestamp
    }

    pub fn get_username(&self) -> (r: String)
        ensures
            r@ == self@.username,
    {
        self.username.clone()
    }

    pub fn get_message(&self) -> (r: String)
        ensures
            r@ == self@.body,
    {
        self.message.clone()
    }

    pub fn get_type(&self) -> (r: MessageType)
        ensures
            r == self@.kind,
    {
        self.type_
    }

    /// Relies on chrono's `TimeZone::timestamp_nanos` and
    /// `DateTime::format`: renders this message's creation instant as
    /// local wall-clock time (`%I:%M:%S %p`).  The result depends on the
    /// machine's time zone, so nothing is promised of it.
    #[verifier::external_body]
    pub fn format_timestamp(&self) -> String {
        chrono::Local.timestamp_nanos(self.timestamp).format("%I:%M:%S %p").to_string()
    }

    /// Relies on chrono's `Local::now`, `TimeZone::timestamp_nanos` and
    /// `TimeDelta::num_milliseconds`: the wall-clock milliseconds elapsed
    /// since the given instant.  The result depends on the clock, so
    /// nothing is promised of it.
    #[verifier::external_body]
    pub(crate) fn latency_millis(timestamp: i64) -> i64 {
        (chrono::Local::now() - chrono::Local.timestamp_nanos(timestamp)).num_milliseconds()
    }

    /// The canonical console rendering, given the auxiliary text `aux`:
    /// the formatted creation time for a chat message, the latency digits
    /// for a ping, ignored for every other kind.
    pub fn render(&self, aux: &str) -> (r: String)
        ensures
            r@ == rendered(self@, aux@),
    {
        let mut out = String::new();
        match self.type_ {
            MessageType::Message => {
                out.append("[");
                out.append(aux);
                out.append(" @ ");
                out.append(self.username.as_str());
                out.append("]: ");
                out.append(self.message.as_str());
            },
            MessageType::Join => {
                out.append("[SERVER]: ");
                out.append(self.username.as_str());
                out.append(" joined the chat");
            },
            MessageType::Leave => {
                out.append("[SERVER]: ");
                out.append(self.username.as_str());
                out.append(" left the chat");
            },
            MessageType::SetUsername => {
                out.append("[SERVER]: username to ");
                out.append(self.username.as_str());
            },
            MessageType::UsernameAvailable => {
                out.append("[SERVER]: ");
                out.append(self.username.as_str());
                out.append(" is available");
            },
            MessageType::UsernameTaken => {
                out.append("[SERVER]: ");
                out.append(self.username.as_str());
                out.append(" is not available");
            },
            MessageType::Ping => {
                out.append("Ping: ");
                out.append(aux);
            },
            MessageType::FetchMessages => {
                let name = self.type_.as_str();
                out.append(name.as_str());
            },
            MessageType::ClearToSend => {
                let name = self.type_.as_str();
                out.append(name.as_str());
            },
        }
        assert(out@ =~= rendered(self@, aux@));
        out
    }

    /// The canonical console rendering of this message.  For a chat
    /// message the embedded time, and for a ping the latency, come from
    /// the wall clock, so only their surroundings are pinned down.
    pub fn to_string(&self) -> (r: String)
        ensures
            exists|aux: Seq<char>| r@ == rendered(self@, aux),
            self@.kind != MessageType::Message && self@.kind != MessageType::Ping
                ==> r@ == rendered(self@, Seq::<char>::empty()),
    {
        match self.type_ {
            MessageType::Message => {
                let time = self.format_timestamp();
                let r = self.render(time.as_str());
                proof {
                    assert(r@ == rendered(self@, time@));
                }
                r
            },
            MessageType::Ping => {
                let lat = Self::latency_millis(self.timestamp);
                let digits = i64_dec_string(lat);
                let r = self.render(digits.as_str());
                proof {
                    assert(r@ == rendered(self@, digits@));
                }
                r
            },
            _ => {
                let r = self.render("");
                proof {
                    reveal_strlit("");
                    assert(""@ =~= Seq::<char>::empty());
                }
                r
            },
        }
    }
}

/// The canonical rendering of a message, as a function of its view and
/// of the auxiliary text (time or latency) that two of the kinds embed.
pub open spec fn rendered(mv: MessageView, aux: Seq<char>) -> Seq<char> {
    match mv.kind {
        MessageType::Message => "["@ + aux + " @ "@ + mv.username + "]: "@ + mv.body,
        MessageType::Join => "[SERVER]: "@ + mv.username + " joined the chat"@,
        MessageType::Leave => "[SERVER]: "@ + mv.username + " left the chat"@,
        MessageType::SetUsername => "[SERVER]: username to "@ + mv.username,
        MessageType::UsernameAvailable => "[SERVER]: "@ + mv.username + " is available"@,
        MessageType::UsernameTaken => "[SERVER]: "@ + mv.username + " is not available"@,
        MessageType::Ping => "Ping: "@ + aux,
        _ => mv.kind.name_chars(),
    }
}

/// The decimal numeral of `n`, as characters.
pub open spec fn dec_chars(n: nat) -> Seq<char>
    decreases n,
{
    if n < 10 {
        seq![(48 + n) as char]
    } else {
        dec_chars(n / 10).push((48 + n % 10) as char)
    }
}

/// The decimal numeral of `t`, sign first when negative.
pub open spec fn sdec_chars(t: int) -> Seq<char> {
    if t >= 0 {
        dec_chars(t as nat)
    } else {
        seq!['-'] + dec_chars((-t) as nat)
    }
}

fn append_digit(out: &mut String, d: u8)
    requires
        48 <= d <= 57,
    ensures
        final(out)@ == old(out)@ + seq![d as char],
{
    let s: &'static str = if d == 48 {
        "0"
    } else if d == 49 {
        "1"
    } else if d == 50 {
        "2"
    } else if d == 51 {
        "3"
    } else if d == 52 {
        "4"
    } else if d == 53 {
        "5"
    } else if d == 54 {
        "6"
    } else if d == 55 {
        "7"
    } else if d == 56 {
        "8"
    } else {
        "9"
    };
    proof {
        reveal_strlit("0");
        reveal_strlit("1");
        reveal_strlit("2");
        reveal_strlit("3");
        reveal_strlit("4");
        reveal_strlit("5");
        reveal_strlit("6");
        reveal_strlit("7");
        reveal_strlit("8");
        reveal_strlit("9");
        assert(s@ =~= seq![d as char]);
    }
    out.append(s);
}

fn append_dec_chars(out: &mut String, n: u64)
    ensures
        final(out)@ == old(out)@ + dec_chars(n as nat),
    decreases n,
{
    if n < 10 {
        append_digit(out, 48 + n as u8);
        assert(final(out)@ =~= old(out)@ + dec_chars(n as nat));
    } else {
        append_dec_chars(out, n / 10);
        append_digit(out, 48 + (n % 10) as u8);
        assert(final(out)@ =~= old(out)@ + dec_chars(n as nat));
    }
}

/// The decimal rendering of a signed number.
pub fn i64_dec_string(t: i64) -> (r: String)
    ensures
        r@ == sdec_chars(t as int),
{
    let mut out = String::new();
    if t >= 0 {
        append_dec_chars(&mut out, t as u64);
        assert(out@ =~= sdec_chars(t as int));
    } else {
        out.append("-");
        let mag: u64 = ((-(t + 1)) as u64) + 1;
        append_dec_chars(&mut out, mag);
        proof {
            reveal_strlit("-");
            assert("-"@ =~= seq!['-']);
            assert(mag as int == -(t as int));
            assert(out@ =~= sdec_chars(t as int));
        }
    }
    out
}

/// Step-by-step constructor for a [`Message`].  The creation instant is
/// taken from the wall clock when [`MessageBuilder::build`] runs.
pub struct MessageBuilder {
    pub username: String,
    pub message: String,
    pub type_: MessageType,
}

impl MessageBuilder {
    pub fn new() -> (r: MessageBuilder)
        ensures
            r.username@ == Seq::<char>::empty(),
            r.message@ == Seq::<char>::empty(),
            r.type_ == MessageType::Message,
    {
        MessageBuilder {
            username: String::new(),
            message: String::new(),
            type_: MessageType::Message,
        }
    }

    pub fn username(self, username: &String) -> (r: MessageBuilder)
        ensures
            r.username@ == username@,
            r.message@ == self.message@,
            r.type_ == self.type_,
    {
        MessageBuilder { username: username.clone(), ..self }
    }

    pub fn message(self, message: &String) -> (r: MessageBuilder)
        ensures
            r.username@ == self.username@,
            r.message@ == message@,
            r.type_ == self.type_,
    {
        MessageBuilder { message: message.clone(), ..self }
    }

    pub fn message_type(self, type_: MessageType) -> (r: MessageBuilder)
        ensures
            r.username@ == self.username@,
            r.message@ == self.message@,
            r.type_ == type_,
    {
        MessageBuilder { type_, ..self }
    }

    /// Build the message: the configured fields, stamped with the current
    /// wall-clock instant (zero if the clock is out of `i64` range).
    pub fn build(&self) -> (r: Message)
        ensures
            r@.username == self.username@,
            r@.body == self.message@,
            r@.kind == self.type_,
    {
        let ts: i64 = match clock_now_nanos() {
            Some(t) => t,
            None => 0,
        };
        Message {
            username: self.username.clone(),
            message: self.message.clone(),
            timestamp: ts,
            type_: self.type_,
        }
    }
}

} // verus!
