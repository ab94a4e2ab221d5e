//! The server's session and broadcast engine: the connection registry,
//! the shared history log, and the fan-out dispatcher, all behind one
//! state value (one lock scope in the running server).  Each registered
//! session also carries a model of the stream of broadcasts the
//! dispatcher has handed it, from which the ordering laws are proved.

use vstd::prelude::*;
use vstd::string::StrSliceExecFns;
use vstd::utf8::encode_utf8;

use crate::message::{Message, MessageView};
use crate::message_types::MessageType;

verus! {

/// Lifecycle of one session.  A session is `Connecting` when accepted,
/// `Negotiating` after a failed username request, `Active` once a
/// username is claimed.  `Closed` is terminal: the session leaves the
/// registry as it closes, so no registered session is ever `Closed`.
#[derive(Clone, Copy, Debug, PartialEq, Eq, Structural)]
pub enum SessionState {
    Connecting,
    Negotiating,
    Active,
    Closed,
}

/// One live client connection as the registry sees it: an immutable
/// connection id, the username it holds (empty until negotiated), and
/// where it stands in the lifecycle.
pub struct SessionRec {
    pub conn_id: u64,
    pub username: String,
    pub state: SessionState,
}

/// One entry of the history log: the message, which connection offered
/// it for fan-out, and whether that origin was excluded from delivery.
pub struct HistEntry {
    pub origin: u64,
    pub exclude_origin: bool,
    pub msg: Message,
}

/// Model of what the dispatcher has handed one session: the history
/// index its live stream starts at (its registration, or its last
/// history sync), and the stream of broadcast messages since then.
pub ghost struct StreamModel {
    pub base: int,
    pub log: Seq<MessageView>,
}

/// One delivery the caller owes a transport write: the target session's
/// connection id and the message for it.
pub struct Delivery {
    pub target: u64,
    pub msg: Message,
}

/// The server's shared state: the connection registry and the history
/// log (guarded by one lock in the running server), plus the per-session
/// delivered-stream model.
pub struct ServerCore {
    pub next_id: u64,
    pub sessions: Vec<SessionRec>,
    pub history: Vec<HistEntry>,
    pub streams: Ghost<Map<u64, StreamModel>>,
}

/// Whether entry `e` is withheld from session `id`: it is the entry's
/// own origin and the broadcast excluded its origin.
pub open spec fn skipped_for(e: HistEntry, id: u64) -> bool {
    e.exclude_origin && e.origin == id
}

/// The stream of messages the dispatcher hands session `id` from the
/// entries of `h` at index `b` on: their messages in order, its own
/// excluded broadcasts left out.
pub open spec fn stream_proj(h: Seq<HistEntry>, b: int, id: u64) -> Seq<MessageView>
    decreases h.len(),
{
    if h.len() <= b || b < 0 {
        Seq::empty()
    } else {
        stream_proj(h.drop_last(), b, id) + (if skipped_for(h.last(), id) {
            Seq::<MessageView>::empty()
        } else {
            seq![h.last().msg@]
        })
    }
}

/// The messages of a run of history entries, in order.
pub open spec fn history_msgs(h: Seq<HistEntry>) -> Seq<MessageView> {
    h.map_values(|e: HistEntry| e.msg@)
}

/// Some session in `s` has connection id `id`.
pub open spec fn has_session(s: Seq<SessionRec>, id: u64) -> bool {
    exists|k: int| 0 <= k < s.len() && s[k].conn_id == id
}

/// The index of the session with connection id `id` (well defined when
/// ids are unique and the session exists).
pub open spec fn session_index(s: Seq<SessionRec>, id: u64) -> int {
    choose|k: int| 0 <= k < s.len() && s[k].conn_id == id
}

/// The username session `id` holds.
pub open spec fn username_of(s: Seq<SessionRec>, id: u64) -> Seq<char> {
    s[session_index(s, id)].username@
}

/// Connection ids are unique within the registry.
pub open spec fn ids_unique(s: Seq<SessionRec>) -> bool {
    forall|i: int, j: int|
        0 <= i < j < s.len() ==> #[trigger] s[i].conn_id != #[trigger] s[j].conn_id
}

/// A username, once set (non-empty), is held by at most one session.
pub open spec fn usernames_unique(s: Seq<SessionRec>) -> bool {
    forall|i: int, j: int|
        0 <= i < s.len() && 0 <= j < s.len() && i != j && (#[trigger] s[i].username@).len() > 0
            ==> s[i].username@ != #[trigger] s[j].username@
}

impl ServerCore {
    /// Registry and stream-model invariant: unique ids below the id
    /// counter, unique set usernames, no closed session registered, and
    /// one tracked stream per registered session, equal to its
    /// projection of the history log.
    pub open spec fn wf(self) -> bool {
        &&& ids_unique(self.sessions@)
        &&& usernames_unique(self.sessions@)
        &&& forall|k: int|
            0 <= k < self.sessions@.len() ==> (#[trigger] self.sessions@[k]).conn_id
                < self.next_id
        &&& forall|k: int|
            0 <= k < self.sessions@.len() ==> (#[trigger] self.sessions@[k]).state
                != SessionState::Closed
        &&& forall|k: int|
            0 <= k < self.sessions@.len() ==> self.streams@.dom().contains(
                (#[trigger] self.sessions@[k]).conn_id,
            )
        &&& forall|id: u64| #[trigger]
            self.streams@.dom().contains(id) ==> has_session(self.sessions@, id)
        &&& forall|id: u64| #[trigger]
            self.streams@.dom().contains(id) ==> 0 <= self.streams@[id].base
                <= self.history@.len() && self.streams@[id].log == stream_proj(
                self.history@,
                self.streams@[id].base,
                id,
            )
    }

    /// A fresh server: no sessions, no history.
    pub fn new() -> (r: ServerCore)
        ensures
            r.wf(),
            r.sessions@.len() == 0,
            r.history@.len() == 0,
            r.next_id == 0,
    {
        ServerCore {
            next_id: 0,
            sessions: Vec::new(),
            history: Vec::new(),
            streams: Ghost(Map::empty()),
        }
    }

    /// Whether a session with this connection id is registered.
    pub fn session_exists(&self, conn_id: u64) -> (r: bool)
        ensures
            r == has_session(self.sessions@, conn_id),
    {
        let mut k: usize = 0;
        while k < self.sessions.len()
            invariant
                0 <= k <= self.sessions@.len(),
                forall|j: int| 0 <= j < k ==> (#[trigger] self.sessions@[j]).conn_id != conn_id,
            decreases self.sessions@.len() - k,
        {
            if self.sessions[k].conn_id == conn_id {
                return true;
            }
            k = k + 1;
        }
        false
    }

    /// A consistent point-in-time view of the registered sessions'
    /// connection ids, in registry order (callers use it under the same
    /// lock scope as the mutating operations).
    pub fn snapshot(&self) -> (r: Vec<u64>)
        ensures
            r@.len() == self.sessions@.len(),
            forall|k: int| 0 <= k < r@.len() ==> r@[k] == self.sessions@[k].conn_id,
    {
        let mut r: Vec<u64> = Vec::new();
        let mut k: usize = 0;
        while k < self.sessions.len()
            invariant
                0 <= k <= self.sessions@.len(),
                r@.len() == k,
                forall|j: int| 0 <= j < k ==> r@[j] == self.sessions@[j].conn_id,
            decreases self.sessions@.len() - k,
        {
            r.push(self.sessions[k].conn_id);
            k = k + 1;
        }
        r
    }

    /// Add a new session with no username, in state `Connecting`, under
    /// a fresh connection id; its delivered stream starts now.  Ids are
    /// generated here, so registration cannot collide.
    pub fn register(&mut self) -> (id: u64)
        requires
            old(self).wf(),
            old(self).next_id < u64::MAX,
        ensures
            final(self).wf(),
            id == old(self).next_id,
            final(self).next_id == old(self).next_id + 1,
            final(self).history@ == old(self).history@,
            final(self).sessions@.len() == old(self).sessions@.len() + 1,
            final(self).sessions@.subrange(0, old(self).sessions@.len() as int) == old(
                self,
            ).sessions@,
            final(self).sessions@.last().conn_id == id,
            final(self).sessions@.last().username@ == Seq::<char>::empty(),
            final(self).sessions@.last().state == SessionState::Connecting,
            final(self).streams@ == old(self).streams@.insert(
                id,
                StreamModel { base: old(self).history@.len() as int, log: Seq::empty() },
            ),
    {
        let id = self.next_id;
        self.next_id = self.next_id + 1;
        let rec = SessionRec { conn_id: id, username: String::new(), state: SessionState::Connecting };
        self.sessions.push(rec);
        proof {
            self.streams@ = self.streams@.insert(
                id,
                StreamModel { base: self.history@.len() as int, log: Seq::empty() },
            );
        }
        assert(final(self).sessions@.subrange(0, old(self).sessions@.len() as int) =~= old(
            self,
        ).sessions@);
        proof {
            let s2 = self.sessions@;
            let s1 = old(self).sessions@;
            assert forall|k: int|
                0 <= k < s2.len() implies self.streams@.dom().contains(
                (#[trigger] s2[k]).conn_id,
            ) by {
                if k < s1.len() {
                    assert(s2[k] == s1[k]);
                }
            }
            assert forall|sid: u64| #[trigger]
                self.streams@.dom().contains(sid) implies has_session(s2, sid) by {
                if sid == id {
                    assert(s2[s2.len() - 1].conn_id == sid);
                } else {
                    assert(old(self).streams@.dom().contains(sid));
                    let k = choose|k: int| 0 <= k < s1.len() && s1[k].conn_id == sid;
                    assert(s2[k].conn_id == sid);
                }
            }
            assert forall|sid: u64| #[trigger]
                self.streams@.dom().contains(sid) implies 0 <= self.streams@[sid].base
                <= self.history@.len() && self.streams@[sid].log == stream_proj(
                self.history@,
                self.streams@[sid].base,
                sid,
            ) by {
                if sid == id {
                    assert(stream_proj(self.history@, self.history@.len() as int, sid)
                        =~= Seq::<MessageView>::empty());
                }
            }
        }
        id
    }
}

/// Remove the session with this connection id, releasing its stream
/// model; a no-op if none is registered, so removal is idempotent.
pub fn remove_client(core: &mut ServerCore, conn_id: u64)
    requires
        old(core).wf(),
    ensures
        final(core).wf(),
        final(core).history@ == old(core).history@,
        final(core).next_id == old(core).next_id,
        !has_session(final(core).sessions@, conn_id),
        !has_session(old(core).sessions@, conn_id) ==> final(core).sessions@ == old(
            core,
        ).sessions@ && final(core).streams@ == old(core).streams@,
        has_session(old(core).sessions@, conn_id) ==> ({
            let k = session_index(old(core).sessions@, conn_id);
            &&& final(core).sessions@ == old(core).sessions@.subrange(0, k) + old(
                core,
            ).sessions@.subrange(k + 1, old(core).sessions@.len() as int)
            &&& final(core).streams@ == old(core).streams@.remove(conn_id)
        }),
{
    let mut k: usize = 0;
    while k < core.sessions.len()
        invariant
            0 <= k <= core.sessions@.len(),
            forall|j: int| 0 <= j < k ==> (#[trigger] core.sessions@[j]).conn_id != conn_id,
            *core == *old(core),
            core.wf(),
        decreases core.sessions@.len() - k,
    {
        if core.sessions[k].conn_id == conn_id {
            proof {
                lemma_session_index_is(core.sessions@, conn_id, k as int);
            }
            core.sessions.remove(k);
            proof {
                core.streams@ = core.streams@.remove(conn_id);
                let s1 = old(core).sessions@;
                let s2 = core.sessions@;
                assert(s2 =~= s1.subrange(0, k as int) + s1.subrange(k as int + 1, s1.len() as int));
                assert forall|i: int|
                    0 <= i < s2.len() implies #[trigger] s2[i] == (if i < k as int {
                    s1[i]
                } else {
                    s1[i + 1]
                }) by {}
                assert forall|i: int|
                    0 <= i < s2.len() implies (#[trigger] s2[i]).conn_id != conn_id by {
                    if i >= k as int {
                        assert(s1[k as int].conn_id == conn_id);
                        assert(s2[i] == s1[i + 1]);
                    }
                }
                assert(!has_session(s2, conn_id));
                assert forall|sid: u64| #[trigger]
                    core.streams@.dom().contains(sid) implies has_session(s2, sid) by {
                    let j = choose|j: int| 0 <= j < s1.len() && s1[j].conn_id == sid;
                    if j < k as int {
                        assert(s2[j].conn_id == sid);
                    } else {
                        assert(j != k as int);
                        assert(s2[j - 1].conn_id == sid);
                    }
                }
                assert forall|i: int|
                    0 <= i < s2.len() implies core.streams@.dom().contains(
                    (#[trigger] s2[i]).conn_id,
                ) by {
                    assert(s2[i].conn_id != conn_id);
                }
            }
            return ;
        }
        k = k + 1;
    }
}

/// The connection ids a broadcast reaches, in registry order: every
/// session, except the origin when it is excluded.
pub open spec fn delivery_targets(s: Seq<SessionRec>, origin: u64, excl: bool) -> Seq<u64>
    decreases s.len(),
{
    if s.len() == 0 {
        Seq::empty()
    } else {
        delivery_targets(s.drop_last(), origin, excl) + (if excl && s.last().conn_id == origin {
            Seq::<u64>::empty()
        } else {
            seq![s.last().conn_id]
        })
    }
}

/// What one broadcast does: one history entry is appended, the registry
/// is untouched, every other session's stream grows by the message, and
/// one delivery per reached session is returned, in registry order.
pub open spec fn broadcast_post(
    pre: ServerCore,
    post: ServerCore,
    out: Seq<Delivery>,
    origin: u64,
    mv: MessageView,
    excl: bool,
) -> bool {
    &&& post.sessions@ == pre.sessions@
    &&& post.next_id == pre.next_id
    &&& post.history@.len() == pre.history@.len() + 1
    &&& post.history@.subrange(0, pre.history@.len() as int) == pre.history@
    &&& post.history@.last().origin == origin
    &&& post.history@.last().exclude_origin == excl
    &&& post.history@.last().msg@ == mv
    &&& post.streams@.dom() == pre.streams@.dom()
    &&& forall|id: u64| #[trigger]
        pre.streams@.dom().contains(id) ==> post.streams@[id] == (if excl && id == origin {
            pre.streams@[id]
        } else {
            StreamModel { base: pre.streams@[id].base, log: pre.streams@[id].log.push(mv) }
        })
    &&& out.map_values(|d: Delivery| d.target) == delivery_targets(pre.sessions@, origin, excl)
    &&& forall|k: int| 0 <= k < out.len() ==> (#[trigger] out[k]).msg@ == mv
}

impl ServerCore {
    /// Deliver `msg` to every registered session except, when
    /// `exclude_origin` is set, the one whose id is `origin`; the
    /// message is appended to the history log in the same step, so the
    /// log order is the delivery order.  The returned deliveries are the
    /// transport writes the caller owes.
    pub fn broadcast(&mut self, origin: u64, msg: &Message, exclude_origin: bool) -> (out: Vec<
        Delivery,
    >)
        requires
            old(self).wf(),
        ensures
            final(self).wf(),
            broadcast_post(*old(self), *final(self), out@, origin, msg@, exclude_origin),
    {
        let entry = HistEntry { origin, exclude_origin, msg: msg.clone() };
        self.history.push(entry);
        let mut out: Vec<Delivery> = Vec::new();
        let mut k: usize = 0;
        while k < self.sessions.len()
            invariant
                0 <= k <= self.sessions@.len(),
                self.sessions@ == old(self).sessions@,
                self.history@.len() == old(self).history@.len() + 1,
                self.history@.subrange(0, old(self).history@.len() as int) == old(self).history@,
                self.history@.last().origin == origin,
                self.history@.last().exclude_origin == exclude_origin,
                self.history@.last().msg@ == msg@,
                self.streams@ == old(self).streams@,
                self.next_id == old(self).next_id,
                out@.map_values(|d: Delivery| d.target) == delivery_targets(
                    self.sessions@.take(k as int),
                    origin,
                    exclude_origin,
                ),
                forall|i: int| 0 <= i < out@.len() ==> (#[trigger] out@[i]).msg@ == msg@,
            decreases self.sessions@.len() - k,
        {
            let sid = self.sessions[k].conn_id;
            if !(exclude_origin && sid == origin) {
                out.push(Delivery { target: sid, msg: msg.clone() });
            }
            proof {
                assert(self.sessions@.take(k as int + 1).drop_last() =~= self.sessions@.take(
                    k as int,
                ));
                assert(out@.map_values(|d: Delivery| d.target) =~= delivery_targets(
                    self.sessions@.take(k as int + 1),
                    origin,
                    exclude_origin,
                ));
            }
            k = k + 1;
        }
        assert(self.sessions@.take(self.sessions@.len() as int) =~= self.sessions@);
        proof {
            let pre_streams = old(self).streams@;
            let mv = msg@;
            self.streams@ = Map::new(
                |id: u64| pre_streams.dom().contains(id),
                |id: u64|
                    if exclude_origin && id == origin {
                        pre_streams[id]
                    } else {
                        StreamModel {
                            base: pre_streams[id].base,
                            log: pre_streams[id].log.push(mv),
                        }
                    },
            );
            assert(self.streams@.dom() =~= pre_streams.dom());
            assert(self.history@.drop_last() =~= old(self).history@);
            assert(self.history@.subrange(0, old(self).history@.len() as int) =~= old(
                self,
            ).history@);
            assert forall|id: u64| #[trigger]
                self.streams@.dom().contains(id) implies 0 <= self.streams@[id].base
                <= self.history@.len() && self.streams@[id].log == stream_proj(
                self.history@,
                self.streams@[id].base,
                id,
            ) by {
                let b = pre_streams[id].base;
                assert(0 <= b <= old(self).history@.len());
                assert(stream_proj(self.history@, b, id) == stream_proj(old(self).history@, b, id)
                    + (if skipped_for(self.history@.last(), id) {
                    Seq::<MessageView>::empty()
                } else {
                    seq![self.history@.last().msg@]
                }));
                if exclude_origin && id == origin {
                    assert(stream_proj(self.history@, b, id) =~= pre_streams[id].log);
                } else {
                    assert(stream_proj(self.history@, b, id) =~= pre_streams[id].log.push(mv));
                }
            }
        }
        out
    }

    /// Atomically snapshot the history log for a history sync and
    /// restart the requester's live stream at the present instant: what
    /// it receives next is exactly what is broadcast after this snapshot.
    pub fn sync_messages(&mut self, conn_id: u64) -> (snapshot: Vec<Message>)
        requires
            old(self).wf(),
            has_session(old(self).sessions@, conn_id),
        ensures
            final(self).wf(),
            final(self).sessions@ == old(self).sessions@,
            final(self).history@ == old(self).history@,
            final(self).next_id == old(self).next_id,
            snapshot@.len() == old(self).history@.len(),
            forall|i: int|
                0 <= i < snapshot@.len() ==> (#[trigger] snapshot@[i])@ == old(
                    self,
                ).history@[i].msg@,
            final(self).streams@.dom() == old(self).streams@.dom(),
            forall|id: u64| #[trigger]
                old(self).streams@.dom().contains(id) ==> final(self).streams@[id] == (if id
                    == conn_id {
                    StreamModel { base: old(self).history@.len() as int, log: Seq::empty() }
                } else {
                    old(self).streams@[id]
                }),
    {
        let mut snapshot: Vec<Message> = Vec::new();
        let mut k: usize = 0;
        while k < self.history.len()
            invariant
                0 <= k <= self.history@.len(),
                *self == *old(self),
                snapshot@.len() == k,
                forall|i: int|
                    0 <= i < k ==> (#[trigger] snapshot@[i])@ == self.history@[i].msg@,
            decreases self.history@.len() - k,
        {
            snapshot.push(self.history[k].msg.clone());
            k = k + 1;
        }
        proof {
            let j = choose|j: int|
                0 <= j < self.sessions@.len() && self.sessions@[j].conn_id == conn_id;
            assert(self.streams@.dom().contains(self.sessions@[j].conn_id));
            self.streams@ = self.streams@.insert(
                conn_id,
                StreamModel { base: self.history@.len() as int, log: Seq::empty() },
            );
            assert(self.streams@.dom() =~= old(self).streams@.dom());
            assert(stream_proj(self.history@, self.history@.len() as int, conn_id)
                =~= Seq::<MessageView>::empty());
        }
        snapshot
    }
}

/// The reserved display name, matched without regard to letter case:
/// each position admits the letter's cases, the first also the long s
/// (U+017F), the one other letter whose upper case is an ASCII S.
pub open spec fn is_reserved_name(s: Seq<char>) -> bool {
    s.len() == 6 && (s[0] == 'S' || s[0] == 's' || s[0] == '\u{17f}') && (s[1] == 'E' || s[1]
        == 'e') && (s[2] == 'R' || s[2] == 'r') && (s[3] == 'V' || s[3] == 'v') && (s[4] == 'E'
        || s[4] == 'e') && (s[5] == 'R' || s[5] == 'r')
}

/// A username a session may claim: 3 to 20 bytes of UTF-8, no space
/// character, and not the reserved server name in any letter case.
pub open spec fn valid_username(s: Seq<char>) -> bool {
    &&& 3 <= encode_utf8(s).len() <= 20
    &&& forall|i: int| 0 <= i < s.len() ==> s[i] != ' '
    &&& !is_reserved_name(s)
}

/// Check a requested username against the format and reserved-name
/// rules (registry uniqueness is checked separately, under the lock).
pub fn validate_username(name: &str) -> (r: bool)
    ensures
        r == valid_username(name@),
{
    let bl = name.as_bytes().len();
    assert(bl == encode_utf8(name@).len());
    if bl < 3 || bl > 20 {
        return false;
    }
    proof {
        if name@.len() == 0 {
            assert(encode_utf8(name@).len() == 0);
        }
    }
    let n = name.unicode_len();
    let mut i: usize = 0;
    while i < n
        invariant
            0 <= i <= n,
            n == name@.len(),
            forall|j: int| 0 <= j < i ==> name@[j] != ' ',
        decreases n - i,
    {
        if name.get_char(i) == ' ' {
            return false;
        }
        i = i + 1;
    }
    if n == 6 {
        let c0 = name.get_char(0);
        let c1 = name.get_char(1);
        let c2 = name.get_char(2);
        let c3 = name.get_char(3);
        let c4 = name.get_char(4);
        let c5 = name.get_char(5);
        if (c0 == 'S' || c0 == 's' || c0 == '\u{17f}') && (c1 == 'E' || c1 == 'e') && (c2 == 'R'
            || c2 == 'r') && (c3 == 'V' || c3 == 'v') && (c4 == 'E' || c4 == 'e') && (c5 == 'R'
            || c5 == 'r') {
            return false;
        }
    }
    true
}

/// Some session already holds this username.
pub open spec fn name_taken(s: Seq<SessionRec>, name: Seq<char>) -> bool {
    exists|k: int| 0 <= k < s.len() && (#[trigger] s[k]).username@ == name
}

/// How a successful claim changes the registry: the claiming session
/// holds the name and is `Active`; every other entry is untouched.
pub open spec fn claim_applied(
    s1: Seq<SessionRec>,
    s2: Seq<SessionRec>,
    conn_id: u64,
    name: Seq<char>,
) -> bool {
    &&& s2.len() == s1.len()
    &&& forall|k: int|
        0 <= k < s1.len() ==> if (#[trigger] s1[k]).conn_id == conn_id {
            (#[trigger] s2[k]).conn_id == conn_id && s2[k].username@ == name && s2[k].state
                == SessionState::Active
        } else {
            s2[k] == s1[k]
        }
}

impl ServerCore {
    /// Whether no session currently holds this username.  The reserved
    /// name and the format rules are checked before this, so the empty
    /// (unset) username never reaches a claim.
    pub fn is_username_available(&self, username: &String) -> (r: bool)
        ensures
            r == !name_taken(self.sessions@, username@),
    {
        let mut k: usize = 0;
        while k < self.sessions.len()
            invariant
                0 <= k <= self.sessions@.len(),
                forall|j: int| 0 <= j < k ==> (#[trigger] self.sessions@[j]).username@ != username@,
            decreases self.sessions@.len() - k,
        {
            if self.sessions[k].username.eq(username) {
                return false;
            }
            k = k + 1;
        }
        true
    }

    /// Atomically check uniqueness of a (pre-validated) username and, if
    /// it is free, assign it to the given session, which becomes
    /// `Active`.  Returns whether the claim succeeded: success exactly
    /// when no session already held the name.
    pub fn try_claim_username(&mut self, conn_id: u64, name: &String) -> (r: bool)
        requires
            old(self).wf(),
            valid_username(name@),
            has_session(old(self).sessions@, conn_id),
        ensures
            final(self).wf(),
            final(self).history@ == old(self).history@,
            final(self).next_id == old(self).next_id,
            final(self).streams@ == old(self).streams@,
            r == !name_taken(old(self).sessions@, name@),
            !r ==> final(self).sessions@ == old(self).sessions@,
            r ==> claim_applied(old(self).sessions@, final(self).sessions@, conn_id, name@),
    {
        if !self.is_username_available(name) {
            return false;
        }
        proof {
            if name@.len() == 0 {
                assert(encode_utf8(name@).len() == 0);
            }
        }
        let mut k: usize = 0;
        while k < self.sessions.len()
            invariant
                0 <= k <= self.sessions@.len(),
                *self == *old(self),
                self.wf(),
                !name_taken(self.sessions@, name@),
                name@.len() > 0,
                forall|j: int| 0 <= j < k ==> (#[trigger] self.sessions@[j]).conn_id != conn_id,
            decreases self.sessions@.len() - k,
        {
            if self.sessions[k].conn_id == conn_id {
                let rec = SessionRec {
                    conn_id,
                    username: name.clone(),
                    state: SessionState::Active,
                };
                self.sessions[k] = rec;
                proof {
                    let s1 = old(self).sessions@;
                    let s2 = self.sessions@;
                    assert(s2 == s1.update(k as int, rec));
                    assert forall|i: int, j: int|
                        0 <= i < s2.len() && 0 <= j < s2.len() && i != j && (
                        #[trigger] s2[i].username@).len() > 0 implies s2[i].username@
                        != #[trigger] s2[j].username@ by {
                        if i == k as int {
                            assert(s2[j] == s1[j]);
                            assert(s1[j].username@ != name@);
                        } else if j == k as int {
                            assert(s2[i] == s1[i]);
                            assert(s1[i].username@ != name@);
                        } else {
                            assert(s2[i] == s1[i]);
                            assert(s2[j] == s1[j]);
                        }
                    }
                    assert forall|i: int|
                        0 <= i < s2.len() implies self.streams@.dom().contains(
                        (#[trigger] s2[i]).conn_id,
                    ) by {
                        assert(s2[i].conn_id == s1[i].conn_id);
                    }
                    assert forall|sid: u64| #[trigger]
                        self.streams@.dom().contains(sid) implies has_session(s2, sid) by {
                        let j = choose|j: int| 0 <= j < s1.len() && s1[j].conn_id == sid;
                        assert(s2[j].conn_id == sid);
                    }
                }
                return true;
            }
            k = k + 1;
        }
        proof {
            assert(false);
        }
        false
    }
}

/// The kinds that carry chat traffic: appended to history and fanned out.
pub open spec fn is_chat_kind(k: MessageType) -> bool {
    k == MessageType::Message || k == MessageType::Join || k == MessageType::Leave
}

/// How a failed username request changes the registry: the requesting
/// session keeps its username and, unless already `Active`, stands in
/// `Negotiating`, awaiting a retry; every other entry is untouched.
pub open spec fn negotiating_applied(s1: Seq<SessionRec>, s2: Seq<SessionRec>, conn_id: u64) -> bool {
    &&& s2.len() == s1.len()
    &&& forall|k: int|
        0 <= k < s1.len() ==> if (#[trigger] s1[k]).conn_id == conn_id {
            (#[trigger] s2[k]).conn_id == conn_id && s2[k].username@ == s1[k].username@
                && s2[k].state == (if s1[k].state == SessionState::Active {
                SessionState::Active
            } else {
                SessionState::Negotiating
            })
        } else {
            s2[k] == s1[k]
        }
}

/// What handling a `SetUsername` request does: no broadcast, exactly one
/// reply to the requester; `UsernameAvailable` carrying the new name and
/// an `Active` session exactly when the name is valid and free, else
/// `UsernameTaken` carrying the session's current name.
pub open spec fn negotiation_post(
    pre: ServerCore,
    post: ServerCore,
    out: Seq<Delivery>,
    conn_id: u64,
    mv: MessageView,
) -> bool {
    let name = mv.username;
    let ok = valid_username(name) && !name_taken(pre.sessions@, name);
    &&& post.history@ == pre.history@
    &&& post.next_id == pre.next_id
    &&& post.streams@ == pre.streams@
    &&& out.len() == 1
    &&& out[0].target == conn_id
    &&& out[0].msg@.body == Seq::<char>::empty()
    &&& if ok {
        &&& out[0].msg@.kind == MessageType::UsernameAvailable
        &&& out[0].msg@.username == name
        &&& claim_applied(pre.sessions@, post.sessions@, conn_id, name)
    } else {
        &&& out[0].msg@.kind == MessageType::UsernameTaken
        &&& out[0].msg@.username == username_of(pre.sessions@, conn_id)
        &&& negotiating_applied(pre.sessions@, post.sessions@, conn_id)
    }
}

/// What handling a `FetchMessages` request does: the full history
/// snapshot is delivered to the requester in log order, closed by one
/// `ClearToSend`, and the requester's live stream restarts here; nothing
/// else changes.
pub open spec fn fetch_post(
    pre: ServerCore,
    post: ServerCore,
    out: Seq<Delivery>,
    conn_id: u64,
) -> bool {
    &&& post.sessions@ == pre.sessions@
    &&& post.history@ == pre.history@
    &&& post.next_id == pre.next_id
    &&& post.streams@.dom() == pre.streams@.dom()
    &&& forall|id: u64| #[trigger]
        pre.streams@.dom().contains(id) ==> post.streams@[id] == (if id == conn_id {
            StreamModel { base: pre.history@.len() as int, log: Seq::empty() }
        } else {
            pre.streams@[id]
        })
    &&& out.len() == pre.history@.len() + 1
    &&& forall|i: int|
        0 <= i < pre.history@.len() ==> (#[trigger] out[i]).target == conn_id && out[i].msg@
            == pre.history@[i].msg@
    &&& out.last().target == conn_id
    &&& out.last().msg@.kind == MessageType::ClearToSend
    &&& out.last().msg@.username == Seq::<char>::empty()
    &&& out.last().msg@.body == Seq::<char>::empty()
}

/// What closing a session does: nothing if it is not registered
/// (closing is idempotent); otherwise exactly one `Leave` bearing its
/// username is broadcast to the others and the session is removed, with
/// its stream model released.
pub open spec fn disconnect_post(
    pre: ServerCore,
    post: ServerCore,
    out: Seq<Delivery>,
    conn_id: u64,
) -> bool {
    if !has_session(pre.sessions@, conn_id) {
        &&& post.sessions@ == pre.sessions@
        &&& post.history@ == pre.history@
        &&& post.streams@ == pre.streams@
        &&& post.next_id == pre.next_id
        &&& out.len() == 0
    } else {
        let k = session_index(pre.sessions@, conn_id);
        let leave = post.history@.last().msg@;
        &&& post.history@.len() == pre.history@.len() + 1
        &&& post.history@.subrange(0, pre.history@.len() as int) == pre.history@
        &&& post.history@.last().origin == conn_id
        &&& post.history@.last().exclude_origin == true
        &&& leave.kind == MessageType::Leave
        &&& leave.username == username_of(pre.sessions@, conn_id)
        &&& leave.body == Seq::<char>::empty()
        &&& post.sessions@ == pre.sessions@.subrange(0, k) + pre.sessions@.subrange(
            k + 1,
            pre.sessions@.len() as int,
        )
        &&& post.next_id == pre.next_id
        &&& post.streams@.dom() == pre.streams@.dom().remove(conn_id)
        &&& forall|id: u64|
            #[trigger] pre.streams@.dom().contains(id) && id != conn_id ==> post.streams@[id]
                == StreamModel {
                base: pre.streams@[id].base,
                log: pre.streams@[id].log.push(leave),
            }
        &&& out.map_values(|d: Delivery| d.target) == delivery_targets(pre.sessions@, conn_id, true)
        &&& forall|i: int| 0 <= i < out.len() ==> (#[trigger] out[i]).msg@ == leave
    }
}

impl ServerCore {
    /// The username the given registered session holds.
    fn username_for(&self, conn_id: u64) -> (r: String)
        requires
            self.wf(),
            has_session(self.sessions@, conn_id),
        ensures
            r@ == username_of(self.sessions@, conn_id),
    {
        let mut k: usize = 0;
        while k < self.sessions.len()
            invariant
                0 <= k <= self.sessions@.len(),
                self.wf(),
                forall|j: int| 0 <= j < k ==> (#[trigger] self.sessions@[j]).conn_id != conn_id,
            decreases self.sessions@.len() - k,
        {
            if self.sessions[k].conn_id == conn_id {
                proof {
                    lemma_session_index_is(self.sessions@, conn_id, k as int);
                }
                return self.sessions[k].username.clone();
            }
            k = k + 1;
        }
        proof {
            assert(false);
        }
        String::new()
    }

    /// Interpret one decoded message from the given registered session,
    /// as the session state machine prescribes: chat kinds are logged
    /// and fanned out to the other sessions, `SetUsername` drives the
    /// negotiation, `FetchMessages` replays the history snapshot, and
    /// any other kind is ignored.  The returned deliveries are the
    /// transport writes the caller owes, in order.
    #[verifier::loop_isolation(false)]
    pub fn handle_message(&mut self, conn_id: u64, msg: &Message) -> (out: Vec<Delivery>)
        requires
            old(self).wf(),
            has_session(old(self).sessions@, conn_id),
        ensures
            final(self).wf(),
            is_chat_kind(msg@.kind) ==> broadcast_post(
                *old(self),
                *final(self),
                out@,
                conn_id,
                msg@,
                true,
            ),
            msg@.kind == MessageType::SetUsername ==> negotiation_post(
                *old(self),
                *final(self),
                out@,
                conn_id,
                msg@,
            ),
            msg@.kind == MessageType::FetchMessages ==> fetch_post(
                *old(self),
                *final(self),
                out@,
                conn_id,
            ),
            !(is_chat_kind(msg@.kind) || msg@.kind == MessageType::SetUsername || msg@.kind
                == MessageType::FetchMessages) ==> final(self).sessions@ == old(self).sessions@
                && final(self).history@ == old(self).history@ && final(self).streams@ == old(
                self,
            ).streams@ && final(self).next_id == old(self).next_id && out@.len() == 0,
    {
        match msg.get_type() {
            MessageType::Message | MessageType::Join | MessageType::Leave => self.broadcast(
                conn_id,
                msg,
                true,
            ),
            MessageType::SetUsername => {
                let name = msg.get_username();
                let valid = validate_username(name.as_str());
                let available = self.is_username_available(&name);
                if valid && available {
                    let claimed = self.try_claim_username(conn_id, &name);
                    assert(claimed);
                    let reply = Message::builder().username(&name).message_type(
                        MessageType::UsernameAvailable,
                    ).build();
                    let mut out: Vec<Delivery> = Vec::new();
                    out.push(Delivery { target: conn_id, msg: reply });
                    out
                } else {
                    let mut k: usize = 0;
                    while k < self.sessions.len()
                        invariant
                            0 <= k <= self.sessions@.len(),
                            *self == *old(self),
                            self.wf(),
                            has_session(self.sessions@, conn_id),
                            forall|j: int|
                                0 <= j < k ==> (#[trigger] self.sessions@[j]).conn_id != conn_id,
                        decreases self.sessions@.len() - k,
                    {
                        if self.sessions[k].conn_id == conn_id {
                            proof {
                                lemma_session_index_is(self.sessions@, conn_id, k as int);
                            }
                            let current = self.sessions[k].username.clone();
                            let st = self.sessions[k].state;
                            let rec = SessionRec {
                                conn_id,
                                username: current.clone(),
                                state: if st == SessionState::Active {
                                    SessionState::Active
                                } else {
                                    SessionState::Negotiating
                                },
                            };
                            self.sessions[k] = rec;
                            proof {
                                let s1 = old(self).sessions@;
                                let s2 = self.sessions@;
                                assert forall|i: int, j: int|
                                    0 <= i < s2.len() && 0 <= j < s2.len() && i != j && (
                                #[trigger] s2[i].username@).len() > 0 implies s2[i].username@
                                    != #[trigger] s2[j].username@ by {
                                    assert(s2[i].username@ == s1[i].username@);
                                    assert(s2[j].username@ == s1[j].username@);
                                }
                                assert forall|i: int|
                                    0 <= i < s2.len() implies self.streams@.dom().contains(
                                    (#[trigger] s2[i]).conn_id,
                                ) by {
                                    assert(s2[i].conn_id == s1[i].conn_id);
                                }
                                assert forall|sid: u64| #[trigger]
                                    self.streams@.dom().contains(sid) implies has_session(
                                    s2,
                                    sid,
                                ) by {
                                    let j = choose|j: int|
                                        0 <= j < s1.len() && s1[j].conn_id == sid;
                                    assert(s2[j].conn_id == sid);
                                }
                            }
                            let reply = Message::builder().username(&current).message_type(
                                MessageType::UsernameTaken,
                            ).build();
                            let mut out: Vec<Delivery> = Vec::new();
                            out.push(Delivery { target: conn_id, msg: reply });
                            return out;
                        }
                        k = k + 1;
                    }
                    proof {
                        assert(false);
                    }
                    Vec::new()
                }
            },
            MessageType::FetchMessages => {
                let snapshot = self.sync_messages(conn_id);
                let mut out: Vec<Delivery> = Vec::new();
                let mut i: usize = 0;
                while i < snapshot.len()
                    invariant
                        0 <= i <= snapshot@.len(),
                        out@.len() == i,
                        snapshot@.len() == old(self).history@.len(),
                        forall|j: int|
                            0 <= j < snapshot@.len() ==> (#[trigger] snapshot@[j])@ == old(
                                self,
                            ).history@[j].msg@,
                        forall|j: int|
                            0 <= j < i ==> (#[trigger] out@[j]).target == conn_id && out@[j].msg@
                                == old(self).history@[j].msg@,
                    decreases snapshot@.len() - i,
                {
                    out.push(Delivery { target: conn_id, msg: snapshot[i].clone() });
                    i = i + 1;
                }
                let cts = Message::builder().message_type(MessageType::ClearToSend).build();
                out.push(Delivery { target: conn_id, msg: cts });
                out
            },
            _ => Vec::new(),
        }
    }

    /// Close a session after its transport failed or ended: broadcast
    /// one `Leave` bearing whatever username it had claimed (possibly
    /// still empty) and remove it from the registry.  A second call for
    /// the same id finds no session and does nothing.
    pub fn handle_disconnect(&mut self, conn_id: u64) -> (out: Vec<Delivery>)
        requires
            old(self).wf(),
        ensures
            final(self).wf(),
            disconnect_post(*old(self), *final(self), out@, conn_id),
    {
        if !self.session_exists(conn_id) {
            return Vec::new();
        }
        let uname = self.username_for(conn_id);
        let leave = Message::builder().username(&uname).message_type(MessageType::Leave).build();
        let out = self.broadcast(conn_id, &leave, true);
        remove_client(self, conn_id);
        out
    }
}

/// An excluding broadcast reaches no delivery whose target is the origin.
pub proof fn lemma_targets_exclude(s: Seq<SessionRec>, origin: u64)
    ensures
        forall|i: int|
            0 <= i < delivery_targets(s, origin, true).len() ==> #[trigger] delivery_targets(
                s,
                origin,
                true,
            )[i] != origin,
    decreases s.len(),
{
    if s.len() > 0 {
        lemma_targets_exclude(s.drop_last(), origin);
        let t = delivery_targets(s, origin, true);
        let p = delivery_targets(s.drop_last(), origin, true);
        assert forall|i: int| 0 <= i < t.len() implies t[i] != origin by {
            if i < p.len() {
                assert(t[i] == p[i]);
            }
        }
    }
}

/// Uniqueness: at most one session holds any given username at a time
/// (the empty username means "not yet negotiated" and is exempt).
pub proof fn lemma_username_uniqueness(c: ServerCore, i: int, j: int)
    requires
        c.wf(),
        0 <= i < c.sessions@.len(),
        0 <= j < c.sessions@.len(),
        i != j,
        c.sessions@[i].username@.len() > 0,
    ensures
        c.sessions@[i].username@ != c.sessions@[j].username@,
{
}

/// Where history entry `i` lands in the stream session `id` is handed:
/// the length of the stream built from the entries before `i`.
pub open spec fn stream_pos(h: Seq<HistEntry>, b: int, id: u64, i: int) -> int {
    stream_proj(h.take(i), b, id).len() as int
}

/// A history entry owed to session `id` appears in its stream, at its
/// stream position.
pub proof fn lemma_stream_index(h: Seq<HistEntry>, b: int, id: u64, i: int)
    requires
        0 <= b <= i < h.len(),
        !skipped_for(h[i], id),
    ensures
        0 <= stream_pos(h, b, id, i) < stream_proj(h, b, id).len(),
        stream_proj(h, b, id)[stream_pos(h, b, id, i)] == h[i].msg@,
    decreases h.len(),
{
    if i == h.len() - 1 {
        assert(h.take(i) =~= h.drop_last());
        assert(h.last() == h[i]);
    } else {
        lemma_stream_index(h.drop_last(), b, id, i);
        assert(h.drop_last().take(i) =~= h.take(i));
        assert(h.drop_last()[i] == h[i]);
    }
}

/// Two history entries owed to session `id` appear in its stream in
/// history order.
pub proof fn lemma_stream_order(h: Seq<HistEntry>, b: int, id: u64, i: int, j: int)
    requires
        0 <= b <= i < j < h.len(),
        !skipped_for(h[i], id),
        !skipped_for(h[j], id),
    ensures
        0 <= stream_pos(h, b, id, i) < stream_pos(h, b, id, j) < stream_proj(h, b, id).len(),
        stream_proj(h, b, id)[stream_pos(h, b, id, i)] == h[i].msg@,
        stream_proj(h, b, id)[stream_pos(h, b, id, j)] == h[j].msg@,
{
    lemma_stream_index(h, b, id, i);
    lemma_stream_index(h, b, id, j);
    lemma_stream_index(h.take(j), b, id, i);
    assert(h.take(j).take(i) =~= h.take(i));
    assert(h.take(j)[i] == h[i]);
}

/// Total order: for any two sessions and any two history entries owed
/// to both, both sessions' streams carry the earlier entry's message
/// strictly before the later entry's.  Broadcasts and registry changes
/// share one lock, so the history log is that shared order.
pub proof fn lemma_total_order(c: ServerCore, id1: u64, id2: u64, i: int, j: int)
    requires
        c.wf(),
        c.streams@.dom().contains(id1),
        c.streams@.dom().contains(id2),
        c.streams@[id1].base <= i,
        c.streams@[id2].base <= i,
        i < j < c.history@.len(),
        !skipped_for(c.history@[i], id1),
        !skipped_for(c.history@[j], id1),
        !skipped_for(c.history@[i], id2),
        !skipped_for(c.history@[j], id2),
    ensures
        ({
            let h = c.history@;
            let b1 = c.streams@[id1].base;
            let b2 = c.streams@[id2].base;
            &&& stream_pos(h, b1, id1, i) < stream_pos(h, b1, id1, j)
            &&& stream_pos(h, b2, id2, i) < stream_pos(h, b2, id2, j)
            &&& c.streams@[id1].log[stream_pos(h, b1, id1, i)] == h[i].msg@
            &&& c.streams@[id1].log[stream_pos(h, b1, id1, j)] == h[j].msg@
            &&& c.streams@[id2].log[stream_pos(h, b2, id2, i)] == h[i].msg@
            &&& c.streams@[id2].log[stream_pos(h, b2, id2, j)] == h[j].msg@
        }),
{
    lemma_stream_order(c.history@, c.streams@[id1].base, id1, i, j);
    lemma_stream_order(c.history@, c.streams@[id2].base, id2, i, j);
}

/// Every element of a session's stream stems from a history entry that
/// was not its own excluded broadcast: a session never receives its own
/// broadcast back.
pub proof fn lemma_stream_source(h: Seq<HistEntry>, b: int, id: u64, p: int)
    requires
        0 <= b,
        0 <= p < stream_proj(h, b, id).len(),
    ensures
        exists|i: int|
            b <= i < h.len() && !skipped_for(#[trigger] h[i], id) && h[i].msg@ == stream_proj(
                h,
                b,
                id,
            )[p],
    decreases h.len(),
{
    if h.len() > b {
        let pre = stream_proj(h.drop_last(), b, id);
        if p < pre.len() {
            lemma_stream_source(h.drop_last(), b, id, p);
            let i = choose|i: int|
                b <= i < h.drop_last().len() && !skipped_for(#[trigger] h.drop_last()[i], id)
                    && h.drop_last()[i].msg@ == pre[p];
            assert(h[i] == h.drop_last()[i]);
            assert(stream_proj(h, b, id)[p] == pre[p]);
        } else {
            assert(!skipped_for(h.last(), id));
            assert(h[h.len() - 1] == h.last());
            assert(stream_proj(h, b, id)[p] == h.last().msg@);
        }
    }
}

/// Exclusion, at the dispatcher: an excluding broadcast sends nothing
/// to its origin, whose stream is left exactly as it was.
pub proof fn lemma_exclusion(
    pre: ServerCore,
    post: ServerCore,
    out: Seq<Delivery>,
    origin: u64,
    mv: MessageView,
)
    requires
        broadcast_post(pre, post, out, origin, mv, true),
    ensures
        forall|i: int| 0 <= i < out.len() ==> (#[trigger] out[i]).target != origin,
        pre.streams@.dom().contains(origin) ==> post.streams@[origin] == pre.streams@[origin],
{
    lemma_targets_exclude(pre.sessions@, origin);
    assert forall|i: int| 0 <= i < out.len() implies (#[trigger] out[i]).target != origin by {
        assert(out.map_values(|d: Delivery| d.target)[i] == out[i].target);
    }
}

/// History prefix consistency: what a session observes — the history
/// snapshot up to its stream base, followed by its live stream — holds
/// every prefix entry once at its own index, every later entry owed to
/// it once at the base plus its stream position (so in log order, with
/// no gap and no duplicate), and nothing else.
pub proof fn lemma_history_prefix_consistency(c: ServerCore, id: u64)
    requires
        c.wf(),
        c.streams@.dom().contains(id),
    ensures
        ({
            let h = c.history@;
            let st = c.streams@[id];
            let observed = history_msgs(h.take(st.base)) + st.log;
            &&& observed.len() == st.base + st.log.len()
            &&& forall|i: int| 0 <= i < st.base ==> observed[i] == h[i].msg@
            &&& forall|i: int|
                st.base <= i < h.len() && !skipped_for(#[trigger] h[i], id) ==> st.base
                    + stream_pos(h, st.base, id, i) < observed.len() && observed[st.base
                    + stream_pos(h, st.base, id, i)] == h[i].msg@
            &&& forall|p: int|
                0 <= p < st.log.len() ==> exists|i: int|
                    st.base <= i < h.len() && !skipped_for(#[trigger] h[i], id) && h[i].msg@ == (
                    #[trigger] st.log[p])
        }),
{
    let h = c.history@;
    let st = c.streams@[id];
    let observed = history_msgs(h.take(st.base)) + st.log;
    assert(history_msgs(h.take(st.base)).len() == st.base);
    assert forall|i: int| 0 <= i < st.base implies observed[i] == h[i].msg@ by {
        assert(observed[i] == history_msgs(h.take(st.base))[i]);
        assert(history_msgs(h.take(st.base))[i] == h.take(st.base)[i].msg@);
    }
    assert forall|i: int|
        st.base <= i < h.len() && !skipped_for(#[trigger] h[i], id) implies st.base + stream_pos(
        h,
        st.base,
        id,
        i,
    ) < observed.len() && observed[st.base + stream_pos(h, st.base, id, i)] == h[i].msg@ by {
        lemma_stream_index(h, st.base, id, i);
        assert(observed[st.base + stream_pos(h, st.base, id, i)] == st.log[stream_pos(
            h,
            st.base,
            id,
            i,
        )]);
    }
    assert forall|p: int| 0 <= p < st.log.len() implies exists|i: int|
        st.base <= i < h.len() && !skipped_for(#[trigger] h[i], id) && h[i].msg@ == (
    #[trigger] st.log[p]) by {
        lemma_stream_source(h, st.base, id, p);
    }
}

/// With unique ids, the chosen index of a present session is the index
/// where it stands.
pub proof fn lemma_session_index_is(s: Seq<SessionRec>, id: u64, k: int)
    requires
        ids_unique(s),
        0 <= k < s.len(),
        s[k].conn_id == id,
    ensures
        has_session(s, id),
        session_index(s, id) == k,
        username_of(s, id) == s[k].username@,
{
    assert(has_session(s, id));
    let j = session_index(s, id);
    if j < k {
        assert(s[j].conn_id != s[k].conn_id);
    } else if j > k {
        assert(s[k].conn_id != s[j].conn_id);
    }
}

} // verus!
