//! The wire protocol: a textual, self-describing record per message and a
//! length-prefixed framing discipline over a persistent receive buffer, so
//! that complete logical messages are recovered however the byte stream
//! fragments or coalesces.
//!
//! A message record is `tag SP timestamp SP ulen SP blen LF sender body`,
//! every number a decimal numeral, the sender and body given as UTF-8 of
//! the stated byte lengths.  A frame is `len LF record` where `len` is the
//! record's byte length.

use vstd::prelude::*;
use vstd::slice::{slice_subrange, slice_to_vec};
use vstd::string::StrSliceExecFns;
use vstd::utf8::{decode_utf8, encode_utf8, encode_utf8_decode_utf8, encode_utf8_valid_utf8, valid_utf8};

use crate::message::{Message, MessageView};
use crate::message_types::MessageType;
use crate::numeral::{all_dec_digits, dec_of, dec_val, is_dec_digit, lemma_dec_of_shape, lemma_dec_val_nonneg,
    lemma_dec_round_trip, parse_dec, push_dec, u64_to_dec};

verus! {

/// The wire record of a message.
pub open spec fn encode_msg(mv: MessageView) -> Seq<u8> {
    dec_of(mv.kind.tag() as nat) + seq![32u8] + sdec_of(mv.timestamp) + seq![32u8] + dec_of(
        encode_utf8(mv.username).len(),
    ) + seq![32u8] + dec_of(encode_utf8(mv.body).len()) + seq![10u8] + encode_utf8(mv.username)
        + encode_utf8(mv.body)
}

/// The decimal numeral of `t` as bytes, sign first when negative.
pub open spec fn sdec_of(t: int) -> Seq<u8> {
    if t >= 0 {
        dec_of(t as nat)
    } else {
        seq![45u8] + dec_of((-t) as nat)
    }
}

/// One frame: the record's byte length, a line feed, then the record.
pub open spec fn framed(payload: Seq<u8>) -> Seq<u8> {
    dec_of(payload.len()) + seq![10u8] + payload
}

/// Index of the first occurrence of `b` in `s`, or -1.
pub open spec fn find_byte(s: Seq<u8>, b: u8) -> int
    decreases s.len(),
{
    if s.len() == 0 {
        -1
    } else if s[0] == b {
        0
    } else {
        let r = find_byte(s.drop_first(), b);
        if r < 0 {
            -1
        } else {
            r + 1
        }
    }
}

/// `find_byte` returns -1 exactly when `b` is absent, and otherwise the
/// least index holding `b`.
pub proof fn lemma_find_byte(s: Seq<u8>, b: u8)
    ensures
        find_byte(s, b) == -1 ==> forall|i: int| 0 <= i < s.len() ==> s[i] != b,
        find_byte(s, b) >= 0 ==> 0 <= find_byte(s, b) < s.len() && s[find_byte(s, b)] == b
            && forall|i: int| 0 <= i < find_byte(s, b) ==> s[i] != b,
    decreases s.len(),
{
    if s.len() > 0 && s[0] != b {
        let t = s.drop_first();
        lemma_find_byte(t, b);
        let rt = find_byte(t, b);
        if rt == -1 {
            assert(find_byte(s, b) == -1);
            assert forall|i: int| 0 <= i < s.len() implies s[i] != b by {
                if i > 0 {
                    assert(t[i - 1] == s[i]);
                }
            }
        } else {
            assert(find_byte(s, b) == rt + 1);
            assert(s[rt + 1] == t[rt]);
            assert forall|i: int| 0 <= i < rt + 1 implies s[i] != b by {
                if i > 0 {
                    assert(t[i - 1] == s[i]);
                }
            }
        }
    }
}

/// If position `k` holds `b` and no earlier position does, `find_byte`
/// lands on `k`.
pub proof fn lemma_find_byte_at(s: Seq<u8>, b: u8, k: int)
    requires
        0 <= k < s.len(),
        s[k] == b,
        forall|i: int| 0 <= i < k ==> s[i] != b,
    ensures
        find_byte(s, b) == k,
{
    lemma_find_byte(s, b);
    let r = find_byte(s, b);
    if r == -1 {
        assert(s[k] != b);
    } else if r < k {
        assert(s[r] != b);
    } else if r > k {
        assert(s[k] != b);
    }
}

/// Index of the first occurrence of `b`, executable.
pub fn find_byte_in(s: &[u8], b: u8) -> (r: Option<usize>)
    ensures
        match r {
            Some(k) => k == find_byte(s@, b),
            None => find_byte(s@, b) == -1,
        },
{
    let mut i: usize = 0;
    while i < s.len()
        invariant
            0 <= i <= s@.len(),
            forall|j: int| 0 <= j < i ==> s@[j] != b,
        decreases s@.len() - i,
    {
        if s[i] == b {
            proof {
                lemma_find_byte_at(s@, b, i as int);
            }
            return Some(i);
        }
        i = i + 1;
    }
    proof {
        lemma_find_byte(s@, b);
    }
    None
}

/// Append a copy of `s` to `out`.
pub fn append_bytes(out: &mut Vec<u8>, s: &[u8])
    ensures
        final(out)@ == old(out)@ + s@,
{
    let mut i: usize = 0;
    while i < s.len()
        invariant
            0 <= i <= s@.len(),
            out@ == old(out)@ + s@.take(i as int),
        decreases s@.len() - i,
    {
        out.push(s[i]);
        assert(out@ =~= old(out)@ + s@.take(i as int + 1));
        i = i + 1;
    }
    assert(out@ =~= old(out)@ + s@);
}

/// Append the decimal numeral of `t`, sign first when negative.
fn push_sdec(t: i64, out: &mut Vec<u8>)
    ensures
        final(out)@ == old(out)@ + sdec_of(t as int),
{
    if t >= 0 {
        push_dec(t as u64, out);
    } else {
        out.push(45);
        let mag: u64 = ((-(t + 1)) as u64) + 1;
        assert(mag as int == -(t as int));
        push_dec(mag, out);
        assert(final(out)@ =~= old(out)@ + sdec_of(t as int));
    }
}

/// Encode one message as its wire record.
pub fn encode_message(m: &Message) -> (r: Vec<u8>)
    ensures
        r@ == encode_msg(m@),
{
    let mut out: Vec<u8> = Vec::new();
    let tag = m.get_type().as_int();
    assert(0 <= m@.kind.tag() <= 32);
    push_dec(tag as u64, &mut out);
    out.push(32);
    push_sdec(m.timestamp, &mut out);
    out.push(32);
    let ub = m.username.as_str().as_bytes_vec();
    push_dec(ub.len() as u64, &mut out);
    out.push(32);
    let bb = m.message.as_str().as_bytes_vec();
    push_dec(bb.len() as u64, &mut out);
    out.push(10);
    append_bytes(&mut out, ub.as_slice());
    append_bytes(&mut out, bb.as_slice());
    assert(out@ =~= encode_msg(m@));
    out
}

/// What a signed decimal numeral denotes, or `None` if the bytes are not
/// one.  The value is unbounded here; the record parser checks the range.
pub open spec fn parse_sdec(s: Seq<u8>) -> Option<int> {
    if s.len() >= 1 && s[0] == 45 {
        if s.len() >= 2 && all_dec_digits(s.skip(1)) {
            Some(-dec_val(s.skip(1)))
        } else {
            None
        }
    } else if s.len() >= 1 && all_dec_digits(s) {
        Some(dec_val(s))
    } else {
        None
    }
}

/// The message a wire record denotes, or `None` for a malformed record.
/// Splits on the first three spaces and the first line feed, reads the
/// four numbers, and takes the sender and body as UTF-8 of the stated
/// lengths, demanding an assigned kind tag and that the sender and body
/// use up the record exactly.
pub open spec fn parse_message(bytes: Seq<u8>) -> Option<MessageView> {
    let i1 = find_byte(bytes, 32);
    if i1 < 0 {
        None
    } else {
        let tag_s = bytes.take(i1);
        let r1 = bytes.skip(i1 + 1);
        let i2 = find_byte(r1, 32);
        if i2 < 0 {
            None
        } else {
            let ts_s = r1.take(i2);
            let r2 = r1.skip(i2 + 1);
            let i3 = find_byte(r2, 32);
            if i3 < 0 {
                None
            } else {
                let ul_s = r2.take(i3);
                let r3 = r2.skip(i3 + 1);
                let i4 = find_byte(r3, 10);
                if i4 < 0 {
                    None
                } else {
                    let bl_s = r3.take(i4);
                    let r4 = r3.skip(i4 + 1);
                    parse_message_fields(tag_s, ts_s, ul_s, bl_s, r4)
                }
            }
        }
    }
}

/// The second half of [`parse_message`]: interpret the four split-off
/// number strings and the remainder holding sender and body bytes.
pub open spec fn parse_message_fields(
    tag_s: Seq<u8>,
    ts_s: Seq<u8>,
    ul_s: Seq<u8>,
    bl_s: Seq<u8>,
    r4: Seq<u8>,
) -> Option<MessageView> {
    if !(tag_s.len() > 0 && all_dec_digits(tag_s) && dec_val(tag_s) <= i32::MAX
        && MessageType::known_tag(dec_val(tag_s) as i32)) {
        None
    } else {
        match parse_sdec(ts_s) {
            None => None,
            Some(t) => {
                if !(i64::MIN <= t <= i64::MAX) {
                    None
                } else if !(ul_s.len() > 0 && all_dec_digits(ul_s) && bl_s.len() > 0
                    && all_dec_digits(bl_s)) {
                    None
                } else {
                    let ul = dec_val(ul_s);
                    let bl = dec_val(bl_s);
                    if r4.len() != ul + bl {
                        None
                    } else {
                        let ub = r4.take(ul);
                        let bb = r4.skip(ul);
                        if valid_utf8(ub) && valid_utf8(bb) {
                            Some(
                                MessageView {
                                    username: decode_utf8(ub),
                                    body: decode_utf8(bb),
                                    timestamp: t,
                                    kind: MessageType::of_tag(dec_val(tag_s) as i32),
                                },
                            )
                        } else {
                            None
                        }
                    }
                }
            },
        }
    }
}

/// Relies on std's `String::from_utf8`: succeeds exactly on valid UTF-8
/// and returns the string those bytes encode.
#[verifier::external_body]
fn string_from_utf8(v: Vec<u8>) -> (r: Option<String>)
    ensures
        r is Some <==> valid_utf8(v@),
        r matches Some(s) ==> s@ == decode_utf8(v@),
{
    match String::from_utf8(v) {
        Ok(s) => Some(s),
        Err(_) => None,
    }
}

/// Decode one wire record, exactly as [`parse_message`] reads it.
pub fn decode_message(payload: &[u8]) -> (r: Option<Message>)
    ensures
        match r {
            Some(m) => parse_message(payload@) == Some(m@),
            None => parse_message(payload@) is None,
        },
{
    proof {
        lemma_find_byte(payload@, 32);
    }
    let i1 = match find_byte_in(payload, 32) {
        Some(i) => i,
        None => {
            return None;
        },
    };
    let n = payload.len();
    assert(i1 < payload@.len());
    let tag_s = slice_subrange(payload, 0, i1);
    let r1 = slice_subrange(payload, i1 + 1, n);
    assert(tag_s@ =~= payload@.take(i1 as int));
    assert(r1@ =~= payload@.skip(i1 as int + 1));
    proof {
        lemma_find_byte(r1@, 32);
    }
    let i2 = match find_byte_in(r1, 32) {
        Some(i) => i,
        None => {
            return None;
        },
    };
    let n1 = r1.len();
    assert(i2 < r1@.len());
    let ts_s = slice_subrange(r1, 0, i2);
    let r2 = slice_subrange(r1, i2 + 1, n1);
    assert(ts_s@ =~= r1@.take(i2 as int));
    assert(r2@ =~= r1@.skip(i2 as int + 1));
    proof {
        lemma_find_byte(r2@, 32);
    }
    let i3 = match find_byte_in(r2, 32) {
        Some(i) => i,
        None => {
            return None;
        },
    };
    let n2 = r2.len();
    assert(i3 < r2@.len());
    let ul_s = slice_subrange(r2, 0, i3);
    let r3 = slice_subrange(r2, i3 + 1, n2);
    assert(ul_s@ =~= r2@.take(i3 as int));
    assert(r3@ =~= r2@.skip(i3 as int + 1));
    proof {
        lemma_find_byte(r3@, 10);
    }
    let i4 = match find_byte_in(r3, 10) {
        Some(i) => i,
        None => {
            return None;
        },
    };
    let n3 = r3.len();
    assert(i4 < r3@.len());
    let bl_s = slice_subrange(r3, 0, i4);
    let r4 = slice_subrange(r3, i4 + 1, n3);
    assert(bl_s@ =~= r3@.take(i4 as int));
    assert(r4@ =~= r3@.skip(i4 as int + 1));

    let tag = match parse_dec(tag_s) {
        Some(v) => v,
        None => {
            return None;
        },
    };
    if tag > 2147483647u64 {
        return None;
    }
    if !MessageType::is_known_tag(tag as i32) {
        return None;
    }
    let ts: i64 = if ts_s.len() >= 1 && ts_s[0] == 45 {
        let mag_s = slice_subrange(ts_s, 1, ts_s.len());
        assert(mag_s@ =~= ts_s@.skip(1));
        let mag = match parse_dec(mag_s) {
            Some(v) => v,
            None => {
                return None;
            },
        };
        if mag > 9223372036854775808u64 {
            return None;
        }
        if mag == 9223372036854775808u64 {
            i64::MIN
        } else {
            -(mag as i64)
        }
    } else {
        let v = match parse_dec(ts_s) {
            Some(v) => v,
            None => {
                return None;
            },
        };
        if v > 9223372036854775807u64 {
            return None;
        }
        v as i64
    };
    let ul = match parse_dec(ul_s) {
        Some(v) => v,
        None => {
            proof {
                // Only the oversized-value case needs help: the whole
                // record is then shorter than the claimed lengths.
                if all_dec_digits(bl_s@) {
                    lemma_dec_val_nonneg(bl_s@);
                }
            }
            return None;
        },
    };
    let bl = match parse_dec(bl_s) {
        Some(v) => v,
        None => {
            return None;
        },
    };
    if ul > u64::MAX - bl {
        return None;
    }
    if r4.len() as u64 != ul + bl {
        return None;
    }
    let ub = slice_subrange(r4, 0, ul as usize);
    let bb = slice_subrange(r4, ul as usize, r4.len());
    assert(ub@ =~= r4@.take(dec_val(ul_s@)));
    assert(bb@ =~= r4@.skip(dec_val(ul_s@)));
    let uname = match string_from_utf8(slice_to_vec(ub)) {
        Some(s) => s,
        None => {
            return None;
        },
    };
    let body = match string_from_utf8(slice_to_vec(bb)) {
        Some(s) => s,
        None => {
            return None;
        },
    };
    let m = Message {
        username: uname,
        message: body,
        timestamp: ts,
        type_: MessageType::from_int(tag as i32),
    };
    Some(m)
}

/// Encode one message as a complete frame: length line, then record.
pub fn encode_frame(m: &Message) -> (r: Vec<u8>)
    ensures
        r@ == framed(encode_msg(m@)),
{
    let payload = encode_message(m);
    let mut out = u64_to_dec(payload.len() as u64);
    out.push(10);
    append_bytes(&mut out, payload.as_slice());
    assert(out@ =~= framed(encode_msg(m@)));
    out
}

/// What one decoding step does to a receive buffer.
pub ghost enum StepView {
    /// No complete unit buffered yet; wait for more bytes.
    NeedMore,
    /// The buffered length line is not a usable numeral: that unit is
    /// discarded through its line feed, leaving the given remainder.
    Discard(Seq<u8>),
    /// One complete frame: its record, and the remainder after it.
    Frame(Seq<u8>, Seq<u8>),
}

/// The framing discipline, as a function of the buffered bytes alone:
/// read the decimal length line before the first line feed, then wait
/// until that many record bytes follow it.
pub open spec fn step_of(buf: Seq<u8>) -> StepView {
    let i = find_byte(buf, 10);
    if i < 0 {
        StepView::NeedMore
    } else if !(i > 0 && all_dec_digits(buf.take(i)) && dec_val(buf.take(i)) <= u64::MAX) {
        StepView::Discard(buf.skip(i + 1))
    } else {
        let flen = dec_val(buf.take(i));
        if buf.len() < i + 1 + flen {
            StepView::NeedMore
        } else {
            StepView::Frame(buf.subrange(i + 1, i + 1 + flen), buf.skip(i + 1 + flen))
        }
    }
}

/// Outcome of one [`Decoder::next`] call.
pub enum DecodeStep {
    /// The buffer holds no complete frame; feed more bytes.
    NeedMore,
    /// A malformed unit (bad length line or bad record) was dropped;
    /// the stream goes on.
    Discarded,
    /// One complete, well-formed message.
    Ready(Message),
}

/// Receive-side frame assembler: accumulates arbitrarily fragmented or
/// coalesced reads and hands out one complete message per frame.
pub struct Decoder {
    pub data: Vec<u8>,
}

impl Decoder {
    pub fn new() -> (r: Decoder)
        ensures
            r.data@ == Seq::<u8>::empty(),
    {
        Decoder { data: Vec::new() }
    }

    /// Append freshly read bytes to the receive buffer.
    pub fn feed(&mut self, bytes: &[u8])
        ensures
            final(self).data@ == old(self).data@ + bytes@,
    {
        append_bytes(&mut self.data, bytes);
    }

    /// Take one step: pop the next complete unit off the buffer, or
    /// report that more bytes are needed.  Behaves exactly as
    /// [`step_of`] and [`parse_message`] describe.
    pub fn next(&mut self) -> (r: DecodeStep)
        ensures
            ({
                let st = step_of(old(self).data@);
                match st {
                    StepView::NeedMore => r is NeedMore && final(self).data@ == old(self).data@,
                    StepView::Discard(rest) => r is Discarded && final(self).data@ == rest,
                    StepView::Frame(p, rest) => final(self).data@ == rest && (match parse_message(
                        p,
                    ) {
                        Some(mv) => r matches DecodeStep::Ready(m) && m@ == mv,
                        None => r is Discarded,
                    }),
                }
            }),
    {
        proof {
            lemma_find_byte(self.data@, 10);
        }
        let nl = match find_byte_in(self.data.as_slice(), 10) {
            Some(i) => i,
            None => {
                return DecodeStep::NeedMore;
            },
        };
        let total = self.data.len();
        assert(nl < self.data@.len());
        let len_s = slice_subrange(self.data.as_slice(), 0, nl);
        assert(len_s@ =~= self.data@.take(nl as int));
        let flen = match parse_dec(len_s) {
            Some(v) => v,
            None => {
                let tail = self.data.split_off(nl + 1);
                self.data = tail;
                assert(self.data@ =~= old(self).data@.skip(nl as int + 1));
                return DecodeStep::Discarded;
            },
        };
        let avail = total - (nl + 1);
        if flen > avail as u64 {
            return DecodeStep::NeedMore;
        }
        let fl = flen as usize;
        let payload = slice_subrange(self.data.as_slice(), nl + 1, nl + 1 + fl);
        assert(payload@ =~= self.data@.subrange(nl as int + 1, nl as int + 1 + dec_val(
            self.data@.take(nl as int),
        )));
        let msg = decode_message(payload);
        let tail = self.data.split_off(nl + 1 + fl);
        self.data = tail;
        assert(self.data@ =~= old(self).data@.skip(nl as int + 1 + dec_val(
            old(self).data@.take(nl as int),
        )));
        match msg {
            Some(m) => DecodeStep::Ready(m),
            None => DecodeStep::Discarded,
        }
    }
}

/// Every byte of a signed numeral is a minus sign or a digit.
proof fn lemma_sdec_shape(t: int)
    ensures
        sdec_of(t).len() >= 1,
        forall|i: int|
            0 <= i < sdec_of(t).len() ==> sdec_of(t)[i] == 45 || is_dec_digit(#[trigger] sdec_of(t)[i]),
{
    if t >= 0 {
        lemma_dec_of_shape(t as nat);
    } else {
        lemma_dec_of_shape((-t) as nat);
        let s = sdec_of(t);
        assert forall|i: int| 0 <= i < s.len() implies s[i] == 45 || is_dec_digit(s[i]) by {
            if i > 0 {
                assert(s[i] == dec_of((-t) as nat)[i - 1]);
            }
        }
    }
}

/// A signed numeral reads back to the number it was made from.
proof fn lemma_sdec_round_trip(t: int)
    ensures
        parse_sdec(sdec_of(t)) == Some(t),
{
    if t >= 0 {
        lemma_dec_of_shape(t as nat);
        lemma_dec_round_trip(t as nat);
    } else {
        lemma_dec_of_shape((-t) as nat);
        lemma_dec_round_trip((-t) as nat);
        let s = sdec_of(t);
        assert(s[0] == 45);
        assert(s.skip(1) =~= dec_of((-t) as nat));
    }
}

/// Feeding one whole frame, followed by anything, makes the decoder pop
/// exactly that frame's record and keep the remainder.
pub proof fn lemma_frame_step(payload: Seq<u8>, rest: Seq<u8>)
    requires
        payload.len() <= u64::MAX,
    ensures
        step_of(framed(payload) + rest) == StepView::Frame(payload, rest),
{
    let buf = framed(payload) + rest;
    let d = dec_of(payload.len());
    lemma_dec_of_shape(payload.len());
    lemma_dec_round_trip(payload.len());
    let dl = d.len() as int;
    assert(buf[dl] == 10);
    assert forall|i: int| 0 <= i < dl implies buf[i] != 10 by {
        assert(buf[i] == d[i]);
        assert(is_dec_digit(d[i]));
    }
    lemma_find_byte_at(buf, 10, dl);
    assert(buf.take(dl) =~= d);
    assert(buf.len() == dl + 1 + payload.len() + rest.len());
    assert(buf.subrange(dl + 1, dl + 1 + payload.len() as int) =~= payload);
    assert(buf.skip(dl + 1 + payload.len() as int) =~= rest);
}

/// A message's wire record parses back to exactly that message.
#[verifier::rlimit(60)]
pub proof fn lemma_parse_encode(mv: MessageView)
    requires
        i64::MIN <= mv.timestamp <= i64::MAX,
    ensures
        parse_message(encode_msg(mv)) == Some(mv),
{
    let tag_n = mv.kind.tag() as nat;
    let a = dec_of(tag_n);
    let t = sdec_of(mv.timestamp);
    let eu = encode_utf8(mv.username);
    let eb = encode_utf8(mv.body);
    let u = dec_of(eu.len());
    let b = dec_of(eb.len());
    let sp = seq![32u8];
    let nlb = seq![10u8];
    let bytes = encode_msg(mv);
    assert(bytes =~= a + sp + (t + sp + (u + sp + (b + nlb + (eu + eb)))));

    lemma_dec_of_shape(tag_n);
    lemma_sdec_shape(mv.timestamp);
    lemma_dec_of_shape(eu.len());
    lemma_dec_of_shape(eb.len());

    // First space: right after the tag numeral.
    assert(bytes[a.len() as int] == 32);
    assert forall|i: int| 0 <= i < a.len() implies bytes[i] != 32 by {
        assert(bytes[i] == a[i]);
        assert(is_dec_digit(a[i]));
    }
    lemma_find_byte_at(bytes, 32, a.len() as int);
    assert(bytes.take(a.len() as int) =~= a);
    let r1 = bytes.skip(a.len() as int + 1);
    assert(r1 =~= t + sp + (u + sp + (b + nlb + (eu + eb))));

    // Second space: right after the timestamp numeral.
    assert(r1[t.len() as int] == 32);
    assert forall|i: int| 0 <= i < t.len() implies r1[i] != 32 by {
        assert(r1[i] == t[i]);
        assert(t[i] == 45 || is_dec_digit(t[i]));
    }
    lemma_find_byte_at(r1, 32, t.len() as int);
    assert(r1.take(t.len() as int) =~= t);
    let r2 = r1.skip(t.len() as int + 1);
    assert(r2 =~= u + sp + (b + nlb + (eu + eb)));

    // Third space: right after the sender-length numeral.
    assert(r2[u.len() as int] == 32);
    assert forall|i: int| 0 <= i < u.len() implies r2[i] != 32 by {
        assert(r2[i] == u[i]);
        assert(is_dec_digit(u[i]));
    }
    lemma_find_byte_at(r2, 32, u.len() as int);
    assert(r2.take(u.len() as int) =~= u);
    let r3 = r2.skip(u.len() as int + 1);
    assert(r3 =~= b + nlb + (eu + eb));

    // Line feed: right after the body-length numeral.
    assert(r3[b.len() as int] == 10);
    assert forall|i: int| 0 <= i < b.len() implies r3[i] != 10 by {
        assert(r3[i] == b[i]);
        assert(is_dec_digit(b[i]));
    }
    lemma_find_byte_at(r3, 10, b.len() as int);
    assert(r3.take(b.len() as int) =~= b);
    let r4 = r3.skip(b.len() as int + 1);
    assert(r4 =~= eu + eb);

    // The four numbers read back.
    lemma_dec_round_trip(tag_n);
    assert(0 <= mv.kind.tag() <= 32);
    lemma_sdec_round_trip(mv.timestamp);
    lemma_dec_round_trip(eu.len());
    lemma_dec_round_trip(eb.len());

    // Sender and body split exactly and decode back.
    assert(r4.len() == eu.len() + eb.len());
    assert(r4.take(eu.len() as int) =~= eu);
    assert(r4.skip(eu.len() as int) =~= eb);
    encode_utf8_valid_utf8(mv.username);
    encode_utf8_valid_utf8(mv.body);
    encode_utf8_decode_utf8(mv.username);
    encode_utf8_decode_utf8(mv.body);
    crate::message_types::lemma_tag_round_trip(mv.kind);
}

/// The codec round trip: any message, framed and fed to the decoder
/// ahead of arbitrary further bytes, is popped as one frame whose record
/// parses back to exactly that message.
pub proof fn lemma_frame_round_trip(mv: MessageView, rest: Seq<u8>)
    requires
        i64::MIN <= mv.timestamp <= i64::MAX,
        encode_msg(mv).len() <= u64::MAX,
    ensures
        step_of(framed(encode_msg(mv)) + rest) == StepView::Frame(encode_msg(mv), rest),
        parse_message(encode_msg(mv)) == Some(mv),
{
    lemma_frame_step(encode_msg(mv), rest);
    lemma_parse_encode(mv);
}

/// Split tolerance: a byte stream cut at any boundary and fed in two
/// parts leaves the receive buffer exactly as feeding it whole would, so
/// every later decoding step is identical.
pub proof fn lemma_feed_in_parts(buffered: Seq<u8>, bytes: Seq<u8>, k: int)
    requires
        0 <= k <= bytes.len(),
    ensures
        (buffered + bytes.take(k)) + bytes.skip(k) == buffered + bytes,
{
    assert((buffered + bytes.take(k)) + bytes.skip(k) =~= buffered + bytes);
}

} // verus!
