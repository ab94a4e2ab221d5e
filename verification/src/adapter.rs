//! Network adapters as read from the system configuration listing: the
//! text walk that recovers each adapter's name, address and subnet mask,
//! and the broadcast-address computation on them.  Running the listing
//! command is the caller's job; this module only parses its output.

use vstd::prelude::*;
use vstd::slice::{slice_subrange, slice_to_vec};
use vstd::string::StrSliceExecFns;
use vstd::utf8::encode_utf8;

use crate::numeral::{all_dec_digits, dec_val, parse_dec};
use crate::text::{contains_bytes, contains_seq, trim_bytes, trimmed};
use crate::wire::{find_byte, find_byte_in, lemma_find_byte};

verus! {

/// One IPv4 address or mask, octet by octet.
#[derive(Clone, Copy, Debug, PartialEq, Eq, Structural)]
pub struct Ipv4Octets {
    pub o0: u8,
    pub o1: u8,
    pub o2: u8,
    pub o3: u8,
}

/// Mathematical model of an [`Adapter`].
pub ghost struct AdapterView {
    pub name: Seq<u8>,
    pub ipv4_address: Option<Ipv4Octets>,
    pub subnet_mask: Option<Ipv4Octets>,
}

/// One network adapter: its name as listed, and its IPv4 address and
/// subnet mask where the listing gave them.
pub struct Adapter {
    pub name: Vec<u8>,
    pub ipv4_address: Option<Ipv4Octets>,
    pub subnet_mask: Option<Ipv4Octets>,
}

impl View for Adapter {
    type V = AdapterView;

    open spec fn view(&self) -> AdapterView {
        AdapterView {
            name: self.name@,
            ipv4_address: self.ipv4_address,
            subnet_mask: self.subnet_mask,
        }
    }
}

/// The directed broadcast address: each address octet with the mask's
/// complement bits set.
pub open spec fn broadcast_of(ip: Ipv4Octets, mask: Ipv4Octets) -> Ipv4Octets {
    Ipv4Octets { o0: ip.o0 | !mask.o0, o1: ip.o1 | !mask.o1, o2: ip.o2 | !mask.o2, o3: ip.o3 | !mask.o3 }
}

impl Adapter {
    /// The adapter's directed broadcast address, when both its address
    /// and its subnet mask are known.
    pub fn broadcast_address(&self) -> (r: Option<Ipv4Octets>)
        ensures
            r is Some <==> (self@.ipv4_address is Some && self@.subnet_mask is Some),
            r matches Some(b) ==> b == broadcast_of(self@.ipv4_address->0, self@.subnet_mask->0),
    {
        match (self.ipv4_address, self.subnet_mask) {
            (Some(ip), Some(mask)) => Some(
                Ipv4Octets {
                    o0: ip.o0 | !mask.o0,
                    o1: ip.o1 | !mask.o1,
                    o2: ip.o2 | !mask.o2,
                    o3: ip.o3 | !mask.o3,
                },
            ),
            _ => None,
        }
    }

    /// The adapter's name, as listed.
    pub fn get_adapter_name(&self) -> (r: Vec<u8>)
        ensures
            r@ == self@.name,
    {
        slice_to_vec(self.name.as_slice())
    }
}

/// One decimal octet: digits only, no leading zero, at most 255.
pub open spec fn parse_octet(s: Seq<u8>) -> Option<u8> {
    if s.len() > 0 && all_dec_digits(s) && !(s.len() > 1 && s[0] == 48) && dec_val(s) <= 255 {
        Some(dec_val(s) as u8)
    } else {
        None
    }
}

/// A dotted-quad IPv4 address: four octets separated by dots.
pub open spec fn parse_ipv4_spec(s: Seq<u8>) -> Option<Ipv4Octets> {
    let d1 = find_byte(s, 46);
    if d1 < 0 {
        None
    } else {
        let p0 = s.take(d1);
        let r1 = s.skip(d1 + 1);
        let d2 = find_byte(r1, 46);
        if d2 < 0 {
            None
        } else {
            let p1 = r1.take(d2);
            let r2 = r1.skip(d2 + 1);
            let d3 = find_byte(r2, 46);
            if d3 < 0 {
                None
            } else {
                let p2 = r2.take(d3);
                let p3 = r2.skip(d3 + 1);
                match (parse_octet(p0), parse_octet(p1), parse_octet(p2), parse_octet(p3)) {
                    (Some(o0), Some(o1), Some(o2), Some(o3)) => Some(
                        Ipv4Octets { o0, o1, o2, o3 },
                    ),
                    _ => None,
                }
            }
        }
    }
}

/// Parse one decimal octet, exactly as [`parse_octet`] reads it.
fn parse_octet_exec(s: &[u8]) -> (r: Option<u8>)
    ensures
        r == parse_octet(s@),
{
    if s.len() == 0 {
        return None;
    }
    if s.len() > 1 && s[0] == 48 {
        return None;
    }
    match parse_dec(s) {
        Some(v) => {
            if v <= 255 {
                Some(v as u8)
            } else {
                None
            }
        },
        None => None,
    }
}

/// Parse a dotted-quad IPv4 address, exactly as [`parse_ipv4_spec`]
/// reads it.
pub fn parse_ipv4(s: &[u8]) -> (r: Option<Ipv4Octets>)
    ensures
        r == parse_ipv4_spec(s@),
{
    proof {
        lemma_find_byte(s@, 46);
    }
    let d1 = match find_byte_in(s, 46) {
        Some(i) => i,
        None => {
            return None;
        },
    };
    let n = s.len();
    let p0 = slice_subrange(s, 0, d1);
    let r1 = slice_subrange(s, d1 + 1, n);
    assert(p0@ =~= s@.take(d1 as int));
    assert(r1@ =~= s@.skip(d1 as int + 1));
    proof {
        lemma_find_byte(r1@, 46);
    }
    let d2 = match find_byte_in(r1, 46) {
        Some(i) => i,
        None => {
            return None;
        },
    };
    let n1 = r1.len();
    let p1 = slice_subrange(r1, 0, d2);
    let r2 = slice_subrange(r1, d2 + 1, n1);
    assert(p1@ =~= r1@.take(d2 as int));
    assert(r2@ =~= r1@.skip(d2 as int + 1));
    proof {
        lemma_find_byte(r2@, 46);
    }
    let d3 = match find_byte_in(r2, 46) {
        Some(i) => i,
        None => {
            return None;
        },
    };
    let n2 = r2.len();
    let p2 = slice_subrange(r2, 0, d3);
    let p3 = slice_subrange(r2, d3 + 1, n2);
    assert(p2@ =~= r2@.take(d3 as int));
    assert(p3@ =~= r2@.skip(d3 as int + 1));
    match (parse_octet_exec(p0), parse_octet_exec(p1), parse_octet_exec(p2), parse_octet_exec(p3)) {
        (Some(o0), Some(o1), Some(o2), Some(o3)) => Some(Ipv4Octets { o0, o1, o2, o3 }),
        _ => None,
    }
}

/// `s` with every trailing colon removed, as a header line's name is.
pub open spec fn drop_trailing_colons(s: Seq<u8>) -> Seq<u8>
    decreases s.len(),
{
    if s.len() > 0 && s.last() == 58 {
        drop_trailing_colons(s.drop_last())
    } else {
        s
    }
}

proof fn lemma_drop_trailing_colons_at(s: Seq<u8>, k: int)
    requires
        0 <= k <= s.len(),
        forall|j: int| k <= j < s.len() ==> (#[trigger] s[j]) == 58,
        k > 0 ==> s[k - 1] != 58,
    ensures
        drop_trailing_colons(s) == s.take(k),
    decreases s.len(),
{
    if k == s.len() {
        assert(s.take(k) =~= s);
    } else {
        let t = s.drop_last();
        assert(forall|j: int| k <= j < t.len() ==> t[j] == s[j]);
        assert(k > 0 ==> t[k - 1] == s[k - 1]);
        lemma_drop_trailing_colons_at(t, k);
        assert(t.take(k) =~= s.take(k));
    }
}

/// A copy of `s` with every trailing colon removed.
fn trim_trailing_colons(s: &[u8]) -> (r: Vec<u8>)
    ensures
        r@ == drop_trailing_colons(s@),
{
    let n = s.len();
    let mut end: usize = n;
    while end > 0 && s[end - 1] == 58
        invariant
            0 <= end <= n,
            n == s@.len(),
            forall|j: int| end <= j < n ==> (#[trigger] s@[j]) == 58,
        decreases end,
    {
        end = end - 1;
    }
    proof {
        lemma_drop_trailing_colons_at(s@, end as int);
    }
    slice_to_vec(slice_subrange(s, 0, end))
}

/// The value of a `label : value (note)` listing line: the text between
/// the first and second colons, cut before any parenthesis, trimmed; or
/// nothing if the line has no colon.
pub open spec fn value_field(line: Seq<u8>) -> Option<Seq<u8>> {
    let c1 = find_byte(line, 58);
    if c1 < 0 {
        None
    } else {
        let rest = line.skip(c1 + 1);
        let c2 = find_byte(rest, 58);
        let seg = if c2 < 0 {
            rest
        } else {
            rest.take(c2)
        };
        let t = trimmed(seg);
        let p = find_byte(t, 40);
        let cut = if p < 0 {
            t
        } else {
            t.take(p)
        };
        Some(trimmed(cut))
    }
}

/// Extract a listing line's value, exactly as [`value_field`] reads it.
fn extract_value(line: &[u8]) -> (r: Option<Vec<u8>>)
    ensures
        match r {
            Some(v) => value_field(line@) == Some(v@),
            None => value_field(line@) is None,
        },
{
    proof {
        lemma_find_byte(line@, 58);
    }
    let c1 = match find_byte_in(line, 58) {
        Some(i) => i,
        None => {
            return None;
        },
    };
    let n = line.len();
    let rest = slice_subrange(line, c1 + 1, n);
    assert(rest@ =~= line@.skip(c1 as int + 1));
    proof {
        lemma_find_byte(rest@, 58);
    }
    let seg = match find_byte_in(rest, 58) {
        Some(c2) => {
            let s = slice_subrange(rest, 0, c2);
            assert(s@ =~= rest@.take(c2 as int));
            s
        },
        None => rest,
    };
    let t = trim_bytes(seg);
    proof {
        lemma_find_byte(t@, 40);
    }
    let cut = match find_byte_in(t, 40) {
        Some(p) => {
            let s = slice_subrange(t, 0, p);
            assert(s@ =~= t@.take(p as int));
            s
        },
        None => t,
    };
    Some(slice_to_vec(trim_bytes(cut)))
}

/// The label that marks an address line in the listing.
pub open spec fn addr_label() -> Seq<u8> {
    encode_utf8("IPv4 Address"@)
}

/// The label that marks a subnet-mask line in the listing.
pub open spec fn mask_label() -> Seq<u8> {
    encode_utf8("Subnet Mask"@)
}

/// What remains of an adapter section when the next one begins or the
/// listing ends: the adapter, kept only if an address was found for it.
pub open spec fn flushed(cur: Option<AdapterView>) -> Seq<AdapterView> {
    match cur {
        None => Seq::empty(),
        Some(a) => if a.ipv4_address is Some {
            seq![a]
        } else {
            Seq::empty()
        },
    }
}

/// What one listing line does to the walk's state: a line ending in a
/// colon closes the section and opens a new adapter named by it; a line
/// labelled as address or mask fills the corresponding field of the
/// current adapter when its value parses as a dotted quad.
pub open spec fn line_step(cur: Option<AdapterView>, line: Seq<u8>) -> (Seq<AdapterView>, Option<
    AdapterView,
>) {
    let (fl, cur1) = if line.len() > 0 && line.last() == 58 {
        (
            flushed(cur),
            Some(
                AdapterView {
                    name: drop_trailing_colons(line),
                    ipv4_address: None,
                    subnet_mask: None,
                },
            ),
        )
    } else {
        (Seq::<AdapterView>::empty(), cur)
    };
    let cur2 = if contains_seq(line, addr_label()) {
        match cur1 {
            None => cur1,
            Some(a) => match value_field(line) {
                None => cur1,
                Some(v) => match parse_ipv4_spec(v) {
                    None => cur1,
                    Some(ip) => Some(
                        AdapterView {
                            name: a.name,
                            ipv4_address: Some(ip),
                            subnet_mask: a.subnet_mask,
                        },
                    ),
                },
            },
        }
    } else {
        cur1
    };
    let cur3 = if contains_seq(line, mask_label()) {
        match cur2 {
            None => cur2,
            Some(a) => match value_field(line) {
                None => cur2,
                Some(v) => match parse_ipv4_spec(v) {
                    None => cur2,
                    Some(m) => Some(
                        AdapterView {
                            name: a.name,
                            ipv4_address: a.ipv4_address,
                            subnet_mask: Some(m),
                        },
                    ),
                },
            },
        }
    } else {
        cur2
    };
    (fl, cur3)
}

/// A line with any carriage return at its end removed, so that the
/// walk reads CRLF listings and LF listings alike.
pub open spec fn strip_cr(l: Seq<u8>) -> Seq<u8> {
    if l.len() > 0 && l.last() == 13 {
        l.drop_last()
    } else {
        l
    }
}

/// The listing split at line feeds, carriage returns stripped.
pub open spec fn split_lines(s: Seq<u8>) -> Seq<Seq<u8>>
    decreases s.len(),
    via split_lines_dec
{
    let i = find_byte(s, 10);
    if i < 0 {
        seq![strip_cr(s)]
    } else {
        seq![strip_cr(s.take(i))] + split_lines(s.skip(i + 1))
    }
}

#[via_fn]
proof fn split_lines_dec(s: Seq<u8>) {
    lemma_find_byte(s, 10);
}

/// The adapters the rest of the listing yields, walked line by line
/// from the given state.
pub open spec fn fold_adapters(lines: Seq<Seq<u8>>, cur: Option<AdapterView>) -> Seq<AdapterView>
    decreases lines.len(),
{
    if lines.len() == 0 {
        flushed(cur)
    } else {
        let (fl, c2) = line_step(cur, lines[0]);
        fl + fold_adapters(lines.drop_first(), c2)
    }
}

/// The adapters a whole listing yields.
pub open spec fn adapters_of(output: Seq<u8>) -> Seq<AdapterView> {
    fold_adapters(split_lines(output), None)
}

/// The views of a run of adapters.
pub open spec fn adapters_view(v: Seq<Adapter>) -> Seq<AdapterView> {
    v.map_values(|a: Adapter| a@)
}

/// Apply one listing line: push what it closes, return the new state.
fn step_line(acc: Vec<Adapter>, cur: Option<Adapter>, line: &[u8]) -> (r: (Vec<Adapter>, Option<
    Adapter,
>))
    ensures
        ({
            let (fl, c2) = line_step(cur_view(cur), line@);
            adapters_view(r.0@) == adapters_view(acc@) + fl && cur_view(r.1) == c2
        }),
{
    let ghost cv0 = cur_view(cur);
    let ghost av0 = adapters_view(acc@);
    let mut acc = acc;
    let mut cur = cur;
    let n = line.len();
    if n > 0 && line[n - 1] == 58 {
        assert(line@.last() == 58);
        match cur {
            Some(a) => {
                if a.ipv4_address.is_some() {
                    let ghost before = acc@;
                    acc.push(a);
                    proof {
                        assert(adapters_view(acc@) =~= adapters_view(before) + flushed(cv0));
                    }
                } else {
                    proof {
                        assert(adapters_view(acc@) =~= av0 + flushed(cv0));
                    }
                }
            },
            None => {
                proof {
                    assert(adapters_view(acc@) =~= av0 + flushed(cv0));
                }
            },
        }
        cur = Some(
            Adapter { name: trim_trailing_colons(line), ipv4_address: None, subnet_mask: None },
        );
    } else {
        proof {
            assert(adapters_view(acc@) =~= av0 + Seq::<AdapterView>::empty());
        }
    }
    if contains_bytes(line, "IPv4 Address".as_bytes()) {
        match cur {
            Some(mut a) => {
                match extract_value(line) {
                    Some(v) => {
                        match parse_ipv4(v.as_slice()) {
                            Some(ip) => {
                                a.ipv4_address = Some(ip);
                            },
                            None => {},
                        }
                    },
                    None => {},
                }
                cur = Some(a);
            },
            None => {
                cur = None;
            },
        }
    }
    if contains_bytes(line, "Subnet Mask".as_bytes()) {
        match cur {
            Some(mut a) => {
                match extract_value(line) {
                    Some(v) => {
                        match parse_ipv4(v.as_slice()) {
                            Some(m) => {
                                a.subnet_mask = Some(m);
                            },
                            None => {},
                        }
                    },
                    None => {},
                }
                cur = Some(a);
            },
            None => {
                cur = None;
            },
        }
    }
    (acc, cur)
}

/// The model of a possibly absent current adapter.
pub open spec fn cur_view(c: Option<Adapter>) -> Option<AdapterView> {
    match c {
        None => None,
        Some(a) => Some(a@),
    }
}

/// Walk a whole configuration listing and collect every adapter that
/// reported an IPv4 address, exactly as [`adapters_of`] reads it.
pub fn parse_adapters(output: &[u8]) -> (r: Vec<Adapter>)
    ensures
        adapters_view(r@) == adapters_of(output@),
{
    let mut acc: Vec<Adapter> = Vec::new();
    let mut cur: Option<Adapter> = None;
    let n = output.len();
    let mut pos: usize = 0;
    proof {
        assert(adapters_view(acc@) + adapters_of(output@) =~= adapters_of(output@));
        assert(output@.skip(0) =~= output@);
    }
    loop
        invariant
            0 <= pos <= n,
            n == output@.len(),
            adapters_view(acc@) + fold_adapters(
                split_lines(output@.skip(pos as int)),
                cur_view(cur),
            ) == adapters_of(output@),
        ensures
            0 <= pos <= n,
            n == output@.len(),
            adapters_view(acc@) + fold_adapters(
                split_lines(output@.skip(pos as int)),
                cur_view(cur),
            ) == adapters_of(output@),
            find_byte(output@.skip(pos as int), 10) == -1,
        decreases n - pos,
    {
        let remaining = slice_subrange(output, pos, n);
        assert(remaining@ =~= output@.skip(pos as int));
        proof {
            lemma_find_byte(remaining@, 10);
        }
        match find_byte_in(remaining, 10) {
            Some(i) => {
                let mut line = slice_subrange(remaining, 0, i);
                assert(line@ =~= remaining@.take(i as int));
                if line.len() > 0 && line[line.len() - 1] == 13 {
                    line = slice_subrange(line, 0, line.len() - 1);
                }
                assert(line@ =~= strip_cr(remaining@.take(i as int)));
                let ghost pre_acc = adapters_view(acc@);
                let ghost pre_cur = cur_view(cur);
                let (acc2, cur2) = step_line(acc, cur, line);
                acc = acc2;
                cur = cur2;
                proof {
                    let rem = output@.skip(pos as int);
                    let (fl, c2) = line_step(pre_cur, line@);
                    assert(split_lines(rem) == seq![strip_cr(rem.take(i as int))] + split_lines(
                        rem.skip(i as int + 1),
                    ));
                    assert(split_lines(rem)[0] == line@);
                    assert(split_lines(rem).drop_first() =~= split_lines(rem.skip(i as int + 1)));
                    assert(fold_adapters(split_lines(rem), pre_cur) == fl + fold_adapters(
                        split_lines(rem.skip(i as int + 1)),
                        c2,
                    ));
                    assert(output@.skip(pos + i + 1) =~= rem.skip(i as int + 1));
                    assert((pre_acc + fl) + fold_adapters(split_lines(rem.skip(i as int + 1)), c2)
                        =~= pre_acc + (fl + fold_adapters(split_lines(rem.skip(i as int + 1)), c2)));
                }
                pos = pos + i + 1;
            },
            None => {
                break ;
            },
        }
    }
    let mut line = slice_subrange(output, pos, n);
    assert(line@ =~= output@.skip(pos as int));
    if line.len() > 0 && line[line.len() - 1] == 13 {
        line = slice_subrange(line, 0, line.len() - 1);
    }
    assert(line@ =~= strip_cr(output@.skip(pos as int)));
    let ghost pre_acc = adapters_view(acc@);
    let ghost pre_cur = cur_view(cur);
    let (acc2, cur2) = step_line(acc, cur, line);
    let mut acc = acc2;
    let cur = cur2;
    proof {
        let rem = output@.skip(pos as int);
        let (fl, c2) = line_step(pre_cur, line@);
        assert(split_lines(rem) == seq![strip_cr(rem)]);
        assert(split_lines(rem)[0] == line@);
        assert(split_lines(rem).drop_first() =~= Seq::<Seq<u8>>::empty());
        assert(fold_adapters(split_lines(rem), pre_cur) == fl + fold_adapters(
            Seq::<Seq<u8>>::empty(),
            c2,
        ));
        assert(fold_adapters(Seq::<Seq<u8>>::empty(), c2) == flushed(c2));
        assert((pre_acc + fl) + flushed(c2) =~= pre_acc + (fl + flushed(c2)));
        assert(adapters_view(acc@) + flushed(cur_view(cur)) == adapters_of(output@));
    }
    match cur {
        Some(a) => {
            if a.ipv4_address.is_some() {
                let ghost before = adapters_view(acc@);
                acc.push(a);
                proof {
                    assert(adapters_view(acc@) =~= before + flushed(cur_view(Some(a))));
                }
            } else {
                proof {
                    assert(adapters_view(acc@) =~= adapters_view(acc@) + flushed(
                        cur_view(Some(a)),
                    ));
                }
            }
        },
        None => {
            proof {
                assert(adapters_view(acc@) =~= adapters_view(acc@) + flushed(
                    cur_view(None::<Adapter>),
                ));
            }
        },
    }
    acc
}

} // verus!
