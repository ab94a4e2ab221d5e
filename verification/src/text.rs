//! Byte-string helpers shared by the discovery exchange and the adapter
//! listing: equality, ASCII whitespace trimming, and substring search.

use vstd::prelude::*;
use vstd::slice::slice_subrange;

verus! {

/// ASCII whitespace, as trimming understands it.
pub open spec fn is_ascii_ws(b: u8) -> bool {
    b == 32 || b == 9 || b == 10 || b == 11 || b == 12 || b == 13
}

/// `s` with its leading ASCII whitespace removed.
pub open spec fn drop_leading_ws(s: Seq<u8>) -> Seq<u8>
    decreases s.len(),
{
    if s.len() > 0 && is_ascii_ws(s[0]) {
        drop_leading_ws(s.drop_first())
    } else {
        s
    }
}

/// `s` with its trailing ASCII whitespace removed.
pub open spec fn drop_trailing_ws(s: Seq<u8>) -> Seq<u8>
    decreases s.len(),
{
    if s.len() > 0 && is_ascii_ws(s.last()) {
        drop_trailing_ws(s.drop_last())
    } else {
        s
    }
}

/// `s` with ASCII whitespace removed from both ends.
pub open spec fn trimmed(s: Seq<u8>) -> Seq<u8> {
    drop_trailing_ws(drop_leading_ws(s))
}

/// Whether `pat` occurs in `s` as a contiguous run.
pub open spec fn contains_seq(s: Seq<u8>, pat: Seq<u8>) -> bool {
    exists|i: int|
        0 <= i && i + pat.len() <= s.len() && (#[trigger] s.subrange(i, i + pat.len())) == pat
}

/// Byte-for-byte equality of two slices.
pub fn bytes_eq(a: &[u8], b: &[u8]) -> (r: bool)
    ensures
        r == (a@ == b@),
{
    if a.len() != b.len() {
        return false;
    }
    let mut i: usize = 0;
    while i < a.len()
        invariant
            0 <= i <= a@.len(),
            a@.len() == b@.len(),
            forall|j: int| 0 <= j < i ==> a@[j] == b@[j],
        decreases a@.len() - i,
    {
        if a[i] != b[i] {
            return false;
        }
        i = i + 1;
    }
    proof {
        assert(a@ =~= b@);
    }
    true
}

/// If the first `k` bytes are whitespace and byte `k` (if any) is not,
/// dropping leading whitespace is dropping exactly those `k` bytes.
proof fn lemma_drop_leading_at(s: Seq<u8>, k: int)
    requires
        0 <= k <= s.len(),
        forall|j: int| 0 <= j < k ==> is_ascii_ws(#[trigger] s[j]),
        k < s.len() ==> !is_ascii_ws(s[k]),
    ensures
        drop_leading_ws(s) == s.skip(k),
    decreases s.len(),
{
    if k == 0 {
        assert(s.skip(0) =~= s);
    } else {
        let t = s.drop_first();
        assert(forall|j: int| 0 <= j < k - 1 ==> t[j] == s[j + 1]);
        assert(k - 1 < t.len() ==> t[k - 1] == s[k]);
        lemma_drop_leading_at(t, k - 1);
        assert(t.skip(k - 1) =~= s.skip(k));
    }
}

/// If the bytes from `k` on are whitespace and byte `k - 1` (if any) is
/// not, dropping trailing whitespace keeps exactly the first `k` bytes.
proof fn lemma_drop_trailing_at(s: Seq<u8>, k: int)
    requires
        0 <= k <= s.len(),
        forall|j: int| k <= j < s.len() ==> is_ascii_ws(#[trigger] s[j]),
        k > 0 ==> !is_ascii_ws(s[k - 1]),
    ensures
        drop_trailing_ws(s) == s.take(k),
    decreases s.len(),
{
    if k == s.len() {
        assert(s.take(k) =~= s);
    } else {
        let t = s.drop_last();
        assert(forall|j: int| k <= j < t.len() ==> t[j] == s[j]);
        assert(k > 0 ==> t[k - 1] == s[k - 1]);
        lemma_drop_trailing_at(t, k);
        assert(t.take(k) =~= s.take(k));
    }
}

fn is_ws(b: u8) -> (r: bool)
    ensures
        r == is_ascii_ws(b),
{
    b == 32 || b == 9 || b == 10 || b == 11 || b == 12 || b == 13
}

/// A copy of `s` with ASCII whitespace removed from both ends.
pub fn trim_bytes<'a>(s: &'a [u8]) -> (r: &'a [u8])
    ensures
        r@ == trimmed(s@),
{
    let n = s.len();
    let mut start: usize = 0;
    while start < n && is_ws(s[start])
        invariant
            0 <= start <= n,
            n == s@.len(),
            forall|j: int| 0 <= j < start ==> is_ascii_ws(#[trigger] s@[j]),
        decreases n - start,
    {
        start = start + 1;
    }
    proof {
        lemma_drop_leading_at(s@, start as int);
    }
    let mut end: usize = n;
    while end > start && is_ws(s[end - 1])
        invariant
            start <= end <= n,
            n == s@.len(),
            forall|j: int| 0 <= j < start ==> is_ascii_ws(#[trigger] s@[j]),
            forall|j: int| end <= j < n ==> is_ascii_ws(#[trigger] s@[j]),
        decreases end,
    {
        end = end - 1;
    }
    let r = slice_subrange(s, start, end);
    proof {
        let mid = s@.skip(start as int);
        assert(forall|j: int| 0 <= j < mid.len() ==> mid[j] == s@[j + start]);
        lemma_drop_trailing_at(mid, end - start as int);
        assert(mid.take(end - start as int) =~= s@.subrange(start as int, end as int));
    }
    r
}

/// Whether `pat` occurs in `s` as a contiguous run.
pub fn contains_bytes(s: &[u8], pat: &[u8]) -> (r: bool)
    ensures
        r == contains_seq(s@, pat@),
{
    if pat.len() > s.len() {
        proof {
            assert forall|i: int|
                !(0 <= i && i + pat@.len() <= s@.len() && (#[trigger] s@.subrange(
                    i,
                    i + pat@.len(),
                )) == pat@) by {}
        }
        return false;
    }
    if pat.len() == 0 {
        proof {
            assert(s@.subrange(0, 0 + pat@.len() as int) =~= pat@);
            assert(contains_seq(s@, pat@));
        }
        return true;
    }
    let mut i: usize = 0;
    let last = s.len() - pat.len();
    while i <= last
        invariant
            0 <= i <= last + 1,
            last == s@.len() - pat@.len(),
            1 <= pat@.len() <= s@.len(),
            s@.len() <= usize::MAX,
            forall|j: int| 0 <= j < i ==> (#[trigger] s@.subrange(j, j + pat@.len())) != pat@,
        decreases last + 1 - i,
    {
        let w = slice_subrange(s, i, i + pat.len());
        if bytes_eq(w, pat) {
            assert(s@.subrange(i as int, i as int + pat@.len()) == pat@);
            return true;
        }
        i = i + 1;
    }
    proof {
        assert forall|j: int|
            !(0 <= j && j + pat@.len() <= s@.len() && (#[trigger] s@.subrange(
                j,
                j + pat@.len(),
            )) == pat@) by {
            if 0 <= j && j + pat@.len() <= s@.len() {
                assert(j < i);
            }
        }
    }
    false
}

} // verus!
