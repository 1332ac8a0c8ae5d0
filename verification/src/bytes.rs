//! Byte-sequence groundwork: ASCII case folding, byte counting and byte
//! searching, with exact specifications. The searching and counting calls
//! go to outside crates through trusted wrappers.

use vstd::prelude::*;

verus! {

/// Folds one byte to ASCII lower case; bytes outside `A..=Z` are unchanged.
pub open spec fn ascii_lower_byte(b: u8) -> u8 {
    if 65 <= b && b <= 90 {
        (b + 32) as u8
    } else {
        b
    }
}

/// Folds a whole byte sequence to ASCII lower case.
pub open spec fn ascii_lower_seq(s: Seq<u8>) -> Seq<u8> {
    s.map_values(|b: u8| ascii_lower_byte(b))
}

/// Number of occurrences of the byte `b` in `s`.
pub open spec fn count_byte(s: Seq<u8>, b: u8) -> nat
    decreases s.len(),
{
    if s.len() == 0 {
        0
    } else {
        count_byte(s.drop_last(), b) + if s.last() == b {
            1nat
        } else {
            0nat
        }
    }
}

pub proof fn lemma_count_byte_le_len(s: Seq<u8>, b: u8)
    ensures
        count_byte(s, b) <= s.len(),
    decreases s.len(),
{
    if s.len() > 0 {
        lemma_count_byte_le_len(s.drop_last(), b);
    }
}

pub proof fn lemma_count_byte_append(s: Seq<u8>, t: Seq<u8>, b: u8)
    ensures
        count_byte(s + t, b) == count_byte(s, b) + count_byte(t, b),
    decreases t.len(),
{
    if t.len() == 0 {
        assert(s + t =~= s);
    } else {
        lemma_count_byte_append(s, t.drop_last(), b);
        assert((s + t).drop_last() =~= s + t.drop_last());
        assert((s + t).last() == t.last());
    }
}

/// ASCII lower-casing of one byte, executable form.
pub fn ascii_lower(b: u8) -> (r: u8)
    ensures
        r == ascii_lower_byte(b),
{
    if 65 <= b && b <= 90 {
        b + 32
    } else {
        b
    }
}

/// ASCII lower-casing of a byte slice.
pub fn ascii_lower_bytes(v: &[u8]) -> (r: Vec<u8>)
    ensures
        r@ == ascii_lower_seq(v@),
{
    let mut out: Vec<u8> = Vec::new();
    let mut i: usize = 0;
    while i < v.len()
        invariant
            i <= v@.len(),
            out@ == ascii_lower_seq(v@.take(i as int)),
        decreases v@.len() - i,
    {
        out.push(ascii_lower(v[i]));
        assert(ascii_lower_seq(v@.take(i + 1)) =~= ascii_lower_seq(v@.take(i as int)).push(
            ascii_lower_byte(v@[i as int]),
        ));
        i = i + 1;
    }
    assert(v@.take(v@.len() as int) =~= v@);
    out
}

/// Equality of two byte slices.
pub fn eq_bytes(a: &[u8], b: &[u8]) -> (r: bool)
    ensures
        r <==> a@ == b@,
{
    if a.len() != b.len() {
        assert(a@ != b@);
        return false;
    }
    let mut i: usize = 0;
    while i < a.len()
        invariant
            a@.len() == b@.len(),
            i <= a@.len(),
            forall|k: int| 0 <= k < i ==> a@[k] == b@[k],
        decreases a@.len() - i,
    {
        if a[i] != b[i] {
            return false;
        }
        i = i + 1;
    }
    assert(a@ =~= b@);
    true
}

/// An ASCII whitespace byte: space, tab, line feed, vertical tab, form
/// feed or carriage return.
pub open spec fn is_ascii_ws(b: u8) -> bool {
    b == 32 || b == 9 || b == 10 || b == 11 || b == 12 || b == 13
}

/// A byte sequence with its leading ASCII whitespace removed.
pub open spec fn trim_start_spec(t: Seq<u8>) -> Seq<u8>
    decreases t.len(),
{
    if t.len() > 0 && is_ascii_ws(t[0]) {
        trim_start_spec(t.drop_first())
    } else {
        t
    }
}

/// A byte sequence with its trailing ASCII whitespace removed.
pub open spec fn trim_end_spec(t: Seq<u8>) -> Seq<u8>
    decreases t.len(),
{
    if t.len() > 0 && is_ascii_ws(t.last()) {
        trim_end_spec(t.drop_last())
    } else {
        t
    }
}

/// A byte sequence with leading and trailing ASCII whitespace removed.
pub open spec fn trim_spec(t: Seq<u8>) -> Seq<u8> {
    trim_end_spec(trim_start_spec(t))
}

fn is_ws(b: u8) -> (r: bool)
    ensures
        r == is_ascii_ws(b),
{
    b == 32 || b == 9 || b == 10 || b == 11 || b == 12 || b == 13
}

/// Trims ASCII whitespace from both ends of a byte slice.
pub fn trim_ascii(t: &[u8]) -> (r: Vec<u8>)
    ensures
        r@ == trim_spec(t@),
{
    let mut lo: usize = 0;
    proof {
        assert(t@.skip(0) =~= t@);
    }
    while lo < t.len() && is_ws(t[lo])
        invariant
            lo <= t@.len(),
            trim_start_spec(t@) == trim_start_spec(t@.skip(lo as int)),
        decreases t@.len() - lo,
    {
        proof {
            let rest = t@.skip(lo as int);
            assert(rest[0] == t@[lo as int]);
            assert(rest.drop_first() =~= t@.skip(lo + 1));
        }
        lo = lo + 1;
    }
    proof {
        let rest = t@.skip(lo as int);
        if rest.len() > 0 {
            assert(rest[0] == t@[lo as int]);
        }
        assert(trim_start_spec(t@) == rest);
        assert(rest =~= t@.subrange(lo as int, t@.len() as int));
    }
    let mut hi: usize = t.len();
    while hi > lo && is_ws(t[hi - 1])
        invariant
            lo <= hi <= t@.len(),
            trim_start_spec(t@) == t@.skip(lo as int),
            trim_end_spec(t@.skip(lo as int)) == trim_end_spec(
                t@.subrange(lo as int, hi as int),
            ),
        decreases hi,
    {
        proof {
            let cur = t@.subrange(lo as int, hi as int);
            assert(cur.last() == t@[hi - 1]);
            assert(cur.drop_last() =~= t@.subrange(lo as int, hi - 1));
        }
        hi = hi - 1;
    }
    proof {
        let cur = t@.subrange(lo as int, hi as int);
        if cur.len() > 0 {
            assert(cur.last() == t@[hi - 1]);
        }
        assert(trim_end_spec(t@.skip(lo as int)) == cur);
    }
    let part = vstd::slice::slice_subrange(t, lo, hi);
    vstd::slice::slice_to_vec(part)
}

/// Relies on memchr::memchr: the index of the first occurrence of `b` in
/// `hay`, or `None` when `b` does not occur.
#[verifier::external_body]
pub(crate) fn find_first(hay: &[u8], b: u8) -> (r: Option<usize>)
    ensures
        match r {
            Some(i) => i < hay@.len() && hay@[i as int] == b && forall|k: int|
                0 <= k < i ==> hay@[k] != b,
            None => forall|k: int| 0 <= k < hay@.len() ==> hay@[k] != b,
        },
{
    memchr::memchr(b, hay)
}

/// Relies on memchr::memrchr: the index of the last occurrence of `b` in
/// `hay`, or `None` when `b` does not occur.
#[verifier::external_body]
pub(crate) fn find_last(hay: &[u8], b: u8) -> (r: Option<usize>)
    ensures
        match r {
            Some(i) => i < hay@.len() && hay@[i as int] == b && forall|k: int|
                i < k < hay@.len() ==> hay@[k] != b,
            None => forall|k: int| 0 <= k < hay@.len() ==> hay@[k] != b,
        },
{
    memchr::memrchr(b, hay)
}

/// Relies on bytecount::count: the number of occurrences of `b` in `hay`.
#[verifier::external_body]
pub(crate) fn count_occurrences(hay: &[u8], b: u8) -> (r: usize)
    ensures
        r == count_byte(hay@, b),
{
    bytecount::count(hay, b)
}

} // verus!
