//! The content scanner: classifies a file's bytes as binary or text,
//! locates every reported occurrence of the text query, and computes for
//! each its 1-based line number and the text of its enclosing line, the
//! trailing carriage return stripped.

use vstd::prelude::*;

use crate::bytes::count_byte;
use crate::bytes::count_occurrences;
use crate::bytes::find_first;
use crate::bytes::find_last;
use crate::bytes::lemma_count_byte_append;
use crate::bytes::lemma_count_byte_le_len;
use crate::matcher::lemma_match_starts_props;
use crate::matcher::lemma_wf_pats_nonempty;
use crate::matcher::match_starts;
use crate::matcher::occurs_at;
use crate::matcher::MatcherSet;
use crate::options::SearchResult;

verus! {

/// A file is classified binary when a NUL byte lies among its first
/// min(1024, len) bytes. A heuristic: a NUL in the probe window skips
/// the whole file, whatever follows it.
pub open spec fn spec_is_binary(bytes: Seq<u8>) -> bool {
    exists|i: int| 0 <= i < bytes.len() && i < 1024 && bytes[i] == 0
}

/// The 1-based line number of position `i`: one more than the number of
/// line feeds before it.
pub open spec fn spec_line_number(bytes: Seq<u8>, i: int) -> int {
    1 + count_byte(bytes.take(i), 10) as int
}

/// The start of the line around position `i`: the index after the last
/// line feed before `i`, or the start of the input.
pub open spec fn spec_line_start(bytes: Seq<u8>, i: int) -> int
    decreases i,
{
    if i <= 0 {
        0
    } else if bytes[i - 1] == 10 {
        i
    } else {
        spec_line_start(bytes, i - 1)
    }
}

/// The end of the line around position `i`: the index of the next line
/// feed at or after `i`, or the end of the input.
pub open spec fn spec_line_end(bytes: Seq<u8>, i: int) -> int
    decreases bytes.len() - i,
{
    if i >= bytes.len() {
        bytes.len() as int
    } else if bytes[i] == 10 {
        i
    } else {
        spec_line_end(bytes, i + 1)
    }
}

/// The bytes of the line around position `i`, a trailing carriage return
/// stripped.
pub open spec fn spec_line_bytes(bytes: Seq<u8>, i: int) -> Seq<u8> {
    let lb = bytes.subrange(spec_line_start(bytes, i), spec_line_end(bytes, i));
    if lb.len() > 0 && lb.last() == 13 {
        lb.drop_last()
    } else {
        lb
    }
}

/// What a decoder of UTF-8 with replacement of invalid sequences returns
/// for the given bytes.
pub uninterp spec fn lossy_decode(bytes: Seq<u8>) -> Seq<char>;

/// The text of the line around position `i`: its bytes decoded, invalid
/// sequences replaced.
pub open spec fn spec_line_text(bytes: Seq<u8>, i: int) -> Seq<char> {
    lossy_decode(spec_line_bytes(bytes, i))
}

/// Relies on String::from_utf8_lossy: the result is a function of the
/// bytes alone, and ASCII bytes decode to the same characters.
#[verifier::external_body]
fn utf8_lossy(bytes: &[u8]) -> (r: String)
    ensures
        r@ == lossy_decode(bytes@),
        (forall|i: int| 0 <= i < bytes@.len() ==> bytes@[i] < 128) ==> r@ == bytes@.map_values(
            |b: u8| b as char,
        ),
{
    String::from_utf8_lossy(bytes).into_owned()
}

/// Every byte of the sequence is ASCII.
pub open spec fn ascii_seq(s: Seq<u8>) -> bool {
    forall|i: int| 0 <= i < s.len() ==> s[i] < 128
}

/// The event `ev` is a content match for position `i` of `bytes` in the
/// file at `path`: right path, right 1-based line number, right line
/// text; a line of ASCII bytes is reported as exactly those characters.
pub open spec fn content_match_ok(
    ev: SearchResult,
    path: Seq<char>,
    bytes: Seq<u8>,
    i: int,
) -> bool {
    &&& ev matches SearchResult::ContentMatch { path: p, line_number: n, line_text: t }
    &&& p@ == path
    &&& n == spec_line_number(bytes, i)
    &&& t@ == spec_line_text(bytes, i)
    &&& (ascii_seq(spec_line_bytes(bytes, i)) ==> t@ == spec_line_bytes(bytes, i).map_values(
        |b: u8| b as char,
    ))
}

proof fn lemma_line_start_char(bytes: Seq<u8>, i: int, lo: int)
    requires
        0 <= lo <= i <= bytes.len(),
        lo > 0 ==> bytes[lo - 1] == 10,
        forall|k: int| lo <= k < i ==> bytes[k] != 10,
    ensures
        spec_line_start(bytes, i) == lo,
    decreases i - lo,
{
    if i == lo {
    } else {
        assert(bytes[i - 1] != 10);
        lemma_line_start_char(bytes, i - 1, lo);
    }
}

proof fn lemma_line_end_char(bytes: Seq<u8>, i: int, hi: int)
    requires
        0 <= i <= hi <= bytes.len(),
        hi < bytes.len() ==> bytes[hi] == 10,
        forall|k: int| i <= k < hi ==> bytes[k] != 10,
    ensures
        spec_line_end(bytes, i) == hi,
    decreases hi - i,
{
    if i == hi {
    } else {
        assert(bytes[i] != 10);
        lemma_line_end_char(bytes, i + 1, hi);
    }
}

/// Line numbers do not decrease with position.
pub proof fn lemma_line_numbers_ascend(bytes: Seq<u8>, i: int, j: int)
    requires
        0 <= i <= j <= bytes.len(),
    ensures
        spec_line_number(bytes, i) <= spec_line_number(bytes, j),
{
    lemma_count_byte_append(bytes.take(i), bytes.subrange(i, j), 10);
    assert(bytes.take(i) + bytes.subrange(i, j) =~= bytes.take(j));
}

/// Within one file's scan, the reported occurrences ascend strictly in
/// position, and their line numbers never decrease.
pub proof fn lemma_scan_order(bytes: Seq<u8>, pat: Seq<u8>, ci: bool, k: int, l: int)
    requires
        pat.len() > 0,
        0 <= k < l < match_starts(bytes, pat, ci).len(),
    ensures
        match_starts(bytes, pat, ci)[k] < match_starts(bytes, pat, ci)[l],
        spec_line_number(bytes, match_starts(bytes, pat, ci)[k]) <= spec_line_number(
            bytes,
            match_starts(bytes, pat, ci)[l],
        ),
{
    lemma_match_starts_props(bytes, pat, ci);
    lemma_line_numbers_ascend(bytes, match_starts(bytes, pat, ci)[k], match_starts(bytes, pat, ci)[l]);
}

/// Scans a file's bytes for the text query. A file classified binary
/// yields no events; otherwise one event is produced per reported
/// occurrence, in ascending order of position, each with its 1-based
/// line number and the text of its enclosing line.
#[verifier::rlimit(60)]
pub fn scan_content(ms: &MatcherSet, path: &str, bytes: &[u8]) -> (r: Vec<SearchResult>)
    requires
        ms.wf(),
        ms.text_pat() is Some,
    ensures
        spec_is_binary(bytes@) ==> r@.len() == 0,
        !spec_is_binary(bytes@) ==> r@.len() == match_starts(
            bytes@,
            ms.text_pat()->Some_0,
            ms.case_insensitive(),
        ).len() && forall|k: int|
            0 <= k < r@.len() ==> content_match_ok(
                r@[k],
                path@,
                bytes@,
                match_starts(bytes@, ms.text_pat()->Some_0, ms.case_insensitive())[k],
            ),
{
    proof {
        lemma_wf_pats_nonempty(ms);
    }
    let ghost pat = ms.text_pat()->Some_0;
    let ghost ci = ms.case_insensitive();
    let n = if bytes.len() < 1024 {
        bytes.len()
    } else {
        1024
    };
    let head = vstd::slice::slice_subrange(bytes, 0, n);
    match find_first(head, 0) {
        Some(i) => {
            proof {
                assert(head@[i as int] == bytes@[i as int]);
                assert(spec_is_binary(bytes@));
            }
            return Vec::new();
        },
        None => {
            proof {
                assert forall|i: int| 0 <= i < bytes@.len() && i < 1024 implies bytes@[i] != 0 by {
                    assert(head@[i] == bytes@[i]);
                }
            }
        },
    }
    let starts = ms.text_find_starts(bytes);
    let ghost sstarts = match_starts(bytes@, pat, ci);
    proof {
        lemma_match_starts_props(bytes@, pat, ci);
    }
    let mut out: Vec<SearchResult> = Vec::new();
    let mut last_pos: usize = 0;
    let mut line: usize = 1;
    let mut k: usize = 0;
    while k < starts.len()
        invariant
            starts@.map_values(|u: usize| u as int) == sstarts,
            sstarts == match_starts(bytes@, pat, ci),
            pat.len() > 0,
            k <= starts@.len(),
            out@.len() == k,
            forall|j: int| 0 <= j < k ==> content_match_ok(out@[j], path@, bytes@, sstarts[j]),
            last_pos <= bytes@.len(),
            bytes@.len() <= usize::MAX,
            line == 1 + count_byte(bytes@.take(last_pos as int), 10),
            k > 0 ==> last_pos == sstarts[k - 1],
            k == 0 ==> last_pos == 0,
        decreases starts@.len() - k,
    {
        let start = starts[k];
        proof {
            lemma_match_starts_props(bytes@, pat, ci);
            assert(starts@.map_values(|u: usize| u as int)[k as int] == start as int);
            assert(sstarts[k as int] == start as int);
            assert(occurs_at(bytes@, pat, ci, start as int));
            if k > 0 {
                assert(sstarts[k - 1] + pat.len() <= sstarts[k as int]);
            }
            assert(last_pos <= start);
            assert(start < bytes@.len());
        }
        let seg = vstd::slice::slice_subrange(bytes, last_pos, start);
        let add = count_occurrences(seg, 10);
        proof {
            lemma_count_byte_append(bytes@.take(last_pos as int), seg@, 10);
            assert(bytes@.take(last_pos as int) + seg@ =~= bytes@.take(start as int));
            lemma_count_byte_le_len(bytes@.take(start as int), 10);
            assert(line + add == 1 + count_byte(bytes@.take(start as int), 10));
            assert(bytes@.take(start as int).len() == start as int);
            assert(line + add <= 1 + start as int);
        }
        line = line + add;
        last_pos = start;
        let before = vstd::slice::slice_subrange(bytes, 0, start);
        let lo = match find_last(before, 10) {
            Some(j) => {
                proof {
                    assert(before@[j as int] == bytes@[j as int]);
                    assert forall|m: int| j + 1 <= m < start implies bytes@[m] != 10 by {
                        assert(before@[m] == bytes@[m]);
                    }
                    lemma_line_start_char(bytes@, start as int, j + 1);
                }
                j + 1
            },
            None => {
                proof {
                    assert forall|m: int| 0 <= m < start implies bytes@[m] != 10 by {
                        assert(before@[m] == bytes@[m]);
                    }
                    lemma_line_start_char(bytes@, start as int, 0);
                }
                0
            },
        };
        let after = vstd::slice::slice_subrange(bytes, start, bytes.len());
        let hi = match find_first(after, 10) {
            Some(j) => {
                proof {
                    assert(after@[j as int] == bytes@[start + j]);
                    assert forall|m: int| start <= m < start + j implies bytes@[m] != 10 by {
                        assert(after@[m - start] == bytes@[m]);
                    }
                    lemma_line_end_char(bytes@, start as int, start + j);
                }
                start + j
            },
            None => {
                proof {
                    assert forall|m: int| start <= m < bytes@.len() implies bytes@[m] != 10 by {
                        assert(after@[m - start] == bytes@[m]);
                    }
                    lemma_line_end_char(bytes@, start as int, bytes@.len() as int);
                }
                bytes.len()
            },
        };
        let hi2 = if hi > lo && bytes[hi - 1] == 13 {
            hi - 1
        } else {
            hi
        };
        let lb = vstd::slice::slice_subrange(bytes, lo, hi2);
        proof {
            let whole = bytes@.subrange(lo as int, hi as int);
            if whole.len() > 0 && whole.last() == 13 {
                assert(whole.last() == bytes@[hi - 1]);
                assert(whole.drop_last() =~= bytes@.subrange(lo as int, hi - 1));
            } else {
                if hi > lo {
                    assert(whole.last() == bytes@[hi - 1]);
                }
            }
            assert(lb@ == spec_line_bytes(bytes@, start as int));
        }
        let text = utf8_lossy(lb);
        let ev = SearchResult::ContentMatch {
            path: path.to_owned(),
            line_number: line,
            line_text: text,
        };
        proof {
            assert(content_match_ok(ev, path@, bytes@, start as int));
        }
        out.push(ev);
        k = k + 1;
    }
    proof {
        assert(out@.len() == sstarts.len());
    }
    out
}

} // verus!
