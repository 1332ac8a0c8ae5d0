//! The matcher engine: substring occurrence specifications, compiled
//! matchers for the text and filename queries, and the extension
//! allow-list. Matching itself runs on an automaton of an outside crate,
//! behind trusted wrappers whose contracts state exactly which
//! occurrences it reports.

use vstd::prelude::*;
use vstd::utf8::encode_utf8;

use crate::bytes::ascii_lower_bytes;
use crate::bytes::ascii_lower_seq;
use crate::bytes::eq_bytes;
use crate::bytes::trim_ascii;
use crate::bytes::trim_spec;
use crate::options::SearchError;
use crate::options::SearchOptions;

verus! {

/// Case-folds a byte sequence when `ci` asks for it; ASCII-only folding.
pub open spec fn fold_ci(s: Seq<u8>, ci: bool) -> Seq<u8> {
    if ci {
        ascii_lower_seq(s)
    } else {
        s
    }
}

/// The pattern occurs in the haystack at position `i`, under the given
/// case-folding mode.
pub open spec fn occurs_at(hay: Seq<u8>, pat: Seq<u8>, ci: bool, i: int) -> bool {
    &&& 0 <= i
    &&& i + pat.len() <= hay.len()
    &&& fold_ci(hay.subrange(i, i + pat.len()), ci) == fold_ci(pat, ci)
}

/// The pattern occurs somewhere in the haystack.
pub open spec fn contains_pat(hay: Seq<u8>, pat: Seq<u8>, ci: bool) -> bool {
    exists|i: int| occurs_at(hay, pat, ci, i)
}

/// The start positions of the non-overlapping occurrences of `pat` in
/// `hay` at or after position `p`, found left to right: the leftmost
/// occurrence is taken and the search resumes at its end.
pub open spec fn match_starts_from(hay: Seq<u8>, pat: Seq<u8>, ci: bool, p: int) -> Seq<int>
    decreases hay.len() + 1 - p,
        when pat.len() > 0 && 0 <= p
{
    if p + pat.len() > hay.len() {
        Seq::empty()
    } else if occurs_at(hay, pat, ci, p) {
        seq![p] + match_starts_from(hay, pat, ci, p + pat.len())
    } else {
        match_starts_from(hay, pat, ci, p + 1)
    }
}

/// The start positions of all reported occurrences of `pat` in `hay`.
pub open spec fn match_starts(hay: Seq<u8>, pat: Seq<u8>, ci: bool) -> Seq<int> {
    match_starts_from(hay, pat, ci, 0)
}

/// Every reported start is a real occurrence at or after `p`, consecutive
/// starts do not overlap, and the list is empty exactly when no
/// occurrence lies at or after `p`.
pub proof fn lemma_match_starts_from_props(hay: Seq<u8>, pat: Seq<u8>, ci: bool, p: int)
    requires
        pat.len() > 0,
        0 <= p,
    ensures
        forall|k: int|
            0 <= k < match_starts_from(hay, pat, ci, p).len() ==> p <= #[trigger] match_starts_from(
                hay,
                pat,
                ci,
                p,
            )[k] && occurs_at(hay, pat, ci, match_starts_from(hay, pat, ci, p)[k]),
        forall|k: int|
            0 <= k && k + 1 < match_starts_from(hay, pat, ci, p).len()
                ==> #[trigger] match_starts_from(hay, pat, ci, p)[k] + pat.len()
                <= match_starts_from(hay, pat, ci, p)[k + 1],
        match_starts_from(hay, pat, ci, p).len() == 0 <==> !(exists|i: int|
            p <= i && occurs_at(hay, pat, ci, i)),
    decreases hay.len() + 1 - p,
{
    if p + pat.len() > hay.len() {
        assert forall|i: int| p <= i implies !occurs_at(hay, pat, ci, i) by {};
    } else if occurs_at(hay, pat, ci, p) {
        lemma_match_starts_from_props(hay, pat, ci, p + pat.len());
        let s = match_starts_from(hay, pat, ci, p);
        let rest = match_starts_from(hay, pat, ci, p + pat.len());
        assert(s == seq![p] + rest);
        assert(s[0] == p);
        assert forall|k: int| 0 <= k < rest.len() implies s[k + 1] == rest[k] by {};
    } else {
        lemma_match_starts_from_props(hay, pat, ci, p + 1);
        assert forall|i: int| p <= i && occurs_at(hay, pat, ci, i) implies p + 1 <= i by {};
    }
}

/// The non-overlapping occurrence starts of the whole haystack, with
/// their bounds and strict ascending order.
pub proof fn lemma_match_starts_props(hay: Seq<u8>, pat: Seq<u8>, ci: bool)
    requires
        pat.len() > 0,
    ensures
        forall|k: int|
            0 <= k < match_starts(hay, pat, ci).len() ==> 0 <= #[trigger] match_starts(
                hay,
                pat,
                ci,
            )[k] && match_starts(hay, pat, ci)[k] + pat.len() <= hay.len() && occurs_at(
                hay,
                pat,
                ci,
                match_starts(hay, pat, ci)[k],
            ),
        forall|k: int, l: int|
            0 <= k < l < match_starts(hay, pat, ci).len() ==> #[trigger] match_starts(
                hay,
                pat,
                ci,
            )[k] + pat.len() <= #[trigger] match_starts(hay, pat, ci)[l],
        match_starts(hay, pat, ci).len() == 0 <==> !contains_pat(hay, pat, ci),
{
    lemma_match_starts_from_props(hay, pat, ci, 0);
    let s = match_starts(hay, pat, ci);
    assert forall|k: int, l: int| 0 <= k < l < s.len() implies s[k] + pat.len() <= s[l] by {
        lemma_match_starts_sorted_step(hay, pat, ci, k, l);
    }
    assert forall|i: int| occurs_at(hay, pat, ci, i) implies 0 <= i by {};
}

proof fn lemma_match_starts_sorted_step(hay: Seq<u8>, pat: Seq<u8>, ci: bool, k: int, l: int)
    requires
        pat.len() > 0,
        0 <= k < l < match_starts(hay, pat, ci).len(),
        forall|j: int|
            0 <= j && j + 1 < match_starts(hay, pat, ci).len() ==> #[trigger] match_starts(
                hay,
                pat,
                ci,
            )[j] + pat.len() <= match_starts(hay, pat, ci)[j + 1],
    ensures
        match_starts(hay, pat, ci)[k] + pat.len() <= match_starts(hay, pat, ci)[l],
    decreases l - k,
{
    if k + 1 == l {
    } else {
        lemma_match_starts_sorted_step(hay, pat, ci, k + 1, l);
    }
}

/// The compiled patterns of a well-formed matcher set are non-empty.
pub proof fn lemma_wf_pats_nonempty(ms: &MatcherSet)
    requires
        ms.wf(),
    ensures
        ms.text_pat() matches Some(p) ==> p.len() > 0,
        ms.name_pat() matches Some(p) ==> p.len() > 0,
{
}

/// An opaque view into the outside automaton type used for matching.
#[verifier::external_type_specification]
#[verifier::external_body]
pub struct ExAhoCorasick(aho_corasick::AhoCorasick);

/// The set of patterns the automaton was built from.
pub uninterp spec fn ac_patterns(a: aho_corasick::AhoCorasick) -> Seq<Seq<u8>>;

/// Whether the automaton was built with ASCII case-insensitive matching.
pub uninterp spec fn ac_case_insensitive(a: aho_corasick::AhoCorasick) -> bool;

/// Whether the automaton builder succeeds on the given pattern and
/// folding mode; its outcome depends on those arguments alone.
pub uninterp spec fn ac_build_ok(pat: Seq<u8>, ci: bool) -> bool;

/// Relies on AhoCorasickBuilder::build with default (standard) match
/// semantics: on success the automaton holds exactly the given pattern,
/// with the given ASCII case-folding mode. Whether the build succeeds is
/// decided by the pattern and the flag alone, named `ac_build_ok`.
#[verifier::external_body]
fn ac_build(pattern: &[u8], ci: bool) -> (r: Option<aho_corasick::AhoCorasick>)
    ensures
        r matches Some(a) ==> ac_patterns(a) == seq![pattern@] && ac_case_insensitive(a) == ci,
        r is Some <==> ac_build_ok(pattern@, ci),
{
    aho_corasick::AhoCorasick::builder().ascii_case_insensitive(ci).build([pattern]).ok()
}

/// Relies on AhoCorasick::is_match: true exactly when some pattern of the
/// automaton occurs in the haystack, under its case-folding mode.
#[verifier::external_body]
fn ac_is_match(a: &aho_corasick::AhoCorasick, hay: &[u8]) -> (r: bool)
    ensures
        ac_patterns(*a).len() == 1 ==> r == contains_pat(
            hay@,
            ac_patterns(*a)[0],
            ac_case_insensitive(*a),
        ),
{
    a.is_match(hay)
}

/// Relies on AhoCorasick::find_iter with standard match semantics: for a
/// single non-empty pattern it reports the non-overlapping occurrences
/// left to right, each time the leftmost one at or after the end of the
/// previous report.
#[verifier::external_body]
fn ac_find_starts(a: &aho_corasick::AhoCorasick, hay: &[u8]) -> (r: Vec<usize>)
    ensures
        ac_patterns(*a).len() == 1 && ac_patterns(*a)[0].len() > 0 ==> r@.map_values(
            |u: usize| u as int,
        ) == match_starts(hay@, ac_patterns(*a)[0], ac_case_insensitive(*a)),
{
    a.find_iter(hay).map(|m| m.start()).collect()
}

/// One compiled query: the pattern bytes, the case-folding mode, and the
/// automaton built from them.
struct Pattern {
    bytes: Vec<u8>,
    ci: bool,
    ac: aho_corasick::AhoCorasick,
}

impl Pattern {
    spec fn wf(&self) -> bool {
        &&& self.bytes@.len() > 0
        &&& ac_patterns(self.ac) == seq![self.bytes@]
        &&& ac_case_insensitive(self.ac) == self.ci
    }

    fn new(bytes: Vec<u8>, ci: bool) -> (r: Option<Pattern>)
        requires
            bytes@.len() > 0,
        ensures
            r matches Some(p) ==> p.wf() && p.bytes@ == bytes@ && p.ci == ci,
            r is Some <==> ac_build_ok(bytes@, ci),
    {
        match ac_build(bytes.as_slice(), ci) {
            Some(ac) => Some(Pattern { bytes, ci, ac }),
            None => None,
        }
    }

    fn is_match(&self, hay: &[u8]) -> (r: bool)
        requires
            self.wf(),
        ensures
            r == contains_pat(hay@, self.bytes@, self.ci),
    {
        let r = ac_is_match(&self.ac, hay);
        proof {
            assert(ac_patterns(self.ac)[0] == self.bytes@);
        }
        r
    }

    fn find_starts(&self, hay: &[u8]) -> (r: Vec<usize>)
        requires
            self.wf(),
        ensures
            r@.map_values(|u: usize| u as int) == match_starts(hay@, self.bytes@, self.ci),
    {
        let r = ac_find_starts(&self.ac, hay);
        proof {
            assert(ac_patterns(self.ac)[0] == self.bytes@);
        }
        r
    }
}

/// Splits a byte sequence at commas; `cur` is the token read so far.
pub open spec fn split_commas_acc(s: Seq<u8>, cur: Seq<u8>) -> Seq<Seq<u8>>
    decreases s.len(),
{
    if s.len() == 0 {
        seq![cur]
    } else if s[0] == 44 {
        seq![cur] + split_commas_acc(s.drop_first(), Seq::empty())
    } else {
        split_commas_acc(s.drop_first(), cur.push(s[0]))
    }
}

/// The comma-separated tokens of a byte sequence, separators excluded;
/// an input without commas is one token, possibly empty.
pub open spec fn split_commas(s: Seq<u8>) -> Seq<Seq<u8>> {
    split_commas_acc(s, Seq::empty())
}

/// The extension allow-list read from a configuration string: its
/// comma-separated tokens, each trimmed of ASCII whitespace and folded to
/// ASCII lower case. Trimming and folding are ASCII-only, a known
/// limitation: non-ASCII whitespace stays, and non-ASCII letters are
/// compared as their exact bytes.
pub open spec fn ext_list_spec(s: Seq<u8>) -> Seq<Seq<u8>> {
    split_commas(s).map_values(|t: Seq<u8>| ascii_lower_seq(trim_spec(t)))
}

/// The compiled extension filter of a configuration: none when the
/// configuration is absent or blank.
pub open spec fn spec_ext_filter(ft: Option<String>) -> Option<Seq<Seq<u8>>> {
    match ft {
        None => None,
        Some(s) => if trim_spec(encode_utf8(s@)).len() == 0 {
            None
        } else {
            Some(ext_list_spec(encode_utf8(s@)))
        },
    }
}

/// The pattern a query string compiles to: none when the query is absent
/// or empty.
pub open spec fn spec_query_pat(q: Option<String>) -> Option<Seq<u8>> {
    match q {
        None => None,
        Some(s) => if encode_utf8(s@).len() == 0 {
            None
        } else {
            Some(encode_utf8(s@))
        },
    }
}

/// Whether an extension filter accepts a file extension: no filter
/// accepts everything; a filter rejects a missing extension and accepts a
/// present one exactly when its lower-cased form is listed. The folding
/// is ASCII-only, a known limitation: an extension differing from a
/// listed token only in the case of non-ASCII letters is rejected.
pub open spec fn ext_accepts(filter: Option<Seq<Seq<u8>>>, ext: Option<Seq<u8>>) -> bool {
    match filter {
        None => true,
        Some(list) => match ext {
            None => false,
            Some(e) => list.contains(ascii_lower_seq(e)),
        },
    }
}

fn split_commas_exec(b: &[u8]) -> (r: Vec<Vec<u8>>)
    ensures
        r@.map_values(|t: Vec<u8>| t@) == split_commas(b@),
{
    let ghost full = b@;
    let mut done: Vec<Vec<u8>> = Vec::new();
    let mut cur: Vec<u8> = Vec::new();
    let mut i: usize = 0;
    proof {
        assert(full.skip(0) =~= full);
    }
    while i < b.len()
        invariant
            i <= b@.len(),
            b@ == full,
            split_commas(full) == done@.map_values(|t: Vec<u8>| t@) + split_commas_acc(
                full.skip(i as int),
                cur@,
            ),
        decreases b@.len() - i,
    {
        let ghost rest = full.skip(i as int);
        proof {
            assert(rest.len() > 0);
            assert(rest[0] == full[i as int]);
            assert(rest.drop_first() =~= full.skip(i + 1));
        }
        let c = b[i];
        if c == 44 {
            let tok = cur;
            cur = Vec::new();
            done.push(tok);
            proof {
                assert(done@.map_values(|t: Vec<u8>| t@) =~= done@.drop_last().map_values(
                    |t: Vec<u8>| t@,
                ).push(tok@));
                assert(split_commas_acc(rest, tok@) == seq![tok@] + split_commas_acc(
                    full.skip(i + 1),
                    Seq::empty(),
                ));
                assert(done@.drop_last().map_values(|t: Vec<u8>| t@) + split_commas_acc(rest, tok@)
                    =~= done@.map_values(|t: Vec<u8>| t@) + split_commas_acc(
                    full.skip(i + 1),
                    Seq::empty(),
                ));
            }
        } else {
            cur.push(c);
            proof {
                assert(split_commas_acc(rest, cur@.drop_last()) == split_commas_acc(
                    full.skip(i + 1),
                    cur@.drop_last().push(c),
                ));
                assert(cur@.drop_last().push(c) =~= cur@);
            }
        }
        i = i + 1;
    }
    proof {
        assert(full.skip(i as int) =~= Seq::<u8>::empty());
        assert(split_commas_acc(Seq::<u8>::empty(), cur@) == seq![cur@]);
    }
    done.push(cur);
    proof {
        assert(done@.map_values(|t: Vec<u8>| t@) =~= done@.drop_last().map_values(|t: Vec<u8>| t@)
            + seq![done@.last()@]);
    }
    done
}

/// Parses an extension allow-list string; a blank string gives no filter.
fn parse_ext_filter(s: &str) -> (r: Option<Vec<Vec<u8>>>)
    ensures
        r is None <==> trim_spec(encode_utf8(s@)).len() == 0,
        r matches Some(v) ==> v@.map_values(|t: Vec<u8>| t@) == ext_list_spec(encode_utf8(s@)),
{
    let b = s.as_bytes();
    let whole = trim_ascii(b);
    if whole.len() == 0 {
        return None;
    }
    let tokens = split_commas_exec(b);
    let ghost toks = split_commas(b@);
    let mut out: Vec<Vec<u8>> = Vec::new();
    let mut j: usize = 0;
    while j < tokens.len()
        invariant
            j <= tokens@.len(),
            tokens@.map_values(|t: Vec<u8>| t@) == toks,
            out@.map_values(|t: Vec<u8>| t@) == toks.take(j as int).map_values(
                |t: Seq<u8>| ascii_lower_seq(trim_spec(t)),
            ),
        decreases tokens@.len() - j,
    {
        let tj: &Vec<u8> = &tokens[j];
        let trimmed = trim_ascii(tj.as_slice());
        let lowered = ascii_lower_bytes(trimmed.as_slice());
        proof {
            assert(tokens@.map_values(|t: Vec<u8>| t@)[j as int] == tj@);
            assert(lowered@ == ascii_lower_seq(trim_spec(toks[j as int])));
            assert(toks.take(j + 1).map_values(|t: Seq<u8>| ascii_lower_seq(trim_spec(t)))
                =~= toks.take(j as int).map_values(
                |t: Seq<u8>| ascii_lower_seq(trim_spec(t)),
            ).push(ascii_lower_seq(trim_spec(toks[j as int]))));
        }
        let ghost prev = out@;
        out.push(lowered);
        proof {
            assert(out@.map_values(|t: Vec<u8>| t@) =~= prev.map_values(|t: Vec<u8>| t@).push(
                lowered@,
            ));
        }
        j = j + 1;
    }
    proof {
        assert(toks.take(toks.len() as int) =~= toks);
        assert(out@.map_values(|t: Vec<u8>| t@) == ext_list_spec(b@));
    }
    Some(out)
}

/// The compiled matchers of one search run: the text query, the filename
/// query, and the extension allow-list, shared read-only by all workers.
pub struct MatcherSet {
    text: Option<Pattern>,
    name: Option<Pattern>,
    exts: Option<Vec<Vec<u8>>>,
    ci: bool,
}

impl MatcherSet {
    /// The matchers were compiled from their recorded pattern bytes.
    pub closed spec fn wf(&self) -> bool {
        &&& (self.text matches Some(p) ==> p.wf() && p.ci == self.ci)
        &&& (self.name matches Some(p) ==> p.wf() && p.ci == self.ci)
    }

    /// The text query pattern, when content scanning is configured.
    pub closed spec fn text_pat(&self) -> Option<Seq<u8>> {
        match self.text {
            Some(p) => Some(p.bytes@),
            None => None,
        }
    }

    /// The filename query pattern, when one is configured.
    pub closed spec fn name_pat(&self) -> Option<Seq<u8>> {
        match self.name {
            Some(p) => Some(p.bytes@),
            None => None,
        }
    }

    /// The extension allow-list, when one is configured.
    pub closed spec fn ext_filter(&self) -> Option<Seq<Seq<u8>>> {
        match self.exts {
            Some(v) => Some(v@.map_values(|t: Vec<u8>| t@)),
            None => None,
        }
    }

    /// Whether matching folds ASCII case.
    pub closed spec fn case_insensitive(&self) -> bool {
        self.ci
    }

    /// Compiles the matchers of one run from its configuration. An absent
    /// or empty query compiles to no matcher; a blank extension list to
    /// no filter. It fails, with `PatternError`, exactly when the outside
    /// automaton cannot be built from a configured query; with no query
    /// configured it always succeeds.
    pub fn build(opts: &SearchOptions) -> (r: Result<MatcherSet, SearchError>)
        ensures
            r matches Ok(ms) ==> ms.wf() && ms.case_insensitive() == opts.ignore_case
                && ms.text_pat() == spec_query_pat(opts.text_query) && ms.name_pat()
                == spec_query_pat(opts.file_query) && ms.ext_filter() == spec_ext_filter(
                opts.file_types,
            ),
            r matches Err(e) ==> e is PatternError,
            r is Ok <==> ((spec_query_pat(opts.text_query) matches Some(p) ==> ac_build_ok(
                p,
                opts.ignore_case,
            )) && (spec_query_pat(opts.file_query) matches Some(p) ==> ac_build_ok(
                p,
                opts.ignore_case,
            ))),
    {
        let text = match &opts.text_query {
            Some(s) => {
                let b = vstd::slice::slice_to_vec(s.as_str().as_bytes());
                if b.len() == 0 {
                    None
                } else {
                    match Pattern::new(b, opts.ignore_case) {
                        Some(p) => Some(p),
                        None => {
                            return Err(SearchError::PatternError);
                        },
                    }
                }
            },
            None => None,
        };
        let name = match &opts.file_query {
            Some(s) => {
                let b = vstd::slice::slice_to_vec(s.as_str().as_bytes());
                if b.len() == 0 {
                    None
                } else {
                    match Pattern::new(b, opts.ignore_case) {
                        Some(p) => Some(p),
                        None => {
                            return Err(SearchError::PatternError);
                        },
                    }
                }
            },
            None => None,
        };
        let exts = match &opts.file_types {
            Some(s) => parse_ext_filter(s.as_str()),
            None => None,
        };
        Ok(MatcherSet { text, name, exts, ci: opts.ignore_case })
    }

    /// Whether a filename query is configured and occurs in the name.
    pub fn name_hit(&self, name_bytes: &[u8]) -> (r: bool)
        requires
            self.wf(),
        ensures
            r == (self.name_pat() is Some && contains_pat(
                name_bytes@,
                self.name_pat()->Some_0,
                self.case_insensitive(),
            )),
    {
        match &self.name {
            Some(p) => p.is_match(name_bytes),
            None => false,
        }
    }

    /// Whether a text query is configured.
    pub fn has_text(&self) -> (r: bool)
        ensures
            r == (self.text_pat() is Some),
    {
        self.text.is_some()
    }

    /// Whether a filename query is configured.
    pub fn has_name(&self) -> (r: bool)
        ensures
            r == (self.name_pat() is Some),
    {
        self.name.is_some()
    }

    /// Whether the extension filter accepts a file extension.
    pub fn ext_accepted(&self, ext: Option<&str>) -> (r: bool)
        ensures
            r == ext_accepts(
                self.ext_filter(),
                match ext {
                    Some(e) => Some(encode_utf8(e@)),
                    None => None,
                },
            ),
    {
        match &self.exts {
            None => true,
            Some(list) => match ext {
                None => false,
                Some(e) => {
                    let le = ascii_lower_bytes(e.as_bytes());
                    let ghost target = ascii_lower_seq(encode_utf8(e@));
                    let mut k: usize = 0;
                    let ghost mapped = list@.map_values(|t: Vec<u8>| t@);
                    while k < list.len()
                        invariant
                            k <= list@.len(),
                            le@ == target,
                            ext == Some(e),
                            target == ascii_lower_seq(encode_utf8(e@)),
                            mapped == list@.map_values(|t: Vec<u8>| t@),
                            self.ext_filter() == Some(mapped),
                            forall|m: int| 0 <= m < k ==> mapped[m] != target,
                        decreases list@.len() - k,
                    {
                        let lk: &Vec<u8> = &list[k];
                        if eq_bytes(lk.as_slice(), le.as_slice()) {
                            proof {
                                assert(mapped[k as int] == target);
                                assert(mapped.contains(target));
                                assert(self.ext_filter() == Some(mapped));
                            }
                            return true;
                        }
                        k = k + 1;
                    }
                    proof {
                        assert(forall|m: int| 0 <= m < mapped.len() ==> mapped[m] != target);
                        assert(!mapped.contains(target));
                    }
                    false
                },
            },
        }
    }

    /// The occurrence starts of the text query in a haystack.
    pub fn text_find_starts(&self, hay: &[u8]) -> (r: Vec<usize>)
        requires
            self.wf(),
            self.text_pat() is Some,
        ensures
            r@.map_values(|u: usize| u as int) == match_starts(
                hay@,
                self.text_pat()->Some_0,
                self.case_insensitive(),
            ),
    {
        match &self.text {
            Some(p) => p.find_starts(hay),
            None => {
                proof {
                    assert(false);
                }
                Vec::new()
            },
        }
    }
}

} // verus!
