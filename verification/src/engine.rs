//! The per-entry engine of a search run: given the shared matchers, the
//! visit count, the cancellation flag and one directory entry, it decides
//! what the run owes that entry — a progress report, pruning of a noisy
//! subtree, a filename match event, a content scan — exactly as one
//! traversal worker would, so a driver only performs what is decided.

use vstd::prelude::*;
use vstd::utf8::encode_utf8;

use crate::bytes::eq_bytes;
use crate::matcher::contains_pat;
use crate::matcher::ext_accepts;
use crate::matcher::MatcherSet;
use vstd::string::StringSliceAdditionalSpecFns;

verus! {

/// What a traversal worker reads of one directory entry: its file name,
/// its depth below the root (the root itself at 0), whether it is a
/// regular file, and its extension when it has a decodable one.
pub struct EntryMeta {
    pub name: String,
    pub depth: usize,
    pub is_file: bool,
    pub extension: Option<String>,
}

/// What one visited entry owes the run: a batched progress report, a
/// stop of the walk, pruning of the entry's subtree, a filename match
/// event, and a content scan of the entry's bytes.
pub struct StepOutcome {
    pub progress: Option<usize>,
    pub quit: bool,
    pub prune: bool,
    pub emit_name: bool,
    pub want_content: bool,
}

/// A directory name pruned whenever it appears below the root: fixed
/// well-known noise directories, several meaningful on one operating
/// system only.
pub open spec fn spec_skip_dir(name_bytes: Seq<u8>) -> bool {
    ||| name_bytes == "Windows".spec_bytes()
    ||| name_bytes == "Program Files".spec_bytes()
    ||| name_bytes == "Program Files (x86)".spec_bytes()
    ||| name_bytes == "AppData".spec_bytes()
    ||| name_bytes == "Temp".spec_bytes()
    ||| name_bytes == ".git".spec_bytes()
    ||| name_bytes == "node_modules".spec_bytes()
}

/// An entry worth descending into: everything but the skip-list names.
pub fn is_important(name: &str) -> (r: bool)
    ensures
        r == !spec_skip_dir(encode_utf8(name@)),
{
    let nb = name.as_bytes();
    let skip = eq_bytes(nb, "Windows".as_bytes()) || eq_bytes(nb, "Program Files".as_bytes())
        || eq_bytes(nb, "Program Files (x86)".as_bytes()) || eq_bytes(nb, "AppData".as_bytes())
        || eq_bytes(nb, "Temp".as_bytes()) || eq_bytes(nb, ".git".as_bytes()) || eq_bytes(
        nb,
        "node_modules".as_bytes(),
    );
    !skip
}

/// The UTF-8 bytes of an entry's name.
pub open spec fn spec_name_bytes(e: EntryMeta) -> Seq<u8> {
    encode_utf8(e.name@)
}

/// The UTF-8 bytes of an entry's extension, when it has one.
pub open spec fn spec_ext_bytes(e: EntryMeta) -> Option<Seq<u8>> {
    match e.extension {
        Some(s) => Some(encode_utf8(s@)),
        None => None,
    }
}

/// A filename query is configured and occurs in the entry's name: the
/// entry gets a filename match event.
pub open spec fn spec_name_hit(ms: MatcherSet, e: EntryMeta) -> bool {
    ms.name_pat() matches Some(p) && contains_pat(spec_name_bytes(e), p, ms.case_insensitive())
}

/// The entry passes the name test: no filename query is configured, or
/// the query occurs in the name.
pub open spec fn spec_name_passes(ms: MatcherSet, e: EntryMeta) -> bool {
    ms.name_pat() is None || spec_name_hit(ms, e)
}

/// The entry's subtree is pruned: a skip-list name below the root, or a
/// depth beyond the configured bound.
pub open spec fn spec_prune(e: EntryMeta, max_depth: usize) -> bool {
    (e.depth > 0 && spec_skip_dir(spec_name_bytes(e))) || e.depth > max_depth
}

/// The entry's bytes are to be content-scanned: it passed the name test,
/// is a regular file, a text query is configured, and the extension
/// filter accepts it.
pub open spec fn spec_want_content(ms: MatcherSet, e: EntryMeta) -> bool {
    &&& spec_name_passes(ms, e)
    &&& e.is_file
    &&& ms.text_pat() is Some
    &&& ext_accepts(ms.ext_filter(), spec_ext_bytes(e))
}

/// The progress reported for the entry visited with `c` entries already
/// counted: one batch of 50 when the new count reaches a multiple of 50.
pub open spec fn spec_progress_delta(c: nat) -> nat {
    if (c + 1) % 50 == 0 {
        50
    } else {
        0
    }
}

/// The sum of the progress reported over the first `n` visited entries.
pub open spec fn spec_progress_total(n: nat) -> nat
    decreases n,
{
    if n == 0 {
        0
    } else {
        spec_progress_total((n - 1) as nat) + spec_progress_delta((n - 1) as nat)
    }
}

/// After `n` entries are visited in one run, the progress reports sum to
/// `(n / 50) * 50`: the remainder below the next multiple of 50 is never
/// reported.
pub proof fn lemma_progress_accounting(n: nat)
    ensures
        spec_progress_total(n) == (n / 50) * 50,
    decreases n,
{
    if n != 0 {
        lemma_progress_accounting((n - 1) as nat);
        let ni = n as int;
        vstd::arithmetic::div_mod::lemma_fundamental_div_mod(ni, 50);
        if n % 50 == 0 {
            vstd::arithmetic::div_mod::lemma_fundamental_div_mod_converse(
                ni - 1,
                50,
                ni / 50 - 1,
                49,
            );
        } else {
            vstd::arithmetic::div_mod::lemma_fundamental_div_mod_converse(
                ni - 1,
                50,
                ni / 50,
                ni % 50 - 1,
            );
        }
    }
}

/// With no text query compiled, no entry is ever sent to a content scan,
/// whatever its name, kind or extension.
pub proof fn lemma_no_text_no_content(ms: MatcherSet, e: EntryMeta)
    requires
        ms.text_pat() is None,
    ensures
        !spec_want_content(ms, e),
{
}

/// Decides one traversal step, exactly as a worker visits one entry: the
/// visit is counted and batched progress reported first; a set
/// cancellation flag then stops the walk before any matching; an
/// unreadable entry (`None`) is skipped without ending the run; a
/// skip-list name below the root or an excessive depth prunes the
/// subtree; otherwise the name test decides a filename match event and,
/// with a text query present, a regular file whose extension passes the
/// filter is sent to a content scan.
pub fn step_entry(
    ms: &MatcherSet,
    max_depth: usize,
    count_before: usize,
    cancelled: bool,
    entry: Option<&EntryMeta>,
) -> (o: StepOutcome)
    requires
        ms.wf(),
        count_before < usize::MAX,
    ensures
        o.progress == (if spec_progress_delta(count_before as nat) == 50 {
            Some(50usize)
        } else {
            None::<usize>
        }),
        o.quit == cancelled,
        cancelled ==> !o.prune && !o.emit_name && !o.want_content,
        !cancelled ==> (match entry {
            Some(e) => {
                &&& o.prune == spec_prune(*e, max_depth)
                &&& o.emit_name == (!spec_prune(*e, max_depth) && spec_name_hit(*ms, *e))
                &&& o.want_content == (!spec_prune(*e, max_depth) && spec_want_content(*ms, *e))
            },
            None => !o.prune && !o.emit_name && !o.want_content,
        }),
        o.want_content ==> ms.text_pat() is Some,
{
    let progress = if (count_before + 1) % 50 == 0 {
        Some(50usize)
    } else {
        None
    };
    if cancelled {
        return StepOutcome {
            progress,
            quit: true,
            prune: false,
            emit_name: false,
            want_content: false,
        };
    }
    match entry {
        None => StepOutcome {
            progress,
            quit: false,
            prune: false,
            emit_name: false,
            want_content: false,
        },
        Some(e) => {
            let prune = (e.depth > 0 && !is_important(e.name.as_str())) || e.depth > max_depth;
            if prune {
                return StepOutcome {
                    progress,
                    quit: false,
                    prune: true,
                    emit_name: false,
                    want_content: false,
                };
            }
            let hit = ms.name_hit(e.name.as_str().as_bytes());
            let passes = if hit {
                true
            } else {
                !ms.has_name()
            };
            let want = if passes && e.is_file && ms.has_text() {
                ms.ext_accepted(
                    match &e.extension {
                        Some(s) => Some(s.as_str()),
                        None => None,
                    },
                )
            } else {
                false
            };
            StepOutcome { progress, quit: false, prune: false, emit_name: hit, want_content: want }
        },
    }
}

} // verus!
