//! The candidate selector: scoring of candidate names against a
//! query, ranking with stable ties, the auto-select rule, numbered
//! manual choice, and the reading of an external matcher's outcome.
//!
//! The interactive loops around these functions (prompting, reading
//! lines, spawning the external matcher) live outside the library;
//! every decision they act on is taken here.

use vstd::prelude::*;
use vstd::string::StrSliceExecFns;
use crate::errors::SnipError;

verus! {

/// The margin by which a top score must beat the runner-up for the
/// top match to be chosen without asking.
pub const AUTO_SELECT_MARGIN: i64 = 100;

/// At most this many matches are offered for manual choice.
pub const MAX_SHOWN: usize = 10;

/// The score the skim fuzzy matcher (default configuration) gives a
/// candidate against a query; nothing when the candidate does not
/// match. Deterministic in the two texts.
pub uninterp spec fn skim_score_of(choice: Seq<char>, pattern: Seq<char>) -> Option<i64>;

/// A text with its leading and trailing whitespace removed.
pub uninterp spec fn trim_of(text: Seq<char>) -> Seq<char>;

/// Relies on `fuzzy_matcher::skim::SkimMatcherV2` under its default
/// configuration: the score depends on candidate and query alone.
#[verifier::external_body]
fn skim_score(choice: &str, pattern: &str) -> (r: Option<i64>)
    ensures
        r == skim_score_of(choice@, pattern@),
{
    fuzzy_matcher::FuzzyMatcher::fuzzy_match(
        &fuzzy_matcher::skim::SkimMatcherV2::default(),
        choice,
        pattern,
    )
}

/// Relies on `str::trim`: drops leading and trailing whitespace, a
/// function of the text alone.
#[verifier::external_body]
fn trim_text(s: &str) -> (r: String)
    ensures
        r@ == trim_of(s@),
{
    s.trim().to_string()
}

/// One ranked match: the candidate's position in the options list and
/// its score.
#[derive(Clone, Copy, Debug, PartialEq, Eq, Structural)]
pub struct MatchEntry {
    pub score: i64,
    pub index: usize,
}

/// The ranking order: higher score first, ties in first-seen order.
pub open spec fn match_before(a: MatchEntry, b: MatchEntry) -> bool {
    a.score > b.score || (a.score == b.score && a.index < b.index)
}

fn match_before_exec(a: MatchEntry, b: MatchEntry) -> (r: bool)
    ensures
        r == match_before(a, b),
{
    a.score > b.score || (a.score == b.score && a.index < b.index)
}

/// The first position in `out` whose entry does not rank before `x`.
fn match_position(out: &Vec<MatchEntry>, x: MatchEntry) -> (j: usize)
    ensures
        0 <= j <= out@.len(),
        forall|k: int| 0 <= k < j ==> match_before(out@[k], x),
        j < out@.len() ==> !match_before(out@[j as int], x),
{
    let n = out.len();
    let mut j: usize = 0;
    while j < n
        invariant
            n == out@.len(),
            0 <= j <= n,
            forall|k: int| 0 <= k < j ==> match_before(out@[k], x),
        decreases n - j,
    {
        if !match_before_exec(out[j], x) {
            return j;
        }
        j += 1;
    }
    j
}

/// Score every option against the query and rank the matches: exactly
/// the options the matcher scores, ordered by score descending with
/// ties in first-seen order.
pub fn rank_candidates(options: &Vec<String>, query: &str) -> (r: Vec<MatchEntry>)
    ensures
        forall|k: int| #![trigger r@[k]] 0 <= k < r@.len()
            ==> r@[k].index < options@.len()
                && skim_score_of(options@[r@[k].index as int]@, query@) == Some(r@[k].score),
        forall|k1: int, k2: int| 0 <= k1 < k2 < r@.len() ==> match_before(r@[k1], r@[k2]),
        forall|i: int| #![trigger skim_score_of(options@[i]@, query@)] 0 <= i < options@.len()
            && skim_score_of(options@[i]@, query@) is Some
            ==> exists|k: int| 0 <= k < r@.len() && (#[trigger] r@[k]).index == i,
{
    let n = options.len();
    let mut out: Vec<MatchEntry> = Vec::new();
    let mut i: usize = 0;
    while i < n
        invariant
            n == options@.len(),
            0 <= i <= n,
            forall|k: int| #![trigger out@[k]] 0 <= k < out@.len()
                ==> out@[k].index < i
                    && skim_score_of(options@[out@[k].index as int]@, query@) == Some(out@[k].score),
            forall|k1: int, k2: int| 0 <= k1 < k2 < out@.len() ==> match_before(out@[k1], out@[k2]),
            forall|i0: int| #![trigger skim_score_of(options@[i0]@, query@)] 0 <= i0 < i
                && skim_score_of(options@[i0]@, query@) is Some
                ==> exists|k: int| 0 <= k < out@.len() && (#[trigger] out@[k]).index == i0,
        decreases n - i,
    {
        let scored = skim_score(options[i].as_str(), query);
        match scored {
            Some(score) => {
                let x = MatchEntry { score, index: i };
                let j = match_position(&out, x);
                let ghost old_out = out@;
                proof {
                    assert forall|k: int| j <= k < old_out.len() implies match_before(x, old_out[k]) by {
                        assert(old_out[j as int] == out@[j as int]);
                        assert(old_out[j as int].index < i);
                        assert(!match_before(old_out[j as int], x));
                        assert(match_before(x, old_out[j as int]));
                        if k > j {
                            assert(old_out[k] == out@[k]);
                            assert(match_before(old_out[j as int], old_out[k]));
                        }
                    }
                }
                out.insert(j, x);
                proof {
                    old_out.insert_ensures(j as int, x);
                    assert forall|i0: int| #![trigger skim_score_of(options@[i0]@, query@)] 0 <= i0 < i + 1
                        && skim_score_of(options@[i0]@, query@) is Some
                        implies exists|k: int| 0 <= k < out@.len() && (#[trigger] out@[k]).index == i0 by {
                        if i0 == i {
                            assert((out@[j as int]).index == i0);
                        } else {
                            let k0 = choose|k0: int| 0 <= k0 < old_out.len() && (#[trigger] old_out[k0]).index == i0;
                            if k0 < j {
                                assert((out@[k0]).index == i0);
                            } else {
                                assert((out@[k0 + 1]).index == i0);
                            }
                        }
                    }
                }
            },
            None => {
            },
        }
        i += 1;
    }
    out
}

/// The auto-select rule: the sole match, or a top match whose score
/// beats the runner-up by more than the margin, is chosen without
/// asking; otherwise nothing is.
pub fn auto_choice(matches: &Vec<MatchEntry>) -> (r: Option<usize>)
    ensures
        r is Some <==> (matches@.len() == 1
            || (matches@.len() > 1 && matches@[0].score - matches@[1].score > AUTO_SELECT_MARGIN)),
        r matches Some(i) ==> matches@.len() >= 1 && i == matches@[0].index,
{
    if matches.len() == 1 {
        Some(matches[0].index)
    } else if matches.len() > 1
        && (matches[0].score as i128) - (matches[1].score as i128) > (AUTO_SELECT_MARGIN as i128) {
        Some(matches[0].index)
    } else {
        None
    }
}

/// How many of the matches are offered for manual choice.
pub fn shown_count(matches_len: usize) -> (r: usize)
    ensures
        r == if matches_len < MAX_SHOWN { matches_len as int } else { MAX_SHOWN as int },
{
    if matches_len < MAX_SHOWN {
        matches_len
    } else {
        MAX_SHOWN
    }
}

/// A manual, 1-indexed choice among the shown matches: valid exactly
/// when it falls within the shown range.
pub fn numbered_choice(matches: &Vec<MatchEntry>, selection: usize) -> (r: Option<usize>)
    ensures
        r is Some <==> (1 <= selection
            && selection <= (if matches@.len() < MAX_SHOWN { matches@.len() as int } else { MAX_SHOWN as int })),
        r matches Some(i) ==> i == matches@[selection - 1].index,
{
    let cap = shown_count(matches.len());
    if 1 <= selection && selection <= cap {
        Some(matches[selection - 1].index)
    } else {
        None
    }
}

/// A query line, trimmed; a blank line is no query and prompts again.
pub fn normalized_query(line: &str) -> (r: Option<String>)
    ensures
        r is Some <==> trim_of(line@).len() > 0,
        r matches Some(q) ==> q@ == trim_of(line@),
{
    let t = trim_text(line);
    if t.as_str().is_empty() {
        None
    } else {
        Some(t)
    }
}

/// The fallback's first rule: an empty candidate set can never yield
/// a selection and fails at once with `NoCandidates`.
pub fn check_candidates(options: &Vec<String>) -> (r: Result<(), SnipError>)
    ensures
        r is Ok <==> options@.len() > 0,
        r matches Err(e) ==> e == SnipError::NoCandidates,
{
    if options.len() == 0 {
        Err(SnipError::NoCandidates)
    } else {
        Ok(())
    }
}

/// Whether a text is one or more decimal digits.
pub open spec fn is_digit_seq(s: Seq<char>) -> bool {
    s.len() > 0 && forall|i: int| 0 <= i < s.len() ==> 48 <= #[trigger] (s[i] as u32) <= 57
}

/// The number a sequence of decimal digits denotes.
pub open spec fn dec_value(s: Seq<char>) -> int
    decreases s.len(),
{
    if s.len() == 0 {
        0
    } else {
        dec_value(s.drop_last()) * 10 + ((s.last() as u32) - 48)
    }
}

/// A digit string's value is at least the value of any of its
/// prefixes, and never negative.
proof fn lemma_dec_value_bounds(s: Seq<char>, k: int)
    requires
        forall|i: int| 0 <= i < s.len() ==> 48 <= #[trigger] (s[i] as u32) <= 57,
        0 <= k <= s.len(),
    ensures
        0 <= dec_value(s.take(k)) <= dec_value(s),
    decreases s.len(),
{
    if s.len() == 0 {
        assert(s.take(k) =~= s);
    } else {
        let head = s.drop_last();
        assert(head =~= s.take(s.len() - 1));
        lemma_dec_value_bounds(head, if k <= head.len() { k } else { head.len() as int });
        if k == s.len() {
            assert(s.take(k) =~= s);
        } else {
            assert(s.take(k) =~= head.take(k));
        }
    }
}

/// Parse a manual selection: the line, trimmed, read as a decimal
/// number. Exactly the all-digit lines whose value fits yield one.
pub fn parse_selection(s: &str) -> (r: Option<usize>)
    ensures
        r is Some <==> is_digit_seq(trim_of(s@)) && dec_value(trim_of(s@)) <= usize::MAX,
        r matches Some(v) ==> v == dec_value(trim_of(s@)),
{
    let t = trim_text(s);
    let len = t.as_str().unicode_len();
    if len == 0 {
        return None;
    }
    let mut acc: u128 = 0;
    let mut i: usize = 0;
    proof {
        assert(t@.take(0) =~= Seq::<char>::empty());
    }
    while i < len
        invariant
            t@ == trim_of(s@),
            len == t@.len(),
            0 < len,
            0 <= i <= len,
            forall|p: int| 0 <= p < i ==> 48 <= #[trigger] (t@[p] as u32) <= 57,
            acc == dec_value(t@.take(i as int)),
            acc <= usize::MAX,
        decreases len - i,
    {
        let c = t.as_str().get_char(i);
        let code = c as u32;
        if code < 48 || code > 57 {
            return None;
        }
        let d = (code - 48) as u128;
        let next = acc * 10 + d;
        proof {
            assert(t@.take(i as int + 1).drop_last() =~= t@.take(i as int));
            assert(t@.take(i as int + 1).last() == t@[i as int]);
        }
        if next > (usize::MAX as u128) {
            proof {
                if is_digit_seq(t@) {
                    lemma_dec_value_bounds(t@, i as int + 1);
                }
            }
            return None;
        }
        acc = next;
        i += 1;
    }
    proof {
        assert(t@.take(len as int) =~= t@);
    }
    Some(acc as usize)
}

/// What came of delegating to the external interactive matcher.
pub enum ExternalOutcome {
    /// The matcher printed a non-empty selection and exited cleanly.
    Selected(String),
    /// The matcher exited with the reserved cancellation status: the
    /// user aborted, and no fallback is attempted.
    Cancelled,
    /// The matcher was unavailable or failed some other way; the
    /// in-process fallback takes over.
    Unavailable,
}

/// The reserved exit status the external matcher uses for "cancelled
/// by the user".
pub const CANCEL_EXIT_STATUS: i32 = 130;

/// Read the external matcher's exit status and output: a clean exit
/// with a non-empty (trimmed) line is a selection, the reserved
/// status is a cancellation, and anything else means the tool is
/// unavailable.
pub fn interpret_matcher_exit(code: Option<i32>, output: &str) -> (r: ExternalOutcome)
    ensures
        r is Cancelled <==> code == Some(CANCEL_EXIT_STATUS),
        r is Selected <==> code == Some(0i32) && trim_of(output@).len() > 0,
        r matches ExternalOutcome::Selected(s) ==> s@ == trim_of(output@),
{
    match code {
        Some(c) => {
            if c == CANCEL_EXIT_STATUS {
                ExternalOutcome::Cancelled
            } else if c == 0 {
                let t = trim_text(output);
                if t.as_str().is_empty() {
                    ExternalOutcome::Unavailable
                } else {
                    ExternalOutcome::Selected(t)
                }
            } else {
                ExternalOutcome::Unavailable
            }
        },
        None => ExternalOutcome::Unavailable,
    }
}

} // verus!
