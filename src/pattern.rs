//! The version pattern `(0|[1-9][0-9]*)\.(0|[1-9][0-9]*)\.(0|[1-9][0-9]*)`
//! and the leftmost-first, non-overlapping scan that finds its matches.
use crate::numeral::{digit_run, is_digit, lemma_digit_run_bound};
use vstd::prelude::*;

verus! {

/// The pattern as the regular-expression engine reads it.
pub const VERSION_PATTERN: &'static str = r"(0|[1-9][0-9]*)\.(0|[1-9][0-9]*)\.(0|[1-9][0-9]*)";

/// Length of a numeral `0|[1-9][0-9]*` at `i` that a '.' follows, or 0 if
/// there is none. A longer numeral cannot end before a digit, so the greedy
/// run is the only candidate.
pub open spec fn dotted_numeral(s: Seq<char>, i: int) -> nat {
    let n = digit_run(s, i);
    if n > 0 && (s[i] != '0' || n == 1) && i + n < s.len() && s[i + n] == '.' {
        n
    } else {
        0
    }
}

/// Length of the numeral `0|[1-9][0-9]*` that the pattern takes last at `i`:
/// a leading '0' is taken alone, any other digit with the whole run after it.
pub open spec fn final_numeral(s: Seq<char>, i: int) -> nat {
    let n = digit_run(s, i);
    if n == 0 {
        0
    } else if s[i] == '0' {
        1
    } else {
        n
    }
}

/// Length of the match of the version pattern that starts at `i`, or 0.
pub open spec fn match_len(s: Seq<char>, i: int) -> nat {
    let a = dotted_numeral(s, i);
    let j = i + a + 1;
    let b = dotted_numeral(s, j);
    let k = j + b + 1;
    let c = final_numeral(s, k);
    if a == 0 || b == 0 || c == 0 {
        0
    } else {
        (k + c - i) as nat
    }
}

pub proof fn lemma_match_len_bound(s: Seq<char>, i: int)
    requires
        0 <= i <= s.len(),
    ensures
        i + match_len(s, i) <= s.len(),
{
    let a = dotted_numeral(s, i);
    let j = i + a + 1;
    let b = dotted_numeral(s, j);
    let k = j + b + 1;
    lemma_digit_run_bound(s, i);
    lemma_digit_run_bound(s, j);
    lemma_digit_run_bound(s, k);
}

/// The matches found from position `i` on, in order.
pub open spec fn matches_from(s: Seq<char>, i: int) -> Seq<Seq<char>>
    decreases s.len() - i,
    via matches_from_decreases
{
    if i < 0 || i >= s.len() {
        seq![]
    } else if match_len(s, i) > 0 {
        seq![s.subrange(i, i + match_len(s, i))] + matches_from(s, i + match_len(s, i))
    } else {
        matches_from(s, i + 1)
    }
}

#[via_fn]
proof fn matches_from_decreases(s: Seq<char>, i: int) {
    if 0 <= i <= s.len() {
        lemma_match_len_bound(s, i);
    }
}

/// The text between matches when scanning from `i`, where the current piece
/// began at `start`: one more piece than there are matches.
pub open spec fn gaps_from(s: Seq<char>, start: int, i: int) -> Seq<Seq<char>>
    decreases s.len() - i,
    via gaps_from_decreases
{
    if i < 0 || i >= s.len() {
        seq![s.subrange(start, s.len() as int)]
    } else if match_len(s, i) > 0 {
        seq![s.subrange(start, i)] + gaps_from(s, i + match_len(s, i), i + match_len(s, i))
    } else {
        gaps_from(s, start, i + 1)
    }
}

#[via_fn]
proof fn gaps_from_decreases(s: Seq<char>, start: int, i: int) {
    if 0 <= i <= s.len() {
        lemma_match_len_bound(s, i);
    }
}

/// Every version found in `s`, in order of appearance.
pub open spec fn version_matches(s: Seq<char>) -> Seq<Seq<char>> {
    matches_from(s, 0)
}

/// The text around the versions of `s`: before the first, between each two,
/// and after the last.
pub open spec fn version_gaps(s: Seq<char>) -> Seq<Seq<char>> {
    gaps_from(s, 0, 0)
}

pub open spec fn views(v: Seq<&str>) -> Seq<Seq<char>> {
    v.map_values(|x: &str| x@)
}

/// The text that `gaps` and `pieces` make when laid out alternately, a gap
/// first and a gap last.
pub open spec fn weave(gaps: Seq<Seq<char>>, pieces: Seq<Seq<char>>) -> Seq<char>
    decreases pieces.len(),
{
    if pieces.len() == 0 {
        if gaps.len() == 0 {
            seq![]
        } else {
            gaps[0]
        }
    } else {
        gaps[0] + pieces[0] + weave(gaps.drop_first(), pieces.drop_first())
    }
}

proof fn lemma_digit_run_sub(s: Seq<char>, lo: int, hi: int, j: int)
    requires
        0 <= lo <= j <= hi <= s.len(),
    ensures
        digit_run(s.subrange(lo, hi), j - lo) == if digit_run(s, j) < hi - j {
            digit_run(s, j) as int
        } else {
            hi - j
        },
    decreases hi - j,
{
    if j < hi {
        lemma_digit_run_sub(s, lo, hi, j + 1);
        assert(s.subrange(lo, hi)[j - lo] == s[j]);
        assert(j + 1 - lo == (j - lo) + 1);
        if !is_digit(s[j]) {
            assert(digit_run(s, j) == 0);
        }
    }
}

/// A match, taken out of its text, is still one whole match.
proof fn lemma_match_stands_alone(s: Seq<char>, i: int)
    requires
        0 <= i <= s.len(),
        match_len(s, i) > 0,
    ensures
        match_len(s.subrange(i, i + match_len(s, i)), 0) == match_len(s, i),
{
    let l = match_len(s, i);
    let m = s.subrange(i, i + l);
    let a = dotted_numeral(s, i);
    let j = i + a + 1;
    let b = dotted_numeral(s, j);
    let k = j + b + 1;
    lemma_match_len_bound(s, i);
    lemma_digit_run_bound(s, k);
    lemma_digit_run_sub(s, i, i + l, i);
    lemma_digit_run_sub(s, i, i + l, j);
    lemma_digit_run_sub(s, i, i + l, k);
    assert(m[0] == s[i]);
    assert(m[a as int] == s[i + a]);
    assert(m[j - i] == s[j]);
    assert(m[j - i + b] == s[j + b]);
    assert(m[k - i] == s[k]);
    assert(dotted_numeral(m, 0) == a);
    assert(dotted_numeral(m, j - i) == b);
}

/// Scanning from `i`, with the current gap begun at `start`: there is one
/// more gap than there are matches, gaps and matches weave back into the
/// text, and each match is a whole match on its own.
proof fn lemma_pieces(s: Seq<char>, start: int, i: int)
    requires
        0 <= start <= i <= s.len(),
    ensures
        gaps_from(s, start, i).len() == matches_from(s, i).len() + 1,
        weave(gaps_from(s, start, i), matches_from(s, i)) == s.subrange(start, s.len() as int),
        forall|k: int|
            0 <= k < matches_from(s, i).len() ==> match_len(#[trigger] matches_from(s, i)[k], 0)
                == matches_from(s, i)[k].len() && matches_from(s, i)[k].len() > 0,
    decreases s.len() - i,
{
    if i >= s.len() {
    } else if match_len(s, i) > 0 {
        let l = match_len(s, i);
        lemma_match_len_bound(s, i);
        lemma_pieces(s, i + l, i + l);
        lemma_match_stands_alone(s, i);
        let g = gaps_from(s, start, i);
        let m = matches_from(s, i);
        let g2 = gaps_from(s, i + l, i + l);
        let m2 = matches_from(s, i + l);
        assert(g.drop_first() =~= g2);
        assert(m.drop_first() =~= m2);
        assert(s.subrange(start, i) + s.subrange(i, i + l) + s.subrange(i + l, s.len() as int)
            =~= s.subrange(start, s.len() as int));
        assert forall|k: int| 0 <= k < m.len() implies match_len(#[trigger] m[k], 0)
            == m[k].len() && m[k].len() > 0 by {
            if k > 0 {
                assert(m[k] == m2[k - 1]);
            }
        }
    } else {
        lemma_pieces(s, start, i + 1);
    }
}

/// The versions of `s` and the text around them: one gap more than there
/// are versions, each version a whole match on its own, and the two woven
/// together give `s` back.
pub proof fn lemma_versions_reassemble(s: Seq<char>)
    ensures
        version_gaps(s).len() == version_matches(s).len() + 1,
        weave(version_gaps(s), version_matches(s)) == s,
        forall|k: int|
            0 <= k < version_matches(s).len() ==> match_len(#[trigger] version_matches(s)[k], 0)
                == version_matches(s)[k].len() && version_matches(s)[k].len() > 0,
{
    lemma_pieces(s, 0, 0);
    assert(s.subrange(0, s.len() as int) =~= s);
}

/// Relies on regex::Regex::new, which accepts the pattern, and on
/// regex::Regex::find_iter, which yields the successive non-overlapping
/// leftmost-first matches: for this pattern, those that `matches_from`
/// describes.
#[verifier::external_body]
pub(crate) fn find_all<'a>(pattern: &str, hay: &'a str) -> (r: Vec<&'a str>)
    requires
        pattern@ == VERSION_PATTERN@,
    ensures
        views(r@) == version_matches(hay@),
{
    regex::Regex::new(pattern).unwrap().find_iter(hay).map(|m| m.as_str()).collect()
}

/// Relies on regex::Regex::new, which accepts the pattern, and on
/// regex::Regex::split, which yields the text between the matches that
/// find_iter reports, the text after the last one included.
#[verifier::external_body]
pub(crate) fn split_all<'a>(pattern: &str, hay: &'a str) -> (r: Vec<&'a str>)
    requires
        pattern@ == VERSION_PATTERN@,
    ensures
        views(r@) == version_gaps(hay@),
{
    regex::Regex::new(pattern).unwrap().split(hay).collect()
}

/// Returns every recognized version in `hay`, in order of appearance.
pub fn list_versions<'a>(hay: &'a str) -> (r: Vec<&'a str>)
    ensures
        views(r@) == version_matches(hay@),
{
    find_all(VERSION_PATTERN, hay)
}

} // verus!
