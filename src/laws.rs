//! What holds of every text: the general properties of listing and
//! rewriting, stated over the models that `inc` and `list_versions` use.
use crate::numeral::{digit_run, is_digit, lemma_digit_run_bound};
use crate::pattern::{
    dotted_numeral, final_numeral, lemma_versions_reassemble, match_len, version_gaps,
    version_matches, weave,
};
use crate::rewrite::{
    bumped, components, fits, major_len, minor_len, minor_start, patch_len, patch_start, render,
    rewrite_fits, rewritten, rewritten_versions, selected, triple_fits, Position, Version,
};
use vstd::prelude::*;

verus! {

/// A numeral in canonical form: digits only, and no leading zero unless it
/// is `0` itself.
pub open spec fn canonical(d: Seq<char>) -> bool {
    &&& d.len() > 0
    &&& forall|i: int| 0 <= i < d.len() ==> is_digit(#[trigger] d[i])
    &&& d[0] == '0' ==> d.len() == 1
}

/// A text with no version in it comes back unchanged, whatever the position
/// and the component.
pub proof fn lemma_no_versions_unchanged(s: Seq<char>, p: Position, v: Version)
    requires
        version_matches(s).len() == 0,
    ensures
        rewrite_fits(s, p, v),
        rewritten(s, p, v) == s,
{
    lemma_versions_reassemble(s);
}

/// In a text with a single version, selecting occurrence 0 increments the
/// chosen component of that version, zeroes the ones below it, and keeps the
/// text around it; the rewrite succeeds exactly when the new value fits.
pub proof fn lemma_single_version(s: Seq<char>, v: Version)
    requires
        version_matches(s).len() == 1,
    ensures
        ({
            let m = version_matches(s)[0];
            let t = components(m);
            let g = version_gaps(s);
            &&& rewrite_fits(s, Position::Nth(0), v) <==> fits(m, true, v)
            &&& s == g[0] + m + g[1]
            &&& v == Version::Patch ==> rewritten(s, Position::Nth(0), v) == g[0] + render(
                (t.0, t.1, t.2 + 1),
            ) + g[1]
            &&& v == Version::Minor ==> rewritten(s, Position::Nth(0), v) == g[0] + render(
                (t.0, t.1 + 1, 0),
            ) + g[1]
            &&& v == Version::Major ==> rewritten(s, Position::Nth(0), v) == g[0] + render(
                (t.0 + 1, 0, 0),
            ) + g[1]
        }),
{
    lemma_versions_reassemble(s);
    let g = version_gaps(s);
    let ms = version_matches(s);
    let outs = rewritten_versions(s, Position::Nth(0), v);
    assert(g.drop_first().len() == 1);
    assert(g.drop_first()[0] == g[1]);
    assert(weave(g, ms) == g[0] + ms[0] + weave(g.drop_first(), ms.drop_first()));
    assert(weave(g, outs) == g[0] + outs[0] + weave(g.drop_first(), outs.drop_first()));
}

/// With every occurrence selected, each version is replaced by its
/// incremented form, and the text between versions is kept, in order.
pub proof fn lemma_all_rewrites_each(s: Seq<char>, v: Version)
    ensures
        s == weave(version_gaps(s), version_matches(s)),
        rewritten(s, Position::All, v) == weave(
            version_gaps(s),
            rewritten_versions(s, Position::All, v),
        ),
        rewritten_versions(s, Position::All, v).len() == version_matches(s).len(),
        forall|k: int|
            0 <= k < version_matches(s).len() ==> #[trigger] rewritten_versions(
                s,
                Position::All,
                v,
            )[k] == render(bumped(components(version_matches(s)[k]), v)),
        rewrite_fits(s, Position::All, v) <==> forall|k: int|
            0 <= k < version_matches(s).len() ==> fits(
                #[trigger] version_matches(s)[k],
                true,
                v,
            ),
{
    lemma_versions_reassemble(s);
}

/// With occurrence `n` selected, that version alone is replaced by its
/// incremented form; every other version and all text between them is kept.
pub proof fn lemma_nth_rewrites_one(s: Seq<char>, n: u32, v: Version)
    ensures
        s == weave(version_gaps(s), version_matches(s)),
        rewritten(s, Position::Nth(n), v) == weave(
            version_gaps(s),
            rewritten_versions(s, Position::Nth(n), v),
        ),
        rewritten_versions(s, Position::Nth(n), v).len() == version_matches(s).len(),
        forall|k: int|
            0 <= k < version_matches(s).len() && k != n ==> #[trigger] rewritten_versions(
                s,
                Position::Nth(n),
                v,
            )[k] == version_matches(s)[k],
        n < version_matches(s).len() ==> rewritten_versions(s, Position::Nth(n), v)[n as int]
            == render(bumped(components(version_matches(s)[n as int]), v)),
{
    lemma_versions_reassemble(s);
}

/// Selecting an occurrence past the last version changes nothing.
pub proof fn lemma_nth_past_end_unchanged(s: Seq<char>, n: u32, v: Version)
    requires
        n >= version_matches(s).len(),
    ensures
        rewritten(s, Position::Nth(n), v) == s,
        rewrite_fits(s, Position::Nth(n), v) <==> forall|k: int|
            0 <= k < version_matches(s).len() ==> triple_fits(
                components(#[trigger] version_matches(s)[k]),
            ),
{
    lemma_versions_reassemble(s);
    assert(rewritten_versions(s, Position::Nth(n), v) =~= version_matches(s));
}

/// Listing depends on the text alone: the same text lists the same versions
/// every time.
pub proof fn lemma_list_stable(a: Seq<char>, b: Seq<char>)
    requires
        a == b,
    ensures
        version_matches(a) == version_matches(b),
{
}

proof fn lemma_run_digits(s: Seq<char>, i: int)
    requires
        0 <= i,
    ensures
        forall|j: int| i <= j < i + digit_run(s, i) ==> is_digit(#[trigger] s[j]),
    decreases s.len() - i,
{
    if 0 <= i < s.len() && is_digit(s[i]) {
        lemma_run_digits(s, i + 1);
    }
}

proof fn lemma_canonical_run(m: Seq<char>, i: int, n: int)
    requires
        0 <= i,
        n > 0,
        i + n <= m.len(),
        n <= digit_run(m, i),
        m[i] == '0' ==> n == 1,
    ensures
        canonical(m.subrange(i, i + n)),
{
    lemma_run_digits(m, i);
    let d = m.subrange(i, i + n);
    assert forall|j: int| 0 <= j < d.len() implies is_digit(#[trigger] d[j]) by {
        assert(d[j] == m[i + j]);
    }
}

/// No numeral of a listed version has a leading zero: each version reads as
/// three canonical numerals joined by '.', so text such as `1.01.0` is never
/// taken as a version where it stands.
pub proof fn lemma_versions_canonical(s: Seq<char>)
    ensures
        forall|k: int|
            0 <= k < version_matches(s).len() ==> {
                let m = #[trigger] version_matches(s)[k];
                let major = m.subrange(0, major_len(m) as int);
                let minor = m.subrange(minor_start(m), minor_start(m) + minor_len(m));
                let patch = m.subrange(patch_start(m), patch_start(m) + patch_len(m));
                &&& canonical(major)
                &&& canonical(minor)
                &&& canonical(patch)
                &&& m == major + seq!['.'] + minor + seq!['.'] + patch
            },
{
    lemma_versions_reassemble(s);
    assert forall|k: int| 0 <= k < version_matches(s).len() implies {
        let m = #[trigger] version_matches(s)[k];
        let major = m.subrange(0, major_len(m) as int);
        let minor = m.subrange(minor_start(m), minor_start(m) + minor_len(m));
        let patch = m.subrange(patch_start(m), patch_start(m) + patch_len(m));
        &&& canonical(major)
        &&& canonical(minor)
        &&& canonical(patch)
        &&& m == major + seq!['.'] + minor + seq!['.'] + patch
    } by {
        let m = version_matches(s)[k];
        let a = major_len(m) as int;
        let j = minor_start(m);
        let b = minor_len(m) as int;
        let ps = patch_start(m);
        lemma_digit_run_bound(m, 0);
        lemma_digit_run_bound(m, j);
        lemma_digit_run_bound(m, ps);
        assert(dotted_numeral(m, 0) == a);
        assert(dotted_numeral(m, j) == b);
        let c = final_numeral(m, ps) as int;
        assert(ps + c == m.len());
        assert(patch_len(m) == c);
        lemma_canonical_run(m, 0, a);
        lemma_canonical_run(m, j, b);
        lemma_canonical_run(m, ps, c);
        let major = m.subrange(0, a);
        let minor = m.subrange(j, j + b);
        let patch = m.subrange(ps, ps + c);
        assert(m =~= major + seq!['.'] + minor + seq!['.'] + patch);
    }
}

} // verus!
