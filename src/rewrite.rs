//! Incrementing one component of the selected versions of a text.
use crate::numeral::{decimal, digit_run, numeral_at, push_decimal, value_of, COMPONENT_MAX};
use crate::pattern::{
    find_all, lemma_versions_reassemble, match_len, split_all, version_gaps, version_matches,
    views, weave, VERSION_PATTERN,
};
use vstd::prelude::*;
use vstd::string::{StrSliceExecFns, StringExecFns};

verus! {

/// Which occurrences of a version to increment.
#[derive(Debug, Clone, Copy, PartialEq, Eq, Structural)]
pub enum Position {
    All,
    Nth(u32),
}

/// Which component of a version to increment.
#[derive(Debug, Clone, Copy, PartialEq, Eq, Structural)]
pub enum Version {
    Major,
    Minor,
    Patch,
}

/// Why a rewrite could not be done.
#[derive(Debug, Clone, Copy, PartialEq, Eq, Structural)]
pub enum IncError {
    /// A component of a version, or its increment, does not fit in a `u32`.
    Overflow,
}

pub open spec fn selected(p: Position, k: int) -> bool {
    match p {
        Position::All => true,
        Position::Nth(n) => n as int == k,
    }
}

/// The three numerals of a version text `m`, as (start, length) pairs.
pub open spec fn major_len(m: Seq<char>) -> nat {
    digit_run(m, 0)
}

pub open spec fn minor_start(m: Seq<char>) -> int {
    major_len(m) as int + 1
}

pub open spec fn minor_len(m: Seq<char>) -> nat {
    digit_run(m, minor_start(m))
}

pub open spec fn patch_start(m: Seq<char>) -> int {
    minor_start(m) + minor_len(m) + 1
}

pub open spec fn patch_len(m: Seq<char>) -> nat {
    digit_run(m, patch_start(m))
}

/// The (major, minor, patch) values that a version text denotes.
pub open spec fn components(m: Seq<char>) -> (nat, nat, nat) {
    (
        value_of(m.subrange(0, major_len(m) as int)),
        value_of(m.subrange(minor_start(m), minor_start(m) + minor_len(m))),
        value_of(m.subrange(patch_start(m), patch_start(m) + patch_len(m))),
    )
}

/// The triple after incrementing one component and zeroing those below it.
pub open spec fn bumped(t: (nat, nat, nat), v: Version) -> (nat, nat, nat) {
    match v {
        Version::Major => (t.0 + 1, 0, 0),
        Version::Minor => (t.0, t.1 + 1, 0),
        Version::Patch => (t.0, t.1, t.2 + 1),
    }
}

pub open spec fn triple_fits(t: (nat, nat, nat)) -> bool {
    t.0 <= COMPONENT_MAX && t.1 <= COMPONENT_MAX && t.2 <= COMPONENT_MAX
}

/// `major.minor.patch` in canonical decimal form.
pub open spec fn render(t: (nat, nat, nat)) -> Seq<char> {
    decimal(t.0) + seq!['.'] + decimal(t.1) + seq!['.'] + decimal(t.2)
}

/// Whether the version text `m` can be handled: its components fit, and so
/// does the incremented one if it is selected.
pub open spec fn fits(m: Seq<char>, sel: bool, v: Version) -> bool {
    triple_fits(components(m)) && (sel ==> triple_fits(bumped(components(m), v)))
}

/// What stands in place of the version text `m` in the output.
pub open spec fn replacement(m: Seq<char>, sel: bool, v: Version) -> Seq<char> {
    if sel {
        render(bumped(components(m), v))
    } else {
        m
    }
}

/// What stands in place of each version of `s` in the output, in order.
pub open spec fn rewritten_versions(s: Seq<char>, p: Position, v: Version) -> Seq<Seq<char>> {
    Seq::new(
        version_matches(s).len(),
        |k: int| replacement(version_matches(s)[k], selected(p, k), v),
    )
}

/// Whether every version of `s` can be handled.
pub open spec fn rewrite_fits(s: Seq<char>, p: Position, v: Version) -> bool {
    forall|k: int|
        0 <= k < version_matches(s).len() ==> fits(
            #[trigger] version_matches(s)[k],
            selected(p, k),
            v,
        )
}

/// `s` with each version replaced by its replacement and all other text kept.
pub open spec fn rewritten(s: Seq<char>, p: Position, v: Version) -> Seq<char> {
    weave(version_gaps(s), rewritten_versions(s, p, v))
}

/// The (old, new) text of each version rewritten among the first `n`, in
/// order.
pub open spec fn notices_upto(s: Seq<char>, p: Position, v: Version, n: int) -> Seq<
    (Seq<char>, Seq<char>),
>
    decreases n,
{
    if n <= 0 {
        seq![]
    } else if selected(p, n - 1) {
        notices_upto(s, p, v, n - 1).push(
            (version_matches(s)[n - 1], rewritten_versions(s, p, v)[n - 1]),
        )
    } else {
        notices_upto(s, p, v, n - 1)
    }
}

/// The (old, new) text of each version that a rewrite changes, in order.
pub open spec fn notices(s: Seq<char>, p: Position, v: Version) -> Seq<(Seq<char>, Seq<char>)> {
    notices_upto(s, p, v, version_matches(s).len() as int)
}

pub open spec fn pair_views(ps: Seq<(String, String)>) -> Seq<(Seq<char>, Seq<char>)> {
    ps.map_values(|x: (String, String)| (x.0@, x.1@))
}

fn is_selected(p: &Position, k: usize) -> (r: bool)
    ensures
        r == selected(*p, k as int),
{
    match p {
        Position::All => true,
        Position::Nth(n) => *n as usize == k,
    }
}

/// Reads the three components of a version text.
fn parse_triple(m: &str) -> (r: Option<(u32, u32, u32)>)
    requires
        match_len(m@, 0) == m@.len(),
        m@.len() > 0,
    ensures
        r is Some <==> triple_fits(components(m@)),
        r matches Some(t) ==> (t.0 as nat, t.1 as nat, t.2 as nat) == components(m@),
{
    let len = m.unicode_len();
    let (e1, a) = numeral_at(m, 0);
    let (e2, b) = numeral_at(m, e1 + 1);
    let (e3, c) = numeral_at(m, e2 + 1);
    match (a, b, c) {
        (Some(a), Some(b), Some(c)) => Some((a, b, c)),
        _ => None,
    }
}

/// Increments one component of a triple, zeroing those below it.
fn bump(t: (u32, u32, u32), v: &Version) -> (r: Option<(u32, u32, u32)>)
    ensures
        r is Some <==> triple_fits(bumped((t.0 as nat, t.1 as nat, t.2 as nat), *v)),
        r matches Some(n) ==> (n.0 as nat, n.1 as nat, n.2 as nat) == bumped(
            (t.0 as nat, t.1 as nat, t.2 as nat),
            *v,
        ),
{
    match v {
        Version::Major => if t.0 < COMPONENT_MAX {
            Some((t.0 + 1, 0, 0))
        } else {
            None
        },
        Version::Minor => if t.1 < COMPONENT_MAX {
            Some((t.0, t.1 + 1, 0))
        } else {
            None
        },
        Version::Patch => if t.2 < COMPONENT_MAX {
            Some((t.0, t.1, t.2 + 1))
        } else {
            None
        },
    }
}

/// Appends `major.minor.patch` to `out`.
fn push_triple(out: &mut String, t: (u32, u32, u32))
    ensures
        final(out)@ == old(out)@ + render((t.0 as nat, t.1 as nat, t.2 as nat)),
{
    proof {
        reveal_strlit(".");
    }
    push_decimal(out, t.0);
    out.append(".");
    push_decimal(out, t.1);
    out.append(".");
    push_decimal(out, t.2);
    assert(out@ =~= old(out)@ + render((t.0 as nat, t.1 as nat, t.2 as nat)));
}

/// Does what `inc` does, and also returns, for each version it rewrote in
/// order, its old and its new text.
pub fn inc_with_notices(hay: &str, position: Position, version: Version) -> (r: Result<
    (String, Vec<(String, String)>),
    IncError,
>)
    ensures
        r is Ok <==> rewrite_fits(hay@, position, version),
        r matches Ok(o) ==> o.0@ == rewritten(hay@, position, version) && pair_views(o.1@)
            == notices(hay@, position, version),
{
    let gaps = split_all(VERSION_PATTERN, hay);
    let found = find_all(VERSION_PATTERN, hay);
    let ghost s = hay@;
    let ghost outs = rewritten_versions(s, position, version);
    proof {
        lemma_versions_reassemble(s);
        assert(views(gaps@).len() == gaps@.len());
        assert(views(found@).len() == found@.len());
    }
    let mut out = String::new();
    let mut notes: Vec<(String, String)> = Vec::new();
    let mut k: usize = 0;
    assert(version_gaps(s).skip(0) =~= version_gaps(s));
    assert(outs.skip(0) =~= outs);
    assert(out@ + weave(version_gaps(s), outs) =~= weave(version_gaps(s), outs));
    while k < found.len()
        invariant
            s == hay@,
            pair_views(notes@) == notices_upto(s, position, version, k as int),
            views(gaps@) == version_gaps(s),
            views(found@) == version_matches(s),
            gaps@.len() == found@.len() + 1,
            0 <= k <= found@.len(),
            outs == rewritten_versions(s, position, version),
            out@ + weave(version_gaps(s).skip(k as int), outs.skip(k as int)) == weave(
                version_gaps(s),
                outs,
            ),
            forall|j: int|
                0 <= j < k ==> fits(#[trigger] version_matches(s)[j], selected(position, j), version),
            forall|j: int|
                0 <= j < version_matches(s).len() ==> match_len(#[trigger] version_matches(s)[j], 0)
                    == version_matches(s)[j].len() && version_matches(s)[j].len() > 0,
        decreases found@.len() - k,
    {
        let m = found[k];
        let g = gaps[k];
        assert(m@ == version_matches(s)[k as int]);
        assert(g@ == version_gaps(s)[k as int]);
        let ghost before = out@;
        out.append(g);
        let sel = is_selected(&position, k);
        match parse_triple(m) {
            None => {
                assert(!fits(version_matches(s)[k as int], selected(position, k as int), version));
                assert(!rewrite_fits(s, position, version));
                return Err(IncError::Overflow);
            },
            Some(t) => {
                if sel {
                    match bump(t, &version) {
                        None => {
                            assert(!fits(
                                version_matches(s)[k as int],
                                selected(position, k as int),
                                version,
                            ));
                            assert(!rewrite_fits(s, position, version));
                            return Err(IncError::Overflow);
                        },
                        Some(n) => {
                            let mut new_text = String::new();
                            push_triple(&mut new_text, n);
                            out.append(new_text.as_str());
                            let ghost before_notes = notes@;
                            notes.push((String::from_str(m), new_text));
                            assert(pair_views(notes@) =~= pair_views(before_notes).push(
                                (m@, outs[k as int]),
                            ));
                        },
                    }
                } else {
                    out.append(m);
                }
            },
        }
        proof {
            let gs = version_gaps(s).skip(k as int);
            let os = outs.skip(k as int);
            assert(gs.drop_first() =~= version_gaps(s).skip(k + 1));
            assert(os.drop_first() =~= outs.skip(k + 1));
            assert(os[0] == outs[k as int]);
            assert(out@ == before + gs[0] + os[0]);
            assert(out@ + weave(version_gaps(s).skip(k + 1), outs.skip(k + 1)) =~= before + weave(
                gs,
                os,
            ));
        }
        k = k + 1;
    }
    let g = gaps[k];
    assert(g@ == version_gaps(s)[k as int]);
    proof {
        let gs = version_gaps(s).skip(k as int);
        let os = outs.skip(k as int);
        assert(os.len() == 0);
        assert(gs[0] == g@);
    }
    out.append(g);
    Ok((out, notes))
}

/// Finds the versions in `hay`, and increments the `version` component of
/// the one at `position` (or of all of them), zeroing the components below
/// it. All other text, and the versions not selected, are kept as they are.
/// Fails when a component of any version found, or an incremented one, does
/// not fit in a `u32`.
pub fn inc(hay: &str, position: Position, version: Version) -> (r: Result<String, IncError>)
    ensures
        r is Ok <==> rewrite_fits(hay@, position, version),
        r matches Ok(t) ==> t@ == rewritten(hay@, position, version),
{
    match inc_with_notices(hay, position, version) {
        Ok((text, _)) => Ok(text),
        Err(e) => Err(e),
    }
}

} // verus!
