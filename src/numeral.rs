//! Decimal numerals: reading a run of digits into a `u32`, and writing a
//! `u32` back in canonical decimal form.
use vstd::prelude::*;
use vstd::string::StrSliceExecFns;
use vstd::string::StringExecFns;

verus! {

/// The largest value a version component may take.
pub const COMPONENT_MAX: u32 = 4294967295;

pub open spec fn is_digit(c: char) -> bool {
    '0' <= c && c <= '9'
}

pub open spec fn digit_value(c: char) -> nat {
    (c as int - '0' as int) as nat
}

pub open spec fn digit_char(d: nat) -> char {
    if d == 0 { '0' }
    else if d == 1 { '1' }
    else if d == 2 { '2' }
    else if d == 3 { '3' }
    else if d == 4 { '4' }
    else if d == 5 { '5' }
    else if d == 6 { '6' }
    else if d == 7 { '7' }
    else if d == 8 { '8' }
    else { '9' }
}

/// Length of the run of decimal digits of `s` that starts at `i`.
pub open spec fn digit_run(s: Seq<char>, i: int) -> nat
    decreases s.len() - i,
{
    if 0 <= i < s.len() && is_digit(s[i]) {
        1 + digit_run(s, i + 1)
    } else {
        0
    }
}

/// The number that a string of decimal digits denotes.
pub open spec fn value_of(d: Seq<char>) -> nat
    decreases d.len(),
{
    if d.len() == 0 {
        0
    } else {
        value_of(d.drop_last()) * 10 + digit_value(d.last())
    }
}

/// The canonical decimal form of `n`: no sign, no leading zeros.
pub open spec fn decimal(n: nat) -> Seq<char>
    decreases n,
{
    if n < 10 {
        seq![digit_char(n)]
    } else {
        decimal(n / 10).push(digit_char(n % 10))
    }
}

pub proof fn lemma_digit_run_bound(s: Seq<char>, i: int)
    requires
        0 <= i,
    ensures
        digit_run(s, i) > 0 ==> i + digit_run(s, i) <= s.len(),
    decreases s.len() - i,
{
    if 0 <= i < s.len() && is_digit(s[i]) {
        lemma_digit_run_bound(s, i + 1);
    }
}

proof fn lemma_value_grows(d: Seq<char>, c: char)
    requires
        is_digit(c),
    ensures
        value_of(d.push(c)) == value_of(d) * 10 + digit_value(c),
        value_of(d.push(c)) >= value_of(d),
{
    assert(d.push(c).drop_last() =~= d);
}

/// Reads the run of digits of `m` that starts at `start`: returns where the
/// run ends and, if its value fits in a `u32`, that value.
pub fn numeral_at(m: &str, start: usize) -> (r: (usize, Option<u32>))
    requires
        start <= m@.len(),
    ensures
        r.0 == start + digit_run(m@, start as int),
        value_of(m@.subrange(start as int, r.0 as int)) <= COMPONENT_MAX ==> r.1 == Some(
            value_of(m@.subrange(start as int, r.0 as int)) as u32,
        ),
        value_of(m@.subrange(start as int, r.0 as int)) > COMPONENT_MAX ==> r.1 is None,
{
    let len = m.unicode_len();
    let mut i: usize = start;
    let mut acc: u32 = 0;
    let mut over = false;
    while i < len && '0' <= m.get_char(i) && m.get_char(i) <= '9'
        invariant
            len == m@.len(),
            start <= i <= len,
            digit_run(m@, start as int) == (i - start) + digit_run(m@, i as int),
            !over ==> acc == value_of(m@.subrange(start as int, i as int)),
            over ==> value_of(m@.subrange(start as int, i as int)) > COMPONENT_MAX,
        decreases len - i,
    {
        let c = m.get_char(i);
        let d = (c as u32) - ('0' as u32);
        proof {
            lemma_value_grows(m@.subrange(start as int, i as int), c);
            assert(m@.subrange(start as int, i as int).push(c) =~= m@.subrange(
                start as int,
                i + 1,
            ));
        }
        if !over {
            if acc > (COMPONENT_MAX - d) / 10 {
                over = true;
                assert(value_of(m@.subrange(start as int, i + 1)) > COMPONENT_MAX) by (nonlinear_arith)
                    requires
                        value_of(m@.subrange(start as int, i + 1)) == acc * 10 + d,
                        acc > (COMPONENT_MAX - d) / 10,
                        d <= 9,
                ;
            } else {
                assert(acc * 10 + d <= COMPONENT_MAX) by (nonlinear_arith)
                    requires
                        acc <= (COMPONENT_MAX - d) / 10,
                        d <= 9,
                ;
                acc = acc * 10 + d;
            }
        }
        i = i + 1;
    }
    if over {
        (i, None)
    } else {
        (i, Some(acc))
    }
}

fn digit_str(d: u32) -> (r: &'static str)
    requires
        d < 10,
    ensures
        r@ == seq![digit_char(d as nat)],
{
    proof {
        reveal_strlit("0");
        reveal_strlit("1");
        reveal_strlit("2");
        reveal_strlit("3");
        reveal_strlit("4");
        reveal_strlit("5");
        reveal_strlit("6");
        reveal_strlit("7");
        reveal_strlit("8");
        reveal_strlit("9");
    }
    if d == 0 { "0" }
    else if d == 1 { "1" }
    else if d == 2 { "2" }
    else if d == 3 { "3" }
    else if d == 4 { "4" }
    else if d == 5 { "5" }
    else if d == 6 { "6" }
    else if d == 7 { "7" }
    else if d == 8 { "8" }
    else { "9" }
}

/// Appends the canonical decimal form of `n` to `out`.
pub fn push_decimal(out: &mut String, n: u32)
    ensures
        final(out)@ == old(out)@ + decimal(n as nat),
    decreases n,
{
    if n >= 10 {
        push_decimal(out, n / 10);
    }
    out.append(digit_str(n % 10));
    proof {
        if n >= 10 {
            assert(decimal(n as nat) == decimal((n / 10) as nat).push(digit_char((n % 10) as nat)));
        }
    }
    assert(out@ =~= old(out)@ + decimal(n as nat));
}

} // verus!
