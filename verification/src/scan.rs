//! Scanning modem responses for a tag followed by a decimal number, such as
//! `+CMS ERROR: 330` or `+CMGS: 12`.

use vstd::prelude::*;

use crate::text::{is_whitespace, is_ws, matches_at, occurs_at};

verus! {

pub open spec fn is_digit(c: char) -> bool {
    '0' <= c <= '9'
}

/// Length of the run of whitespace that starts at `i`.
pub open spec fn ws_run(s: Seq<char>, i: int) -> nat
    decreases s.len() - i,
{
    if 0 <= i < s.len() && is_ws(s[i]) {
        1 + ws_run(s, i + 1)
    } else {
        0
    }
}

/// Length of the run of ASCII digits that starts at `i`.
pub open spec fn digit_run(s: Seq<char>, i: int) -> nat
    decreases s.len() - i,
{
    if 0 <= i < s.len() && is_digit(s[i]) {
        1 + digit_run(s, i + 1)
    } else {
        0
    }
}

/// Where the number after the tag `p` found at `i` starts: past the tag and
/// any whitespace.
pub open spec fn number_start(s: Seq<char>, p: Seq<char>, i: int) -> int {
    i + p.len() + ws_run(s, i + p.len())
}

/// The tag `p` occurs at `i`, followed by optional whitespace and at least
/// one digit (the pattern `p\s*\d+`).
pub open spec fn tagged_number_at(s: Seq<char>, p: Seq<char>, i: int) -> bool {
    occurs_at(s, p, i) && digit_run(s, number_start(s, p, i)) > 0
}

/// The leftmost position from `i` on where the pattern matches.
pub open spec fn first_tagged_number(s: Seq<char>, p: Seq<char>, i: int) -> Option<int>
    decreases s.len() + 1 - i,
{
    if i < 0 || i > s.len() {
        None
    } else if tagged_number_at(s, p, i) {
        Some(i)
    } else {
        first_tagged_number(s, p, i + 1)
    }
}

/// Value of a run of decimal digits.
pub open spec fn decimal_value(d: Seq<char>) -> nat
    decreases d.len(),
{
    if d.len() == 0 {
        0
    } else {
        decimal_value(d.drop_last()) * 10 + ((d.last() as u32) - 48) as nat
    }
}

/// The digits of the leftmost `p\s*\d+` match.
pub open spec fn tagged_digits(s: Seq<char>, p: Seq<char>) -> Option<Seq<char>> {
    match first_tagged_number(s, p, 0) {
        Some(i) => {
            let j = number_start(s, p, i);
            Some(s.subrange(j, j + digit_run(s, j)))
        },
        None => None,
    }
}

/// The number of the leftmost `p\s*\d+` match, when it fits a `u32`
/// (`str::parse::<u32>` of the digits).
pub open spec fn tagged_u32(s: Seq<char>, p: Seq<char>) -> Option<u32> {
    match tagged_digits(s, p) {
        Some(d) => if decimal_value(d) <= u32::MAX {
            Some(decimal_value(d) as u32)
        } else {
            None
        },
        None => None,
    }
}

proof fn lemma_ws_run_bound(s: Seq<char>, i: int)
    requires
        0 <= i <= s.len(),
    ensures
        i + ws_run(s, i) <= s.len(),
    decreases s.len() - i,
{
    if i < s.len() && is_ws(s[i]) {
        lemma_ws_run_bound(s, i + 1);
    }
}

proof fn lemma_digit_run_bound(s: Seq<char>, i: int)
    requires
        0 <= i <= s.len(),
    ensures
        i + digit_run(s, i) <= s.len(),
    decreases s.len() - i,
{
    if i < s.len() && is_digit(s[i]) {
        lemma_digit_run_bound(s, i + 1);
    }
}

fn skip_ws(s: &[char], i: usize) -> (j: usize)
    requires
        i <= s.len(),
    ensures
        j == i + ws_run(s@, i as int),
        j <= s.len(),
    decreases s.len() - i,
{
    if i < s.len() && is_whitespace(s[i]) {
        skip_ws(s, i + 1)
    } else {
        i
    }
}

fn skip_digits(s: &[char], i: usize) -> (j: usize)
    requires
        i <= s.len(),
    ensures
        j == i + digit_run(s@, i as int),
        j <= s.len(),
    decreases s.len() - i,
{
    if i < s.len() && '0' <= s[i] && s[i] <= '9' {
        skip_digits(s, i + 1)
    } else {
        i
    }
}

proof fn lemma_decimal_value_grows(d: Seq<char>, k: int)
    requires
        0 <= k <= d.len(),
    ensures
        decimal_value(d.take(k)) <= decimal_value(d),
    decreases d.len() - k,
{
    if k < d.len() {
        lemma_decimal_value_grows(d, k + 1);
        assert(d.take(k + 1).drop_last() == d.take(k));
    } else {
        assert(d.take(k) == d);
    }
}

/// Parses a run of ASCII digits as a `u32`; `None` on overflow.
pub fn parse_u32_digits(s: &[char], a: usize, b: usize) -> (r: Option<u32>)
    requires
        a <= b <= s.len(),
        forall|i: int| a <= i < b ==> is_digit(#[trigger] s@[i]),
    ensures
        r == (if decimal_value(s@.subrange(a as int, b as int)) <= u32::MAX {
            Some(decimal_value(s@.subrange(a as int, b as int)) as u32)
        } else {
            None
        }),
{
    let ghost d = s@.subrange(a as int, b as int);
    let mut v: u32 = 0;
    let mut k: usize = a;
    while k < b
        invariant
            a <= k <= b <= s.len(),
            d == s@.subrange(a as int, b as int),
            forall|i: int| a <= i < b ==> is_digit(#[trigger] s@[i]),
            v == decimal_value(d.take(k - a)),
        decreases b - k,
    {
        assert(d.take(k + 1 - a).drop_last() == d.take(k - a));
        assert(d[k - a] == s@[k as int]);
        let dig: u32 = (s[k] as u32) - 48;
        if v > 429496729 || (v == 429496729 && dig > 5) {
            proof {
                lemma_decimal_value_grows(d, k + 1 - a);
            }
            return None;
        }
        v = v * 10 + dig;
        k = k + 1;
    }
    assert(d.take(b - a) == d);
    Some(v)
}

/// Finds the leftmost `p\s*\d+` match and returns where its digits start and
/// end.
pub fn find_tagged_number(s: &[char], p: &[char]) -> (r: Option<(usize, usize)>)
    ensures
        match r {
            Some((a, b)) => match first_tagged_number(s@, p@, 0) {
                Some(i) => a == number_start(s@, p@, i) && b == a + digit_run(s@, a as int) && b
                    <= s.len(),
                None => false,
            },
            None => first_tagged_number(s@, p@, 0) is None,
        },
{
    let mut i: usize = 0;
    while i <= s.len()
        invariant
            0 <= i <= s.len() + 1,
            first_tagged_number(s@, p@, 0) == first_tagged_number(s@, p@, i as int),
        decreases s.len() + 1 - i,
    {
        if matches_at(s, p, i) {
            let j = skip_ws(s, i + p.len());
            let k = skip_digits(s, j);
            if k > j {
                return Some((j, k));
            }
        }
        assert(!tagged_number_at(s@, p@, i as int));
        assert(first_tagged_number(s@, p@, i as int) == first_tagged_number(s@, p@, i + 1));
        if i == s.len() {
            assert(first_tagged_number(s@, p@, i + 1) is None);
            return None;
        }
        i = i + 1;
    }
    None
}

/// The number of the leftmost `p\s*\d+` match in `s`, when it fits a `u32`.
pub fn tagged_number(s: &[char], p: &[char]) -> (r: Option<u32>)
    ensures
        r == tagged_u32(s@, p@),
{
    match find_tagged_number(s, p) {
        None => None,
        Some((a, b)) => {
            proof {
                let i = first_tagged_number(s@, p@, 0)->0;
                lemma_digit_run_prop(s@, a as int);
            }
            parse_u32_digits(s, a, b)
        },
    }
}

proof fn lemma_digit_run_prop(s: Seq<char>, i: int)
    requires
        0 <= i <= s.len(),
    ensures
        forall|k: int| i <= k < i + digit_run(s, i) ==> is_digit(#[trigger] s[k]),
    decreases s.len() - i,
{
    if i < s.len() && is_digit(s[i]) {
        lemma_digit_run_prop(s, i + 1);
    }
}


/// Parses a run of ASCII digits as a `usize`; `None` on overflow.
pub fn parse_usize_digits(s: &[char], a: usize, b: usize) -> (r: Option<usize>)
    requires
        a <= b <= s.len(),
        forall|i: int| a <= i < b ==> is_digit(#[trigger] s@[i]),
    ensures
        r == (if decimal_value(s@.subrange(a as int, b as int)) <= usize::MAX {
            Some(decimal_value(s@.subrange(a as int, b as int)) as usize)
        } else {
            None
        }),
{
    let ghost d = s@.subrange(a as int, b as int);
    let mut v: usize = 0;
    let mut k: usize = a;
    while k < b
        invariant
            a <= k <= b <= s.len(),
            d == s@.subrange(a as int, b as int),
            forall|i: int| a <= i < b ==> is_digit(#[trigger] s@[i]),
            v == decimal_value(d.take(k - a)),
        decreases b - k,
    {
        assert(d.take(k + 1 - a).drop_last() == d.take(k - a));
        assert(d[k - a] == s@[k as int]);
        let dig: usize = ((s[k] as u32) - 48) as usize;
        if v > (usize::MAX - dig) / 10 {
            proof {
                lemma_decimal_value_grows(d, k + 1 - a);
                assert(v * 10 + dig > usize::MAX) by (nonlinear_arith)
                    requires
                        v > (usize::MAX - dig) / 10,
                        dig <= 9,
                ;
            }
            return None;
        }
        proof {
            assert(v * 10 + dig <= usize::MAX) by (nonlinear_arith)
                requires
                    v <= (usize::MAX - dig) / 10,
                    dig <= 9,
            ;
        }
        v = v * 10 + dig;
        k = k + 1;
    }
    assert(d.take(b - a) == d);
    Some(v)
}

} // verus!
