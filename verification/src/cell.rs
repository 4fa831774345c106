//! The serving cell's readings: the fields of `^HCSQ:` (signal detail) and
//! `^HFREQINFO:` (band and frequencies) reports.
//!
//! Formats read here, after the first occurrence of the tag and up to the
//! end of its line, as comma-separated fields with surrounding whitespace
//! removed:
//! - `^HCSQ: "<tech>",<rssi>,<rsrp>,<sinr>,<rsrq>`: five fields or more, the
//!   technology (its quotes removed) not empty;
//! - `^HFREQINFO: <n>,<sysmode>,<band>,<dl earfcn>,<dl freq>,<dl bw>,<ul
//!   earfcn>,<ul freq>,<ul bw>`: nine fields or more, the band not empty.

use vstd::prelude::*;

use crate::contacts::{lemma_split_fields_nonempty_pub, split_chars, split_fields};
use crate::lines::{slice_chars, trim_chars};
use crate::modem::{find_chars, find_from};
use crate::text::{chars_of, string_from_chars, trim_spec};
use crate::ussd::{parse_i32, parse_i32_chars};

verus! {

/// Where the line that runs through `j` ends: at the next '\n', or the end.
pub open spec fn line_end(s: Seq<char>, j: int) -> int
    decreases s.len() - j,
{
    if j < 0 || j >= s.len() {
        s.len() as int
    } else if s[j] == '\n' {
        j
    } else {
        line_end(s, j + 1)
    }
}

/// The rest of the line after the first occurrence of `tag`.
pub open spec fn line_after(text: Seq<char>, tag: Seq<char>) -> Option<Seq<char>> {
    match find_from(text, tag, 0) {
        Some(i) => Some(text.subrange(i + tag.len(), line_end(text, i + tag.len()))),
        None => None,
    }
}

/// The fields of a report: the rest of its line, cut at commas, each field
/// without surrounding whitespace.
pub open spec fn report_fields(text: Seq<char>, tag: Seq<char>) -> Option<Seq<Seq<char>>> {
    match line_after(text, tag) {
        Some(l) => Some(split_fields(l, ',').map_values(|f: Seq<char>| trim_spec(f))),
        None => None,
    }
}

/// Number of '"' at the start of `s`.
pub open spec fn lead_quotes(s: Seq<char>) -> nat
    decreases s.len(),
{
    if s.len() > 0 && s[0] == '"' {
        1 + lead_quotes(s.drop_first())
    } else {
        0
    }
}

/// Number of '"' at the end of `s`.
pub open spec fn trail_quotes(s: Seq<char>) -> nat
    decreases s.len(),
{
    if s.len() > 0 && s.last() == '"' {
        1 + trail_quotes(s.drop_last())
    } else {
        0
    }
}

/// `s` without the double quotes at either end (`str::trim_matches('"')`).
pub open spec fn strip_quotes(s: Seq<char>) -> Seq<char> {
    if lead_quotes(s) == s.len() {
        Seq::empty()
    } else {
        s.subrange(lead_quotes(s) as int, s.len() - trail_quotes(s))
    }
}

fn strip_quote_chars(s: &[char]) -> (r: Vec<char>)
    ensures
        r@ == strip_quotes(s@),
{
    assert(s@.subrange(0, s@.len() as int) == s@);
    let mut a: usize = 0;
    while a < s.len() && s[a] == '"'
        invariant
            0 <= a <= s.len(),
            a + lead_quotes(s@.subrange(a as int, s@.len() as int)) == lead_quotes(s@),
        decreases s.len() - a,
    {
        assert(s@.subrange(a + 1, s@.len() as int) == s@.subrange(a as int, s@.len() as int).drop_first());
        a = a + 1;
    }
    assert(a == lead_quotes(s@)) by {
        if a < s.len() {
            assert(s@.subrange(a as int, s@.len() as int)[0] == s@[a as int]);
        }
    }
    if a == s.len() {
        return Vec::new();
    }
    let mut b: usize = s.len();
    while b > a && s[b - 1] == '"'
        invariant
            a < b <= s.len(),
            s[a as int] != '"',
            (s.len() - b) + trail_quotes(s@.subrange(0, b as int)) == trail_quotes(s@),
        decreases b,
    {
        assert(s@.subrange(0, b - 1) == s@.subrange(0, b as int).drop_last());
        b = b - 1;
    }
    assert(s.len() - b == trail_quotes(s@)) by {
        assert(s@.subrange(0, b as int).last() == s@[b - 1]);
    }
    slice_chars(s, a, b)
}

/// The trimmed fields of the first report with `tag` in `cs`.
fn fields_of(cs: &[char], tag: &[char]) -> (r: Option<Vec<Vec<char>>>)
    ensures
        match report_fields(cs@, tag@) {
            Some(f) => r is Some && r->0@.len() == f.len() && forall|k: int|
                0 <= k < f.len() ==> (#[trigger] r->0@[k])@ == f[k],
            None => r is None,
        },
{
    let i = match find_chars(cs, tag, 0) {
        Some(i) => i,
        None => return None,
    };
    let n = cs.len();
    let m = tag.len();
    assert(i + m <= n);
    let j = i + m;
    let mut k: usize = j;
    while k < cs.len() && cs[k] != '\n'
        invariant
            j <= k <= cs.len(),
            line_end(cs@, j as int) == line_end(cs@, k as int),
        decreases cs.len() - k,
    {
        k = k + 1;
    }
    let line = slice_chars(cs, j, k);
    let parts = split_chars(&line, ',');
    let ghost f = split_fields(line@, ',');
    let mut out: Vec<Vec<char>> = Vec::new();
    let mut t: usize = 0;
    while t < parts.len()
        invariant
            0 <= t <= parts@.len(),
            parts@.len() == f.len(),
            forall|q: int| 0 <= q < parts@.len() ==> (#[trigger] parts@[q])@ == f[q],
            out@.len() == t,
            forall|q: int| 0 <= q < t ==> (#[trigger] out@[q])@ == trim_spec(f[q]),
        decreases parts.len() - t,
    {
        out.push(trim_chars(parts[t].as_slice()));
        t = t + 1;
    }
    Some(out)
}

/// What a `^HCSQ:` report says: the technology, RSSI and RSRP in dBm, and
/// the SINR and RSRQ fields as reported (steps of 0.2 and 0.5 dB).
#[derive(Debug, Clone)]
pub struct HcsqReading {
    pub tech: String,
    pub rssi_dbm: i64,
    pub rsrp_dbm: i64,
    pub sinr_field: String,
    pub rsrq_field: String,
}

/// A whole-number field as `str::parse::<i32>` reads it, 0 when it does
/// not parse.
pub open spec fn number_or_zero(f: Seq<char>) -> int {
    match parse_i32(f) {
        Some(v) => v as int,
        None => 0,
    }
}

/// Technology, RSSI in dBm (field minus 120), RSRP in dBm (field minus
/// 140), SINR field and RSRQ field of the first `^HCSQ:` report.
pub open spec fn hcsq_reading(text: Seq<char>) -> Option<
    (Seq<char>, int, int, Seq<char>, Seq<char>),
> {
    match report_fields(text, "^HCSQ:"@) {
        Some(f) => if f.len() >= 5 && strip_quotes(f[0]).len() > 0 {
            Some(
                (
                    strip_quotes(f[0]),
                    number_or_zero(f[1]) - 120,
                    number_or_zero(f[2]) - 140,
                    f[3],
                    f[4],
                ),
            )
        } else {
            None
        },
        None => None,
    }
}

fn number_or_zero_of(f: &[char]) -> (r: i64)
    ensures
        r == number_or_zero(f@),
{
    match parse_i32_chars(f) {
        Some(v) => v as i64,
        None => 0,
    }
}

/// Reads the first `^HCSQ:` report of a piece of modem output.
pub fn hcsq_reading_of(text: &str) -> (r: Option<HcsqReading>)
    ensures
        match hcsq_reading(text@) {
            Some((tech, rssi, rsrp, sinr, rsrq)) => r is Some && r->0.tech@ == tech
                && r->0.rssi_dbm == rssi && r->0.rsrp_dbm == rsrp && r->0.sinr_field@ == sinr
                && r->0.rsrq_field@ == rsrq,
            None => r is None,
        },
{
    let cs = chars_of(text);
    let tag = chars_of("^HCSQ:");
    let f = match fields_of(&cs, &tag) {
        Some(f) => f,
        None => return None,
    };
    if f.len() < 5 {
        return None;
    }
    let tech = strip_quote_chars(f[0].as_slice());
    if tech.len() == 0 {
        return None;
    }
    let rssi = number_or_zero_of(f[1].as_slice()) - 120;
    let rsrp = number_or_zero_of(f[2].as_slice()) - 140;
    Some(
        HcsqReading {
            tech: string_from_chars(tech.as_slice()),
            rssi_dbm: rssi,
            rsrp_dbm: rsrp,
            sinr_field: string_from_chars(f[3].as_slice()),
            rsrq_field: string_from_chars(f[4].as_slice()),
        },
    )
}

/// The fields of the first `^HFREQINFO:` report, when it has nine or more
/// and names a band (its third field).
pub open spec fn hfreqinfo_fields(text: Seq<char>) -> Option<Seq<Seq<char>>> {
    match report_fields(text, "^HFREQINFO:"@) {
        Some(f) => if f.len() >= 9 && f[2].len() > 0 {
            Some(f)
        } else {
            None
        },
        None => None,
    }
}

/// Reads the fields of the first `^HFREQINFO:` report.
pub fn hfreqinfo_fields_of(text: &str) -> (r: Option<Vec<String>>)
    ensures
        match hfreqinfo_fields(text@) {
            Some(f) => r is Some && r->0@.len() == f.len() && forall|k: int|
                0 <= k < f.len() ==> (#[trigger] r->0@[k])@ == f[k],
            None => r is None,
        },
{
    let cs = chars_of(text);
    let tag = chars_of("^HFREQINFO:");
    let f = match fields_of(&cs, &tag) {
        Some(f) => f,
        None => return None,
    };
    if f.len() < 9 || f[2].len() == 0 {
        return None;
    }
    let mut out: Vec<String> = Vec::new();
    let mut k: usize = 0;
    while k < f.len()
        invariant
            0 <= k <= f@.len(),
            out@.len() == k,
            forall|q: int| 0 <= q < k ==> (#[trigger] out@[q])@ == f@[q]@,
        decreases f.len() - k,
    {
        out.push(string_from_chars(f[k].as_slice()));
        k = k + 1;
    }
    Some(out)
}

} // verus!
