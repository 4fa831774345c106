//! The lines a modem prints, one at a time: what kind each one is, what it
//! says about signal, registration, operator and network, and which PDU a
//! hex line carries given the headers seen before it.
//!
//! Formats read here, after the tag of each line:
//! - `+CSQ: <rssi>,<ber>`: the first number after the tag;
//! - `+CREG: [<n>,]<stat>[,<lac>,<ci>...]` (and `+CGREG:`): comma-separated
//!   fields; the second field is the status when it is a number, else the
//!   first; the two fields after the status are the area and cell codes,
//!   with their quotes removed;
//! - `+COPS: <mode>,<format>,"<oper>"`: the first quoted text, or else a
//!   numeric third field;
//! - `^SYSINFOEX: ...,"<sysmode name>",...`: the first quoted text;
//! - `+CMTI: "<mem>",<index>` and `+CDSI:`: the first number after a comma.

use vstd::prelude::*;

use crate::contacts::{lemma_split_fields_nonempty_pub, split_chars, split_fields};
use crate::hex::is_hex_char;
use crate::scan::{
    decimal_value, find_tagged_number, first_tagged_number, is_digit, number_start,
    parse_usize_digits, tagged_digits, tagged_number, tagged_u32,
};
use crate::text::{
    chars_of, contains, contains_chars, decimal, matches_at, occurs_at, push_decimal,
    push_decimal_usize, push_str, starts_with, str_contains, str_eq, str_trim, string_from_chars,
    string_of, string_push, trim_spec,
};
use crate::ussd::{all_digits, is_ascii_digit, quote_from};

verus! {

// ---------------------------------------------------------------------------
// Operator names
// ---------------------------------------------------------------------------

/// The display name of an operator code; other codes stand for themselves.
pub open spec fn operator_name(raw: Seq<char>) -> Seq<char> {
    if raw == "51010"@ {
        "Telkomsel"@
    } else if raw == "51001"@ {
        "Indosat"@
    } else if raw == "51011"@ {
        "XL"@
    } else if raw == "51089"@ {
        "Tri"@
    } else if raw == "51009"@ {
        "Smartfren"@
    } else {
        raw
    }
}

/// Names the operator behind a numeric operator code.
pub fn map_operator(raw: &str) -> (r: String)
    ensures
        r@ == operator_name(raw@),
{
    if str_eq(raw, "51010") {
        string_of("Telkomsel")
    } else if str_eq(raw, "51001") {
        string_of("Indosat")
    } else if str_eq(raw, "51011") {
        string_of("XL")
    } else if str_eq(raw, "51089") {
        string_of("Tri")
    } else if str_eq(raw, "51009") {
        string_of("Smartfren")
    } else {
        string_of(raw)
    }
}

// ---------------------------------------------------------------------------
// Character helpers
// ---------------------------------------------------------------------------

/// A non-empty run of ASCII digits.
pub open spec fn is_number_text(t: Seq<char>) -> bool {
    t.len() > 0 && all_digits(t)
}

fn number_text(t: &[char]) -> (r: bool)
    ensures
        r == is_number_text(t@),
{
    if t.len() == 0 {
        return false;
    }
    let mut i: usize = 0;
    while i < t.len()
        invariant
            0 <= i <= t.len(),
            forall|j: int| 0 <= j < i ==> is_ascii_digit(#[trigger] t@[j]),
        decreases t.len() - i,
    {
        if !('0' <= t[i] && t[i] <= '9') {
            assert(!is_ascii_digit(t@[i as int]));
            return false;
        }
        i = i + 1;
    }
    true
}

/// The characters of `cs` without surrounding whitespace.
pub fn trim_chars(cs: &[char]) -> (r: Vec<char>)
    ensures
        r@ == trim_spec(cs@),
{
    let s = string_from_chars(cs);
    let t = str_trim(s.as_str());
    chars_of(t)
}

/// The characters of `cs` from `a` on.
fn tail_from(cs: &[char], a: usize) -> (r: Vec<char>)
    requires
        a <= cs.len(),
    ensures
        r@ == cs@.subrange(a as int, cs@.len() as int),
{
    let mut r: Vec<char> = Vec::new();
    let mut i: usize = a;
    while i < cs.len()
        invariant
            a <= i <= cs.len(),
            r@ == cs@.subrange(a as int, i as int),
        decreases cs.len() - i,
    {
        r.push(cs[i]);
        i = i + 1;
        assert(cs@.subrange(a as int, i as int) == cs@.subrange(a as int, i - 1).push(
            cs@[i - 1],
        ));
    }
    r
}

/// The characters of `cs` from `a` to `b`.
pub(crate) fn slice_chars(cs: &[char], a: usize, b: usize) -> (r: Vec<char>)
    requires
        a <= b <= cs.len(),
    ensures
        r@ == cs@.subrange(a as int, b as int),
{
    let mut r: Vec<char> = Vec::new();
    let mut i: usize = a;
    while i < b
        invariant
            a <= i <= b <= cs.len(),
            r@ == cs@.subrange(a as int, i as int),
        decreases b - i,
    {
        r.push(cs[i]);
        i = i + 1;
        assert(cs@.subrange(a as int, i as int) == cs@.subrange(a as int, i - 1).push(
            cs@[i - 1],
        ));
    }
    r
}

proof fn lemma_quote_from_bounds(s: Seq<char>, i: int)
    requires
        0 <= i,
    ensures
        match quote_from(s, i) {
            Some(k) => i <= k < s.len() && s[k] == '"',
            None => true,
        },
    decreases s.len() - i,
{
    if i < s.len() && s[i] != '"' {
        lemma_quote_from_bounds(s, i + 1);
    }
}

/// Position of the first '"' in `cs` from `i` on.
fn find_quote(cs: &[char], i: usize) -> (r: Option<usize>)
    requires
        i <= cs.len(),
    ensures
        match r {
            Some(k) => quote_from(cs@, i as int) == Some(k as int) && i <= k < cs.len(),
            None => quote_from(cs@, i as int) is None,
        },
{
    let mut k: usize = i;
    while k < cs.len() && cs[k] != '"'
        invariant
            i <= k <= cs.len(),
            quote_from(cs@, i as int) == quote_from(cs@, k as int),
        decreases cs.len() - k,
    {
        k = k + 1;
    }
    if k >= cs.len() {
        None
    } else {
        Some(k)
    }
}

/// The text between the first two double quotes, when there are two.
pub open spec fn first_quoted(s: Seq<char>) -> Option<Seq<char>> {
    match quote_from(s, 0) {
        Some(a) => match quote_from(s, a + 1) {
            Some(b) => Some(s.subrange(a + 1, b)),
            None => None,
        },
        None => None,
    }
}

fn first_quoted_of(cs: &[char]) -> (r: Option<Vec<char>>)
    ensures
        match first_quoted(cs@) {
            Some(q) => r is Some && r->0@ == q,
            None => r is None,
        },
{
    match find_quote(cs, 0) {
        None => None,
        Some(a) => match find_quote(cs, a + 1) {
            None => None,
            Some(b) => Some(slice_chars(cs, a + 1, b)),
        },
    }
}

/// A field trimmed, with one pair of surrounding double quotes removed.
pub open spec fn unquote(f: Seq<char>) -> Seq<char> {
    let t = trim_spec(f);
    if t.len() >= 2 && t[0] == '"' && t.last() == '"' {
        t.subrange(1, t.len() - 1)
    } else {
        t
    }
}

fn unquote_chars(f: &[char]) -> (r: String)
    ensures
        r@ == unquote(f@),
{
    let t = trim_chars(f);
    if t.len() >= 2 && t[0] == '"' && t[t.len() - 1] == '"' {
        string_from_chars(slice_chars(&t, 1, t.len() - 1).as_slice())
    } else {
        string_from_chars(t.as_slice())
    }
}

/// The view of an optional string.
pub open spec fn opt_view(o: Option<String>) -> Option<Seq<char>> {
    match o {
        Some(s) => Some(s@),
        None => None,
    }
}


// ---------------------------------------------------------------------------
// Signal quality
// ---------------------------------------------------------------------------

/// The signal read from a `+CSQ:` line, when its first number fits an `i32`.
pub open spec fn csq_value(line: Seq<char>) -> Option<u32> {
    match tagged_u32(line, "+CSQ:"@) {
        Some(v) => if v <= i32::MAX {
            Some(v)
        } else {
            None
        },
        None => None,
    }
}

/// How the signal is shown: "No signal" for 99, else bars out of five (one
/// bar per six steps, at most five) and the raw value.
pub open spec fn signal_text(csq: nat) -> Seq<char> {
    if csq == 99 {
        "No signal"@
    } else {
        let bars: nat = if csq / 6 < 5 {
            csq / 6
        } else {
            5
        };
        decimal(bars) + "/5 ("@ + decimal(csq) + ")"@
    }
}

/// Shows a signal value.
pub fn signal_text_of(csq: u32) -> (r: String)
    ensures
        r@ == signal_text(csq as nat),
{
    if csq == 99 {
        return string_of("No signal");
    }
    let bars: u32 = if csq / 6 < 5 {
        csq / 6
    } else {
        5
    };
    let mut r = String::new();
    push_decimal(&mut r, bars);
    push_str(&mut r, "/5 (");
    push_decimal(&mut r, csq);
    push_str(&mut r, ")");
    r
}

/// The signal text a `+CSQ:` line gives, if any.
pub open spec fn line_signal(line: Seq<char>) -> Option<Seq<char>> {
    match csq_value(line) {
        Some(v) => Some(signal_text(v as nat)),
        None => None,
    }
}

/// Reads the signal text of a `+CSQ:` line.
pub fn signal_of_line(line: &str) -> (r: Option<String>)
    ensures
        opt_view(r) == line_signal(line@),
{
    let cs = chars_of(line);
    let tag = chars_of("+CSQ:");
    match tagged_number(&cs, &tag) {
        Some(v) => if v <= 2147483647 {
            Some(signal_text_of(v))
        } else {
            None
        },
        None => None,
    }
}

// ---------------------------------------------------------------------------
// Registration
// ---------------------------------------------------------------------------

/// What a registration line says: the status text and, when given, the
/// area and cell codes.
#[derive(Debug, Clone)]
pub struct Registration {
    pub status: String,
    pub lac: Option<String>,
    pub cell_id: Option<String>,
}

/// How a registration status is shown.
pub open spec fn reg_status_text(stat: Seq<char>) -> Seq<char> {
    if stat == "0"@ {
        "Not reg"@
    } else if stat == "1"@ {
        "Registered (Home)"@
    } else if stat == "2"@ {
        "Searching..."@
    } else if stat == "3"@ {
        "Denied"@
    } else if stat == "5"@ {
        "Roaming"@
    } else {
        "Unknown ("@ + stat + ")"@
    }
}

/// Each registration status is shown differently, so the shown text tells
/// the status: no two codes share a text, only code 1 shows as registered
/// at home, and a code without a name of its own shows with that code.
pub proof fn lemma_reg_status_texts_distinct(a: Seq<char>, b: Seq<char>)
    ensures
        a != b ==> reg_status_text(a) != reg_status_text(b),
        reg_status_text(a) == "Registered (Home)"@ <==> a == "1"@,
        reg_status_text(a) == "Not reg"@ <==> a == "0"@,
        reg_status_text(a) == "Roaming"@ <==> a == "5"@,
{
    reveal_strlit("0");
    reveal_strlit("1");
    reveal_strlit("2");
    reveal_strlit("3");
    reveal_strlit("5");
    reveal_strlit("Not reg");
    reveal_strlit("Registered (Home)");
    reveal_strlit("Searching...");
    reveal_strlit("Denied");
    reveal_strlit("Roaming");
    reveal_strlit("Unknown (");
    reveal_strlit(")");
    lemma_unknown_text_shape(a);
    lemma_unknown_text_shape(b);
    assert("Not reg"@[0] == 'N' && "Not reg"@.len() == 7);
    assert("Registered (Home)"@[0] == 'R' && "Registered (Home)"@.len() == 17);
    assert("Searching..."@[0] == 'S' && "Searching..."@.len() == 12);
    assert("Denied"@[0] == 'D' && "Denied"@.len() == 6);
    assert("Roaming"@[0] == 'R' && "Roaming"@.len() == 7);
    assert("0"@ != "1"@ && "0"@ != "2"@ && "0"@ != "3"@ && "0"@ != "5"@ && "1"@ != "2"@ && "1"@
        != "3"@ && "1"@ != "5"@ && "2"@ != "3"@ && "2"@ != "5"@ && "3"@ != "5"@) by {
        assert("0"@[0] == '0' && "1"@[0] == '1' && "2"@[0] == '2' && "3"@[0] == '3' && "5"@[0]
            == '5');
    }
    if a != b && !is_named_reg(a) && !is_named_reg(b) {
        let ta = reg_status_text(a);
        let tb = reg_status_text(b);
        if ta == tb {
            assert(ta.subrange(9, ta.len() - 1) =~= a);
            assert(tb.subrange(9, tb.len() - 1) =~= b);
        }
    }
}

/// Codes that have a name of their own.
spec fn is_named_reg(s: Seq<char>) -> bool {
    s == "0"@ || s == "1"@ || s == "2"@ || s == "3"@ || s == "5"@
}

proof fn lemma_unknown_text_shape(s: Seq<char>)
    ensures
        !is_named_reg(s) ==> reg_status_text(s)[0] == 'U' && reg_status_text(s).len() == s.len()
            + 10,
{
    reveal_strlit("0");
    reveal_strlit("1");
    reveal_strlit("2");
    reveal_strlit("3");
    reveal_strlit("5");
    reveal_strlit("Unknown (");
    reveal_strlit(")");
}

fn reg_status_text_of(stat: &str) -> (r: String)
    ensures
        r@ == reg_status_text(stat@),
{
    if str_eq(stat, "0") {
        string_of("Not reg")
    } else if str_eq(stat, "1") {
        string_of("Registered (Home)")
    } else if str_eq(stat, "2") {
        string_of("Searching...")
    } else if str_eq(stat, "3") {
        string_of("Denied")
    } else if str_eq(stat, "5") {
        string_of("Roaming")
    } else {
        let mut r = string_of("Unknown (");
        push_str(&mut r, stat);
        push_str(&mut r, ")");
        r
    }
}

/// Length of the tag of a registration line (`+CREG:` or `+CGREG:`).
pub open spec fn reg_tag_len(line: Seq<char>) -> int {
    if starts_with(line, "+CREG:"@) {
        6
    } else {
        7
    }
}

/// Whether a line starts with a registration tag.
pub open spec fn is_reg_line(line: Seq<char>) -> bool {
    starts_with(line, "+CREG:"@) || starts_with(line, "+CGREG:"@)
}

/// The comma-separated fields after the tag.
pub open spec fn reg_fields(line: Seq<char>) -> Seq<Seq<char>> {
    split_fields(line.subrange(reg_tag_len(line), line.len() as int), ',')
}

/// Where the status stands: second when that field is a number, else first.
pub open spec fn stat_index(f: Seq<Seq<char>>) -> int {
    if f.len() >= 2 && is_number_text(trim_spec(f[1])) {
        1
    } else {
        0
    }
}

/// The field at `i`, unquoted, if there is one.
pub open spec fn field_at(f: Seq<Seq<char>>, i: int) -> Option<Seq<char>> {
    if 0 <= i < f.len() {
        Some(unquote(f[i]))
    } else {
        None
    }
}

/// Status code, area code and cell code of a registration line.
pub open spec fn reg_parts(line: Seq<char>) -> Option<
    (Seq<char>, Option<Seq<char>>, Option<Seq<char>>),
> {
    if !is_reg_line(line) {
        None
    } else {
        let f = reg_fields(line);
        let si = stat_index(f);
        let stat = trim_spec(f[si]);
        if !is_number_text(stat) {
            None
        } else {
            Some((stat, field_at(f, si + 1), field_at(f, si + 2)))
        }
    }
}

/// Status text, area code and cell code of a registration line.
pub open spec fn registration(line: Seq<char>) -> Option<
    (Seq<char>, Option<Seq<char>>, Option<Seq<char>>),
> {
    match reg_parts(line) {
        Some((stat, lac, cell)) => Some((reg_status_text(stat), lac, cell)),
        None => None,
    }
}

/// The registration's view, to compare with `registration`.
pub open spec fn reg_view(r: Option<Registration>) -> Option<
    (Seq<char>, Option<Seq<char>>, Option<Seq<char>>),
> {
    match r {
        Some(g) => Some((g.status@, opt_view(g.lac), opt_view(g.cell_id))),
        None => None,
    }
}

fn field_of(f: &Vec<Vec<char>>, i: usize) -> (r: Option<String>)
    ensures
        i < f@.len() ==> r is Some && r->0@ == unquote(f@[i as int]@),
        i >= f@.len() ==> r is None,
{
    if i < f.len() {
        Some(unquote_chars(f[i].as_slice()))
    } else {
        None
    }
}

/// Reads the status code, area code and cell code of a registration line.
fn reg_parts_of(line: &str) -> (r: Option<(String, Option<String>, Option<String>)>)
    ensures
        match r {
            Some((stat, lac, cell)) => reg_parts(line@) == Some(
                (stat@, opt_view(lac), opt_view(cell)),
            ),
            None => reg_parts(line@) is None,
        },
{
    let cs = chars_of(line);
    let t1 = chars_of("+CREG:");
    let t2 = chars_of("+CGREG:");
    let k: usize = if matches_at(&cs, &t1, 0) {
        6
    } else if matches_at(&cs, &t2, 0) {
        7
    } else {
        proof {
            assert(!occurs_at(cs@, t1@, 0));
            assert(!occurs_at(cs@, t2@, 0));
        }
        return None;
    };
    proof {
        reveal_strlit("+CREG:");
        reveal_strlit("+CGREG:");
        assert(k == reg_tag_len(line@));
    }
    let rest = tail_from(&cs, k);
    let fields = split_chars(&rest, ',');
    proof {
        lemma_split_fields_nonempty_pub(rest@, ',');
    }
    let ghost f = reg_fields(line@);
    assert(fields@.len() == f.len());
    let second_is_number = if fields.len() >= 2 {
        let t = trim_chars(fields[1].as_slice());
        number_text(t.as_slice())
    } else {
        false
    };
    let si: usize = if second_is_number {
        1
    } else {
        0
    };
    assert(si == stat_index(f));
    let stat = trim_chars(fields[si].as_slice());
    if !number_text(stat.as_slice()) {
        return None;
    }
    let stat_s = string_from_chars(stat.as_slice());
    let lac = field_of(&fields, si + 1);
    let cell_id = field_of(&fields, si + 2);
    Some((stat_s, lac, cell_id))
}

/// Reads a `+CREG:` or `+CGREG:` line.
pub fn registration_of_line(line: &str) -> (r: Option<Registration>)
    ensures
        reg_view(r) == registration(line@),
{
    match reg_parts_of(line) {
        Some((stat, lac, cell_id)) => {
            let status = reg_status_text_of(stat.as_str());
            Some(Registration { status, lac, cell_id })
        },
        None => None,
    }
}

/// How the log spells out a registration status.
pub open spec fn reg_status_words(stat: Seq<char>) -> Seq<char> {
    if stat == "0"@ {
        "Not registered"@
    } else if stat == "1"@ {
        "Registered (Home)"@
    } else if stat == "2"@ {
        "Searching"@
    } else if stat == "3"@ {
        "Denied"@
    } else if stat == "5"@ {
        "Roaming"@
    } else {
        stat
    }
}

pub open spec fn or_empty_text(o: Option<Seq<char>>) -> Seq<char> {
    match o {
        Some(t) => t,
        None => Seq::empty(),
    }
}

/// The log's summary of a registration line: status words, then the area
/// and cell codes when the area code is given.
pub open spec fn network_summary(line: Seq<char>) -> Option<Seq<char>> {
    match reg_parts(line) {
        Some((stat, lac, cell)) => Some(
            "Network: "@ + reg_status_words(stat) + match lac {
                Some(l) => "  TAC:"@ + l + "  CID:"@ + or_empty_text(cell),
                None => Seq::empty(),
            },
        ),
        None => None,
    }
}

/// The first line of `lines`, from `i` on, whose trimmed text is a
/// registration line, summarised.
pub open spec fn first_network_summary(lines: Seq<Seq<char>>, i: int) -> Option<Seq<char>>
    decreases lines.len() - i,
{
    if i < 0 || i >= lines.len() {
        None
    } else {
        match network_summary(trim_spec(lines[i])) {
            Some(t) => Some(t),
            None => first_network_summary(lines, i + 1),
        }
    }
}

/// A readable form of a piece of modem output for the log, where it has
/// one: the `^RSSI:` level out of 31, else the summary of its first
/// registration line, else a note that frequency information came.
pub open spec fn readable_status(raw: Seq<char>) -> Option<Seq<char>> {
    match tagged_digits(raw, "^RSSI:"@) {
        Some(d) => Some("RSSI level: "@ + d + "/31"@),
        None => match first_network_summary(split_fields(raw, '\n'), 0) {
            Some(t) => Some(t),
            None => if contains(raw, "^HFREQINFO:"@) {
                Some("Frequency info updated (see Network Info tab)"@)
            } else {
                None
            },
        },
    }
}

fn network_summary_of(line: &str) -> (r: Option<String>)
    ensures
        opt_view(r) == network_summary(line@),
{
    match reg_parts_of(line) {
        Some((stat, lac, cell)) => {
            let mut r = string_of("Network: ");
            if str_eq(stat.as_str(), "0") {
                push_str(&mut r, "Not registered");
            } else if str_eq(stat.as_str(), "1") {
                push_str(&mut r, "Registered (Home)");
            } else if str_eq(stat.as_str(), "2") {
                push_str(&mut r, "Searching");
            } else if str_eq(stat.as_str(), "3") {
                push_str(&mut r, "Denied");
            } else if str_eq(stat.as_str(), "5") {
                push_str(&mut r, "Roaming");
            } else {
                push_str(&mut r, stat.as_str());
            }
            match lac {
                Some(l) => {
                    push_str(&mut r, "  TAC:");
                    push_str(&mut r, l.as_str());
                    push_str(&mut r, "  CID:");
                    match cell {
                        Some(c) => push_str(&mut r, c.as_str()),
                        None => {},
                    }
                },
                None => {},
            }
            Some(r)
        },
        None => None,
    }
}

/// Gives a readable form of a piece of modem output for the log.
pub fn readable_status_of(raw: &str) -> (r: Option<String>)
    ensures
        opt_view(r) == readable_status(raw@),
{
    let cs = chars_of(raw);
    let tag = chars_of("^RSSI:");
    match find_tagged_number(&cs, &tag) {
        Some((a, b)) => {
            let mut r = string_of("RSSI level: ");
            let mut k: usize = a;
            while k < b
                invariant
                    a <= k <= b <= cs.len(),
                    r@ == "RSSI level: "@ + cs@.subrange(a as int, k as int),
                decreases b - k,
            {
                string_push(&mut r, cs[k]);
                k = k + 1;
                assert(cs@.subrange(a as int, k as int) == cs@.subrange(a as int, k - 1).push(
                    cs@[k - 1],
                ));
            }
            push_str(&mut r, "/31");
            return Some(r);
        },
        None => {},
    }
    let lines = split_chars(&cs, '\n');
    let ghost ls = split_fields(cs@, '\n');
    let mut i: usize = 0;
    while i < lines.len()
        invariant
            0 <= i <= lines@.len(),
            lines@.len() == ls.len(),
            forall|j: int| 0 <= j < lines@.len() ==> (#[trigger] lines@[j])@ == ls[j],
            first_network_summary(ls, 0) == first_network_summary(ls, i as int),
            ls == split_fields(raw@, '\n'),
            tagged_digits(raw@, "^RSSI:"@) is None,
        decreases lines.len() - i,
    {
        let t = trim_chars(lines[i].as_slice());
        let ts = string_from_chars(t.as_slice());
        match network_summary_of(ts.as_str()) {
            Some(n) => return Some(n),
            None => {},
        }
        i = i + 1;
    }
    if str_contains(raw, "^HFREQINFO:") {
        Some(string_of("Frequency info updated (see Network Info tab)"))
    } else {
        None
    }
}

// ---------------------------------------------------------------------------
// Operator and network
// ---------------------------------------------------------------------------

/// The operator a `+COPS:` line names: its first quoted text, else a
/// numeric third comma-separated field; mapped through `operator_name`.
pub open spec fn line_operator(line: Seq<char>) -> Option<Seq<char>> {
    match first_quoted(line) {
        Some(q) => Some(operator_name(q)),
        None => {
            let f = split_fields(line, ',');
            if f.len() >= 3 && is_number_text(trim_spec(f[2])) {
                Some(operator_name(trim_spec(f[2])))
            } else {
                None
            }
        },
    }
}

/// Reads the operator of a `+COPS:` line.
pub fn operator_of_line(line: &str) -> (r: Option<String>)
    ensures
        opt_view(r) == line_operator(line@),
{
    let cs = chars_of(line);
    match first_quoted_of(&cs) {
        Some(q) => {
            let qs = string_from_chars(q.as_slice());
            Some(map_operator(qs.as_str()))
        },
        None => {
            let fields = split_chars(&cs, ',');
            if fields.len() >= 3 {
                let t = trim_chars(fields[2].as_slice());
                if number_text(t.as_slice()) {
                    let ts = string_from_chars(t.as_slice());
                    Some(map_operator(ts.as_str()))
                } else {
                    None
                }
            } else {
                None
            }
        },
    }
}

/// Reads the network mode name of a `^SYSINFOEX:` line: its first quoted
/// text.
pub fn network_of_line(line: &str) -> (r: Option<String>)
    ensures
        opt_view(r) == first_quoted(line@),
{
    let cs = chars_of(line);
    match first_quoted_of(&cs) {
        Some(q) => Some(string_from_chars(q.as_slice())),
        None => None,
    }
}

// ---------------------------------------------------------------------------
// Storage index notices
// ---------------------------------------------------------------------------

/// The storage index of a `+CMTI:` or `+CDSI:` notice: the first number
/// after a comma, 0 when it does not fit a `usize`.
pub open spec fn stored_index(line: Seq<char>) -> Option<usize> {
    match tagged_digits(line, ","@) {
        Some(d) => Some(
            if decimal_value(d) <= usize::MAX {
                decimal_value(d) as usize
            } else {
                0usize
            },
        ),
        None => None,
    }
}

pub(crate) proof fn lemma_digit_run_all(s: Seq<char>, i: int)
    requires
        0 <= i <= s.len(),
    ensures
        i + crate::scan::digit_run(s, i) <= s.len(),
        forall|k: int| i <= k < i + crate::scan::digit_run(s, i) ==> is_digit(#[trigger] s[k]),
    decreases s.len() - i,
{
    if i < s.len() && is_digit(s[i]) {
        lemma_digit_run_all(s, i + 1);
    }
}

/// Reads the storage index of a notice line.
pub fn stored_index_of(line: &str) -> (r: Option<usize>)
    ensures
        r == stored_index(line@),
{
    let cs = chars_of(line);
    let comma = chars_of(",");
    match find_tagged_number(&cs, &comma) {
        None => None,
        Some((a, b)) => {
            proof {
                lemma_digit_run_all(cs@, a as int);
            }
            match parse_usize_digits(&cs, a, b) {
                Some(v) => Some(v),
                None => Some(0),
            }
        },
    }
}

/// The command that reads the message stored at `index`.
pub open spec fn read_command(index: usize) -> Seq<char> {
    "AT+CMGR="@ + decimal(index as nat) + "\r\n"@
}

/// Builds the command that reads the message stored at `index`.
pub fn read_command_for(index: usize) -> (r: String)
    ensures
        r@ == read_command(index),
{
    let mut r = string_of("AT+CMGR=");
    push_decimal_usize(&mut r, index);
    push_str(&mut r, "\r\n");
    r
}


/// The command that selects, for reading, writing and receiving, the
/// message storage that a `+CMTI:` or `+CDSI:` notice names (its first
/// quoted text); none when the notice names no storage.
pub open spec fn storage_command(line: Seq<char>) -> Option<Seq<char>> {
    match first_quoted(line) {
        Some(m) => Some(
            "AT+CPMS=\""@ + m + "\",\""@ + m + "\",\""@ + m + "\"\r\n"@,
        ),
        None => None,
    }
}

/// Builds the command that selects the storage a notice names.
pub fn storage_command_of(line: &str) -> (r: Option<String>)
    ensures
        opt_view(r) == storage_command(line@),
{
    let cs = chars_of(line);
    match first_quoted_of(&cs) {
        Some(q) => {
            let m = string_from_chars(q.as_slice());
            let mut r = string_of("AT+CPMS=\"");
            push_str(&mut r, m.as_str());
            push_str(&mut r, "\",\"");
            push_str(&mut r, m.as_str());
            push_str(&mut r, "\",\"");
            push_str(&mut r, m.as_str());
            push_str(&mut r, "\"\r\n");
            Some(r)
        },
        None => None,
    }
}

// ---------------------------------------------------------------------------
// Line kinds and the PDU that follows a header
// ---------------------------------------------------------------------------

/// A line of only hex digits, longer than ten characters.
pub open spec fn is_hex_line(l: Seq<char>) -> bool {
    l.len() > 10 && forall|i: int| 0 <= i < l.len() ==> is_hex_char(#[trigger] l[i])
}

fn hex_line(cs: &[char]) -> (r: bool)
    ensures
        r == is_hex_line(cs@),
{
    if cs.len() <= 10 {
        return false;
    }
    let mut i: usize = 0;
    while i < cs.len()
        invariant
            0 <= i <= cs.len(),
            forall|j: int| 0 <= j < i ==> is_hex_char(#[trigger] cs@[j]),
        decreases cs.len() - i,
    {
        if !crate::hex::is_hex_digit(cs[i]) {
            return false;
        }
        i = i + 1;
    }
    true
}

/// What a line is, tested in this order.
#[derive(Debug, Clone, Copy, PartialEq, Eq, Structural)]
pub enum LineKind {
    Empty,
    ReportHeader,
    StoredReport,
    NewMessage,
    IncomingHeader,
    ReadHeader,
    FrequencyInfo,
    SignalDetail,
    Registration,
    SignalQuality,
    Ussd,
    Operator,
    Network,
    Hex,
    Other,
}

/// The kind of a (trimmed) line.
pub open spec fn line_kind(l: Seq<char>) -> LineKind {
    if l.len() == 0 {
        LineKind::Empty
    } else if contains(l, "+CDS:"@) {
        LineKind::ReportHeader
    } else if contains(l, "+CDSI:"@) {
        LineKind::StoredReport
    } else if contains(l, "+CMTI:"@) {
        LineKind::NewMessage
    } else if contains(l, "+CMT:"@) {
        LineKind::IncomingHeader
    } else if contains(l, "+CMGR:"@) {
        LineKind::ReadHeader
    } else if starts_with(l, "^HFREQINFO:"@) {
        LineKind::FrequencyInfo
    } else if starts_with(l, "^HCSQ:"@) {
        LineKind::SignalDetail
    } else if is_reg_line(l) {
        LineKind::Registration
    } else if contains(l, "+CSQ:"@) {
        LineKind::SignalQuality
    } else if contains(l, "+CUSD:"@) {
        LineKind::Ussd
    } else if contains(l, "+COPS:"@) {
        LineKind::Operator
    } else if contains(l, "^SYSINFOEX:"@) {
        LineKind::Network
    } else if is_hex_line(l) {
        LineKind::Hex
    } else {
        LineKind::Other
    }
}

fn has(cs: &[char], tag: &str) -> (r: bool)
    ensures
        r == contains(cs@, tag@),
{
    let t = chars_of(tag);
    contains_chars(cs, &t)
}

fn begins(cs: &[char], tag: &str) -> (r: bool)
    ensures
        r == starts_with(cs@, tag@),
{
    let t = chars_of(tag);
    let r = matches_at(cs, &t, 0);
    proof {
        if starts_with(cs@, tag@) {
            assert(occurs_at(cs@, t@, 0));
        }
    }
    r
}

/// Tells the kind of a line.
pub fn line_kind_of(line: &str) -> (k: LineKind)
    ensures
        k == line_kind(line@),
{
    let cs = chars_of(line);
    if cs.len() == 0 {
        LineKind::Empty
    } else if has(&cs, "+CDS:") {
        LineKind::ReportHeader
    } else if has(&cs, "+CDSI:") {
        LineKind::StoredReport
    } else if has(&cs, "+CMTI:") {
        LineKind::NewMessage
    } else if has(&cs, "+CMT:") {
        LineKind::IncomingHeader
    } else if has(&cs, "+CMGR:") {
        LineKind::ReadHeader
    } else if begins(&cs, "^HFREQINFO:") {
        LineKind::FrequencyInfo
    } else if begins(&cs, "^HCSQ:") {
        LineKind::SignalDetail
    } else if begins(&cs, "+CREG:") || begins(&cs, "+CGREG:") {
        LineKind::Registration
    } else if has(&cs, "+CSQ:") {
        LineKind::SignalQuality
    } else if has(&cs, "+CUSD:") {
        LineKind::Ussd
    } else if has(&cs, "+COPS:") {
        LineKind::Operator
    } else if has(&cs, "^SYSINFOEX:") {
        LineKind::Network
    } else if hex_line(&cs) {
        LineKind::Hex
    } else {
        LineKind::Other
    }
}

/// Which PDUs the next hex line may carry: a delivery report after
/// `+CDS:`, an incoming message after `+CMT:`, a stored message after
/// `+CMGR:`.
#[derive(Debug, Clone, Copy, PartialEq, Eq, Structural)]
pub struct LineRouter {
    pub expecting_cds_pdu: bool,
    pub expecting_cmt_pdu: bool,
    pub expecting_cmgr_pdu: bool,
}

/// What the application is to do with a line.
#[derive(Debug, Clone)]
pub enum LineEvent {
    /// An empty line, or one that needs nothing.
    Ignored,
    /// A `+CDS:` header: the report PDU follows.
    ReportHeader,
    /// A report stored at an index, to be read.
    StoredReport(Option<usize>),
    /// A message stored at an index, to be read.
    NewMessage(Option<usize>),
    /// A `+CMT:` header: the message PDU follows.
    IncomingHeader,
    /// A `+CMGR:` header: the stored PDU follows.
    ReadHeader,
    /// A `^HFREQINFO:` line, for the frequency fields.
    FrequencyInfo,
    /// A `^HCSQ:` line, for the signal detail fields.
    SignalDetail,
    /// A registration line.
    Registration(Option<Registration>),
    /// A signal quality line and the signal text it gives.
    Signal(Option<String>),
    /// A USSD answer.
    Ussd,
    /// An operator line and the operator it names.
    Operator(Option<String>),
    /// A system information line and the network it names.
    Network(Option<String>),
    /// The PDU of a delivery report.
    ReportPdu(String),
    /// The PDU of an incoming message.
    IncomingPdu(String),
    /// The PDU of a message read from storage.
    ReadPdu(String),
    /// A hex line that no header announced.
    UnsolicitedHex,
}

/// The router after a line.
pub open spec fn router_after(r: LineRouter, l: Seq<char>) -> LineRouter {
    match line_kind(l) {
        LineKind::ReportHeader => LineRouter { expecting_cds_pdu: true, ..r },
        LineKind::IncomingHeader => LineRouter { expecting_cmt_pdu: true, ..r },
        LineKind::ReadHeader => LineRouter { expecting_cmgr_pdu: true, ..r },
        LineKind::Hex => if r.expecting_cds_pdu {
            LineRouter { expecting_cds_pdu: false, ..r }
        } else if r.expecting_cmt_pdu {
            LineRouter { expecting_cmt_pdu: false, ..r }
        } else if r.expecting_cmgr_pdu {
            LineRouter { expecting_cmgr_pdu: false, ..r }
        } else {
            r
        },
        _ => r,
    }
}

/// The event for a line, given the router before it.
pub open spec fn event_for(e: LineEvent, r: LineRouter, l: Seq<char>) -> bool {
    match line_kind(l) {
        LineKind::Empty => e is Ignored,
        LineKind::Other => e is Ignored,
        LineKind::ReportHeader => e is ReportHeader,
        LineKind::StoredReport => e == LineEvent::StoredReport(stored_index(l)),
        LineKind::NewMessage => e == LineEvent::NewMessage(stored_index(l)),
        LineKind::IncomingHeader => e is IncomingHeader,
        LineKind::ReadHeader => e is ReadHeader,
        LineKind::FrequencyInfo => e is FrequencyInfo,
        LineKind::SignalDetail => e is SignalDetail,
        LineKind::Registration => match e {
            LineEvent::Registration(g) => reg_view(g) == registration(l),
            _ => false,
        },
        LineKind::SignalQuality => match e {
            LineEvent::Signal(s) => opt_view(s) == line_signal(l),
            _ => false,
        },
        LineKind::Ussd => e is Ussd,
        LineKind::Operator => match e {
            LineEvent::Operator(s) => opt_view(s) == line_operator(l),
            _ => false,
        },
        LineKind::Network => match e {
            LineEvent::Network(s) => opt_view(s) == first_quoted(l),
            _ => false,
        },
        LineKind::Hex => if r.expecting_cds_pdu {
            match e {
                LineEvent::ReportPdu(p) => p@ == l,
                _ => false,
            }
        } else if r.expecting_cmt_pdu {
            match e {
                LineEvent::IncomingPdu(p) => p@ == l,
                _ => false,
            }
        } else if r.expecting_cmgr_pdu {
            match e {
                LineEvent::ReadPdu(p) => p@ == l,
                _ => false,
            }
        } else {
            e is UnsolicitedHex
        },
    }
}

impl LineRouter {
    /// Expects no PDU.
    pub fn new() -> (r: Self)
        ensures
            !r.expecting_cds_pdu && !r.expecting_cmt_pdu && !r.expecting_cmgr_pdu,
    {
        LineRouter { expecting_cds_pdu: false, expecting_cmt_pdu: false, expecting_cmgr_pdu: false }
    }

    /// Tells what a (trimmed) line means and notes which PDU may follow.
    pub fn process_serial_line(&mut self, line: &str) -> (e: LineEvent)
        ensures
            *final(self) == router_after(*old(self), line@),
            event_for(e, *old(self), line@),
    {
        let kind = line_kind_of(line);
        match kind {
            LineKind::Empty => LineEvent::Ignored,
            LineKind::Other => LineEvent::Ignored,
            LineKind::ReportHeader => {
                self.expecting_cds_pdu = true;
                LineEvent::ReportHeader
            },
            LineKind::StoredReport => LineEvent::StoredReport(stored_index_of(line)),
            LineKind::NewMessage => LineEvent::NewMessage(stored_index_of(line)),
            LineKind::IncomingHeader => {
                self.expecting_cmt_pdu = true;
                LineEvent::IncomingHeader
            },
            LineKind::ReadHeader => {
                self.expecting_cmgr_pdu = true;
                LineEvent::ReadHeader
            },
            LineKind::FrequencyInfo => LineEvent::FrequencyInfo,
            LineKind::SignalDetail => LineEvent::SignalDetail,
            LineKind::Registration => LineEvent::Registration(registration_of_line(line)),
            LineKind::SignalQuality => LineEvent::Signal(signal_of_line(line)),
            LineKind::Ussd => LineEvent::Ussd,
            LineKind::Operator => LineEvent::Operator(operator_of_line(line)),
            LineKind::Network => LineEvent::Network(network_of_line(line)),
            LineKind::Hex => {
                if self.expecting_cds_pdu {
                    self.expecting_cds_pdu = false;
                    LineEvent::ReportPdu(string_of(line))
                } else if self.expecting_cmt_pdu {
                    self.expecting_cmt_pdu = false;
                    LineEvent::IncomingPdu(string_of(line))
                } else if self.expecting_cmgr_pdu {
                    self.expecting_cmgr_pdu = false;
                    LineEvent::ReadPdu(string_of(line))
                } else {
                    LineEvent::UnsolicitedHex
                }
            },
        }
    }
}

// ---------------------------------------------------------------------------
// Cutting received text into lines
// ---------------------------------------------------------------------------

/// Position of the first `c` in `s` from `i` on.
pub open spec fn char_from(s: Seq<char>, c: char, i: int) -> Option<int>
    decreases s.len() - i,
{
    if i < 0 || i >= s.len() {
        None
    } else if s[i] == c {
        Some(i)
    } else {
        char_from(s, c, i + 1)
    }
}

proof fn lemma_char_from_bounds(s: Seq<char>, c: char, i: int)
    requires
        0 <= i,
    ensures
        match char_from(s, c, i) {
            Some(k) => i <= k < s.len() && s[k] == c,
            None => true,
        },
    decreases s.len() - i,
{
    if i < s.len() && s[i] != c {
        lemma_char_from_bounds(s, c, i + 1);
    }
}

/// The first complete line of a buffer, trimmed, and what is left after
/// its newline; `None` while no newline has arrived.
pub open spec fn first_line(buf: Seq<char>) -> Option<(Seq<char>, Seq<char>)> {
    match char_from(buf, '\n', 0) {
        Some(p) => Some((trim_spec(buf.subrange(0, p)), buf.subrange(p + 1, buf.len() as int))),
        None => None,
    }
}

/// Takes the first complete line out of the receive buffer.
pub fn take_line(buffer: &mut String) -> (r: Option<String>)
    ensures
        match first_line(old(buffer)@) {
            Some((l, rest)) => r is Some && r->0@ == l && final(buffer)@ == rest,
            None => r is None && final(buffer)@ == old(buffer)@,
        },
{
    let cs = chars_of(buffer.as_str());
    let mut p: usize = 0;
    while p < cs.len() && cs[p] != '\n'
        invariant
            0 <= p <= cs.len(),
            char_from(cs@, '\n', 0) == char_from(cs@, '\n', p as int),
        decreases cs.len() - p,
    {
        p = p + 1;
    }
    if p >= cs.len() {
        return None;
    }
    let head = slice_chars(&cs, 0, p);
    let line = trim_chars(head.as_slice());
    let rest = tail_from(&cs, p + 1);
    *buffer = string_from_chars(rest.as_slice());
    Some(string_from_chars(line.as_slice()))
}


/// After a `+CMT:` header the next hex line is handed over as an incoming
/// message, after a `+CMGR:` header as a stored one, and after a `+CDS:`
/// header as a delivery report, when no other PDU was awaited.
pub proof fn lemma_header_announces_pdu(r: LineRouter, header: Seq<char>, pdu: Seq<char>, e: LineEvent)
    requires
        !r.expecting_cds_pdu && !r.expecting_cmt_pdu && !r.expecting_cmgr_pdu,
        line_kind(pdu) == LineKind::Hex,
        event_for(e, router_after(r, header), pdu),
    ensures
        line_kind(header) == LineKind::IncomingHeader ==> (e matches LineEvent::IncomingPdu(p)
            && p@ == pdu),
        line_kind(header) == LineKind::ReadHeader ==> (e matches LineEvent::ReadPdu(p) && p@
            == pdu),
        line_kind(header) == LineKind::ReportHeader ==> (e matches LineEvent::ReportPdu(p) && p@
            == pdu),
        line_kind(header) == LineKind::Hex ==> e is UnsolicitedHex,
        router_after(router_after(r, header), pdu) == r,
{
}

} // verus!
