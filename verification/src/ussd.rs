//! USSD sessions (`AT+CUSD`): encoding the request, decoding the network's
//! answer, reading its numbered menu, and the session state that `+CUSD`
//! reports drive.

use vstd::prelude::*;
use vstd::utf8::encode_utf8;

use crate::contacts::{split_chars, split_fields};
use crate::gsm::{gsm_char, gsm_code, gsm_decode, gsm_encode, in_gsm_alphabet};
use crate::hex::{all_even_hex, hex_digits_bytes, hex_digits_to_bytes, is_even_hex};
use crate::septets::{gsm_7bit_unpack, pack_7bit, pack_spec, unpack_spec};
use crate::text::{
    chars_of, hex_string, is_whitespace, is_ws, push_hex_bytes, push_str, push_string, str_eq,
    lead_ws, str_trim, string_from_chars, string_of, string_push, trail_ws, trim_spec,
};

verus! {

// ---------------------------------------------------------------------------
// Request encoding and answer decoding
// ---------------------------------------------------------------------------

/// The coding schemes that are sent as packed GSM 7-bit hex.
pub open spec fn is_packed_dcs(dcs: Seq<char>) -> bool {
    dcs == "15"@ || dcs == "72"@ || dcs == "0"@
}

/// The USSD string as sent: for coding schemes 15, 72 and 0 the GSM 03.38
/// codes, 7-bit packed, in upper-case hex; otherwise the code unchanged.
pub open spec fn ussd_payload(code: Seq<char>, dcs: Seq<char>) -> Seq<char> {
    if is_packed_dcs(dcs) {
        hex_string(pack_spec(code.map_values(|c: char| gsm_code(c))))
    } else {
        code
    }
}

/// Encodes a USSD code for `AT+CUSD`.
pub fn encode_ussd_code(code: &str, dcs: &str) -> (r: String)
    ensures
        r@ == ussd_payload(code@, dcs@),
{
    if str_eq(dcs, "15") || str_eq(dcs, "72") || str_eq(dcs, "0") {
        let gsm_bytes = gsm_encode(code);
        let packed = pack_7bit(&gsm_bytes);
        let mut r = String::new();
        push_hex_bytes(&mut r, &packed);
        r
    } else {
        string_of(code)
    }
}

/// The readable form of a USSD answer: an even run of hex digits is read as
/// packed GSM 7-bit text (every septet of it, so a zero septet from the
/// padding bits reads as '@'); anything else is already text.
pub open spec fn ussd_text(text: Seq<char>) -> Seq<char> {
    if is_even_hex(text) && text.len() > 0 {
        unpack_spec(hex_digits_bytes(text)).map_values(|b: u8| gsm_char(b))
    } else {
        text
    }
}

/// Decodes the text of a `+CUSD` answer.
pub fn decode_ussd_text(text: &str) -> (r: String)
    ensures
        r@ == ussd_text(text@),
{
    let cs = chars_of(text);
    if all_even_hex(&cs) {
        let bytes = hex_digits_to_bytes(&cs);
        if bytes.len() > 0 {
            assert(bytes.len() == cs.len() / 2);
            let unpacked = gsm_7bit_unpack(&bytes);
            return gsm_decode(&unpacked);
        }
    }
    string_of(text)
}

pub(crate) proof fn lemma_hex_string_digits(b: Seq<u8>)
    ensures
        hex_string(b).len() == 2 * b.len(),
        forall|i: int|
            0 <= i < b.len() ==> #[trigger] hex_string(b)[2 * i] == crate::text::hex_digit_upper(
                (b[i] / 16) as nat,
            ) && hex_string(b)[2 * i + 1] == crate::text::hex_digit_upper((b[i] % 16) as nat),
    decreases b.len(),
{
    if b.len() > 0 {
        lemma_hex_string_digits(b.drop_last());
        assert forall|i: int| 0 <= i < b.len() implies #[trigger] hex_string(b)[2 * i]
            == crate::text::hex_digit_upper((b[i] / 16) as nat) && hex_string(b)[2 * i + 1]
            == crate::text::hex_digit_upper((b[i] % 16) as nat) by {
            if i < b.len() - 1 {
                assert(b.drop_last()[i] == b[i]);
                assert(hex_string(b.drop_last())[2 * i] == hex_string(b)[2 * i]);
                assert(hex_string(b.drop_last())[2 * i + 1] == hex_string(b)[2 * i + 1]);
            }
        }
    }
}

pub(crate) proof fn lemma_hex_digit_upper(d: nat)
    requires
        d < 16,
    ensures
        crate::hex::is_hex_char(crate::text::hex_digit_upper(d)),
        crate::hex::hex_char_value(crate::text::hex_digit_upper(d)) == d,
{
    let c = crate::text::hex_digit_upper(d);
    if d < 10 {
        assert(c as u32 == 48 + d);
    } else {
        assert(c as u32 == 55 + d);
    }
}

/// Upper-case hex text reads back as the bytes it was written from.
pub proof fn lemma_hex_string_roundtrip(b: Seq<u8>)
    ensures
        is_even_hex(hex_string(b)),
        hex_digits_bytes(hex_string(b)) == b,
{
    lemma_hex_string_digits(b);
    let h = hex_string(b);
    assert forall|k: int| 0 <= k < h.len() implies crate::hex::is_hex_char(#[trigger] h[k]) by {
        let i = k / 2;
        lemma_hex_digit_upper((b[i] / 16) as nat);
        lemma_hex_digit_upper((b[i] % 16) as nat);
        if k % 2 == 0 {
            assert(h[2 * i] == h[k]);
        } else {
            assert(h[2 * i + 1] == h[k]);
        }
    }
    assert forall|i: int| 0 <= i < b.len() implies #[trigger] hex_digits_bytes(h)[i] == b[i] by {
        lemma_hex_digit_upper((b[i] / 16) as nat);
        lemma_hex_digit_upper((b[i] % 16) as nat);
    }
    assert(hex_digits_bytes(h) =~= b);
}

/// A USSD code in the GSM alphabet, sent packed and read back the way an
/// answer is read, is the code again, followed by '@' (the zero septet that
/// the padding bits read as) unless its length is a multiple of 8.
pub proof fn lemma_ussd_roundtrip(code: Seq<char>, dcs: Seq<char>)
    requires
        is_packed_dcs(dcs),
        forall|i: int| 0 <= i < code.len() ==> in_gsm_alphabet(#[trigger] code[i]),
    ensures
        ussd_text(ussd_payload(code, dcs)) == if code.len() % 8 == 0 {
            code
        } else {
            code.push('@')
        },
{
    let g = code.map_values(|c: char| gsm_code(c));
    let p = pack_spec(g);
    lemma_hex_string_roundtrip(p);
    crate::septets::lemma_pack_unpack_roundtrip(g);
    crate::text::lemma_hex_string_len(p);
    assert forall|i: int| 0 <= i < code.len() implies gsm_char(#[trigger] g[i] & 0x7F) == code[i] by {
        crate::gsm::lemma_gsm_char_roundtrip(code[i]);
        let b = g[i];
        assert(b < 128 ==> b & 0x7F == b) by (bit_vector);
    }
    if code.len() == 0 {
        assert(p.len() == 0);
        assert(ussd_payload(code, dcs) =~= Seq::<char>::empty());
    } else {
        assert(p.len() > 0);
        let u = unpack_spec(p);
        if code.len() % 8 == 0 {
            assert(u.map_values(|b: u8| gsm_char(b)) =~= code);
        } else {
            assert(gsm_char(0u8) == '@');
            assert(u.map_values(|b: u8| gsm_char(b)) =~= code.push('@'));
        }
    }
}

// ---------------------------------------------------------------------------
// Menu items of an answer
// ---------------------------------------------------------------------------

/// `\r\n` and lone `\r` turned into `\n`.
pub open spec fn normalize_newlines(s: Seq<char>) -> Seq<char>
    decreases s.len(),
{
    if s.len() == 0 {
        Seq::empty()
    } else if s.len() >= 2 && s[0] == '\r' && s[1] == '\n' {
        seq!['\n'] + normalize_newlines(s.subrange(2, s.len() as int))
    } else if s[0] == '\r' {
        seq!['\n'] + normalize_newlines(s.drop_first())
    } else {
        seq![s[0]] + normalize_newlines(s.drop_first())
    }
}

pub open spec fn is_ascii_digit(c: char) -> bool {
    '0' <= c <= '9'
}

pub open spec fn is_item_mark(c: char) -> bool {
    c == '.' || c == ')' || c == '-'
}

/// A menu number starts at `i`: at the start of the line or after
/// whitespace, a run of digits followed by '.', ')' or '-' and whitespace.
pub open spec fn numbered_at(cs: Seq<char>, i: int) -> bool {
    let d = crate::scan::digit_run(cs, i);
    0 <= i && (i == 0 || is_ws(cs[i - 1])) && d >= 1 && i + d + 1 < cs.len() && is_item_mark(
        cs[i + d],
    ) && is_ws(cs[i + d + 1])
}

/// A menu item starts at `i`: a menu number, or a run of digits at the
/// start of the line or after whitespace followed by a space.
pub open spec fn item_starts(cs: Seq<char>, i: int) -> bool {
    numbered_at(cs, i) || {
        let d = crate::scan::digit_run(cs, i);
        0 <= i && (i == 0 || is_ws(cs[i - 1])) && d >= 1 && i + d < cs.len() && cs[i + d] == ' '
    }
}

/// The next item begins at `i`: a menu number starts there.
pub open spec fn item_stops(cs: Seq<char>, i: int) -> bool {
    numbered_at(cs, i)
}

/// Where the item running from before `i` ends: at the next item or the end.
pub open spec fn item_end(cs: Seq<char>, i: int) -> int
    decreases cs.len() - i,
{
    if i < 0 || i >= cs.len() || item_stops(cs, i) {
        i
    } else {
        item_end(cs, i + 1)
    }
}

pub proof fn lemma_item_end(cs: Seq<char>, i: int)
    requires
        0 <= i,
    ensures
        i <= item_end(cs, i),
        i <= cs.len() ==> item_end(cs, i) <= cs.len(),
    decreases cs.len() - i,
{
    if i < cs.len() && !item_stops(cs, i) {
        lemma_item_end(cs, i + 1);
    }
}

/// The (start, end) character positions of the menu items of a line, from
/// position `i` on.
pub open spec fn item_spans(cs: Seq<char>, i: int) -> Seq<(int, int)>
    decreases cs.len() - i,
{
    if i < 0 || i >= cs.len() {
        Seq::empty()
    } else if item_starts(cs, i) {
        let e = item_end(cs, i + 1);
        proof {
            lemma_item_end(cs, i + 1);
        }
        seq![(i, e)] + item_spans(cs, e)
    } else {
        item_spans(cs, i + 1)
    }
}

/// The text of a span of character positions, trimmed.
pub open spec fn span_text(t: Seq<char>, span: (int, int)) -> Seq<char> {
    trim_spec(t.subrange(span.0, span.1))
}

/// The texts of the spans that are longer than one byte.
pub open spec fn span_texts(t: Seq<char>, spans: Seq<(int, int)>) -> Seq<Seq<char>>
    decreases spans.len(),
{
    if spans.len() == 0 {
        Seq::empty()
    } else {
        let rest = span_texts(t, spans.drop_last());
        let x = span_text(t, spans.last());
        if encode_utf8(x).len() > 1 {
            rest.push(x)
        } else {
            rest
        }
    }
}

/// The menu items of one line.
pub open spec fn line_items(line: Seq<char>) -> Seq<Seq<char>> {
    let t = trim_spec(line);
    span_texts(t, item_spans(t, 0))
}

/// The items of lines `0..n`.
pub open spec fn lines_items(lines: Seq<Seq<char>>) -> Seq<Seq<char>>
    decreases lines.len(),
{
    if lines.len() == 0 {
        Seq::empty()
    } else {
        lines_items(lines.drop_last()) + line_items(lines.last())
    }
}

/// The lines of an answer.
pub open spec fn answer_lines(decoded: Seq<char>) -> Seq<Seq<char>> {
    split_fields(normalize_newlines(decoded), '\n')
}

/// The menu items of a decoded answer, e.g. "1. 7GB 35rb", in order.
pub open spec fn ussd_items(decoded: Seq<char>) -> Seq<Seq<char>> {
    lines_items(answer_lines(decoded))
}

proof fn lemma_digit_run_of_prefix(t: Seq<char>, n: int, i: int)
    requires
        0 <= i <= n < t.len(),
        forall|k: int| 0 <= k < n ==> is_ascii_digit(#[trigger] t[k]),
        !is_ascii_digit(t[n]),
    ensures
        crate::scan::digit_run(t, i) == n - i,
    decreases n - i,
{
    if i < n {
        lemma_digit_run_of_prefix(t, n, i + 1);
    }
}

proof fn lemma_no_stop_inside_number(t: Seq<char>, n: int, i: int)
    requires
        1 <= i <= n + 2 <= t.len(),
        forall|k: int| 0 <= k <= n ==> !is_ws(#[trigger] t[k]),
    ensures
        item_end(t, i) == item_end(t, n + 2),
    decreases n + 2 - i,
{
    if i < n + 2 {
        assert(!is_ws(t[i - 1]));
        assert(!item_stops(t, i));
        lemma_no_stop_inside_number(t, n, i + 1);
    }
}

proof fn lemma_first_span_text(t: Seq<char>, spans: Seq<(int, int)>)
    requires
        spans.len() > 0,
        encode_utf8(span_text(t, spans[0])).len() > 1,
    ensures
        span_texts(t, spans).len() > 0,
        span_texts(t, spans)[0] == span_text(t, spans[0]),
    decreases spans.len(),
{
    let rest = span_texts(t, spans.drop_last());
    let x = span_text(t, spans.last());
    assert(span_texts(t, spans) == if encode_utf8(x).len() > 1 {
        rest.push(x)
    } else {
        rest
    });
    if spans.len() > 1 {
        lemma_first_span_text(t, spans.drop_last());
        assert(spans.drop_last()[0] == spans[0]);
        assert(rest.len() > 0);
        if encode_utf8(x).len() > 1 {
            assert(rest.push(x)[0] == rest[0]);
        }
    } else {
        assert(spans.drop_last().len() == 0);
        assert(rest.len() == 0);
        assert(spans.last() == spans[0]);
        assert(rest.push(x)[0] == x);
    }
}

/// A line that begins with a menu number (one or more digits), then '.',
/// ')' or '-', then whitespace, gives a menu item, its first, that begins
/// with that number and mark. So "1) Pulsa", "2. Paket" and "3- Info" are
/// all menu items.
pub proof fn lemma_numbered_line_is_item(
    line: Seq<char>,
    number: Seq<char>,
    mark: char,
    space: char,
    rest: Seq<char>,
)
    requires
        number.len() >= 1,
        forall|k: int| 0 <= k < number.len() ==> is_ascii_digit(#[trigger] number[k]),
        mark == '.' || mark == ')' || mark == '-',
        is_ws(space),
        trim_spec(line) == number + seq![mark, space] + rest,
    ensures
        line_items(line).len() > 0,
        line_items(line)[0].len() > number.len(),
        line_items(line)[0].subrange(0, number.len() + 1 as int) == number.push(mark),
{
    let t = trim_spec(line);
    let n = number.len() as int;
    assert(t[n] == mark && t[n + 1] == space);
    assert forall|k: int| 0 <= k < n implies is_ascii_digit(#[trigger] t[k]) by {
        assert(t[k] == number[k]);
    }
    assert forall|k: int| 0 <= k <= n implies !is_ws(#[trigger] t[k]) by {
        if k < n {
            assert(t[k] == number[k]);
            assert(is_ascii_digit(number[k]));
        }
    }
    lemma_digit_run_of_prefix(t, n, 0);
    assert(numbered_at(t, 0));
    assert(item_starts(t, 0));
    lemma_no_stop_inside_number(t, n, 1);
    lemma_item_end(t, n + 2);
    let e = item_end(t, 1);
    assert(n + 2 <= e <= t.len());
    let spans = item_spans(t, 0);
    assert(spans == seq![(0int, e)] + item_spans(t, e));
    assert(spans[0] == (0int, e));
    let x = t.subrange(0, e);
    assert(!is_ws(x[0]));
    assert(lead_ws(x) == 0);
    crate::text::lemma_trail_ws_bound(x);
    assert(!is_ws(x[n]));
    assert(x.len() - trail_ws(x) > n);
    let y = span_text(t, (0int, e));
    assert(y == x.subrange(0, x.len() - trail_ws(x)));
    assert(y.subrange(0, n + 1) =~= number.push(mark)) by {
        assert forall|k: int| 0 <= k < n + 1 implies #[trigger] y.subrange(0, n + 1)[k]
            == number.push(mark)[k] by {
            assert(y[k] == t[k]);
        }
    }
    crate::text::lemma_encode_utf8_len_ge(y);
    lemma_first_span_text(t, spans);
}

fn normalize_newline_chars(cs: &[char]) -> (r: Vec<char>)
    ensures
        r@ == normalize_newlines(cs@),
{
    let mut r: Vec<char> = Vec::new();
    let mut i: usize = 0;
    assert(cs@.subrange(0, cs@.len() as int) == cs@);
    while i < cs.len()
        invariant
            0 <= i <= cs.len(),
            normalize_newlines(cs@) == r@ + normalize_newlines(cs@.subrange(i as int, cs@.len() as int)),
        decreases cs.len() - i,
    {
        let ghost rest = cs@.subrange(i as int, cs@.len() as int);
        if cs[i] == '\r' && i + 1 < cs.len() && cs[i + 1] == '\n' {
            assert(rest.subrange(2, rest.len() as int) == cs@.subrange(i + 2, cs@.len() as int));
            r.push('\n');
            i = i + 2;
        } else if cs[i] == '\r' {
            assert(rest.drop_first() == cs@.subrange(i + 1, cs@.len() as int));
            r.push('\n');
            i = i + 1;
        } else {
            assert(rest.drop_first() == cs@.subrange(i + 1, cs@.len() as int));
            r.push(cs[i]);
            i = i + 1;
        }
    }
    assert(cs@.subrange(cs@.len() as int, cs@.len() as int) == Seq::<char>::empty());
    assert(r@ + Seq::<char>::empty() == r@);
    r
}

/// Whether a text is longer than one byte in UTF-8.
fn longer_than_one_byte(t: &[char]) -> (r: bool)
    ensures
        r == (encode_utf8(t@).len() > 1),
{
    if t.len() >= 2 {
        proof {
            let a = t@.take(2);
            crate::text::lemma_encode_utf8_concat(a, t@.subrange(2, t@.len() as int));
            assert(a + t@.subrange(2, t@.len() as int) == t@);
            crate::text::lemma_encode_utf8_push(seq![t@[0]], t@[1]);
            assert(seq![t@[0]].push(t@[1]) == a);
            crate::text::lemma_encode_utf8_push(Seq::<char>::empty(), t@[0]);
            assert(Seq::<char>::empty().push(t@[0]) == seq![t@[0]]);
            assert(encode_utf8(Seq::<char>::empty()) == Seq::<u8>::empty());
        }
        true
    } else if t.len() == 1 {
        proof {
            crate::text::lemma_encode_utf8_push(Seq::<char>::empty(), t@[0]);
            assert(Seq::<char>::empty().push(t@[0]) == t@);
            assert(encode_utf8(Seq::<char>::empty()) == Seq::<u8>::empty());
        }
        (t[0] as u32) >= 0x80
    } else {
        assert(t@ == Seq::<char>::empty());
        assert(encode_utf8(t@) == Seq::<u8>::empty());
        false
    }
}

proof fn lemma_span_texts_push(b: Seq<char>, spans: Seq<(int, int)>, sp: (int, int))
    ensures
        span_texts(b, spans.push(sp)) == if encode_utf8(span_text(b, sp)).len() > 1 {
            span_texts(b, spans).push(span_text(b, sp))
        } else {
            span_texts(b, spans)
        },
{
    assert(spans.push(sp).drop_last() == spans);
}

proof fn lemma_digit_run_facts(s: Seq<char>, i: int)
    requires
        0 <= i <= s.len(),
    ensures
        i + crate::scan::digit_run(s, i) <= s.len(),
    decreases s.len() - i,
{
    if i < s.len() && crate::scan::is_digit(s[i]) {
        lemma_digit_run_facts(s, i + 1);
    }
}

/// The end of the run of digits from `i`.
pub(crate) fn digits_end(tc: &[char], i: usize) -> (j: usize)
    requires
        i <= tc.len(),
    ensures
        j == i + crate::scan::digit_run(tc@, i as int),
        j <= tc.len(),
{
    let mut j: usize = i;
    while j < tc.len() && '0' <= tc[j] && tc[j] <= '9'
        invariant
            i <= j <= tc.len(),
            j + crate::scan::digit_run(tc@, j as int) == i + crate::scan::digit_run(tc@, i as int),
        decreases tc.len() - j,
    {
        j = j + 1;
    }
    j
}

fn numbered(tc: &[char], i: usize) -> (r: bool)
    requires
        i < tc.len(),
    ensures
        r == numbered_at(tc@, i as int),
{
    let lead = i == 0 || is_whitespace(tc[i - 1]);
    let j = digits_end(tc, i);
    lead && j > i && j < tc.len() && j + 1 < tc.len() && (tc[j] == '.' || tc[j] == ')' || tc[j] == '-')
        && is_whitespace(tc[j + 1])
}

fn starts_item(tc: &[char], i: usize) -> (r: bool)
    requires
        i < tc.len(),
    ensures
        r == item_starts(tc@, i as int),
{
    if numbered(tc, i) {
        return true;
    }
    let lead = i == 0 || is_whitespace(tc[i - 1]);
    let j = digits_end(tc, i);
    lead && j > i && j < tc.len() && tc[j] == ' '
}

fn stops_item(tc: &[char], i: usize) -> (r: bool)
    requires
        i < tc.len(),
    ensures
        r == item_stops(tc@, i as int),
{
    numbered(tc, i)
}

/// Appends the menu items of one line.
fn push_line_items(line: &[char], out: &mut Vec<String>)
    ensures
        final(out)@.len() == old(out)@.len() + line_items(line@).len(),
        final(out)@.take(old(out)@.len() as int) == old(out)@,
        forall|k: int|
            0 <= k < line_items(line@).len() ==> (#[trigger] final(out)@[old(out)@.len() + k])@
                == line_items(line@)[k],
{
    let ls = string_from_chars(line);
    let t = str_trim(ls.as_str());
    let tc = chars_of(t);
    let ghost b = t@;
    let ghost spans = item_spans(t@, 0);
    let ghost start_len = out@.len();
    let ghost done: Seq<(int, int)> = Seq::empty();
    let mut i: usize = 0;
    while i < tc.len()
        invariant
            tc@ == t@,
            b == t@,
            spans == item_spans(t@, 0),
            trim_spec(line@) == t@,
            0 <= i <= tc.len(),
            spans == done + item_spans(t@, i as int),
            out@.len() == start_len + span_texts(b, done).len(),
            out@.take(start_len as int) == old(out)@,
            start_len == old(out)@.len(),
            forall|k: int|
                0 <= k < span_texts(b, done).len() ==> (#[trigger] out@[start_len + k])@
                    == span_texts(b, done)[k],
        decreases tc.len() - i,
    {
        if starts_item(&tc, i) {
            assert(item_starts(t@, i as int));
            let start = i;
            i = i + 1;
            proof {
                lemma_item_end(t@, i as int);
            }
            while i < tc.len() && !stops_item(&tc, i)
                invariant
                    tc@ == t@,
                    start < i <= tc.len(),
                    item_end(t@, start + 1) == item_end(t@, i as int),
                decreases tc.len() - i,
            {
                i = i + 1;
            }
            assert(item_end(t@, i as int) == i);
            let ghost sp = (start as int, i as int);
            assert(item_spans(t@, start as int) == seq![sp] + item_spans(t@, i as int));
            assert(spans == done.push(sp) + item_spans(t@, i as int));
            let piece = crate::lines::slice_chars(&tc, start, i);
            let xc = crate::lines::trim_chars(piece.as_slice());
            proof {
                lemma_span_texts_push(b, done, sp);
            }
            if longer_than_one_byte(&xc) {
                out.push(string_from_chars(xc.as_slice()));
            }
            proof {
                done = done.push(sp);
            }
        } else {
            assert(!item_starts(t@, i as int));
            i = i + 1;
        }
    }
    assert(item_spans(t@, i as int) == Seq::<(int, int)>::empty());
    assert(done == spans);
}

/// The texts of the lines `0..n`: item lists joined.
proof fn lemma_lines_items_push(lines: Seq<Seq<char>>, l: Seq<char>)
    ensures
        lines_items(lines.push(l)) == lines_items(lines) + line_items(l),
{
    assert(lines.push(l).drop_last() == lines);
}

/// Reads the numbered menu items of a decoded USSD answer: on each line,
/// every item that starts with a number (at the line start or after
/// whitespace) followed by '.', ')' or '-' and whitespace, or by a space,
/// up to the next number followed by '.', ')' or '-' and whitespace,
/// trimmed, and longer than one byte.
pub fn extract_ussd_buttons(decoded: &str) -> (buttons: Vec<String>)
    ensures
        buttons@.len() == ussd_items(decoded@).len(),
        forall|k: int| 0 <= k < buttons@.len() ==> (#[trigger] buttons@[k])@ == ussd_items(decoded@)[k],
{
    let cs = chars_of(decoded);
    let norm = normalize_newline_chars(&cs);
    let lines = split_chars(&norm, '\n');
    let ghost ls = answer_lines(decoded@);
    let mut buttons: Vec<String> = Vec::new();
    let mut i: usize = 0;
    while i < lines.len()
        invariant
            0 <= i <= lines.len(),
            lines@.len() == ls.len(),
            ls == answer_lines(decoded@),
            forall|k: int| 0 <= k < lines@.len() ==> (#[trigger] lines@[k])@ == ls[k],
            buttons@.len() == lines_items(ls.take(i as int)).len(),
            forall|k: int|
                0 <= k < buttons@.len() ==> (#[trigger] buttons@[k])@ == lines_items(
                    ls.take(i as int),
                )[k],
        decreases lines.len() - i,
    {
        assert(ls.take(i + 1) == ls.take(i as int).push(ls[i as int]));
        proof {
            lemma_lines_items_push(ls.take(i as int), ls[i as int]);
        }
        let ghost before = buttons@;
        push_line_items(&lines[i], &mut buttons);
        assert forall|k: int| 0 <= k < buttons@.len() implies (#[trigger] buttons@[k])@
            == lines_items(ls.take(i + 1))[k] by {
            if k < before.len() {
                assert(buttons@[k] == buttons@.take(before.len() as int)[k]);
            } else {
                assert(buttons@[before.len() + (k - before.len())] == buttons@[k]);
            }
        }
        i = i + 1;
    }
    assert(ls.take(lines.len() as int) == ls);
    buttons
}

// ---------------------------------------------------------------------------
// Session state
// ---------------------------------------------------------------------------

/// The characters of each string.
pub open spec fn strings_view(v: Seq<String>) -> Seq<Seq<char>> {
    v.map_values(|s: String| s@)
}

/// Signed decimal text.
pub open spec fn signed_decimal(v: int) -> Seq<char> {
    if v < 0 {
        seq!['-'] + crate::text::decimal((-v) as nat)
    } else {
        crate::text::decimal(v as nat)
    }
}

/// What `str::parse::<i32>` gives: an optional sign and at least one digit,
/// within the range of `i32`.
pub open spec fn parse_i32(s: Seq<char>) -> Option<i32> {
    let neg = s.len() > 0 && s[0] == '-';
    let d = if s.len() > 0 && (s[0] == '+' || s[0] == '-') {
        s.drop_first()
    } else {
        s
    };
    if d.len() == 0 || !all_digits(d) {
        None
    } else {
        let v: int = if neg {
            -(crate::scan::decimal_value(d) as int)
        } else {
            crate::scan::decimal_value(d) as int
        };
        if i32::MIN <= v <= i32::MAX {
            Some(v as i32)
        } else {
            None
        }
    }
}

pub open spec fn all_digits(d: Seq<char>) -> bool {
    forall|i: int| 0 <= i < d.len() ==> is_ascii_digit(#[trigger] d[i])
}

/// The status of a `+CUSD:` line: its first comma-separated field, trimmed,
/// as a number; -1 when the line does not start with "+CUSD:" or the field
/// is not a number.
pub open spec fn cusd_status(line: Seq<char>) -> i32 {
    if crate::text::starts_with(line, "+CUSD:"@) {
        match parse_i32(trim_spec(split_fields(line.subrange(6, line.len() as int), ',')[0])) {
            Some(v) => v,
            None => -1i32,
        }
    } else {
        -1i32
    }
}

/// Position of the first '"' from `i` on.
pub open spec fn quote_from(s: Seq<char>, i: int) -> Option<int>
    decreases s.len() - i,
{
    if i < 0 || i >= s.len() {
        None
    } else if s[i] == '"' {
        Some(i)
    } else {
        quote_from(s, i + 1)
    }
}

/// The text between the first two double quotes of a line; empty without
/// two quotes.
pub open spec fn cusd_text(line: Seq<char>) -> Seq<char> {
    match quote_from(line, 0) {
        Some(a) => match quote_from(line, a + 1) {
            Some(b) => line.subrange(a + 1, b),
            None => Seq::empty(),
        },
        None => Seq::empty(),
    }
}

/// A history holds at most five codes, none twice.
pub open spec fn history_ok(h: Seq<String>) -> bool {
    h.len() <= 5 && forall|i: int, j: int| 0 <= i < j < h.len() ==> h[i]@ != h[j]@
}

/// The history after sending `code`: unchanged when the code is in it;
/// else the code is appended, the oldest code dropped first when five are
/// kept.
pub open spec fn history_after(h: Seq<String>, code: Seq<char>) -> Seq<Seq<char>> {
    let v = strings_view(h);
    if v.contains(code) {
        v
    } else if h.len() >= 5 {
        v.drop_first().push(code)
    } else {
        v.push(code)
    }
}

/// The USSD session as the USSD tab shows it.
pub struct UssdSession {
    /// Decoded answer (or a status message).
    pub response: String,
    /// Answer as received.
    pub raw_response: String,
    /// Menu items of the answer.
    pub buttons: Vec<String>,
    /// The network waits for a reply.
    pub active: bool,
    /// Transcript of commands and answers.
    pub console: String,
    /// The last codes sent (at most five, none twice).
    pub history: Vec<String>,
}

/// `AT+CUSD=1,"<payload>"` with `,<dcs>` unless the coding scheme is "none".
pub open spec fn cusd_command(payload: Seq<char>, dcs: Seq<char>) -> Seq<char> {
    if dcs == "none"@ {
        "AT+CUSD=1,\""@ + payload + "\"\r\n"@
    } else {
        "AT+CUSD=1,\""@ + payload + "\","@ + dcs + "\r\n"@
    }
}

/// The transcript line of a request.
pub open spec fn console_request(ts: Seq<char>, payload: Seq<char>, dcs: Seq<char>) -> Seq<char> {
    "["@ + ts + "] >>> AT+CUSD=1,\""@ + payload + "\","@ + dcs + "\n"@
}

fn contains_string(h: &Vec<String>, code: &str) -> (r: bool)
    ensures
        r == strings_view(h@).contains(code@),
{
    let mut i: usize = 0;
    while i < h.len()
        invariant
            0 <= i <= h.len(),
            forall|j: int| 0 <= j < i ==> h@[j]@ != code@,
        decreases h.len() - i,
    {
        if str_eq(h[i].as_str(), code) {
            assert(strings_view(h@)[i as int] == code@);
            return true;
        }
        i = i + 1;
    }
    assert forall|j: int| 0 <= j < strings_view(h@).len() implies strings_view(h@)[j] != code@ by {
        assert(strings_view(h@)[j] == h@[j]@);
    }
    false
}

/// Adds a code to the history of sent codes.
pub fn remember_ussd(history: &mut Vec<String>, code: &str)
    requires
        history_ok(old(history)@),
    ensures
        history_ok(final(history)@),
        strings_view(final(history)@) == history_after(old(history)@, code@),
        strings_view(final(history)@).contains(code@),
{
    let ghost h0 = history@;
    if contains_string(history, code) {
        return;
    }
    if history.len() >= 5 {
        history.remove(0);
    }
    history.push(string_of(code));
    let ghost v = strings_view(history@);
    assert(v =~= history_after(h0, code@));
    assert(v[v.len() - 1] == code@);
    assert forall|i: int, j: int| 0 <= i < j < history@.len() implies history@[i]@ != history@[j]@ by {
        if j == history@.len() - 1 {
            let k = if h0.len() >= 5 { i + 1 } else { i };
            assert(history@[i]@ == strings_view(h0)[k]);
        } else {
            if h0.len() >= 5 {
                assert(history@[i] == h0[i + 1] && history@[j] == h0[j + 1]);
            } else {
                assert(history@[i] == h0[i] && history@[j] == h0[j]);
            }
        }
    }
}

impl UssdSession {
    pub fn new() -> (r: Self)
        ensures
            r.response@.len() == 0 && r.raw_response@.len() == 0 && r.buttons@.len() == 0
                && !r.active && r.console@.len() == 0 && r.history@.len() == 0,
    {
        UssdSession {
            response: String::new(),
            raw_response: String::new(),
            buttons: Vec::new(),
            active: false,
            console: String::new(),
            history: Vec::new(),
        }
    }

    /// Starts a request: returns the `AT+CUSD` command and the payload it
    /// carries; the previous answer is cleared, the request is written to the
    /// transcript, and the code is remembered.
    pub fn send_ussd(&mut self, code: &str, dcs: &str, plain_text: bool, ts: &str) -> (r: (
        String,
        String,
    ))
        requires
            history_ok(old(self).history@),
        ensures
            ({
                let payload = if plain_text {
                    code@
                } else {
                    ussd_payload(code@, dcs@)
                };
                &&& r.1@ == payload
                &&& r.0@ == cusd_command(payload, dcs@)
                &&& final(self).response@.len() == 0
                &&& final(self).raw_response@.len() == 0
                &&& final(self).buttons@.len() == 0
                &&& !final(self).active
                &&& final(self).console@ == old(self).console@ + console_request(ts@, payload, dcs@)
                &&& history_ok(final(self).history@)
                &&& strings_view(final(self).history@) == history_after(old(self).history@, code@)
            }),
    {
        let encoded = if plain_text {
            string_of(code)
        } else {
            encode_ussd_code(code, dcs)
        };
        let mut cmd = string_of("AT+CUSD=1,\"");
        push_string(&mut cmd, &encoded);
        if str_eq(dcs, "none") {
            push_str(&mut cmd, "\"\r\n");
        } else {
            push_str(&mut cmd, "\",");
            push_str(&mut cmd, dcs);
            push_str(&mut cmd, "\r\n");
        }
        self.response = String::new();
        self.raw_response = String::new();
        self.buttons = Vec::new();
        self.active = false;
        push_str(&mut self.console, "[");
        push_str(&mut self.console, ts);
        push_str(&mut self.console, "] >>> AT+CUSD=1,\"");
        push_string(&mut self.console, &encoded);
        push_str(&mut self.console, "\",");
        push_str(&mut self.console, dcs);
        push_str(&mut self.console, "\n");
        remember_ussd(&mut self.history, code);
        (cmd, encoded)
    }

    /// Answers a menu: returns the `AT+CUSD` command for option `option`
    /// (always with the coding scheme); the shown answer is cleared and the
    /// request written to the transcript.
    pub fn reply_ussd(&mut self, option: usize, dcs: &str, plain_text: bool, ts: &str) -> (r: String)
        ensures
            ({
                let code = crate::text::decimal(option as nat);
                let payload = if plain_text {
                    code
                } else {
                    ussd_payload(code, dcs@)
                };
                &&& r@ == "AT+CUSD=1,\""@ + payload + "\","@ + dcs@ + "\r\n"@
                &&& final(self).response@.len() == 0
                &&& final(self).raw_response == old(self).raw_response
                &&& final(self).buttons == old(self).buttons
                &&& final(self).active == old(self).active
                &&& final(self).history == old(self).history
                &&& final(self).console@ == old(self).console@ + console_request(ts@, payload, dcs@)
            }),
    {
        let mut code = String::new();
        crate::text::push_decimal_usize(&mut code, option);
        let encoded = if plain_text {
            code.clone()
        } else {
            encode_ussd_code(code.as_str(), dcs)
        };
        let mut cmd = string_of("AT+CUSD=1,\"");
        push_string(&mut cmd, &encoded);
        push_str(&mut cmd, "\",");
        push_str(&mut cmd, dcs);
        push_str(&mut cmd, "\r\n");
        self.response = String::new();
        push_str(&mut self.console, "[");
        push_str(&mut self.console, ts);
        push_str(&mut self.console, "] >>> AT+CUSD=1,\"");
        push_string(&mut self.console, &encoded);
        push_str(&mut self.console, "\",");
        push_str(&mut self.console, dcs);
        push_str(&mut self.console, "\n");
        cmd
    }

    /// Ends the session: returns `AT+CUSD=2`; the answer, menu and activity
    /// are cleared and the cancel written to the transcript.
    pub fn cancel_ussd(&mut self, ts: &str) -> (r: String)
        ensures
            r@ == "AT+CUSD=2\r\n"@,
            final(self).response@.len() == 0,
            final(self).raw_response@.len() == 0,
            final(self).buttons@.len() == 0,
            !final(self).active,
            final(self).history == old(self).history,
            final(self).console@ == old(self).console@ + "["@ + ts@ + "] >>> AT+CUSD=2 (cancel)\n"@,
    {
        self.response = String::new();
        self.raw_response = String::new();
        self.buttons = Vec::new();
        self.active = false;
        push_str(&mut self.console, "[");
        push_str(&mut self.console, ts);
        push_str(&mut self.console, "] >>> AT+CUSD=2 (cancel)\n");
        string_of("AT+CUSD=2\r\n")
    }

    /// Takes in a `+CUSD` report: writes it to the transcript and, by its
    /// status, shows the answer (0: final, 1: the network waits for a reply,
    /// 2: the session ended) with its menu items, or a status message.
    pub fn handle_cusd_urc(&mut self, line: &str, ts: &str)
        ensures
            final(self).console@ == old(self).console@ + "["@ + ts@ + "] <<< "@ + line@ + "\n"@,
            final(self).history == old(self).history,
            ({
                let status = cusd_status(line@);
                let text = cusd_text(line@);
                let shown = ussd_text(text);
                if status == 0 {
                    &&& final(self).response@ == (if text.len() == 0 {
                        "USSD: No further action required"@
                    } else {
                        shown
                    })
                    &&& final(self).raw_response@ == text
                    &&& !final(self).active
                    &&& final(self).buttons@.len() == 0
                } else if status == 2 {
                    if text.len() > 0 {
                        &&& final(self).response@ == shown
                        &&& final(self).raw_response@ == text
                        &&& final(self).active
                        &&& strings_view(final(self).buttons@) == ussd_items(shown)
                    } else {
                        &&& final(self).response@
                            == "USSD: Session ended (no response from network)"@
                        &&& final(self).raw_response@.len() == 0
                        &&& !final(self).active
                        &&& final(self).buttons@.len() == 0
                    }
                } else if status == 1 {
                    &&& final(self).active
                    &&& if text.len() > 0 {
                        &&& final(self).response@ == shown
                        &&& final(self).raw_response@ == text
                        &&& strings_view(final(self).buttons@) == ussd_items(shown)
                    } else {
                        &&& final(self).response == old(self).response
                        &&& final(self).raw_response == old(self).raw_response
                        &&& final(self).buttons == old(self).buttons
                    }
                } else {
                    &&& final(self).response@ == "USSD: unknown status "@ + signed_decimal(
                        status as int,
                    )
                    &&& !final(self).active
                    &&& final(self).raw_response == old(self).raw_response
                    &&& final(self).buttons == old(self).buttons
                }
            }),
    {
        push_str(&mut self.console, "[");
        push_str(&mut self.console, ts);
        push_str(&mut self.console, "] <<< ");
        push_str(&mut self.console, line);
        push_str(&mut self.console, "\n");
        let status = cusd_status_of(line);
        let text = cusd_text_of(line);
        if status == 0 {
            self.response = if text.as_str().is_empty() {
                string_of("USSD: No further action required")
            } else {
                decode_ussd_text(text.as_str())
            };
            self.raw_response = text;
            self.active = false;
            self.buttons = Vec::new();
        } else if status == 2 {
            if !text.as_str().is_empty() {
                let shown = decode_ussd_text(text.as_str());
                let items = extract_ussd_buttons(shown.as_str());
                self.response = shown;
                self.raw_response = text;
                self.active = true;
                self.buttons = items;
                assert(strings_view(self.buttons@) =~= ussd_items(self.response@));
            } else {
                self.response = string_of("USSD: Session ended (no response from network)");
                self.raw_response = String::new();
                self.active = false;
                self.buttons = Vec::new();
            }
        } else if status == 1 {
            self.active = true;
            if !text.as_str().is_empty() {
                let shown = decode_ussd_text(text.as_str());
                let items = extract_ussd_buttons(shown.as_str());
                self.response = shown;
                self.raw_response = text;
                self.buttons = items;
                assert(strings_view(self.buttons@) =~= ussd_items(self.response@));
            }
        } else {
            let mut r = string_of("USSD: unknown status ");
            push_signed_decimal(&mut r, status);
            self.response = r;
            self.active = false;
        }
    }
}

fn push_signed_decimal(s: &mut String, v: i32)
    ensures
        final(s)@ == old(s)@ + signed_decimal(v as int),
{
    if v < 0 {
        string_push(s, '-');
        let m: u32 = if v == i32::MIN {
            2147483648u32
        } else {
            (-v) as u32
        };
        crate::text::push_decimal(s, m);
        assert(final(s)@ =~= old(s)@ + signed_decimal(v as int));
    } else {
        crate::text::push_decimal(s, v as u32);
    }
}

/// Reads the status of a `+CUSD:` line.
pub fn cusd_status_of(line: &str) -> (r: i32)
    ensures
        r == cusd_status(line@),
{
    let cs = chars_of(line);
    let tag = chars_of("+CUSD:");
    if !crate::text::matches_at(&cs, &tag, 0) {
        assert(!crate::text::starts_with(line@, "+CUSD:"@)) by {
            assert(!crate::text::occurs_at(cs@, tag@, 0));
        }
        return -1;
    }
    proof {
        reveal_strlit("+CUSD:");
    }
    let mut rest: Vec<char> = Vec::new();
    let mut i: usize = 6;
    while i < cs.len()
        invariant
            6 <= i <= cs.len(),
            6 <= cs.len(),
            rest@ == cs@.subrange(6, i as int),
        decreases cs.len() - i,
    {
        rest.push(cs[i]);
        i = i + 1;
        assert(cs@.subrange(6, i as int) == cs@.subrange(6, i - 1).push(cs@[i - 1]));
    }
    let fields = split_chars(&rest, ',');
    proof {
        crate::contacts::lemma_split_fields_nonempty_pub(rest@, ',');
    }
    let first = string_from_chars(&fields[0]);
    let t = str_trim(first.as_str());
    let tc = chars_of(t);
    match parse_i32_chars(&tc) {
        Some(v) => v,
        None => -1,
    }
}

pub(crate) fn parse_i32_chars(s: &[char]) -> (r: Option<i32>)
    ensures
        r == parse_i32(s@),
{
    let neg = s.len() > 0 && s[0] == '-';
    let start: usize = if s.len() > 0 && (s[0] == '+' || s[0] == '-') {
        1
    } else {
        0
    };
    let ghost d = if s@.len() > 0 && (s@[0] == '+' || s@[0] == '-') {
        s@.drop_first()
    } else {
        s@
    };
    assert(d == s@.subrange(start as int, s@.len() as int));
    if start >= s.len() {
        assert(d.len() == 0);
        return None;
    }
    let mut i: usize = start;
    while i < s.len()
        invariant
            start <= i <= s.len(),
            d == s@.subrange(start as int, s@.len() as int),
            d == (if s@.len() > 0 && (s@[0] == '+' || s@[0] == '-') {
                s@.drop_first()
            } else {
                s@
            }),
            forall|j: int| start <= j < i ==> is_ascii_digit(#[trigger] s@[j]),
        decreases s.len() - i,
    {
        if !('0' <= s[i] && s[i] <= '9') {
            assert(!is_ascii_digit(d[i - start]));
            assert(!all_digits(d));
            return None;
        }
        i = i + 1;
    }
    assert(all_digits(d)) by {
        assert forall|j: int| 0 <= j < d.len() implies is_ascii_digit(#[trigger] d[j]) by {
            assert(d[j] == s@[start + j]);
        }
    }
    assert forall|j: int| start <= j < s.len() implies crate::scan::is_digit(#[trigger] s@[j]) by {
        assert(is_ascii_digit(s@[j]));
    }
    match crate::scan::parse_u32_digits(s, start, s.len()) {
        None => {
            assert(crate::scan::decimal_value(d) > u32::MAX);
            None
        },
        Some(u) => {
            if neg {
                if u > 2147483648 {
                    None
                } else if u == 2147483648 {
                    Some(i32::MIN)
                } else {
                    Some(-(u as i32))
                }
            } else {
                if u > 2147483647 {
                    None
                } else {
                    Some(u as i32)
                }
            }
        },
    }
}

/// Reads the quoted text of a `+CUSD:` line.
pub fn cusd_text_of(line: &str) -> (r: String)
    ensures
        r@ == cusd_text(line@),
{
    let cs = chars_of(line);
    let mut a: usize = 0;
    while a < cs.len() && cs[a] != '"'
        invariant
            0 <= a <= cs.len(),
            cs@ == line@,
            quote_from(cs@, 0) == quote_from(cs@, a as int),
        decreases cs.len() - a,
    {
        a = a + 1;
    }
    if a >= cs.len() {
        return String::new();
    }
    let mut b: usize = a + 1;
    while b < cs.len() && cs[b] != '"'
        invariant
            a < b <= cs.len(),
            cs@ == line@,
            quote_from(cs@, a + 1) == quote_from(cs@, b as int),
        decreases cs.len() - b,
    {
        b = b + 1;
    }
    if b >= cs.len() {
        return String::new();
    }
    let mut r = String::new();
    let mut k: usize = a + 1;
    while k < b
        invariant
            a + 1 <= k <= b < cs.len(),
            r@ == cs@.subrange(a + 1, k as int),
        decreases b - k,
    {
        string_push(&mut r, cs[k]);
        k = k + 1;
        assert(cs@.subrange(a + 1, k as int) == cs@.subrange(a + 1, k - 1).push(cs@[k - 1]));
    }
    r
}

/// The menu number a reply label starts with (after any blanks), when it
/// has one that fits a `usize`.
pub open spec fn label_option(label: Seq<char>) -> Option<usize> {
    let t = trim_spec(label);
    let d = crate::scan::digit_run(t, 0);
    let v = crate::scan::decimal_value(t.subrange(0, d as int));
    if d == 0 || v > usize::MAX {
        None
    } else {
        Some(v as usize)
    }
}

/// The option a clicked reply label answers with: its own menu number.
pub fn reply_option_of(label: &str) -> (r: Option<usize>)
    ensures
        r == label_option(label@),
{
    let t = chars_of(str_trim(label));
    let d = digits_end(&t, 0);
    if d == 0 {
        return None;
    }
    proof {
        crate::lines::lemma_digit_run_all(t@, 0);
    }
    crate::scan::parse_usize_digits(&t, 0, d)
}

} // verus!
