//! Hexadecimal text to bytes, as the modem prints PDUs and USSD payloads.

use vstd::prelude::*;
use vstd::utf8::encode_utf8;

use crate::text::{chars_of, is_ws, lead_ws, str_trim, trail_ws, trim_spec};

verus! {

/// Value of an ASCII hexadecimal digit byte (either case).
pub open spec fn hex_value(b: u8) -> Option<u8> {
    if 48 <= b <= 57 {
        Some((b - 48) as u8)
    } else if 65 <= b <= 70 {
        Some((b - 55) as u8)
    } else if 97 <= b <= 102 {
        Some((b - 87) as u8)
    } else {
        None
    }
}

/// What `u8::from_str_radix(s, 16)` gives for a two-byte `s`: two hex
/// digits, or a '+' sign followed by one.
pub open spec fn radix16_pair(b0: u8, b1: u8) -> Option<u8> {
    if b0 == 43 {
        hex_value(b1)
    } else {
        match (hex_value(b0), hex_value(b1)) {
            (Some(h), Some(l)) => Some((h * 16 + l) as u8),
            _ => None,
        }
    }
}

/// The bytes of every two-byte window that parses, in order; windows that
/// do not parse are skipped.
pub open spec fn hex_pairs(b: Seq<u8>) -> Seq<u8>
    decreases b.len(),
{
    if b.len() < 2 {
        Seq::empty()
    } else {
        let rest = hex_pairs(b.subrange(2, b.len() as int));
        match radix16_pair(b[0], b[1]) {
            Some(v) => seq![v] + rest,
            None => rest,
        }
    }
}

/// The UTF-8 text that is cut into two-byte windows: the trimmed input,
/// with a '0' in front when its byte length is odd.
pub open spec fn hex_source(s: Seq<char>) -> Seq<u8> {
    let t = encode_utf8(trim_spec(s));
    if t.len() % 2 == 1 {
        seq![48u8] + t
    } else {
        t
    }
}

/// No two-byte window starts inside a multi-byte character (a window that
/// did would cut a character in two).
pub open spec fn hex_windows_whole(s: Seq<char>) -> bool {
    let b = hex_source(s);
    forall|i: int| 0 <= i < b.len() && i % 2 == 0 ==> !(0x80 <= #[trigger] b[i] < 0xC0)
}

/// The bytes that a hex text stands for.
pub open spec fn decode_hex_spec(s: Seq<char>) -> Seq<u8> {
    hex_pairs(hex_source(s))
}

pub fn hex_value_of(b: u8) -> (r: Option<u8>)
    ensures
        r == hex_value(b),
{
    if 48 <= b && b <= 57 {
        Some(b - 48)
    } else if 65 <= b && b <= 70 {
        Some(b - 55)
    } else if 97 <= b && b <= 102 {
        Some(b - 87)
    } else {
        None
    }
}

pub fn parse_pair(b0: u8, b1: u8) -> (r: Option<u8>)
    ensures
        r == radix16_pair(b0, b1),
{
    if b0 == 43 {
        hex_value_of(b1)
    } else {
        match (hex_value_of(b0), hex_value_of(b1)) {
            (Some(h), Some(l)) => Some(h * 16 + l),
            _ => None,
        }
    }
}

proof fn lemma_hex_pairs_step(b: Seq<u8>, i: int)
    requires
        0 <= i,
        i + 2 <= b.len(),
    ensures
        hex_pairs(b.subrange(i, b.len() as int)) == match radix16_pair(b[i], b[i + 1]) {
            Some(v) => seq![v] + hex_pairs(b.subrange(i + 2, b.len() as int)),
            None => hex_pairs(b.subrange(i + 2, b.len() as int)),
        },
{
    let t = b.subrange(i, b.len() as int);
    assert(t.subrange(2, t.len() as int) =~= b.subrange(i + 2, b.len() as int));
}

/// Decodes the windows of `b` from `start` on.
fn pairs_from(b: &[u8], start: usize) -> (r: Vec<u8>)
    requires
        start <= b.len(),
    ensures
        r@ == hex_pairs(b@.subrange(start as int, b@.len() as int)),
    decreases b.len() - start,
{
    if b.len() - start < 2 {
        let mut r: Vec<u8> = Vec::new();
        return r;
    }
    proof {
        lemma_hex_pairs_step(b@, start as int);
    }
    let rest = pairs_from(b, start + 2);
    match parse_pair(b[start], b[start + 1]) {
        Some(v) => {
            let mut r: Vec<u8> = Vec::new();
            r.push(v);
            let mut k: usize = 0;
            while k < rest.len()
                invariant
                    0 <= k <= rest.len(),
                    r@ == seq![v] + rest@.take(k as int),
                decreases rest.len() - k,
            {
                r.push(rest[k]);
                k = k + 1;
                assert(rest@.take(k as int) == rest@.take(k - 1).push(rest@[k - 1]));
            }
            assert(rest@.take(rest.len() as int) == rest@);
            r
        },
        None => rest,
    }
}

/// Turns hex text into bytes: surrounding whitespace is dropped, an odd
/// length gets a leading '0', and every two-byte window that does not parse
/// as a hex byte is skipped.
pub fn decode_hex(hex_str: &str) -> (bytes: Vec<u8>)
    requires
        hex_windows_whole(hex_str@),
    ensures
        bytes@ == decode_hex_spec(hex_str@),
{
    let trimmed = str_trim(hex_str);
    let raw = trimmed.as_bytes();
    let mut src: Vec<u8> = Vec::new();
    if raw.len() % 2 == 1 {
        src.push(48u8);
    }
    let ghost pre = src@;
    let mut i: usize = 0;
    while i < raw.len()
        invariant
            0 <= i <= raw.len(),
            src@ == pre + raw@.take(i as int),
        decreases raw.len() - i,
    {
        src.push(raw[i]);
        i = i + 1;
        assert(raw@.take(i as int) == raw@.take(i - 1).push(raw@[i - 1]));
    }
    assert(raw@.take(raw.len() as int) == raw@);
    assert(src@ =~= hex_source(hex_str@));
    let r = pairs_from(&src, 0);
    assert(src@.subrange(0, src@.len() as int) == src@);
    r
}

/// Whether a character is an ASCII hexadecimal digit.
pub open spec fn is_hex_char(c: char) -> bool {
    ('0' <= c <= '9') || ('a' <= c <= 'f') || ('A' <= c <= 'F')
}

/// Text of an even number of hex digits and nothing else.
pub open spec fn is_even_hex(s: Seq<char>) -> bool {
    s.len() % 2 == 0 && forall|i: int| 0 <= i < s.len() ==> is_hex_char(#[trigger] s[i])
}

/// Value of a hex digit character.
pub open spec fn hex_char_value(c: char) -> u8 {
    if '0' <= c <= '9' {
        ((c as u32) - 48) as u8
    } else if 'a' <= c <= 'f' {
        ((c as u32) - 87) as u8
    } else {
        ((c as u32) - 55) as u8
    }
}

/// The bytes of text made of hex digit pairs.
pub open spec fn hex_digits_bytes(s: Seq<char>) -> Seq<u8> {
    Seq::new(
        s.len() / 2,
        |i: int| (hex_char_value(s[2 * i]) * 16 + hex_char_value(s[2 * i + 1])) as u8,
    )
}

pub fn is_hex_digit(c: char) -> (r: bool)
    ensures
        r == is_hex_char(c),
{
    ('0' <= c && c <= '9') || ('a' <= c && c <= 'f') || ('A' <= c && c <= 'F')
}

fn hex_digit_value(c: char) -> (r: u8)
    requires
        is_hex_char(c),
    ensures
        r == hex_char_value(c),
        r < 16,
{
    let u = c as u32;
    if '0' <= c && c <= '9' {
        (u - 48) as u8
    } else if 'a' <= c && c <= 'f' {
        (u - 87) as u8
    } else {
        (u - 55) as u8
    }
}

/// Value of a hex digit character.
pub fn hex_digit_value_pub(c: char) -> (r: u8)
    requires
        is_hex_char(c),
    ensures
        r == hex_char_value(c),
        r < 16,
{
    hex_digit_value(c)
}

/// Whether `cs` is an even number of hex digits.
pub fn all_even_hex(cs: &[char]) -> (r: bool)
    ensures
        r == is_even_hex(cs@),
{
    if cs.len() % 2 != 0 {
        return false;
    }
    let mut i: usize = 0;
    while i < cs.len()
        invariant
            0 <= i <= cs.len(),
            forall|j: int| 0 <= j < i ==> is_hex_char(#[trigger] cs@[j]),
        decreases cs.len() - i,
    {
        if !is_hex_digit(cs[i]) {
            return false;
        }
        i = i + 1;
    }
    true
}

/// The bytes of an even run of hex digits.
pub fn hex_digits_to_bytes(cs: &[char]) -> (r: Vec<u8>)
    requires
        is_even_hex(cs@),
    ensures
        r@ == hex_digits_bytes(cs@),
{
    let mut r: Vec<u8> = Vec::new();
    let n = cs.len() / 2;
    let mut i: usize = 0;
    while i < n
        invariant
            n == cs.len() / 2,
            is_even_hex(cs@),
            0 <= i <= n,
            r@.len() == i,
            forall|t: int| 0 <= t < i ==> r@[t] == #[trigger] hex_digits_bytes(cs@)[t],
        decreases n - i,
    {
        let h = hex_digit_value(cs[2 * i]);
        let l = hex_digit_value(cs[2 * i + 1]);
        r.push(h * 16 + l);
        i = i + 1;
    }
    assert(r@ =~= hex_digits_bytes(cs@));
    r
}


/// Text of hex digits only can be cut into two-byte windows safely.
pub proof fn lemma_hex_text_whole(s: Seq<char>)
    requires
        forall|i: int| 0 <= i < s.len() ==> is_hex_char(#[trigger] s[i]),
    ensures
        hex_windows_whole(s),
{
    crate::text::lemma_lead_ws_bound(s);
    crate::text::lemma_trail_ws_bound(s);
    let t = trim_spec(s);
    if lead_ws(s) < s.len() {
        assert(!is_ws(s[lead_ws(s) as int]));
    }
    assert(lead_ws(s) == 0) by {
        if lead_ws(s) > 0 {
            assert(is_ws(s[0]));
            assert(is_hex_char(s[0]));
        }
    }
    assert forall|i: int| 0 <= i < t.len() implies '\0' <= #[trigger] t[i] <= '\u{7f}' by {
        assert(is_hex_char(t[i]));
    }
    assert(vstd::utf8::is_ascii_chars(t));
    vstd::utf8::is_ascii_chars_encode_utf8(t);
    let e = encode_utf8(t);
    assert forall|i: int| 0 <= i < e.len() implies e[i] < 0x80 by {
        assert(t[i] as u8 == e[i]);
        assert(is_hex_char(t[i]));
    }
    let b = hex_source(s);
    assert forall|i: int| 0 <= i < b.len() && i % 2 == 0 implies !(0x80 <= #[trigger] b[i] < 0xC0) by {
        if e.len() % 2 == 1 {
            if i > 0 {
                assert(b[i] == e[i - 1]);
            }
        } else {
            assert(b[i] == e[i]);
        }
    }
}

/// The bytes of a text, one per character (for ASCII text, its UTF-8).
pub open spec fn char_bytes(s: Seq<char>) -> Seq<u8> {
    Seq::new(s.len(), |i: int| s[i] as u8)
}

proof fn lemma_hex_value_of_char(c: char)
    requires
        is_hex_char(c),
    ensures
        hex_value(c as u8) == Some(hex_char_value(c)),
        c as u8 != 43,
        hex_char_value(c) < 16,
{
}

/// Pairs of hex digits read as `hex_pairs` reads them: one byte per pair.
pub(crate) proof fn lemma_hex_pairs_of_hex(s: Seq<char>)
    requires
        is_even_hex(s),
    ensures
        hex_pairs(char_bytes(s)) == hex_digits_bytes(s),
    decreases s.len(),
{
    let b = char_bytes(s);
    if s.len() == 0 {
        assert(hex_digits_bytes(s) =~= Seq::<u8>::empty());
    } else {
        let t = s.subrange(2, s.len() as int);
        assert(is_even_hex(t)) by {
            assert forall|i: int| 0 <= i < t.len() implies is_hex_char(#[trigger] t[i]) by {
                assert(t[i] == s[i + 2]);
            }
        }
        lemma_hex_pairs_of_hex(t);
        assert(b.subrange(2, b.len() as int) =~= char_bytes(t));
        lemma_hex_value_of_char(s[0]);
        lemma_hex_value_of_char(s[1]);
        let v = (hex_char_value(s[0]) * 16 + hex_char_value(s[1])) as u8;
        assert(radix16_pair(b[0], b[1]) == Some(v));
        assert(hex_digits_bytes(s) =~= seq![v] + hex_digits_bytes(t)) by {
            assert forall|i: int| 0 <= i < hex_digits_bytes(s).len() implies #[trigger] hex_digits_bytes(
                s,
            )[i] == (seq![v] + hex_digits_bytes(t))[i] by {
                if i > 0 {
                    assert(s[2 * i] == t[2 * (i - 1)]);
                    assert(s[2 * i + 1] == t[2 * (i - 1) + 1]);
                }
            }
        }
    }
}

/// An even run of hex digits decodes pair by pair.
pub proof fn lemma_even_hex_decodes(s: Seq<char>)
    requires
        is_even_hex(s),
    ensures
        decode_hex_spec(s) == hex_digits_bytes(s),
{
    assert(trim_spec(s) == s) by {
        crate::text::lemma_lead_ws_bound(s);
        crate::text::lemma_trail_ws_bound(s);
        if s.len() > 0 {
            assert(is_hex_char(s[0]));
            assert(!is_ws(s[0]));
            assert(lead_ws(s) == 0);
            assert(is_hex_char(s[s.len() - 1]));
            assert(trail_ws(s) == 0) by {
                if trail_ws(s) > 0 {
                    assert(is_ws(s[s.len() - 1]));
                }
            }
            assert(s.subrange(0, s.len() as int) == s);
        }
    }
    assert(vstd::utf8::is_ascii_chars(s)) by {
        assert forall|i: int| 0 <= i < s.len() implies '\0' <= #[trigger] s[i] <= '\u{7f}' by {
            assert(is_hex_char(s[i]));
        }
    }
    vstd::utf8::is_ascii_chars_encode_utf8(s);
    assert(encode_utf8(s) =~= char_bytes(s));
    assert(hex_source(s) == char_bytes(s));
    lemma_hex_pairs_of_hex(s);
}

/// Every character is whitespace.
pub open spec fn all_ws(s: Seq<char>) -> bool {
    forall|i: int| 0 <= i < s.len() ==> is_ws(#[trigger] s[i])
}

proof fn lemma_lead_ws_prefix(p: Seq<char>, r: Seq<char>)
    requires
        all_ws(p),
        r.len() > 0 ==> !is_ws(r[0]),
    ensures
        lead_ws(p + r) == p.len(),
    decreases p.len(),
{
    if p.len() > 0 {
        assert((p + r)[0] == p[0]);
        assert((p + r).drop_first() =~= p.drop_first() + r);
        lemma_lead_ws_prefix(p.drop_first(), r);
    } else {
        assert(p + r =~= r);
    }
}

proof fn lemma_trail_ws_suffix(r: Seq<char>, q: Seq<char>)
    requires
        all_ws(q),
        r.len() > 0 ==> !is_ws(r.last()),
    ensures
        trail_ws(r + q) == q.len(),
    decreases q.len(),
{
    if q.len() > 0 {
        assert((r + q).last() == q.last());
        assert((r + q).drop_last() =~= r + q.drop_last());
        lemma_trail_ws_suffix(r, q.drop_last());
    } else {
        assert(r + q =~= r);
    }
}

/// Hex digits of either case, in pairs, with whitespace before and after:
/// the whitespace is ignored and each pair gives one byte.
pub proof fn lemma_padded_hex_decodes(p: Seq<char>, s: Seq<char>, q: Seq<char>)
    requires
        all_ws(p),
        is_even_hex(s),
        all_ws(q),
    ensures
        decode_hex_spec(p + s + q) == hex_digits_bytes(s),
{
    let x = p + s + q;
    if s.len() > 0 {
        assert(!is_ws(s[0]) && !is_ws(s.last())) by {
            assert(is_hex_char(s[0]));
            assert(is_hex_char(s.last()));
        }
        assert(p + s + q =~= p + (s + q));
        assert((s + q)[0] == s[0]);
        lemma_lead_ws_prefix(p, s + q);
        lemma_trail_ws_suffix(p + s, q);
        assert((p + s).last() == s.last());
        assert(x.subrange(p.len() as int, x.len() - q.len()) =~= s);
        assert(trim_spec(x) == trim_spec(s)) by {
            lemma_even_hex_trimmed(s);
        }
    } else {
        assert(x =~= p + q);
        assert(all_ws(x)) by {
            assert forall|i: int| 0 <= i < x.len() implies is_ws(#[trigger] x[i]) by {
                if i < p.len() {
                    assert(x[i] == p[i]);
                } else {
                    assert(x[i] == q[i - p.len()]);
                }
            }
        }
        lemma_lead_ws_prefix(x, Seq::<char>::empty());
        assert(x + Seq::<char>::empty() =~= x);
        assert(trim_spec(x) =~= trim_spec(s));
    }
    assert(hex_source(x) == hex_source(s));
    lemma_even_hex_decodes(s);
}

proof fn lemma_even_hex_trimmed(s: Seq<char>)
    requires
        is_even_hex(s),
    ensures
        trim_spec(s) == s,
{
    if s.len() > 0 {
        assert(!is_ws(s[0]) && !is_ws(s.last())) by {
            assert(is_hex_char(s[0]));
            assert(is_hex_char(s.last()));
        }
        lemma_lead_ws_prefix(Seq::<char>::empty(), s);
        lemma_trail_ws_suffix(s, Seq::<char>::empty());
        assert(Seq::<char>::empty() + s =~= s);
        assert(s + Seq::<char>::empty() =~= s);
        assert(s.subrange(0, s.len() as int) =~= s);
    }
}

/// A hex digit of `d < 16`, upper- or lower-case.
pub open spec fn hex_digit_cased(d: nat, upper: bool) -> char {
    if d < 10 {
        (48 + d) as char
    } else if upper {
        (55 + d) as char
    } else {
        (87 + d) as char
    }
}

/// What `{:02X}` (upper) or `{:02x}` prints for each byte, concatenated.
pub open spec fn hex_text_of(bytes: Seq<u8>, upper: bool) -> Seq<char> {
    Seq::new(
        2 * bytes.len(),
        |k: int|
            hex_digit_cased(
                (if k % 2 == 0 {
                    bytes[k / 2] / 16
                } else {
                    bytes[k / 2] % 16
                }) as nat,
                upper,
            ),
    )
}

proof fn lemma_hex_digit_cased(d: nat, upper: bool)
    requires
        d < 16,
    ensures
        is_hex_char(hex_digit_cased(d, upper)),
        hex_char_value(hex_digit_cased(d, upper)) == d,
{
    let c = hex_digit_cased(d, upper);
    if d < 10 {
        assert(c as u32 == 48 + d);
    } else if upper {
        assert(c as u32 == 55 + d);
    } else {
        assert(c as u32 == 87 + d);
    }
}

proof fn lemma_hex_text_pairs(bytes: Seq<u8>, upper: bool)
    ensures
        is_even_hex(hex_text_of(bytes, upper)),
        hex_digits_bytes(hex_text_of(bytes, upper)) == bytes,
{
    let h = hex_text_of(bytes, upper);
    assert forall|k: int| 0 <= k < h.len() implies is_hex_char(#[trigger] h[k]) by {
        lemma_hex_digit_cased(bytes[k / 2] as nat / 16, upper);
        lemma_hex_digit_cased(bytes[k / 2] as nat % 16, upper);
    }
    assert forall|i: int| 0 <= i < bytes.len() implies #[trigger] hex_digits_bytes(h)[i]
        == bytes[i] by {
        assert((2 * i) % 2 == 0 && (2 * i) / 2 == i);
        assert((2 * i + 1) % 2 == 1 && (2 * i + 1) / 2 == i);
        lemma_hex_digit_cased(bytes[i] as nat / 16, upper);
        lemma_hex_digit_cased(bytes[i] as nat % 16, upper);
    }
    assert(hex_digits_bytes(h) =~= bytes);
}

proof fn lemma_hex_text_upper(bytes: Seq<u8>)
    ensures
        hex_text_of(bytes, true) == crate::text::hex_string(bytes),
{
    crate::ussd::lemma_hex_string_digits(bytes);
    let u = hex_text_of(bytes, true);
    let w = crate::text::hex_string(bytes);
    assert forall|k: int| 0 <= k < u.len() implies #[trigger] u[k] == w[k] by {
        let i = k / 2;
        if k % 2 == 0 {
            assert(k == 2 * i);
        } else {
            assert(k == 2 * i + 1);
        }
        assert(w[2 * i] == crate::text::hex_digit_upper((bytes[i] / 16) as nat));
        assert(w[2 * i + 1] == crate::text::hex_digit_upper((bytes[i] % 16) as nat));
    }
    assert(u =~= w);
}

/// The hex text of bytes, in either case and with whitespace before and
/// after, decodes to those bytes; the upper-case text is `hex_string`.
pub proof fn lemma_hex_text_reads_back(p: Seq<char>, bytes: Seq<u8>, upper: bool, q: Seq<char>)
    requires
        all_ws(p),
        all_ws(q),
    ensures
        decode_hex_spec(p + hex_text_of(bytes, upper) + q) == bytes,
        hex_text_of(bytes, true) == crate::text::hex_string(bytes),
{
    lemma_hex_text_pairs(bytes, upper);
    lemma_padded_hex_decodes(p, hex_text_of(bytes, upper), q);
    lemma_hex_text_upper(bytes);
}

/// Pairs of hex digits are read independently of what comes after them.
pub proof fn lemma_hex_digits_bytes_concat(a: Seq<char>, b: Seq<char>)
    requires
        a.len() % 2 == 0,
    ensures
        hex_digits_bytes(a + b) == hex_digits_bytes(a) + hex_digits_bytes(b),
{
    let ab = a + b;
    assert forall|i: int| 0 <= i < hex_digits_bytes(ab).len() implies #[trigger] hex_digits_bytes(
        ab,
    )[i] == (hex_digits_bytes(a) + hex_digits_bytes(b))[i] by {
        if 2 * i < a.len() {
            assert(ab[2 * i] == a[2 * i]);
            assert(ab[2 * i + 1] == a[2 * i + 1]);
        } else {
            let j = i - a.len() / 2;
            assert(ab[2 * i] == b[2 * j]);
            assert(ab[2 * i + 1] == b[2 * j + 1]);
        }
    }
    assert(hex_digits_bytes(ab) =~= hex_digits_bytes(a) + hex_digits_bytes(b));
}

} // verus!
