//! Building SMS-SUBMIT PDUs for sending (PDU mode `AT+CMGS`), and reading
//! them back.

use vstd::prelude::*;
use vstd::utf8::encode_utf8;

use crate::hex::{
    decode_hex, decode_hex_spec, hex_char_value, hex_digits_bytes, hex_windows_whole, is_even_hex,
    is_hex_char, lemma_even_hex_decodes, lemma_hex_digits_bytes_concat,
};
use crate::pdu::{
    address_text, encode_phone, encode_phone_spec, is_ucs2_dcs, lemma_phone_field, septets_text,
    sms_fields, tpdu_offset, without_plus,
};
use crate::septets::{pack_7bit, pack_spec};
use crate::text::{
    chars_of, hex2, hex_min2, hex_string, is_whitespace, is_ws, lead_ws, lemma_lead_ws_bound,
    hex_digits, push_hex2, push_hex_bytes, push_hex_min2, push_str, str_eq, str_trim, string_of,
    string_push, trim_spec, utf8_width,
};

verus! {

// ---------------------------------------------------------------------------
// Recipient
// ---------------------------------------------------------------------------

/// `s` without any space or hyphen.
pub open spec fn without_separators(s: Seq<char>) -> Seq<char>
    decreases s.len(),
{
    if s.len() == 0 {
        Seq::empty()
    } else if s.last() != ' ' && s.last() != '-' {
        without_separators(s.drop_last()).push(s.last())
    } else {
        without_separators(s.drop_last())
    }
}

/// The recipient as dialled: trimmed, spaces and hyphens removed.
pub open spec fn normalized_phone(phone: Seq<char>) -> Seq<char> {
    without_separators(trim_spec(phone))
}

/// Non-empty, digits only, with an optional leading '+'.
pub open spec fn is_valid_phone(n: Seq<char>) -> bool {
    n.len() > 0 && forall|i: int|
        0 <= i < n.len() ==> ('0' <= #[trigger] n[i] <= '9') || (i == 0 && n[i] == '+')
}

/// Number of digits of a validated number.
pub open spec fn digit_count(n: Seq<char>) -> nat {
    if n.len() > 0 && n[0] == '+' {
        (n.len() - 1) as nat
    } else {
        n.len()
    }
}

/// Type of address: international (0x91) for a leading '+', else unknown
/// numbering plan ISDN (0x81).
pub open spec fn address_type(n: Seq<char>) -> u8 {
    if n.len() > 0 && n[0] == '+' {
        0x91
    } else {
        0x81
    }
}

fn normalize_phone(phone: &str) -> (n: Vec<char>)
    ensures
        n@ == normalized_phone(phone@),
{
    let t = str_trim(phone);
    let cs = chars_of(t);
    let mut n: Vec<char> = Vec::new();
    let mut i: usize = 0;
    while i < cs.len()
        invariant
            0 <= i <= cs.len(),
            cs@ == trim_spec(phone@),
            n@ == without_separators(cs@.take(i as int)),
        decreases cs.len() - i,
    {
        assert(cs@.take(i + 1).drop_last() == cs@.take(i as int));
        if cs[i] != ' ' && cs[i] != '-' {
            n.push(cs[i]);
        }
        i = i + 1;
    }
    assert(cs@.take(cs.len() as int) == cs@);
    n
}

fn valid_phone(n: &[char]) -> (r: bool)
    ensures
        r == is_valid_phone(n@),
{
    if n.len() == 0 {
        return false;
    }
    let mut i: usize = 0;
    while i < n.len()
        invariant
            0 <= i <= n.len(),
            forall|j: int| 0 <= j < i ==> ('0' <= #[trigger] n@[j] <= '9') || (j == 0 && n@[j] == '+'),
        decreases n.len() - i,
    {
        if !(('0' <= n[i] && n[i] <= '9') || (i == 0 && n[i] == '+')) {
            return false;
        }
        i = i + 1;
    }
    true
}

// ---------------------------------------------------------------------------
// Data coding scheme
// ---------------------------------------------------------------------------

/// Length of the run of non-whitespace characters that starts `s`.
pub open spec fn token_len(s: Seq<char>) -> nat
    decreases s.len(),
{
    if s.len() > 0 && !is_ws(s[0]) {
        1 + token_len(s.drop_first())
    } else {
        0
    }
}

/// The first whitespace-separated word (`split_whitespace().next()`).
pub open spec fn first_token(s: Seq<char>) -> Option<Seq<char>> {
    let a = lead_ws(s) as int;
    if a >= s.len() {
        None
    } else {
        Some(s.subrange(a, a + token_len(s.subrange(a, s.len() as int))))
    }
}

/// `s` with every leading "0x" removed (`trim_start_matches("0x")`).
pub open spec fn strip_0x(s: Seq<char>) -> Seq<char>
    decreases s.len(),
{
    if s.len() >= 2 && s[0] == '0' && s[1] == 'x' {
        strip_0x(s.subrange(2, s.len() as int))
    } else {
        s
    }
}

/// Value of a run of hex digits.
pub open spec fn hex_run_value(d: Seq<char>) -> nat
    decreases d.len(),
{
    if d.len() == 0 {
        0
    } else {
        hex_run_value(d.drop_last()) * 16 + hex_char_value(d.last()) as nat
    }
}

/// Every character is a hex digit.
pub open spec fn all_hex(d: Seq<char>) -> bool {
    forall|i: int| 0 <= i < d.len() ==> is_hex_char(#[trigger] d[i])
}

/// What `u8::from_str_radix(s, 16)` gives: an optional '+' then at least one
/// hex digit, of value at most 255.
pub open spec fn parse_hex_u8(s: Seq<char>) -> Option<u8> {
    let d = if s.len() > 0 && s[0] == '+' {
        s.drop_first()
    } else {
        s
    };
    if d.len() == 0 {
        None
    } else if !all_hex(d) {
        None
    } else if hex_run_value(d) > 255 {
        None
    } else {
        Some(hex_run_value(d) as u8)
    }
}

/// The data coding scheme sent: 0x50 for a class 0 (flash) message, else the
/// hex value at the start of the chosen DCS label ("0x11 (Class 1 ...)"),
/// 0x50 when it does not parse.
pub open spec fn pdu_dcs(sms_class: Seq<char>, dcs_value: Seq<char>) -> u8 {
    if sms_class == seq!['0'] {
        0x50
    } else {
        let tok = match first_token(dcs_value) {
            Some(t) => t,
            None => seq!['0', 'x', '5', '0'],
        };
        match parse_hex_u8(strip_0x(tok)) {
            Some(v) => v,
            None => 0x50,
        }
    }
}

proof fn lemma_token_len(s: Seq<char>)
    ensures
        token_len(s) <= s.len(),
        forall|i: int| 0 <= i < token_len(s) ==> !is_ws(#[trigger] s[i]),
        token_len(s) < s.len() ==> is_ws(s[token_len(s) as int]),
    decreases s.len(),
{
    if s.len() > 0 && !is_ws(s[0]) {
        lemma_token_len(s.drop_first());
        assert forall|i: int| 0 <= i < token_len(s) implies !is_ws(#[trigger] s[i]) by {
            if i > 0 {
                assert(s[i] == s.drop_first()[i - 1]);
            }
        }
    }
}

fn first_word(cs: &[char]) -> (r: Option<Vec<char>>)
    ensures
        match r {
            Some(w) => first_token(cs@) == Some(w@),
            None => first_token(cs@) is None,
        },
{
    proof {
        lemma_lead_ws_bound(cs@);
    }
    let mut a: usize = 0;
    while a < cs.len() && is_whitespace(cs[a])
        invariant
            0 <= a <= cs.len(),
            forall|j: int| 0 <= j < a ==> is_ws(#[trigger] cs@[j]),
            lead_ws(cs@) <= cs@.len(),
            forall|i: int| 0 <= i < lead_ws(cs@) ==> is_ws(#[trigger] cs@[i]),
            lead_ws(cs@) < cs@.len() ==> !is_ws(cs@[lead_ws(cs@) as int]),
        decreases cs.len() - a,
    {
        a = a + 1;
    }
    assert(a == lead_ws(cs@));
    if a >= cs.len() {
        return None;
    }
    let ghost rest = cs@.subrange(a as int, cs@.len() as int);
    proof {
        lemma_token_len(rest);
    }
    let mut w: Vec<char> = Vec::new();
    let mut b: usize = a;
    while b < cs.len() && !is_whitespace(cs[b])
        invariant
            a <= b <= cs.len(),
            rest == cs@.subrange(a as int, cs@.len() as int),
            forall|j: int| a <= j < b ==> !is_ws(#[trigger] cs@[j]),
            token_len(rest) <= rest.len(),
            forall|i: int| 0 <= i < token_len(rest) ==> !is_ws(#[trigger] rest[i]),
            token_len(rest) < rest.len() ==> is_ws(rest[token_len(rest) as int]),
            w@ == cs@.subrange(a as int, b as int),
        decreases cs.len() - b,
    {
        assert(cs@[b as int] == rest[b - a]);
        w.push(cs[b]);
        b = b + 1;
        assert(cs@.subrange(a as int, b as int) == cs@.subrange(a as int, b - 1).push(cs@[b - 1]));
    }
    assert(b - a == token_len(rest)) by {
        if b < cs.len() {
            assert(cs@[b as int] == rest[b - a]);
        }
        if b - a > token_len(rest) {
            let t = token_len(rest) as int;
            assert(rest[t] == cs@[a + t]);
        }
    }
    Some(w)
}

fn strip_leading_0x(t: &[char]) -> (r: Vec<char>)
    ensures
        r@ == strip_0x(t@),
{
    let mut i: usize = 0;
    assert(t@.subrange(0, t@.len() as int) == t@);
    while i < t.len() && t.len() - i >= 2 && t[i] == '0' && t[i + 1] == 'x'
        invariant
            0 <= i <= t.len(),
            strip_0x(t@) == strip_0x(t@.subrange(i as int, t@.len() as int)),
        decreases t.len() - i,
    {
        assert(t@.subrange(i + 2, t@.len() as int) == t@.subrange(i as int, t@.len() as int).subrange(
            2,
            t@.len() - i,
        ));
        i = i + 2;
    }
    let mut r: Vec<char> = Vec::new();
    let mut k: usize = i;
    while k < t.len()
        invariant
            i <= k <= t.len(),
            r@ == t@.subrange(i as int, k as int),
        decreases t.len() - k,
    {
        r.push(t[k]);
        k = k + 1;
        assert(t@.subrange(i as int, k as int) == t@.subrange(i as int, k - 1).push(t@[k - 1]));
    }
    r
}

proof fn lemma_hex_run_value_grows(d: Seq<char>, k: int)
    requires
        0 <= k <= d.len(),
    ensures
        hex_run_value(d.take(k)) <= hex_run_value(d),
    decreases d.len() - k,
{
    if k < d.len() {
        lemma_hex_run_value_grows(d, k + 1);
        assert(d.take(k + 1).drop_last() == d.take(k));
    } else {
        assert(d.take(k) == d);
    }
}

fn parse_hex_byte(s: &[char]) -> (r: Option<u8>)
    ensures
        r == parse_hex_u8(s@),
{
    let start: usize = if s.len() > 0 && s[0] == '+' {
        1
    } else {
        0
    };
    let ghost d = if s@.len() > 0 && s@[0] == '+' {
        s@.drop_first()
    } else {
        s@
    };
    assert(d == s@.subrange(start as int, s@.len() as int));
    if start >= s.len() {
        assert(d.len() == 0);
        return None;
    }
    let mut i: usize = start;
    while i < s.len()
        invariant
            start <= i <= s.len(),
            d == s@.subrange(start as int, s@.len() as int),
            d == (if s@.len() > 0 && s@[0] == '+' {
                s@.drop_first()
            } else {
                s@
            }),
            forall|j: int| start <= j < i ==> is_hex_char(#[trigger] s@[j]),
        decreases s.len() - i,
    {
        if !crate::hex::is_hex_digit(s[i]) {
            assert(!is_hex_char(d[i - start]));
            assert(!all_hex(d));
            assert(d.len() != 0);

            return None;
        }
        i = i + 1;
    }
    assert(forall|j: int| 0 <= j < d.len() ==> is_hex_char(#[trigger] d[j])) by {
        assert forall|j: int| 0 <= j < d.len() implies is_hex_char(#[trigger] d[j]) by {
            assert(d[j] == s@[start + j]);
        }
    }
    let mut v: u32 = 0;
    let mut over = false;
    let mut k: usize = start;
    while k < s.len()
        invariant
            start <= k <= s.len(),
            d == s@.subrange(start as int, s@.len() as int),
            d == (if s@.len() > 0 && s@[0] == '+' {
                s@.drop_first()
            } else {
                s@
            }),
            forall|j: int| 0 <= j < d.len() ==> is_hex_char(#[trigger] d[j]),
            !over ==> v == hex_run_value(d.take(k - start)) && v <= 255,
            over ==> hex_run_value(d.take(k - start)) > 255,
        decreases s.len() - k,
    {
        assert(d.take(k + 1 - start).drop_last() == d.take(k - start));
        assert(d[k - start] == s@[k as int]);
        let h = crate::hex::hex_digit_value_pub(s[k]);
        if !over {
            let nv = v * 16 + h as u32;
            if nv > 255 {
                over = true;
            } else {
                v = nv;
            }
        }
        k = k + 1;
    }
    assert(d.take(d.len() as int) == d);
    if over {
        None
    } else {
        Some(v as u8)
    }
}

/// Chooses the data coding scheme byte of an outgoing message.
pub fn select_dcs(sms_class: &str, dcs_value: &str) -> (dcs: u8)
    ensures
        dcs == pdu_dcs(sms_class@, dcs_value@),
{
    proof {
        reveal_strlit("0");
        assert("0"@ =~= seq!['0']);
    }
    if str_eq(sms_class, "0") {
        return 0x50;
    }
    let cs = chars_of(dcs_value);
    let tok = match first_word(&cs) {
        Some(w) => w,
        None => {
            let mut d: Vec<char> = Vec::new();
            d.push('0');
            d.push('x');
            d.push('5');
            d.push('0');
            d
        },
    };
    assert(tok@ == match first_token(dcs_value@) {
        Some(t) => t,
        None => seq!['0', 'x', '5', '0'],
    });
    let stripped = strip_leading_0x(&tok);
    match parse_hex_byte(&stripped) {
        Some(v) => v,
        None => 0x50,
    }
}

// ---------------------------------------------------------------------------
// SMS-SUBMIT
// ---------------------------------------------------------------------------

/// The characters of an ASCII text as bytes.
pub open spec fn ascii_bytes(s: Seq<char>) -> Seq<u8> {
    s.map_values(|c: char| c as u8)
}

/// Message type SMS-SUBMIT, with TP-SRR (status report request) when a
/// delivery report is wanted.
pub open spec fn submit_first_octet(delivery_report: bool) -> u8 {
    if delivery_report {
        0x21
    } else {
        0x01
    }
}

/// The SMS-SUBMIT TPDU (no service centre field) as hex text: first octet,
/// message reference 00, destination address, protocol identifier (0x40,
/// "short message type 0", for an invisible ping), data coding scheme, user
/// data length in septets and the packed 7-bit user data.
pub open spec fn submit_pdu_text(
    n: Seq<char>,
    message: Seq<char>,
    dcs: u8,
    delivery_report: bool,
    invisible: bool,
) -> Seq<char> {
    submit_head_text(n, dcs, delivery_report, invisible) + user_data_field(message, invisible)
}

/// First octet, message reference, destination address, protocol
/// identifier and data coding scheme.
pub open spec fn submit_head_text(n: Seq<char>, dcs: u8, delivery_report: bool, invisible: bool) -> Seq<
    char,
> {
    hex2(submit_first_octet(delivery_report)) + seq!['0', '0'] + hex_min2(digit_count(n)) + hex2(
        address_type(n),
    ) + encode_phone_spec(n) + if invisible {
        seq!['4', '0']
    } else {
        seq!['0', '0']
    } + hex2(dcs)
}

/// User data length (in septets) and packed user data; just a zero length
/// for a ping or an empty message.
pub open spec fn user_data_field(message: Seq<char>, invisible: bool) -> Seq<char> {
    if invisible || message.len() == 0 {
        seq!['0', '0']
    } else {
        hex_min2(message.len()) + hex_string(pack_spec(ascii_bytes(message)))
    }
}

/// Every character below U+0080.
pub open spec fn all_ascii(s: Seq<char>) -> bool {
    forall|i: int| 0 <= i < s.len() ==> (#[trigger] s[i] as u32) < 128
}

fn chars_ascii(mcs: &[char]) -> (r: bool)
    ensures
        r == all_ascii(mcs@),
{
    let mut i: usize = 0;
    while i < mcs.len()
        invariant
            0 <= i <= mcs.len(),
            forall|j: int| 0 <= j < i ==> (#[trigger] mcs@[j] as u32) < 128,
        decreases mcs.len() - i,
    {
        if (mcs[i] as u32) >= 128 {
            return false;
        }
        i = i + 1;
    }
    true
}

fn submit_head(n: &[char], dcs: u8, delivery_report: bool, invisible: bool) -> (pdu: String)
    requires
        is_valid_phone(n@),
    ensures
        pdu@ == submit_head_text(n@, dcs, delivery_report, invisible),
{
    let mut pdu = String::new();
    push_hex2(&mut pdu, if delivery_report {
        0x21
    } else {
        0x01
    });
    string_push(&mut pdu, '0');
    string_push(&mut pdu, '0');
    let digits: usize = if n[0] == '+' {
        n.len() - 1
    } else {
        n.len()
    };
    push_hex_min2(&mut pdu, digits as u128);
    push_hex2(&mut pdu, if n[0] == '+' {
        0x91
    } else {
        0x81
    });
    let ns = crate::text::string_from_chars(n);
    let enc = encode_phone(ns.as_str());
    crate::text::push_string(&mut pdu, &enc);
    if invisible {
        string_push(&mut pdu, '4');
        string_push(&mut pdu, '0');
    } else {
        string_push(&mut pdu, '0');
        string_push(&mut pdu, '0');
    }
    push_hex2(&mut pdu, dcs);
    assert(pdu@ =~= submit_head_text(n@, dcs, delivery_report, invisible));
    pdu
}

fn push_user_data(pdu: &mut String, mcs: &[char], invisible: bool)
    requires
        invisible || all_ascii(mcs@),
    ensures
        final(pdu)@ == old(pdu)@ + user_data_field(mcs@, invisible),
{
    if invisible || mcs.len() == 0 {
        string_push(pdu, '0');
        string_push(pdu, '0');
        assert(final(pdu)@ =~= old(pdu)@ + user_data_field(mcs@, invisible));
    } else {
        let mut bytes: Vec<u8> = Vec::new();
        let mut k: usize = 0;
        while k < mcs.len()
            invariant
                0 <= k <= mcs.len(),
                bytes@ == ascii_bytes(mcs@.take(k as int)),
            decreases mcs.len() - k,
        {
            bytes.push(mcs[k] as u8);
            k = k + 1;
            assert(ascii_bytes(mcs@.take(k as int)) =~= ascii_bytes(mcs@.take(k - 1)).push(
                mcs@[k - 1] as u8,
            ));
        }
        assert(mcs@.take(mcs.len() as int) == mcs@);
        let packed = pack_7bit(&bytes);
        push_hex_min2(pdu, mcs.len() as u128);
        push_hex_bytes(pdu, &packed);
        assert(final(pdu)@ =~= old(pdu)@ + user_data_field(mcs@, invisible));
    }
}

/// The error text for a recipient that is not a phone number.
pub open spec fn invalid_phone_error(phone: Seq<char>) -> Seq<char> {
    "Invalid phone number: "@ + phone
}

/// Builds the SMS-SUBMIT PDU for one recipient; the result is the hex text
/// and its length in octets (the `AT+CMGS` length).
pub fn build_pdu(
    phone: &str,
    message: &str,
    sms_class: &str,
    dcs_value: &str,
    delivery_report: bool,
    invisible: bool,
) -> (r: Result<(String, usize), String>)
    ensures
        ({
            let n = normalized_phone(phone@);
            match r {
                Err(e) => if !is_valid_phone(n) {
                    e@ == invalid_phone_error(phone@)
                } else {
                    !invisible && !all_ascii(message@)
                        && e@ == "Message contains non-ASCII characters. UCS2 SMS sending is not implemented yet."@
                },
                Ok((pdu, len)) => is_valid_phone(n) && (invisible || all_ascii(message@)) && pdu@
                    == submit_pdu_text(
                    n,
                    message@,
                    pdu_dcs(sms_class@, dcs_value@),
                    delivery_report,
                    invisible,
                ) && len == (pdu@.len() + 1) / 2,
            }
        }),
        r matches Ok((pdu, _)) ==> hex_windows_whole(pdu@),
{
    let n = normalize_phone(phone);
    if !valid_phone(&n) {
        let mut e = string_of("Invalid phone number: ");
        push_str(&mut e, phone);
        proof {
            reveal_strlit("Invalid phone number: ");
        }
        return Err(e);
    }
    let mcs = chars_of(message);
    let ascii = chars_ascii(&mcs);
    if !invisible && !ascii {
        return Err(
            string_of(
                "Message contains non-ASCII characters. UCS2 SMS sending is not implemented yet.",
            ),
        );
    }
    let dcs = select_dcs(sms_class, dcs_value);
    let mut pdu = submit_head(&n, dcs, delivery_report, invisible);
    push_user_data(&mut pdu, &mcs, invisible);
    let plen = chars_of(pdu.as_str()).len();
    let len = plen / 2 + plen % 2;
    proof {
        lemma_submit_text_hex(n@, message@, dcs, delivery_report, invisible);
        crate::hex::lemma_hex_text_whole(pdu@);
    }
    Ok((pdu, len))
}

// ---------------------------------------------------------------------------
// Invisible ping
// ---------------------------------------------------------------------------

/// The "ping" TPDU: SMS-SUBMIT with a status report request, protocol
/// identifier 0x40 (short message type 0, which the handset acknowledges
/// but does not show), coding scheme 0 and no user data. The address length
/// is the UTF-8 length of the number without '+'.
pub open spec fn ping_pdu_text(phone: Seq<char>) -> Seq<char> {
    hex2(0x21) + seq!['0', '0'] + hex_min2(encode_utf8(without_plus(phone)).len()) + hex2(
        address_type(phone),
    ) + encode_phone_spec(phone) + seq!['4', '0', '0', '0', '0', '0']
}

/// Builds the invisible-ping PDU for one recipient, with its length in octets
/// (the octets that the hex text decodes to).
pub fn build_ping_pdu(phone: &str) -> (r: (String, usize))
    requires
        hex_windows_whole(ping_pdu_text(phone@)),
    ensures
        r.0@ == ping_pdu_text(phone@),
        r.1 == decode_hex_spec(r.0@).len(),
{
    let cs = chars_of(phone);
    let mut kept: Vec<char> = Vec::new();
    let mut bytes: u128 = 0;
    let mut i: usize = 0;
    while i < cs.len()
        invariant
            0 <= i <= cs.len(),
            cs@ == phone@,
            kept@ == without_plus(cs@.take(i as int)),
            bytes == encode_utf8(kept@).len(),
            bytes <= 4 * i,
        decreases cs.len() - i,
    {
        assert(cs@.take(i + 1).drop_last() == cs@.take(i as int));
        if cs[i] != '+' {
            let v = cs[i] as u32;
            let w: u128 = if v <= 0x7F {
                1
            } else if v <= 0x7FF {
                2
            } else if v <= 0xFFFF {
                3
            } else {
                4
            };
            proof {
                crate::text::lemma_encode_utf8_push(kept@, cs@[i as int]);
            }
            kept.push(cs[i]);
            bytes = bytes + w;
        }
        i = i + 1;
    }
    assert(cs@.take(cs.len() as int) == cs@);
    let mut pdu = String::new();
    push_hex2(&mut pdu, 0x21);
    string_push(&mut pdu, '0');
    string_push(&mut pdu, '0');
    push_hex_min2(&mut pdu, bytes);
    let plus = cs.len() > 0 && cs[0] == '+';
    push_hex2(&mut pdu, if plus {
        0x91
    } else {
        0x81
    });
    let enc = encode_phone(phone);
    crate::text::push_string(&mut pdu, &enc);
    string_push(&mut pdu, '4');
    string_push(&mut pdu, '0');
    string_push(&mut pdu, '0');
    string_push(&mut pdu, '0');
    string_push(&mut pdu, '0');
    string_push(&mut pdu, '0');
    assert(pdu@ =~= ping_pdu_text(phone@));
    let octets = decode_hex(pdu.as_str());
    let len = octets.len();
    (pdu, len)
}

// ---------------------------------------------------------------------------
// Reading back what was written
// ---------------------------------------------------------------------------

proof fn lemma_hex2_reads(x: u8)
    ensures
        is_even_hex(hex2(x)),
        hex_digits_bytes(hex2(x)) == seq![x],
{
    crate::ussd::lemma_hex_string_roundtrip(seq![x]);
    assert(seq![x].drop_last() == Seq::<u8>::empty());
    assert(hex_string(seq![x]) == Seq::<char>::empty() + hex2(x));
    assert(Seq::<char>::empty() + hex2(x) == hex2(x));
}

proof fn lemma_digit_pair_reads(c: char)
    requires
        c == '0' || c == '4',
    ensures
        is_even_hex(seq![c, '0']),
        hex_digits_bytes(seq![c, '0']) == seq![((c as u32 - 48) * 16) as u8],
{
    assert(hex_digits_bytes(seq![c, '0']) =~= seq![((c as u32 - 48) * 16) as u8]);
}

proof fn lemma_even_hex_concat(a: Seq<char>, b: Seq<char>)
    requires
        is_even_hex(a),
        is_even_hex(b),
    ensures
        is_even_hex(a + b),
{
    assert forall|i: int| 0 <= i < (a + b).len() implies is_hex_char(#[trigger] (a + b)[i]) by {
        if i < a.len() {
            assert((a + b)[i] == a[i]);
        } else {
            assert((a + b)[i] == b[i - a.len()]);
        }
    }
}

proof fn lemma_all_hex_concat(a: Seq<char>, b: Seq<char>)
    requires
        all_hex(a),
        all_hex(b),
    ensures
        all_hex(a + b),
{
    assert forall|i: int| 0 <= i < (a + b).len() implies is_hex_char(#[trigger] (a + b)[i]) by {
        if i < a.len() {
            assert((a + b)[i] == a[i]);
        } else {
            assert((a + b)[i] == b[i - a.len()]);
        }
    }
}

proof fn lemma_hex_digits_hex(n: nat)
    ensures
        all_hex(hex_digits(n)),
    decreases n,
{
    crate::ussd::lemma_hex_digit_upper(n % 16);
    if n < 16 {
        assert(hex_digits(n)[0] == crate::text::hex_digit_upper(n % 16));
    } else {
        lemma_hex_digits_hex(n / 16);
        let h = hex_digits(n);
        assert forall|i: int| 0 <= i < h.len() implies is_hex_char(#[trigger] h[i]) by {
            if i < h.len() - 1 {
                assert(h[i] == hex_digits(n / 16)[i]);
            }
        }
    }
}

proof fn lemma_hex_min2_hex(n: nat)
    ensures
        all_hex(hex_min2(n)),
{
    if n < 16 {
        crate::ussd::lemma_hex_digit_upper(n);
        let h = hex_min2(n);
        assert(h[0] == '0');
        assert(h[1] == crate::text::hex_digit_upper(n));
    } else {
        lemma_hex_digits_hex(n);
    }
}

/// A written SMS-SUBMIT PDU is hex digits only, whatever the length of
/// the text.
proof fn lemma_submit_text_hex(
    n: Seq<char>,
    message: Seq<char>,
    dcs: u8,
    delivery_report: bool,
    invisible: bool,
)
    requires
        is_valid_phone(n),
    ensures
        all_hex(submit_pdu_text(n, message, dcs, delivery_report, invisible)),
{
    let fo = submit_first_octet(delivery_report);
    lemma_phone_field(n);
    lemma_hex2_reads(fo);
    lemma_hex_min2_hex(digit_count(n));
    lemma_hex2_reads(address_type(n));
    lemma_hex2_reads(dcs);
    let pid = if invisible {
        seq!['4', '0']
    } else {
        seq!['0', '0']
    };
    assert(all_hex(seq!['0', '0']) && all_hex(pid));
    let a = hex2(fo) + seq!['0', '0'];
    lemma_all_hex_concat(hex2(fo), seq!['0', '0']);
    lemma_all_hex_concat(a, hex_min2(digit_count(n)));
    let a = a + hex_min2(digit_count(n));
    lemma_all_hex_concat(a, hex2(address_type(n)));
    let a = a + hex2(address_type(n));
    lemma_all_hex_concat(a, encode_phone_spec(n));
    let a = a + encode_phone_spec(n);
    lemma_all_hex_concat(a, pid);
    let a = a + pid;
    lemma_all_hex_concat(a, hex2(dcs));
    let a = a + hex2(dcs);
    assert(a == submit_head_text(n, dcs, delivery_report, invisible));
    let u = user_data_field(message, invisible);
    if !(invisible || message.len() == 0) {
        lemma_hex_min2_hex(message.len());
        crate::ussd::lemma_hex_string_roundtrip(pack_spec(ascii_bytes(message)));
        lemma_all_hex_concat(hex_min2(message.len()), hex_string(pack_spec(ascii_bytes(message))));
    }
    assert(all_hex(u));
    lemma_all_hex_concat(a, u);
}

/// The bytes of the user data field: its length and the packed text, or a
/// zero length.
pub open spec fn user_data_bytes(message: Seq<char>, invisible: bool) -> Seq<u8> {
    if invisible || message.len() == 0 {
        seq![0u8]
    } else {
        seq![message.len() as u8] + pack_spec(ascii_bytes(message))
    }
}

proof fn lemma_user_data_reads(message: Seq<char>, invisible: bool)
    requires
        message.len() < 256,
    ensures
        is_even_hex(user_data_field(message, invisible)),
        hex_digits_bytes(user_data_field(message, invisible)) == user_data_bytes(message, invisible),
{
    if invisible || message.len() == 0 {
        lemma_digit_pair_reads('0');
    } else {
        let g = ascii_bytes(message);
        let p = pack_spec(g);
        crate::text::lemma_hex_min2_byte(message.len() as u8);
        lemma_hex2_reads(message.len() as u8);
        crate::ussd::lemma_hex_string_roundtrip(p);
        lemma_even_hex_concat(hex2(message.len() as u8), hex_string(p));
        lemma_hex_digits_bytes_concat(hex2(message.len() as u8), hex_string(p));
    }
}

/// The bytes of a written SMS-SUBMIT PDU: first octet, message reference
/// 0, number of digits, type of address, the semi-octets, protocol
/// identifier, data coding scheme and user data.
pub open spec fn submit_bytes(
    n: Seq<char>,
    message: Seq<char>,
    dcs: u8,
    delivery_report: bool,
    invisible: bool,
) -> Seq<u8> {
    seq![submit_first_octet(delivery_report), 0u8, digit_count(n) as u8, address_type(n)]
        + hex_digits_bytes(encode_phone_spec(n)) + seq![
        if invisible {
            0x40u8
        } else {
            0u8
        },
        dcs,
    ] + user_data_bytes(message, invisible)
}

proof fn lemma_submit_bytes(
    n: Seq<char>,
    message: Seq<char>,
    dcs: u8,
    delivery_report: bool,
    invisible: bool,
)
    requires
        is_valid_phone(n),
        digit_count(n) < 256,
        message.len() < 256,
    ensures
        decode_hex_spec(submit_pdu_text(n, message, dcs, delivery_report, invisible))
            == submit_bytes(n, message, dcs, delivery_report, invisible),
{
    let fo = submit_first_octet(delivery_report);
    let dc = digit_count(n);
    let at = address_type(n);
    let e = encode_phone_spec(n);
    lemma_phone_field(n);
    let pid_c = if invisible {
        '4'
    } else {
        '0'
    };
    let pid: u8 = if invisible {
        0x40
    } else {
        0
    };
    lemma_hex2_reads(fo);
    crate::text::lemma_hex_min2_byte(dc as u8);
    lemma_hex2_reads(dc as u8);
    lemma_hex2_reads(at);
    lemma_hex2_reads(dcs);
    lemma_digit_pair_reads('0');
    lemma_digit_pair_reads(pid_c);
    assert(((pid_c as u32 - 48) * 16) as u8 == pid);
    lemma_user_data_reads(message, invisible);
    let t1 = hex2(fo);
    let t2 = seq!['0', '0'];
    let t3 = hex2(dc as u8);
    let t4 = hex2(at);
    let t6 = seq![pid_c, '0'];
    let t7 = hex2(dcs);
    let u = user_data_field(message, invisible);
    assert(submit_pdu_text(n, message, dcs, delivery_report, invisible) == t1 + t2 + t3 + t4 + e
        + t6 + t7 + u);
    let a1 = t1 + t2;
    lemma_even_hex_concat(t1, t2);
    lemma_hex_digits_bytes_concat(t1, t2);
    let b1 = seq![fo] + seq![0u8];
    let a2 = a1 + t3;
    lemma_even_hex_concat(a1, t3);
    lemma_hex_digits_bytes_concat(a1, t3);
    let b2 = b1 + seq![dc as u8];
    let a3 = a2 + t4;
    lemma_even_hex_concat(a2, t4);
    lemma_hex_digits_bytes_concat(a2, t4);
    let b3 = b2 + seq![at];
    assert(b3 =~= seq![fo, 0u8, dc as u8, at]);
    let a4 = a3 + e;
    lemma_even_hex_concat(a3, e);
    lemma_hex_digits_bytes_concat(a3, e);
    let b4 = b3 + hex_digits_bytes(e);
    let a5 = a4 + t6;
    lemma_even_hex_concat(a4, t6);
    lemma_hex_digits_bytes_concat(a4, t6);
    let b5 = b4 + seq![pid];
    let a6 = a5 + t7;
    lemma_even_hex_concat(a5, t7);
    lemma_hex_digits_bytes_concat(a5, t7);
    let b6 = b5 + seq![dcs];
    assert(b6 =~= seq![fo, 0u8, dc as u8, at] + hex_digits_bytes(e) + seq![pid, dcs]);
    let a7 = a6 + u;
    lemma_even_hex_concat(a6, u);
    lemma_hex_digits_bytes_concat(a6, u);
    lemma_even_hex_decodes(a7);
}

proof fn lemma_ascii_char_byte(c: char, x: u8)
    requires
        (c as u32) < 128,
        x == c as u8,
    ensures
        x < 128,
        x as char == c,
{
    assert((c as u32) < 128 ==> (c as u8) as u32 == c as u32);
}

proof fn lemma_text_reads_back(message: Seq<char>)
    requires
        all_ascii(message),
        0 < message.len() < 256,
    ensures
        pack_spec(ascii_bytes(message)).len() == (7 * message.len() + 7) / 8,
        septets_text(pack_spec(ascii_bytes(message)), message.len()) == message,
{
    let g = ascii_bytes(message);
    let p = pack_spec(g);
    crate::septets::lemma_pack_unpack_roundtrip(g);
    let tx = septets_text(p, message.len());
    let lim = crate::septets::unpack_limited_spec(p, message.len());
    assert(crate::septets::unpack_spec(p).len() == crate::septets::unpacked_len(p.len()));
    assert(lim.len() == message.len());
    assert forall|i: int| 0 <= i < message.len() implies #[trigger] tx[i] == message[i] by {
        let c = message[i];
        assert((c as u32) < 128);
        assert(g[i] == c as u8);
        let x = g[i];
        lemma_ascii_char_byte(c, x);
        assert(x < 128 ==> x & 0x7F == x) by (bit_vector);
        assert(crate::septets::unpack_spec(p)[i] == x & 0x7F);
        assert(lim[i] == crate::septets::unpack_spec(p)[i]);
        assert(tx[i] == lim[i] as char);
    }
    assert(tx =~= message);
}

proof fn lemma_recipient_reads_back(n: Seq<char>)
    requires
        is_valid_phone(n),
    ensures
        address_text(hex_digits_bytes(encode_phone_spec(n)), digit_count(n), address_type(n)) == n,
        hex_digits_bytes(encode_phone_spec(n)).len() == (digit_count(n) + 1) / 2,
{
    lemma_phone_field(n);
    let at = address_type(n);
    assert(0x91u8 & 0x70 == 0x10) by (bit_vector);
    assert(0x81u8 & 0x70 == 0x00) by (bit_vector);
    if n[0] == '+' {
        assert(seq!['+'] + n.drop_first() == n);
    }
}

/// A PDU written for a recipient (digits with an optional leading '+'),
/// read the way received messages are read, gives back that recipient, no
/// time stamp, the text (none for a ping) and the data coding scheme; the
/// text goes out as 7-bit characters, so any ASCII text comes back whole.
pub proof fn lemma_submit_reads_back(
    n: Seq<char>,
    message: Seq<char>,
    dcs: u8,
    delivery_report: bool,
    invisible: bool,
)
    requires
        is_valid_phone(n),
        digit_count(n) < 256,
        all_ascii(message),
        message.len() < 256,
        !is_ucs2_dcs(dcs),
    ensures
        sms_fields(decode_hex_spec(submit_pdu_text(n, message, dcs, delivery_report, invisible)))
            == (n, Seq::<char>::empty(), if invisible {
            Seq::<char>::empty()
        } else {
            message
        }, dcs),
        hex_windows_whole(submit_pdu_text(n, message, dcs, delivery_report, invisible)),
{
    assert(hex_windows_whole(submit_pdu_text(n, message, dcs, delivery_report, invisible))) by {
        lemma_submit_text_hex(n, message, dcs, delivery_report, invisible);
        crate::hex::lemma_hex_text_whole(
            submit_pdu_text(n, message, dcs, delivery_report, invisible),
        );
    }
    lemma_submit_bytes(n, message, dcs, delivery_report, invisible);
    lemma_recipient_reads_back(n);
    let fo = submit_first_octet(delivery_report);
    let dc = digit_count(n);
    let at = address_type(n);
    let be = hex_digits_bytes(encode_phone_spec(n));
    let k: int = be.len() as int;
    let ub = user_data_bytes(message, invisible);
    let b = submit_bytes(n, message, dcs, delivery_report, invisible);
    assert(b.len() == 7 + k + (ub.len() - 1));
    assert(b[0] == fo && b[1] == 0 && b[2] == dc as u8 && b[3] == at);
    assert(b.subrange(4, 4 + k) =~= be);
    assert(b[5 + k] == dcs && b[6 + k] == ub[0]);
    assert(tpdu_offset(b) == 0);
    assert(fo & 0x03 == 0x01) by {
        assert(0x01u8 & 0x03 == 0x01) by (bit_vector);
        assert(0x21u8 & 0x03 == 0x01) by (bit_vector);
    }
    assert(0x91u8 & 0x70 == 0x10) by (bit_vector);
    assert(0x81u8 & 0x70 == 0x00) by (bit_vector);
    if !(invisible || message.len() == 0) {
        lemma_text_reads_back(message);
        assert(b.subrange(7 + k, b.len() as int) =~= pack_spec(ascii_bytes(message)));
    }
}

} // verus!
