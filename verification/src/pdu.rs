//! SMS PDU fields (3GPP TS 23.040): semi-octet phone numbers, service centre
//! time stamps, user data in GSM 7-bit or UCS2, and the SMS-DELIVER /
//! SMS-SUBMIT layout that the inbox reads.

use vstd::prelude::*;
use vstd::slice::slice_subrange;

use crate::hex::{decode_hex, decode_hex_spec, hex_pairs, hex_source, hex_windows_whole, radix16_pair};
use crate::septets::{decode_7bit_septets, unpack_limited_spec};
use crate::text::{
    chars_of, decimal, decimal2, digit_char, is_ws, trim_spec, push_decimal, push_decimal2, push_str, str_eq,
    string_of, string_push, utf8_len_is_odd,
};

verus! {

// ---------------------------------------------------------------------------
// Semi-octet phone numbers
// ---------------------------------------------------------------------------

/// The decimal text of the two nibbles of an address byte, low nibble
/// first; a high nibble of 0xF is filler and prints nothing.
pub open spec fn semi_octet_text(b: u8) -> Seq<char> {
    let lo = (b % 16) as nat;
    let hi = (b / 16) as nat;
    if hi != 15 {
        decimal(lo) + decimal(hi)
    } else {
        decimal(lo)
    }
}

pub open spec fn semi_octets_text(data: Seq<u8>) -> Seq<char>
    decreases data.len(),
{
    if data.len() == 0 {
        Seq::empty()
    } else {
        semi_octets_text(data.drop_last()) + semi_octet_text(data.last())
    }
}

/// The septets that whole octets hold: `8 * len / 7`, padding bits left
/// out.
pub open spec fn whole_septets(len: nat) -> nat {
    len * 8 / 7
}

/// An address read from its octets: an alphanumeric one (type of number 5)
/// is GSM 7-bit text, as many characters as the octets hold whole septets;
/// any other is a phone number in semi-octets, international numbers (type
/// of number 1) with a leading '+'.
pub open spec fn phone_number_text(data: Seq<u8>, addr_type: u8) -> Seq<char> {
    if addr_type & 0x70 == 0x50 {
        unpack_limited_spec(data, whole_septets(data.len())).map_values(
            |b: u8| crate::gsm::gsm_char(b),
        )
    } else if addr_type & 0x70 == 0x10 {
        seq!['+'] + semi_octets_text(data)
    } else {
        semi_octets_text(data)
    }
}

/// Decodes an address: alphanumeric text, or a semi-octet phone number.
pub fn decode_phone_number(data: &[u8], addr_type: u8) -> (phone: String)
    requires
        addr_type & 0x70 == 0x50 ==> data.len() <= usize::MAX / 8,
    ensures
        phone@ == phone_number_text(data@, addr_type),
{
    if addr_type & 0x70 == 0x50 {
        let m = data.len();
        let n: usize = m * 8 / 7;
        assert(m == 0 || 8 * (m - 1) < 7 * n + 64) by (nonlinear_arith)
            requires
                n == m * 8 / 7,
        ;
        let septets = decode_7bit_septets(data, n);
        return crate::gsm::gsm_decode(septets.as_slice());
    }
    let mut phone = String::new();
    if addr_type & 0x70 == 0x10 {
        string_push(&mut phone, '+');
    }
    let ghost pre = phone@;
    let mut i: usize = 0;
    while i < data.len()
        invariant
            0 <= i <= data.len(),
            phone@ == pre + semi_octets_text(data@.take(i as int)),
        decreases data.len() - i,
    {
        let byte = data[i];
        let d1 = byte & 0x0F;
        let d2 = (byte >> 4) & 0x0F;
        proof {
            lemma_nibbles(byte);
        }
        push_decimal(&mut phone, d1 as u32);
        if d2 != 0x0F {
            push_decimal(&mut phone, d2 as u32);
        }
        i = i + 1;
        assert(data@.take(i as int).drop_last() == data@.take(i - 1));
    }
    assert(data@.take(data.len() as int) == data@);
    phone
}

/// An originator or recipient address: alphanumeric addresses (type of
/// number 5) hold GSM 7-bit text of `addr_len * 4 / 7` septets, where
/// `addr_len` counts semi-octets; any other address is a phone number.
pub open spec fn address_text(data: Seq<u8>, addr_len: nat, addr_type: u8) -> Seq<char> {
    if addr_type & 0x70 == 0x50 {
        unpack_limited_spec(data, addr_len * 4 / 7).map_values(|b: u8| crate::gsm::gsm_char(b))
    } else {
        phone_number_text(data, addr_type)
    }
}

/// Decodes an address of `addr_len` semi-octets held in `data`.
pub fn decode_address(data: &[u8], addr_len: u8, addr_type: u8) -> (text: String)
    requires
        data.len() == (addr_len as int + 1) / 2,
    ensures
        text@ == address_text(data@, addr_len as nat, addr_type),
{
    if addr_type & 0x70 == 0x50 {
        let n: usize = (addr_len as usize) * 4 / 7;
        assert(data.len() == 0 || 8 * (data.len() - 1) < 7 * n + 64) by (nonlinear_arith)
            requires
                data.len() == (addr_len as int + 1) / 2,
                n == (addr_len as int) * 4 / 7,
        ;
        let septets = decode_7bit_septets(data, n);
        crate::gsm::gsm_decode(septets.as_slice())
    } else {
        decode_phone_number(data, addr_type)
    }
}

/// Every character of the number, '+' removed.
pub open spec fn without_plus(s: Seq<char>) -> Seq<char>
    decreases s.len(),
{
    if s.len() == 0 {
        Seq::empty()
    } else if s.last() != '+' {
        without_plus(s.drop_last()).push(s.last())
    } else {
        without_plus(s.drop_last())
    }
}

/// Swaps every pair of characters; a last unpaired character is followed
/// by 'F'.
pub open spec fn swap_pairs(s: Seq<char>) -> Seq<char>
    decreases s.len(),
{
    if s.len() == 0 {
        Seq::empty()
    } else if s.len() == 1 {
        seq![s[0], 'F']
    } else {
        seq![s[1], s[0]] + swap_pairs(s.subrange(2, s.len() as int))
    }
}

/// The semi-octet form of a phone number: '+' signs removed, an 'F' added
/// when the UTF-8 length is odd, then every pair of characters swapped.
pub open spec fn encode_phone_spec(phone: Seq<char>) -> Seq<char> {
    let p = without_plus(phone);
    let q = if vstd::utf8::encode_utf8(p).len() % 2 == 1 {
        p.push('F')
    } else {
        p
    };
    swap_pairs(q)
}

proof fn lemma_swap_pairs_step(s: Seq<char>, i: int)
    requires
        0 <= i < s.len(),
    ensures
        swap_pairs(s.subrange(i, s.len() as int)) == if i + 1 < s.len() {
            seq![s[i + 1], s[i]] + swap_pairs(s.subrange(i + 2, s.len() as int))
        } else {
            seq![s[i], 'F']
        },
{
    let t = s.subrange(i, s.len() as int);
    if i + 1 < s.len() {
        assert(t.subrange(2, t.len() as int) =~= s.subrange(i + 2, s.len() as int));
    }
}

fn swap_pairs_from(cs: &[char], i: usize, out: &mut String)
    requires
        i <= cs.len(),
    ensures
        final(out)@ == old(out)@ + swap_pairs(cs@.subrange(i as int, cs@.len() as int)),
    decreases cs.len() - i,
{
    if i == cs.len() {
        assert(cs@.subrange(i as int, cs@.len() as int) =~= Seq::<char>::empty());
        return;
    }
    proof {
        lemma_swap_pairs_step(cs@, i as int);
    }
    if i + 1 < cs.len() {
        string_push(out, cs[i + 1]);
        string_push(out, cs[i]);
        swap_pairs_from(cs, i + 2, out);
    } else {
        string_push(out, cs[i]);
        string_push(out, 'F');
    }
}

/// Encodes a phone number in semi-octets (the TP-DA digits of a PDU).
pub fn encode_phone(phone: &str) -> (encoded: String)
    ensures
        encoded@ == encode_phone_spec(phone@),
{
    let cs = chars_of(phone);
    let mut kept: Vec<char> = Vec::new();
    let mut i: usize = 0;
    while i < cs.len()
        invariant
            0 <= i <= cs.len(),
            cs@ == phone@,
            kept@ == without_plus(cs@.take(i as int)),
        decreases cs.len() - i,
    {
        assert(cs@.take(i + 1).drop_last() == cs@.take(i as int));
        if cs[i] != '+' {
            kept.push(cs[i]);
        }
        i = i + 1;
    }
    assert(cs@.take(cs.len() as int) == cs@);
    if utf8_len_is_odd(&kept) {
        kept.push('F');
    }
    let mut encoded = String::new();
    swap_pairs_from(&kept, 0, &mut encoded);
    assert(kept@.subrange(0, kept@.len() as int) == kept@);
    encoded
}

// ---------------------------------------------------------------------------
// Time stamps
// ---------------------------------------------------------------------------

/// A swapped-nibble BCD byte: the low nibble is the tens digit.
pub open spec fn bcd(b: u8) -> nat {
    ((b % 16) * 10 + b / 16) as nat
}

/// The 7-byte service centre time stamp as
/// `20YY-MM-DD hh:mm:ss ±Q` where `Q` is the quarter-hour zone field divided
/// by 4 and the sign is '+' when bit 7 of the zone byte is set; fewer than
/// 7 bytes read as "Unknown".
pub open spec fn timestamp_text(data: Seq<u8>) -> Seq<char> {
    if data.len() < 7 {
        "Unknown"@
    } else {
        let tz = ((data[6] % 16) * 10 + data[6] / 16) as nat;
        seq!['2', '0'] + decimal2(bcd(data[0])) + seq!['-'] + decimal2(bcd(data[1])) + seq!['-']
            + decimal2(bcd(data[2])) + seq![' '] + decimal2(bcd(data[3])) + seq![':']
            + decimal2(bcd(data[4])) + seq![':'] + decimal2(bcd(data[5])) + seq![' ']
            + seq![
            if data[6] & 0x80 != 0 {
                '+'
            } else {
                '-'
            },
        ] + decimal(tz / 4)
    }
}

/// Every character of the text is ASCII.
pub open spec fn ascii_text(t: Seq<char>) -> bool {
    forall|i: int| 0 <= i < t.len() ==> (#[trigger] t[i] as u32) < 128
}

proof fn lemma_decimal_ascii(n: nat)
    ensures
        ascii_text(decimal(n)),
    decreases n,
{
    if n >= 10 {
        lemma_decimal_ascii(n / 10);
    }
}

proof fn lemma_ascii_concat(a: Seq<char>, b: Seq<char>)
    requires
        ascii_text(a),
        ascii_text(b),
    ensures
        ascii_text(a + b),
{
    assert forall|i: int| 0 <= i < (a + b).len() implies ((a + b)[i] as u32) < 128 by {
        if i < a.len() {
            assert((a + b)[i] == a[i]);
        } else {
            assert((a + b)[i] == b[i - a.len()]);
        }
    }
}

proof fn lemma_decimal2_ascii(n: nat)
    ensures
        ascii_text(decimal2(n)),
{
    lemma_decimal_ascii(n);
    if n < 10 {
        assert(decimal(n) == seq![digit_char(n)]);
        assert(decimal(n)[0] == digit_char(n));
        assert(ascii_text(seq!['0']));
        assert(decimal2(n) == seq!['0'] + decimal(n));
        lemma_ascii_concat(seq!['0'], decimal(n));
    }
}

/// A time stamp is ASCII text.
#[verifier::rlimit(30)]
pub proof fn lemma_timestamp_ascii(data: Seq<u8>)
    ensures
        ascii_text(timestamp_text(data)),
{
    reveal_strlit("Unknown");
    if data.len() >= 7 {
        let tz = ((data[6] % 16) * 10 + data[6] / 16) as nat;
        let sign = if data[6] & 0x80 != 0 {
            '+'
        } else {
            '-'
        };
        lemma_decimal_ascii(tz / 4);
        lemma_decimal2_ascii(bcd(data[0]));
        lemma_decimal2_ascii(bcd(data[1]));
        lemma_decimal2_ascii(bcd(data[2]));
        lemma_decimal2_ascii(bcd(data[3]));
        lemma_decimal2_ascii(bcd(data[4]));
        lemma_decimal2_ascii(bcd(data[5]));
        assert(ascii_text(seq!['2', '0']));
        assert(ascii_text(seq!['-']));
        assert(ascii_text(seq![' ']));
        assert(ascii_text(seq![':']));
        assert(ascii_text(seq![sign]));
        let p1 = seq!['2', '0'] + decimal2(bcd(data[0]));
        lemma_ascii_concat(seq!['2', '0'], decimal2(bcd(data[0])));
        let p2 = p1 + seq!['-'];
        lemma_ascii_concat(p1, seq!['-']);
        let p3 = p2 + decimal2(bcd(data[1]));
        lemma_ascii_concat(p2, decimal2(bcd(data[1])));
        let p4 = p3 + seq!['-'];
        lemma_ascii_concat(p3, seq!['-']);
        let p5 = p4 + decimal2(bcd(data[2]));
        lemma_ascii_concat(p4, decimal2(bcd(data[2])));
        let p6 = p5 + seq![' '];
        lemma_ascii_concat(p5, seq![' ']);
        let p7 = p6 + decimal2(bcd(data[3]));
        lemma_ascii_concat(p6, decimal2(bcd(data[3])));
        let p8 = p7 + seq![':'];
        lemma_ascii_concat(p7, seq![':']);
        let p9 = p8 + decimal2(bcd(data[4]));
        lemma_ascii_concat(p8, decimal2(bcd(data[4])));
        let p10 = p9 + seq![':'];
        lemma_ascii_concat(p9, seq![':']);
        let p11 = p10 + decimal2(bcd(data[5]));
        lemma_ascii_concat(p10, decimal2(bcd(data[5])));
        let p12 = p11 + seq![' '];
        lemma_ascii_concat(p11, seq![' ']);
        let p13 = p12 + seq![sign];
        lemma_ascii_concat(p12, seq![sign]);
        let p14 = p13 + decimal(tz / 4);
        lemma_ascii_concat(p13, decimal(tz / 4));
        assert(timestamp_text(data) == p14);
    }
}

/// The time stamp read out of a PDU is ASCII text.
pub proof fn lemma_sms_timestamp_ascii(b: Seq<u8>)
    ensures
        ascii_text(sms_fields(b).1),
{
    assert forall|d: Seq<u8>| #![trigger timestamp_text(d)] ascii_text(timestamp_text(d)) by {
        lemma_timestamp_ascii(d);
    }
}

fn bcd_value(b: u8) -> (v: u32)
    ensures
        v == bcd(b),
{
    proof {
        lemma_nibbles(b);
    }
    ((b & 0x0F) as u32) * 10 + (((b >> 4) & 0x0F) as u32)
}

proof fn lemma_nibbles(b: u8)
    ensures
        b & 0x0F == b % 16,
        (b >> 4) & 0x0F == b / 16,
{
    assert(b & 0x0F == b % 16) by (bit_vector);
    assert((b >> 4) & 0x0F == b / 16) by (bit_vector);
}

/// Decodes a service centre time stamp.
pub fn decode_timestamp(data: &[u8]) -> (ts: String)
    ensures
        ts@ == timestamp_text(data@),
{
    if data.len() < 7 {
        proof {
            reveal_strlit("Unknown");
        }
        return string_of("Unknown");
    }
    proof {
        lemma_nibbles(data[0]);
        lemma_nibbles(data[1]);
        lemma_nibbles(data[2]);
        lemma_nibbles(data[3]);
        lemma_nibbles(data[4]);
        lemma_nibbles(data[5]);
        lemma_nibbles(data[6]);
    }
    let tz: u32 = ((data[6] & 0x0F) as u32) * 10 + (((data[6] >> 4) & 0x0F) as u32);
    let mut ts = String::new();
    string_push(&mut ts, '2');
    string_push(&mut ts, '0');
    push_decimal2(&mut ts, bcd_value(data[0]));
    string_push(&mut ts, '-');
    push_decimal2(&mut ts, bcd_value(data[1]));
    string_push(&mut ts, '-');
    push_decimal2(&mut ts, bcd_value(data[2]));
    string_push(&mut ts, ' ');
    push_decimal2(&mut ts, bcd_value(data[3]));
    string_push(&mut ts, ':');
    push_decimal2(&mut ts, bcd_value(data[4]));
    string_push(&mut ts, ':');
    push_decimal2(&mut ts, bcd_value(data[5]));
    string_push(&mut ts, ' ');
    string_push(&mut ts, if data[6] & 0x80 != 0 {
        '+'
    } else {
        '-'
    });
    push_decimal(&mut ts, tz / 4);
    assert(ts@ =~= timestamp_text(data@));
    ts
}

// ---------------------------------------------------------------------------
// User data
// ---------------------------------------------------------------------------

/// UTF-16 decoding, surrogate pairs joined; `None` for an unpaired
/// surrogate.
pub open spec fn utf16_decode(u: Seq<u16>) -> Option<Seq<char>>
    decreases u.len(),
{
    if u.len() == 0 {
        Some(Seq::empty())
    } else if u[0] < 0xD800 || u[0] > 0xDFFF {
        match utf16_decode(u.drop_first()) {
            Some(rest) => Some(seq![(u[0] as u32) as char] + rest),
            None => None,
        }
    } else if u[0] <= 0xDBFF && u.len() >= 2 && 0xDC00 <= u[1] <= 0xDFFF {
        match utf16_decode(u.subrange(2, u.len() as int)) {
            Some(rest) => Some(
                seq![((0x10000 + (u[0] - 0xD800) * 0x400 + (u[1] - 0xDC00)) as u32) as char]
                    + rest,
            ),
            None => None,
        }
    } else {
        None
    }
}

/// Decodes UTF-16 code units (`String::from_utf16`).
/// Claimed: `Some` exactly when the units are valid UTF-16, holding the
/// characters that `utf16_decode` gives.
#[verifier::external_body]
fn string_from_utf16(units: &[u16]) -> (r: Option<String>)
    ensures
        match r {
            Some(s) => utf16_decode(units@) == Some(s@),
            None => utf16_decode(units@) is None,
        },
{
    String::from_utf16(units).ok()
}

/// Big-endian 16-bit units of every whole pair of bytes (a last odd byte is
/// dropped).
pub open spec fn be_units(data: Seq<u8>) -> Seq<u16> {
    Seq::new(data.len() / 2, |i: int| ((data[2 * i] as u16) * 256 + data[2 * i + 1] as u16) as u16)
}

/// UCS2 user data as text, or "(binary)" when it is not valid UTF-16.
pub open spec fn ucs2_text(data: Seq<u8>) -> Seq<char> {
    match utf16_decode(be_units(data)) {
        Some(s) => s,
        None => "(binary)"@,
    }
}

/// Decodes UCS2 user data.
pub fn decode_ucs2(data: &[u8]) -> (text: String)
    ensures
        text@ == ucs2_text(data@),
{
    let mut units: Vec<u16> = Vec::new();
    let n = data.len() / 2;
    let mut i: usize = 0;
    while i < n
        invariant
            n == data.len() / 2,
            0 <= i <= n,
            units@.len() == i,
            forall|t: int| 0 <= t < i ==> units@[t] == #[trigger] be_units(data@)[t],
        decreases n - i,
    {
        units.push((data[2 * i] as u16) * 256 + data[2 * i + 1] as u16);
        i = i + 1;
    }
    assert(units@ =~= be_units(data@));
    match string_from_utf16(&units) {
        Some(s) => s,
        None => {
            proof {
                reveal_strlit("(binary)");
            }
            string_of("(binary)")
        },
    }
}

/// GSM 7-bit user data as text: each septet becomes the character with that
/// code (no alphabet table is applied).
pub open spec fn septets_text(data: Seq<u8>, udl: nat) -> Seq<char> {
    unpack_limited_spec(data, udl).map_values(|b: u8| b as char)
}

/// Decodes at most `udl` septets of 7-bit user data.
pub fn decode_7bit(data: &[u8], udl: usize) -> (text: String)
    requires
        data.len() == 0 || 8 * (data.len() - 1) < 7 * udl + 64,
    ensures
        text@ == septets_text(data@, udl as nat),
{
    let septets = decode_7bit_septets(data, udl);
    let mut text = String::new();
    let mut i: usize = 0;
    while i < septets.len()
        invariant
            0 <= i <= septets.len(),
            text@ == septets@.take(i as int).map_values(|b: u8| b as char),
        decreases septets.len() - i,
    {
        string_push(&mut text, septets[i] as char);
        i = i + 1;
        assert(septets@.take(i as int).map_values(|b: u8| b as char) =~= septets@.take(
            i - 1,
        ).map_values(|b: u8| b as char).push(septets@[i - 1] as char));
    }
    assert(septets@.take(septets.len() as int) == septets@);
    text
}

// ---------------------------------------------------------------------------
// SMS-DELIVER / SMS-SUBMIT
// ---------------------------------------------------------------------------

/// Whether the data coding scheme selects UCS2 user data.
pub open spec fn is_ucs2_dcs(dcs: u8) -> bool {
    dcs == 0x08 || dcs == 0x0C || dcs == 0x18 || dcs == 0x1C
}

/// Where the TPDU starts: past the service centre address when the first
/// byte is a plausible address length (1..19) followed by a type of address
/// byte 0x91, 0x81, 0x80 or 0xA1; else at 0.
pub open spec fn tpdu_offset(b: Seq<u8>) -> int {
    if b.len() > 1 && b[0] > 0 && b[0] < 20 && (b[0] as int) + 1 < b.len() && (b[1] == 0x91
        || b[1] == 0x81 || b[1] == 0x80 || b[1] == 0xA1) {
        1 + b[0] as int
    } else {
        0
    }
}

/// The user data text of a message whose length field is `udl` and whose
/// user data starts at `off`; the user data is cut short when the PDU is.
pub open spec fn user_data_text(b: Seq<u8>, off: int, udl: nat, dcs: u8) -> Seq<char> {
    if udl == 0 {
        Seq::empty()
    } else {
        let ud_bytes: int = if is_ucs2_dcs(dcs) {
            2 * udl as int
        } else {
            (7 * udl as int + 7) / 8
        };
        let ud = if off + ud_bytes <= b.len() {
            b.subrange(off, off + ud_bytes)
        } else {
            b.subrange(off, b.len() as int)
        };
        if off >= b.len() {
            Seq::empty()
        } else if is_ucs2_dcs(dcs) {
            ucs2_text(ud)
        } else {
            septets_text(ud, udl)
        }
    }
}

/// Sender (or recipient), time stamp, text and data coding scheme of an
/// SMS-DELIVER or SMS-SUBMIT PDU given as bytes; fields the PDU is too short
/// to hold are empty (and the coding scheme 0).
pub open spec fn sms_fields(b: Seq<u8>) -> (Seq<char>, Seq<char>, Seq<char>, u8) {
    let none = (Seq::<char>::empty(), Seq::<char>::empty(), Seq::<char>::empty(), 0u8);
    if b.len() == 0 {
        none
    } else {
        let off0 = tpdu_offset(b);
        if off0 >= b.len() {
            none
        } else {
            let mti = b[off0] & 0x03;
            let off1 = if mti == 0x01 {
                off0 + 2
            } else {
                off0 + 1
            };
            if off1 >= b.len() || off1 + 1 >= b.len() {
                none
            } else {
                let addr_len = b[off1] as int;
                let addr_type = b[off1 + 1];
                let off3 = off1 + 2;
                let digits = (addr_len + 1) / 2;
                let phone = if off3 + digits <= b.len() {
                    address_text(b.subrange(off3, off3 + digits), addr_len as nat, addr_type)
                } else {
                    Seq::empty()
                };
                let off4 = off3 + digits;
                if off4 + 1 >= b.len() {
                    (phone, Seq::empty(), Seq::empty(), 0u8)
                } else {
                    let dcs = b[off4 + 1];
                    let off5 = off4 + 2;
                    let has_ts = mti == 0x00 && off5 + 7 <= b.len();
                    let timestamp = if has_ts {
                        timestamp_text(b.subrange(off5, off5 + 7))
                    } else {
                        Seq::empty()
                    };
                    let off6 = if has_ts {
                        off5 + 7
                    } else {
                        off5
                    };
                    if off6 >= b.len() {
                        (phone, timestamp, Seq::empty(), dcs)
                    } else {
                        let udl = b[off6] as nat;
                        (phone, timestamp, user_data_text(b, off6 + 1, udl, dcs), dcs)
                    }
                }
            }
        }
    }
}

/// Reads the user data of a message.
fn user_data(b: &[u8], off: usize, udl: u8, dcs: u8) -> (text: String)
    ensures
        text@ == user_data_text(b@, off as int, udl as nat, dcs),
{
    if udl == 0 {
        return String::new();
    }
    if off >= b.len() {
        return String::new();
    }
    let ucs = dcs == 0x08 || dcs == 0x0C || dcs == 0x18 || dcs == 0x1C;
    let ud_bytes: usize = if ucs {
        2 * (udl as usize)
    } else {
        (7 * (udl as usize) + 7) / 8
    };
    let end = if ud_bytes <= b.len() - off {
        off + ud_bytes
    } else {
        b.len()
    };
    let ud = slice_subrange(b, off, end);
    if ucs {
        decode_ucs2(ud)
    } else {
        decode_7bit(ud, udl as usize)
    }
}

/// Decodes an SMS-DELIVER or SMS-SUBMIT PDU given as hex text into sender
/// (or recipient), time stamp, text and data coding scheme.
pub fn decode_sms_simple(pdu_hex: &str) -> (fields: (String, String, String, u8))
    requires
        hex_windows_whole(pdu_hex@),
    ensures
        ({
            let f = sms_fields(decode_hex_spec(pdu_hex@));
            fields.0@ == f.0 && fields.1@ == f.1 && fields.2@ == f.2 && fields.3 == f.3
        }),
{
    let b = decode_hex(pdu_hex);
    let ghost bs = b@;
    let n = b.len();
    if n == 0 {
        return (String::new(), String::new(), String::new(), 0);
    }
    let mut off: usize = 0;
    if n > 1 && b[0] > 0 && b[0] < 20 && (b[0] as usize) + 1 < n && (b[1] == 0x91 || b[1] == 0x81
        || b[1] == 0x80 || b[1] == 0xA1) {
        off = 1 + b[0] as usize;
    }
    assert(off == tpdu_offset(bs));
    if off >= n {
        return (String::new(), String::new(), String::new(), 0);
    }
    let mti = b[off] & 0x03;
    let off1: usize = if mti == 0x01 {
        off + 2
    } else {
        off + 1
    };
    if off1 >= n || off1 + 1 >= n {
        return (String::new(), String::new(), String::new(), 0);
    }
    let addr_len = b[off1] as usize;
    let addr_type = b[off1 + 1];
    let off3 = off1 + 2;
    let digits = (addr_len + 1) / 2;
    let phone = if digits <= n - off3 {
        decode_address(slice_subrange(b.as_slice(), off3, off3 + digits), b[off1], addr_type)
    } else {
        String::new()
    };
    if digits > n - off3 || off3 + digits + 1 >= n {
        return (phone, String::new(), String::new(), 0);
    }
    let off4 = off3 + digits;
    let dcs = b[off4 + 1];
    let off5 = off4 + 2;
    let has_ts = mti == 0x00 && off5 <= n && 7 <= n - off5;
    let timestamp = if has_ts {
        decode_timestamp(slice_subrange(b.as_slice(), off5, off5 + 7))
    } else {
        String::new()
    };
    let off6 = if has_ts {
        off5 + 7
    } else {
        off5
    };
    if off6 >= n {
        return (phone, timestamp, String::new(), dcs);
    }
    let udl = b[off6];
    let message = user_data(b.as_slice(), off6 + 1, udl, dcs);
    (phone, timestamp, message, dcs)
}

// ---------------------------------------------------------------------------
// Writing and reading back a phone number
// ---------------------------------------------------------------------------

pub open spec fn is_dial_digit(c: char) -> bool {
    '0' <= c <= '9'
}

/// The characters of `q` other than the filler 'F'.
pub open spec fn without_filler(q: Seq<char>) -> Seq<char>
    decreases q.len(),
{
    if q.len() == 0 {
        Seq::empty()
    } else if q[0] == 'F' {
        without_filler(q.drop_first())
    } else {
        seq![q[0]] + without_filler(q.drop_first())
    }
}

/// A semi-octet text before swapping: digits, with 'F' as filler in second
/// places only.
pub open spec fn semi_octet_source(q: Seq<char>) -> bool {
    &&& q.len() % 2 == 0
    &&& forall|i: int| 0 <= i < q.len() ==> is_dial_digit(#[trigger] q[i]) || (i % 2 == 1 && q[i]
        == 'F')
}

proof fn lemma_semi_octets_front(x: u8, rest: Seq<u8>)
    ensures
        semi_octets_text(seq![x] + rest) == semi_octet_text(x) + semi_octets_text(rest),
    decreases rest.len(),
{
    if rest.len() == 0 {
        assert(seq![x] + rest == seq![x]);
        assert(seq![x].drop_last() == Seq::<u8>::empty());
        assert(seq![x].last() == x);
        assert(semi_octets_text(Seq::<u8>::empty()) == Seq::<char>::empty());
        assert(semi_octets_text(seq![x]) == Seq::<char>::empty() + semi_octet_text(x));
        assert(Seq::<char>::empty() + semi_octet_text(x) == semi_octet_text(x));
        assert(semi_octet_text(x) + Seq::<char>::empty() == semi_octet_text(x));
    } else {
        lemma_semi_octets_front(x, rest.drop_last());
        assert((seq![x] + rest).drop_last() == seq![x] + rest.drop_last());
        assert((seq![x] + rest).last() == rest.last());
        let a = semi_octet_text(x);
        let m = semi_octets_text(rest.drop_last());
        let z = semi_octet_text(rest.last());
        assert(semi_octets_text(rest) == m + z);
        assert(semi_octets_text(seq![x] + rest) == a + m + z);
        assert(a + m + z == a + (m + z));
    }
}

proof fn lemma_digit_text(c: char)
    requires
        is_dial_digit(c),
    ensures
        decimal((c as u32 - 48) as nat) == seq![c],
{
    let n = (c as u32 - 48) as nat;
    assert(digit_char(n) == c);
}

proof fn lemma_pair_byte(h: u8, l: u8)
    requires
        h < 16,
        l < 16,
    ensures
        (h * 16 + l) as u8 % 16 == l,
        (h * 16 + l) as u8 / 16 == h,
{
    assert(h * 16 + l < 256) by (nonlinear_arith)
        requires
            h < 16,
            l < 16,
    ;
}

/// Value of a digit or 'F' as a hex digit.
pub open spec fn nibble(c: char) -> u8 {
    if c == 'F' {
        15
    } else {
        (c as u32 - 48) as u8
    }
}

proof fn lemma_swap_read_back(q: Seq<char>)
    requires
        semi_octet_source(q),
    ensures
        swap_pairs(q).len() == q.len(),
        forall|i: int| 0 <= i < q.len() ==> is_dial_digit(#[trigger] swap_pairs(q)[i]) || swap_pairs(
            q,
        )[i] == 'F',
        vstd::utf8::is_ascii_chars(swap_pairs(q)),
        semi_octets_text(hex_pairs(Seq::new(q.len(), |i: int| swap_pairs(q)[i] as u8)))
            == without_filler(q),
    decreases q.len(),
{
    if q.len() == 0 {
        assert(Seq::new(0, |i: int| swap_pairs(q)[i] as u8) == Seq::<u8>::empty());
    } else {
        let r = q.subrange(2, q.len() as int);
        assert(semi_octet_source(r)) by {
            assert forall|i: int| 0 <= i < r.len() implies is_dial_digit(#[trigger] r[i]) || (i % 2
                == 1 && r[i] == 'F') by {
                assert(r[i] == q[i + 2]);
            }
        }
        lemma_swap_read_back(r);
        let a = q[0];
        let c = q[1];
        assert(is_dial_digit(a));
        let e = swap_pairs(q);
        assert(e == seq![c, a] + swap_pairs(r));
        let er = swap_pairs(r);
        let b = Seq::new(q.len(), |i: int| e[i] as u8);
        let br = Seq::new(r.len(), |i: int| er[i] as u8);
        assert(b.subrange(2, b.len() as int) == br);
        assert(b[0] == c as u8 && b[1] == a as u8);
        let x = (nibble(c) * 16 + nibble(a)) as u8;
        lemma_pair_byte(nibble(c), nibble(a));
        assert(radix16_pair(b[0], b[1]) == Some(x));
        assert(hex_pairs(b) == seq![x] + hex_pairs(br));
        lemma_semi_octets_front(x, hex_pairs(br));
        lemma_digit_text(a);
        assert(q.drop_first()[0] == c);
        assert(q.drop_first().drop_first() == r);
        let w = without_filler(r);
        assert(semi_octets_text(hex_pairs(br)) == w);
        assert(semi_octets_text(hex_pairs(b)) == semi_octet_text(x) + w);
        if c == 'F' {
            assert(semi_octet_text(x) == seq![a]);
            assert(without_filler(q.drop_first()) == w);
            assert(without_filler(q) == seq![a] + w);
        } else {
            lemma_digit_text(c);
            assert(semi_octet_text(x) == seq![a, c]);
            assert(without_filler(q.drop_first()) == seq![c] + w);
            assert(without_filler(q) == seq![a] + (seq![c] + w));
            assert(seq![a] + (seq![c] + w) == seq![a, c] + w);
        }
        assert forall|i: int| 0 <= i < q.len() implies is_dial_digit(#[trigger] e[i]) || e[i]
            == 'F' by {
            if i >= 2 {
                assert(e[i] == er[i - 2]);
            }
        }
        assert(vstd::utf8::is_ascii_chars(e)) by {
            assert forall|i: int| 0 <= i < e.len() implies '\0' <= #[trigger] e[i] <= '\u{7f}' by {
                if i >= 2 {
                    assert(e[i] == er[i - 2]);
                }
            }
        }
    }
}

proof fn lemma_without_plus_digits(phone: Seq<char>)
    requires
        forall|i: int| 0 <= i < phone.len() ==> is_dial_digit(#[trigger] phone[i]) || phone[i]
            == '+',
    ensures
        forall|i: int| 0 <= i < without_plus(phone).len() ==> is_dial_digit(
            #[trigger] without_plus(phone)[i],
        ),
    decreases phone.len(),
{
    if phone.len() > 0 {
        let p = phone.drop_last();
        assert forall|i: int| 0 <= i < p.len() implies is_dial_digit(#[trigger] p[i]) || p[i]
            == '+' by {
            assert(p[i] == phone[i]);
        }
        lemma_without_plus_digits(p);
        assert(phone.last() == phone[phone.len() - 1]);
        let w = without_plus(p);
        if phone.last() != '+' {
            assert(without_plus(phone) == w.push(phone.last()));
            assert forall|i: int| 0 <= i < without_plus(phone).len() implies is_dial_digit(
                #[trigger] without_plus(phone)[i],
            ) by {
                if i < w.len() {
                    assert(without_plus(phone)[i] == w[i]);
                }
            }
        } else {
            assert(without_plus(phone) == w);
        }
    }
}

proof fn lemma_without_filler_digits(d: Seq<char>)
    requires
        forall|i: int| 0 <= i < d.len() ==> is_dial_digit(#[trigger] d[i]),
    ensures
        without_filler(d) == d,
        without_filler(d.push('F')) == d,
    decreases d.len(),
{
    if d.len() == 0 {
        assert(d.push('F').drop_first() == Seq::<char>::empty());
        assert(d == Seq::<char>::empty());
    } else {
        let t = d.drop_first();
        assert forall|i: int| 0 <= i < t.len() implies is_dial_digit(#[trigger] t[i]) by {
            assert(t[i] == d[i + 1]);
        }
        lemma_without_filler_digits(t);
        assert(d.push('F').drop_first() == t.push('F'));
        assert(d[0] != 'F');
        assert(d.push('F')[0] == d[0]);
        assert(seq![d[0]] + t == d);
    }
}

/// A phone number of digits (with any '+' signs) that `encode_phone` writes
/// reads back, under any type of number but the alphanumeric one, as its
/// digits, led by '+' for an international number; `encode_phone` ignores a
/// leading '+'.
pub proof fn lemma_phone_roundtrip(phone: Seq<char>, addr_type: u8)
    requires
        forall|i: int| 0 <= i < phone.len() ==> is_dial_digit(#[trigger] phone[i]) || phone[i]
            == '+',
        addr_type & 0x70 != 0x50,
    ensures
        phone_number_text(decode_hex_spec(encode_phone_spec(phone)), addr_type) == (if addr_type
            & 0x70 == 0x10 {
            seq!['+']
        } else {
            Seq::empty()
        }) + without_plus(phone),
        encode_phone_spec(seq!['+'] + phone) == encode_phone_spec(phone),
{
    assert(without_plus(seq!['+'] + phone) == without_plus(phone)) by {
        lemma_without_plus_front_plus(phone);
    }
    assert(Seq::<char>::empty() + without_plus(phone) == without_plus(phone));
    let d = without_plus(phone);
    lemma_without_plus_digits(phone);
    assert(vstd::utf8::is_ascii_chars(d));
    vstd::utf8::is_ascii_chars_encode_utf8(d);
    let q = if vstd::utf8::encode_utf8(d).len() % 2 == 1 {
        d.push('F')
    } else {
        d
    };
    assert(semi_octet_source(q)) by {
        assert forall|i: int| 0 <= i < q.len() implies is_dial_digit(#[trigger] q[i]) || (i % 2
            == 1 && q[i] == 'F') by {
            if i < d.len() {
                assert(q[i] == d[i]);
            }
        }
    }
    lemma_without_filler_digits(d);
    assert(without_filler(q) == d);
    let e = swap_pairs(q);
    assert(e == encode_phone_spec(phone));
    lemma_swap_read_back(q);
    vstd::utf8::is_ascii_chars_encode_utf8(e);
    let eb = vstd::utf8::encode_utf8(e);
    assert(eb == Seq::new(q.len(), |i: int| e[i] as u8));
    assert(trim_spec(e) == e) by {
        if e.len() > 0 {
            assert(!is_ws(e[0]));
            assert(!is_ws(e.last()));
            assert(e.subrange(0, e.len() as int) == e);
        }
    }
    assert(hex_source(e) == eb);
}

proof fn lemma_without_plus_front_plus(s: Seq<char>)
    ensures
        without_plus(seq!['+'] + s) == without_plus(s),
    decreases s.len(),
{
    if s.len() == 0 {
        assert(seq!['+'] + s == seq!['+']);
        assert(seq!['+'].drop_last() == Seq::<char>::empty());
        assert(seq!['+'].last() == '+');
        assert(without_plus(seq!['+']) == without_plus(Seq::<char>::empty()));
    } else {
        lemma_without_plus_front_plus(s.drop_last());
        let t = seq!['+'] + s;
        assert(t.drop_last() == seq!['+'] + s.drop_last());
        assert(t.last() == s.last());
        if s.last() != '+' {
            assert(without_plus(t) == without_plus(t.drop_last()).push(t.last()));
            assert(without_plus(s) == without_plus(s.drop_last()).push(s.last()));
        } else {
            assert(without_plus(t) == without_plus(t.drop_last()));
            assert(without_plus(s) == without_plus(s.drop_last()));
        }
    }
}

/// The semi-octet text `encode_phone` writes for a number of digits with
/// an optional leading '+': even hex text whose bytes read back as the
/// digits.
pub proof fn lemma_phone_field(n: Seq<char>)
    requires
        forall|i: int| 0 <= i < n.len() ==> is_dial_digit(#[trigger] n[i]) || (i == 0 && n[i]
            == '+'),
    ensures
        crate::hex::is_even_hex(encode_phone_spec(n)),
        encode_phone_spec(n).len() == 2 * ((without_plus(n).len() + 1) / 2),
        semi_octets_text(crate::hex::hex_digits_bytes(encode_phone_spec(n))) == without_plus(n),
        without_plus(n) == (if n.len() > 0 && n[0] == '+' {
            n.drop_first()
        } else {
            n
        }),
{
    lemma_without_plus_leading(n);
    let d = without_plus(n);
    lemma_without_plus_digits(n);
    assert(vstd::utf8::is_ascii_chars(d));
    vstd::utf8::is_ascii_chars_encode_utf8(d);
    let q = if vstd::utf8::encode_utf8(d).len() % 2 == 1 {
        d.push('F')
    } else {
        d
    };
    assert(semi_octet_source(q)) by {
        assert forall|i: int| 0 <= i < q.len() implies is_dial_digit(#[trigger] q[i]) || (i % 2
            == 1 && q[i] == 'F') by {
            if i < d.len() {
                assert(q[i] == d[i]);
            }
        }
    }
    lemma_without_filler_digits(d);
    let e = swap_pairs(q);
    lemma_swap_read_back(q);
    assert(crate::hex::is_even_hex(e)) by {
        assert forall|i: int| 0 <= i < e.len() implies crate::hex::is_hex_char(#[trigger] e[i]) by {
            assert(is_dial_digit(e[i]) || e[i] == 'F');
        }
    }
    assert(Seq::new(q.len(), |i: int| e[i] as u8) == crate::hex::char_bytes(e));
    crate::hex::lemma_hex_pairs_of_hex(e);
}

proof fn lemma_without_plus_leading(n: Seq<char>)
    requires
        forall|i: int| 0 <= i < n.len() ==> is_dial_digit(#[trigger] n[i]) || (i == 0 && n[i]
            == '+'),
    ensures
        without_plus(n) == (if n.len() > 0 && n[0] == '+' {
            n.drop_first()
        } else {
            n
        }),
    decreases n.len(),
{
    if n.len() > 0 {
        let p = n.drop_last();
        assert forall|i: int| 0 <= i < p.len() implies is_dial_digit(#[trigger] p[i]) || (i == 0
            && p[i] == '+') by {
            assert(p[i] == n[i]);
        }
        lemma_without_plus_leading(p);
        if n.len() == 1 {
            assert(p == Seq::<char>::empty());
            if n[0] != '+' {
                assert(without_plus(n) == Seq::<char>::empty().push(n[0]));
                assert(n == seq![n[0]]);
            } else {
                assert(n.drop_first() == Seq::<char>::empty());
            }
        } else {
            assert(n.last() == n[n.len() - 1]);
            assert(n.last() != '+');
            if n[0] == '+' {
                assert(p[0] == '+');
                assert(p.drop_first().push(n.last()) == n.drop_first());
            } else {
                assert(p[0] == n[0]);
                assert(p.push(n.last()) == n);
            }
        }
    }
}

/// An SMS-DELIVER PDU: the service centre address (its length first), the
/// first octet, the sender (its length in semi-octets, its type and its
/// octets), the protocol identifier, the data coding scheme, the service
/// centre time stamp, the user data length and the user data.
pub open spec fn deliver_pdu(
    smsc: Seq<u8>,
    first: u8,
    addr_len: u8,
    addr_type: u8,
    addr: Seq<u8>,
    pid: u8,
    dcs: u8,
    ts: Seq<u8>,
    udl: u8,
    ud: Seq<u8>,
) -> Seq<u8> {
    seq![smsc.len() as u8] + smsc + seq![first, addr_len, addr_type] + addr + seq![pid, dcs] + ts
        + seq![udl] + ud
}

/// A received message whose coding scheme is UCS2 (0x08, 0x0C, 0x18 or
/// 0x1C) reads back as its sender, its time stamp, the UTF-16BE text of its
/// user data octets, and that coding scheme. `udl` counts the characters,
/// so it is at least half the number of octets; fewer octets than
/// `2 * udl` are read as they are.
pub proof fn lemma_ucs2_deliver_reads_back(
    smsc: Seq<u8>,
    first: u8,
    addr_len: u8,
    addr_type: u8,
    addr: Seq<u8>,
    pid: u8,
    dcs: u8,
    ts: Seq<u8>,
    udl: u8,
    ud: Seq<u8>,
)
    requires
        0 < smsc.len() < 20,
        smsc[0] == 0x91 || smsc[0] == 0x81 || smsc[0] == 0x80 || smsc[0] == 0xA1,
        first & 0x03 == 0,
        addr.len() == (addr_len as int + 1) / 2,
        dcs == 0x08 || dcs == 0x0C || dcs == 0x18 || dcs == 0x1C,
        ts.len() == 7,
        0 < ud.len() <= 2 * udl,
    ensures
        sms_fields(deliver_pdu(smsc, first, addr_len, addr_type, addr, pid, dcs, ts, udl, ud)) == (
            address_text(addr, addr_len as nat, addr_type),
            timestamp_text(ts),
            utf16_decode_or_binary(be_units(ud)),
            dcs,
        ),
{
    let b = deliver_pdu(smsc, first, addr_len, addr_type, addr, pid, dcs, ts, udl, ud);
    let l = smsc.len() as int;
    let k = addr.len() as int;
    assert(b.len() == l + k + 14 + ud.len());
    assert(b[0] == smsc.len() as u8 && b[1] == smsc[0]);
    assert(tpdu_offset(b) == 1 + l);
    let off0 = 1 + l;
    assert(b[off0] == first);
    assert(b[off0 + 1] == addr_len && b[off0 + 2] == addr_type);
    let off3 = off0 + 3;
    assert(b.subrange(off3, off3 + k) =~= addr);
    assert(b[off3 + k] == pid && b[off3 + k + 1] == dcs);
    assert(b.subrange(off3 + k + 2, off3 + k + 9) =~= ts);
    assert(b[off3 + k + 9] == udl);
    assert(b.subrange(off3 + k + 10, b.len() as int) =~= ud);
}

/// UTF-16 text of the units, or "(binary)" where they are not valid UTF-16.
pub open spec fn utf16_decode_or_binary(units: Seq<u16>) -> Seq<char> {
    match utf16_decode(units) {
        Some(s) => s,
        None => "(binary)"@,
    }
}

} // verus!
