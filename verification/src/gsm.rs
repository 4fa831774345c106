//! The GSM 03.38 default alphabet: characters to 7-bit codes and back.

use vstd::prelude::*;

use crate::text::{chars_of, string_push};

verus! {

/// The GSM 03.38 code of a character; a character outside the table keeps
/// the low 8 bits of its code point.
pub open spec fn gsm_code(c: char) -> u8 {
    match c {
        '@' => 0x00,
        '£' => 0x01,
        '$' => 0x02,
        '¥' => 0x03,
        'è' => 0x04,
        'é' => 0x05,
        'ù' => 0x06,
        'ì' => 0x07,
        'ò' => 0x08,
        'Ç' => 0x09,
        '\n' => 0x0A,
        'Ø' => 0x0B,
        'ø' => 0x0C,
        '\r' => 0x0D,
        'Å' => 0x0E,
        'å' => 0x0F,
        'Δ' => 0x10,
        '_' => 0x11,
        'Φ' => 0x12,
        'Γ' => 0x13,
        'Λ' => 0x14,
        'Ω' => 0x15,
        'Π' => 0x16,
        'Ψ' => 0x17,
        'Σ' => 0x18,
        'Θ' => 0x19,
        'Ξ' => 0x1A,
        '\x1b' => 0x1B,
        'Æ' => 0x1C,
        'æ' => 0x1D,
        'ß' => 0x1E,
        'É' => 0x1F,
        ' ' => 0x20,
        '!' => 0x21,
        '"' => 0x22,
        '#' => 0x23,
        '¤' => 0x24,
        '%' => 0x25,
        '&' => 0x26,
        '\'' => 0x27,
        '(' => 0x28,
        ')' => 0x29,
        '*' => 0x2A,
        '+' => 0x2B,
        ',' => 0x2C,
        '-' => 0x2D,
        '.' => 0x2E,
        '/' => 0x2F,
        x if '0' <= x && x <= '9' => (c as u32) as u8,
        ':' => 0x3A,
        ';' => 0x3B,
        '<' => 0x3C,
        '=' => 0x3D,
        '>' => 0x3E,
        '?' => 0x3F,
        '¡' => 0x40,
        x if 'A' <= x && x <= 'Z' => (c as u32) as u8,
        'Ä' => 0x5B,
        'Ö' => 0x5C,
        'Ñ' => 0x5D,
        'Ü' => 0x5E,
        '§' => 0x5F,
        '¿' => 0x60,
        x if 'a' <= x && x <= 'z' => (c as u32) as u8,
        'ä' => 0x7B,
        'ö' => 0x7C,
        'ñ' => 0x7D,
        'ü' => 0x7E,
        'à' => 0x7F,
        _ => c as u8,
    }
}

/// The character of a GSM 03.38 code; a byte above 0x7F is read as the
/// Latin-1 character with that code.
pub open spec fn gsm_char(b: u8) -> char {
    match b {
        0x00 => '@',
        0x01 => '£',
        0x02 => '$',
        0x03 => '¥',
        0x04 => 'è',
        0x05 => 'é',
        0x06 => 'ù',
        0x07 => 'ì',
        0x08 => 'ò',
        0x09 => 'Ç',
        0x0A => '\n',
        0x0B => 'Ø',
        0x0C => 'ø',
        0x0D => '\r',
        0x0E => 'Å',
        0x0F => 'å',
        0x10 => 'Δ',
        0x11 => '_',
        0x12 => 'Φ',
        0x13 => 'Γ',
        0x14 => 'Λ',
        0x15 => 'Ω',
        0x16 => 'Π',
        0x17 => 'Ψ',
        0x18 => 'Σ',
        0x19 => 'Θ',
        0x1A => 'Ξ',
        0x1B => '\x1b',
        0x1C => 'Æ',
        0x1D => 'æ',
        0x1E => 'ß',
        0x1F => 'É',
        x if 0x20 <= x && x <= 0x23 => b as char,
        0x24 => '¤',
        x if 0x25 <= x && x <= 0x3F => b as char,
        0x40 => '¡',
        x if 0x41 <= x && x <= 0x5A => b as char,
        0x5B => 'Ä',
        0x5C => 'Ö',
        0x5D => 'Ñ',
        0x5E => 'Ü',
        0x5F => '§',
        0x60 => '¿',
        x if 0x61 <= x && x <= 0x7A => b as char,
        0x7B => 'ä',
        0x7C => 'ö',
        0x7D => 'ñ',
        0x7E => 'ü',
        0x7F => 'à',
        _ => b as char,
    }
}

/// The character set that the GSM 7-bit alphabet can carry: every character
/// that some 7-bit code stands for.
pub open spec fn in_gsm_alphabet(c: char) -> bool {
    exists|b: u8| b < 128 && #[trigger] gsm_char(b) == c
}

pub fn gsm_encode_char(c: char) -> (b: u8)
    ensures
        b == gsm_code(c),
{
    match c {
        '@' => 0x00,
        '£' => 0x01,
        '$' => 0x02,
        '¥' => 0x03,
        'è' => 0x04,
        'é' => 0x05,
        'ù' => 0x06,
        'ì' => 0x07,
        'ò' => 0x08,
        'Ç' => 0x09,
        '\n' => 0x0A,
        'Ø' => 0x0B,
        'ø' => 0x0C,
        '\r' => 0x0D,
        'Å' => 0x0E,
        'å' => 0x0F,
        'Δ' => 0x10,
        '_' => 0x11,
        'Φ' => 0x12,
        'Γ' => 0x13,
        'Λ' => 0x14,
        'Ω' => 0x15,
        'Π' => 0x16,
        'Ψ' => 0x17,
        'Σ' => 0x18,
        'Θ' => 0x19,
        'Ξ' => 0x1A,
        '\x1b' => 0x1B,
        'Æ' => 0x1C,
        'æ' => 0x1D,
        'ß' => 0x1E,
        'É' => 0x1F,
        ' ' => 0x20,
        '!' => 0x21,
        '"' => 0x22,
        '#' => 0x23,
        '¤' => 0x24,
        '%' => 0x25,
        '&' => 0x26,
        '\'' => 0x27,
        '(' => 0x28,
        ')' => 0x29,
        '*' => 0x2A,
        '+' => 0x2B,
        ',' => 0x2C,
        '-' => 0x2D,
        '.' => 0x2E,
        '/' => 0x2F,
        x if '0' <= x && x <= '9' => (c as u32) as u8,
        ':' => 0x3A,
        ';' => 0x3B,
        '<' => 0x3C,
        '=' => 0x3D,
        '>' => 0x3E,
        '?' => 0x3F,
        '¡' => 0x40,
        x if 'A' <= x && x <= 'Z' => (c as u32) as u8,
        'Ä' => 0x5B,
        'Ö' => 0x5C,
        'Ñ' => 0x5D,
        'Ü' => 0x5E,
        '§' => 0x5F,
        '¿' => 0x60,
        x if 'a' <= x && x <= 'z' => (c as u32) as u8,
        'ä' => 0x7B,
        'ö' => 0x7C,
        'ñ' => 0x7D,
        'ü' => 0x7E,
        'à' => 0x7F,
        _ => c as u8,
    }
}

pub fn gsm_decode_byte(b: u8) -> (c: char)
    ensures
        c == gsm_char(b),
{
    match b {
        0x00 => '@',
        0x01 => '£',
        0x02 => '$',
        0x03 => '¥',
        0x04 => 'è',
        0x05 => 'é',
        0x06 => 'ù',
        0x07 => 'ì',
        0x08 => 'ò',
        0x09 => 'Ç',
        0x0A => '\n',
        0x0B => 'Ø',
        0x0C => 'ø',
        0x0D => '\r',
        0x0E => 'Å',
        0x0F => 'å',
        0x10 => 'Δ',
        0x11 => '_',
        0x12 => 'Φ',
        0x13 => 'Γ',
        0x14 => 'Λ',
        0x15 => 'Ω',
        0x16 => 'Π',
        0x17 => 'Ψ',
        0x18 => 'Σ',
        0x19 => 'Θ',
        0x1A => 'Ξ',
        0x1B => '\x1b',
        0x1C => 'Æ',
        0x1D => 'æ',
        0x1E => 'ß',
        0x1F => 'É',
        x if 0x20 <= x && x <= 0x23 => b as char,
        0x24 => '¤',
        x if 0x25 <= x && x <= 0x3F => b as char,
        0x40 => '¡',
        x if 0x41 <= x && x <= 0x5A => b as char,
        0x5B => 'Ä',
        0x5C => 'Ö',
        0x5D => 'Ñ',
        0x5E => 'Ü',
        0x5F => '§',
        0x60 => '¿',
        x if 0x61 <= x && x <= 0x7A => b as char,
        0x7B => 'ä',
        0x7C => 'ö',
        0x7D => 'ñ',
        0x7E => 'ü',
        0x7F => 'à',
        _ => b as char,
    }
}

/// Maps every character of `text` to its GSM 03.38 code.
pub fn gsm_encode(text: &str) -> (codes: Vec<u8>)
    ensures
        codes@ == text@.map_values(|c: char| gsm_code(c)),
{
    let cs = chars_of(text);
    let mut codes: Vec<u8> = Vec::new();
    let mut i: usize = 0;
    while i < cs.len()
        invariant
            0 <= i <= cs.len(),
            cs@ == text@,
            codes@ == cs@.take(i as int).map_values(|c: char| gsm_code(c)),
        decreases cs.len() - i,
    {
        codes.push(gsm_encode_char(cs[i]));
        i = i + 1;
        assert(cs@.take(i as int).map_values(|c: char| gsm_code(c)) =~= cs@.take(i - 1).map_values(
            |c: char| gsm_code(c),
        ).push(gsm_code(cs@[i - 1])));
    }
    assert(cs@.take(cs.len() as int) == cs@);
    codes
}

/// Maps every GSM 03.38 code to its character.
pub fn gsm_decode(data: &[u8]) -> (text: String)
    ensures
        text@ == data@.map_values(|b: u8| gsm_char(b)),
{
    let mut text = String::new();
    let mut i: usize = 0;
    while i < data.len()
        invariant
            0 <= i <= data.len(),
            text@ == data@.take(i as int).map_values(|b: u8| gsm_char(b)),
        decreases data.len() - i,
    {
        string_push(&mut text, gsm_decode_byte(data[i]));
        i = i + 1;
        assert(data@.take(i as int).map_values(|b: u8| gsm_char(b)) =~= data@.take(i - 1).map_values(
            |b: u8| gsm_char(b),
        ).push(gsm_char(data@[i - 1])));
    }
    assert(data@.take(data.len() as int) == data@);
    text
}

/// Every 7-bit code maps to a character whose code is that byte again.
pub proof fn lemma_code_of_char(b: u8)
    requires
        b < 128,
    ensures
        gsm_code(gsm_char(b)) == b,
{
}

/// Encoding a character of the GSM alphabet and decoding the code gives the
/// character back, and the code is a 7-bit value.
pub proof fn lemma_gsm_char_roundtrip(c: char)
    requires
        in_gsm_alphabet(c),
    ensures
        gsm_char(gsm_code(c)) == c,
        gsm_code(c) < 128,
{
    let b = choose|b: u8| b < 128 && #[trigger] gsm_char(b) == c;
    lemma_code_of_char(b);
}

} // verus!
