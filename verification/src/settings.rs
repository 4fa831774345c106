//! The settings file and what the SMS form derives from it: the default
//! settings, the SMS class and data coding scheme chosen in the form, the
//! character counter, and the envelope that keeps the router password
//! sealed in the file.

use vstd::prelude::*;

use crate::text::{
    chars_of, decimal, is_whitespace, is_ws, lowercase, push_decimal_usize, push_str,
    push_string, starts_with, str_eq, str_starts_with, string_from_chars, string_of, to_lower,
};

verus! {

// ---------------------------------------------------------------------------
// The settings file
// ---------------------------------------------------------------------------

#[derive(Debug, Clone)]
pub struct AppConfig {
    pub geometry: String,
}

#[derive(Debug, Clone)]
pub struct SerialConfig {
    pub manual_port: String,
    pub baud: String,
    pub bypass_autodetect: String,
}

#[derive(Debug, Clone)]
pub struct SmsConfig {
    pub phone: String,
    pub sms_class: String,
    pub dcs: String,
    pub delivery_report: String,
    pub log_mode: String,
}

#[derive(Debug, Clone)]
pub struct NetworkConfig {
    pub modem_ip: String,
    pub username: String,
    pub password: String,
    pub switch_mode: String,
}

/// The sections of the settings file.
#[derive(Debug, Clone)]
pub struct AppSettingsFile {
    pub app: AppConfig,
    pub serial: SerialConfig,
    pub sms: SmsConfig,
    pub network: NetworkConfig,
}

/// The label of the default data coding scheme.
pub open spec fn default_dcs() -> Seq<char> {
    "0x50 (Class 0 - 7bit) [OK]"@
}

impl Default for AppSettingsFile {
    /// The settings written when there is no settings file.
    fn default() -> (r: Self)
        ensures
            r.app.geometry@ == "850x720"@,
            r.serial.manual_port@ == ""@,
            r.serial.baud@ == "9600"@,
            r.serial.bypass_autodetect@ == "false"@,
            r.sms.phone@ == ""@,
            r.sms.sms_class@ == "0 (Flash)"@,
            r.sms.dcs@ == default_dcs(),
            r.sms.delivery_report@ == "true"@,
            r.sms.log_mode@ == "system"@,
            r.network.modem_ip@ == "192.168.8.1"@,
            r.network.username@ == "admin"@,
            r.network.password@ == ""@,
            r.network.switch_mode@ == "Debug Mode"@,
    {
        AppSettingsFile {
            app: AppConfig { geometry: string_of("850x720") },
            serial: SerialConfig {
                manual_port: string_of(""),
                baud: string_of("9600"),
                bypass_autodetect: string_of("false"),
            },
            sms: SmsConfig {
                phone: string_of(""),
                sms_class: string_of("0 (Flash)"),
                dcs: string_of("0x50 (Class 0 - 7bit) [OK]"),
                delivery_report: string_of("true"),
                log_mode: string_of("system"),
            },
            network: NetworkConfig {
                modem_ip: string_of("192.168.8.1"),
                username: string_of("admin"),
                password: string_of(""),
                switch_mode: string_of("Debug Mode"),
            },
        }
    }
}

/// What `str::parse::<bool>` accepts, with a fallback for anything else.
pub open spec fn bool_value(s: Seq<char>, fallback: bool) -> bool {
    if s == "true"@ {
        true
    } else if s == "false"@ {
        false
    } else {
        fallback
    }
}

/// Reads a yes/no setting.
pub fn bool_setting(s: &str, fallback: bool) -> (r: bool)
    ensures
        r == bool_value(s@, fallback),
{
    if str_eq(s, "true") {
        true
    } else if str_eq(s, "false") {
        false
    } else {
        fallback
    }
}

/// How a yes/no setting is written.
pub open spec fn bool_text(b: bool) -> Seq<char> {
    if b {
        "true"@
    } else {
        "false"@
    }
}

fn bool_string(b: bool) -> (r: String)
    ensures
        r@ == bool_text(b),
{
    if b {
        string_of("true")
    } else {
        string_of("false")
    }
}

/// What the form holds when the settings are saved.
pub struct FormState {
    pub manual_port: String,
    pub manual_baud: String,
    pub manual_bypass: bool,
    pub phone_number: String,
    pub sms_class_label: String,
    pub dcs_value: String,
    pub delivery_report: bool,
    pub log_mode: String,
    pub modem_ip: String,
    pub modem_user: String,
    pub sealed_password: String,
    pub switch_mode: String,
}

impl AppSettingsFile {
    /// Takes over the form's values; the window geometry stays.
    pub fn take_form(&mut self, form: FormState)
        ensures
            final(self).app.geometry@ == old(self).app.geometry@,
            final(self).serial.manual_port@ == form.manual_port@,
            final(self).serial.baud@ == form.manual_baud@,
            final(self).serial.bypass_autodetect@ == bool_text(form.manual_bypass),
            final(self).sms.phone@ == form.phone_number@,
            final(self).sms.sms_class@ == form.sms_class_label@,
            final(self).sms.dcs@ == form.dcs_value@,
            final(self).sms.delivery_report@ == bool_text(form.delivery_report),
            final(self).sms.log_mode@ == form.log_mode@,
            final(self).network.modem_ip@ == form.modem_ip@,
            final(self).network.username@ == form.modem_user@,
            final(self).network.password@ == form.sealed_password@,
            final(self).network.switch_mode@ == form.switch_mode@,
    {
        self.serial.manual_port = form.manual_port;
        self.serial.baud = form.manual_baud;
        self.serial.bypass_autodetect = bool_string(form.manual_bypass);
        self.sms.phone = form.phone_number;
        self.sms.sms_class = form.sms_class_label;
        self.sms.dcs = form.dcs_value;
        self.sms.delivery_report = bool_string(form.delivery_report);
        self.sms.log_mode = form.log_mode;
        self.network.modem_ip = form.modem_ip;
        self.network.username = form.modem_user;
        self.network.password = form.sealed_password;
        self.network.switch_mode = form.switch_mode;
    }
}

// ---------------------------------------------------------------------------
// SMS class and data coding scheme
// ---------------------------------------------------------------------------

/// The SMS class a saved class label stands for: its first character '1',
/// '2' or '3', else class 0.
pub open spec fn class_of_label(label: Seq<char>) -> usize {
    if label.len() > 0 && label[0] == '1' {
        1
    } else if label.len() > 0 && label[0] == '2' {
        2
    } else if label.len() > 0 && label[0] == '3' {
        3
    } else {
        0
    }
}

/// Reads a saved class label.
pub fn sms_class_of(label: &str) -> (r: usize)
    ensures
        r == class_of_label(label@),
{
    let cs = chars_of(label);
    if cs.len() > 0 && cs[0] == '1' {
        1
    } else if cs.len() > 0 && cs[0] == '2' {
        2
    } else if cs.len() > 0 && cs[0] == '3' {
        3
    } else {
        0
    }
}

/// The recommended data coding scheme of each class.
pub open spec fn dcs_of_class(class: usize) -> Seq<char> {
    if class == 1 {
        "0x11 (Class 1 - 7bit) [OK]"@
    } else if class == 2 {
        "0x12 (Class 2 - 7bit) [OK]"@
    } else if class == 3 {
        "0x13 (Class 3 - 7bit) [OK]"@
    } else {
        default_dcs()
    }
}

/// The data coding scheme that follows a change of class.
pub fn sync_dcs_from_class(class: usize) -> (r: String)
    ensures
        r@ == dcs_of_class(class),
{
    if class == 1 {
        string_of("0x11 (Class 1 - 7bit) [OK]")
    } else if class == 2 {
        string_of("0x12 (Class 2 - 7bit) [OK]")
    } else if class == 3 {
        string_of("0x13 (Class 3 - 7bit) [OK]")
    } else {
        string_of("0x50 (Class 0 - 7bit) [OK]")
    }
}

/// Length of the run of characters other than whitespace from `i` on.
pub open spec fn word_run(s: Seq<char>, i: int) -> nat
    decreases s.len() - i,
{
    if 0 <= i < s.len() && !is_ws(s[i]) {
        1 + word_run(s, i + 1)
    } else {
        0
    }
}

/// Length of the run of whitespace from `i` on.
pub open spec fn space_run(s: Seq<char>, i: int) -> nat
    decreases s.len() - i,
{
    if 0 <= i < s.len() && is_ws(s[i]) {
        1 + space_run(s, i + 1)
    } else {
        0
    }
}

/// The first whitespace-separated word (empty when there is none).
pub open spec fn first_word(s: Seq<char>) -> Seq<char> {
    let a = space_run(s, 0);
    s.subrange(a as int, (a + word_run(s, a as int)) as int)
}

proof fn lemma_space_run_bound(s: Seq<char>, i: int)
    requires
        0 <= i <= s.len(),
    ensures
        i + space_run(s, i) <= s.len(),
    decreases s.len() - i,
{
    if i < s.len() && is_ws(s[i]) {
        lemma_space_run_bound(s, i + 1);
    }
}

proof fn lemma_word_run_bound(s: Seq<char>, i: int)
    requires
        0 <= i <= s.len(),
    ensures
        i + word_run(s, i) <= s.len(),
    decreases s.len() - i,
{
    if i < s.len() && !is_ws(s[i]) {
        lemma_word_run_bound(s, i + 1);
    }
}

fn first_word_of(s: &str) -> (r: String)
    ensures
        r@ == first_word(s@),
{
    let cs = chars_of(s);
    let mut a: usize = 0;
    while a < cs.len() && is_whitespace(cs[a])
        invariant
            0 <= a <= cs.len(),
            cs@ == s@,
            a + space_run(cs@, a as int) == space_run(cs@, 0),
        decreases cs.len() - a,
    {
        a = a + 1;
    }
    let mut b: usize = a;
    let mut w: Vec<char> = Vec::new();
    while b < cs.len() && !is_whitespace(cs[b])
        invariant
            a <= b <= cs.len(),
            cs@ == s@,
            a == space_run(cs@, 0),
            b + word_run(cs@, b as int) == a + word_run(cs@, a as int),
            w@ == cs@.subrange(a as int, b as int),
        decreases cs.len() - b,
    {
        w.push(cs[b]);
        b = b + 1;
        assert(cs@.subrange(a as int, b as int) == cs@.subrange(a as int, b - 1).push(cs@[b - 1]));
    }
    string_from_chars(w.as_slice())
}

/// The class that a data coding scheme label belongs to: its first word,
/// lower-cased, names one of the schemes of a class; any other label keeps
/// the current class.
pub open spec fn class_of_dcs(dcs: Seq<char>, current: usize) -> usize {
    let p = lowercase(first_word(dcs));
    if p == "0x50"@ || p == "0x10"@ || p == "0xf0"@ {
        0
    } else if p == "0x11"@ || p == "0x01"@ || p == "0xf1"@ {
        1
    } else if p == "0x12"@ || p == "0x02"@ || p == "0xf2"@ {
        2
    } else if p == "0x13"@ || p == "0x03"@ || p == "0xf3"@ {
        3
    } else {
        current
    }
}

/// The class that follows a change of data coding scheme.
pub fn sync_class_from_dcs(dcs: &str, current: usize) -> (r: usize)
    ensures
        r == class_of_dcs(dcs@, current),
{
    let w = first_word_of(dcs);
    let p = to_lower(w.as_str());
    let ps = p.as_str();
    if str_eq(ps, "0x50") || str_eq(ps, "0x10") || str_eq(ps, "0xf0") {
        0
    } else if str_eq(ps, "0x11") || str_eq(ps, "0x01") || str_eq(ps, "0xf1") {
        1
    } else if str_eq(ps, "0x12") || str_eq(ps, "0x02") || str_eq(ps, "0xf2") {
        2
    } else if str_eq(ps, "0x13") || str_eq(ps, "0x03") || str_eq(ps, "0xf3") {
        3
    } else {
        current
    }
}

/// The scheme and class the form starts with: a saved scheme that is
/// empty or does not start with "0x" is replaced by the default and the
/// class stays; else the class follows the saved scheme.
pub open spec fn initial_dcs(saved: Seq<char>, class: usize) -> (Seq<char>, usize) {
    if saved.len() == 0 || !starts_with(saved, "0x"@) {
        (default_dcs(), class)
    } else {
        (saved, class_of_dcs(saved, class))
    }
}

/// Chooses the scheme and class the form starts with.
pub fn initial_dcs_of(saved: &str, class: usize) -> (r: (String, usize))
    ensures
        r.0@ == initial_dcs(saved@, class).0,
        r.1 == initial_dcs(saved@, class).1,
{
    if saved.is_empty() || !str_starts_with(saved, "0x") {
        (string_of("0x50 (Class 0 - 7bit) [OK]"), class)
    } else {
        (string_of(saved), sync_class_from_dcs(saved, class))
    }
}

// ---------------------------------------------------------------------------
// Character counter
// ---------------------------------------------------------------------------

/// Segments of 160 bytes a text of `len` bytes takes (at least one).
pub open spec fn segments_of(len: nat) -> nat {
    if len == 0 {
        1
    } else {
        ((len + 159) / 160) as nat
    }
}

/// The counter under the message box: bytes used, bytes left in the last
/// segment, and the number of segments.
pub open spec fn char_count_text(len: nat) -> Seq<char> {
    let seg = segments_of(len);
    decimal(len) + " / "@ + decimal((160 * seg - len) as nat) + " ("@ + decimal(seg) + " seg)"@
}

/// The counter for a message.
pub fn update_char_count(message: &str) -> (r: String)
    ensures
        r@ == char_count_text(message.len() as nat),
{
    let len = message.len();
    let seg: usize = if len == 0 {
        1
    } else {
        len / 160 + if len % 160 == 0 {
            0
        } else {
            1
        }
    };
    assert(seg == segments_of(len as nat));
    let left: usize = if len == 0 {
        160
    } else if len % 160 == 0 {
        0
    } else {
        160 - len % 160
    };
    assert(left == 160 * seg - len);
    let mut r = String::new();
    push_decimal_usize(&mut r, len);
    push_str(&mut r, " / ");
    push_decimal_usize(&mut r, left);
    push_str(&mut r, " (");
    push_decimal_usize(&mut r, seg);
    push_str(&mut r, " seg)");
    r
}

// ---------------------------------------------------------------------------
// The sealed password
// ---------------------------------------------------------------------------

/// The base64 digit of a six-bit value (standard alphabet).
pub open spec fn base64_digit(v: nat) -> char {
    if v < 26 {
        (65 + v) as char
    } else if v < 52 {
        (97 + v - 26) as char
    } else if v < 62 {
        (48 + v - 52) as char
    } else if v == 62 {
        '+'
    } else {
        '/'
    }
}

/// Standard base64 with padding: each group of three bytes becomes four
/// digits of six bits each; a last group of one or two bytes becomes two or
/// three digits (the missing bits zero) and one or two '='.
pub open spec fn base64_text(bytes: Seq<u8>) -> Seq<char>
    decreases bytes.len(),
{
    if bytes.len() == 0 {
        Seq::empty()
    } else {
        let b0 = bytes[0] as nat;
        let b1 = if bytes.len() > 1 {
            bytes[1] as nat
        } else {
            0
        };
        let b2 = if bytes.len() > 2 {
            bytes[2] as nat
        } else {
            0
        };
        let d0 = base64_digit(b0 / 4);
        let d1 = base64_digit((b0 % 4) * 16 + b1 / 16);
        let d2 = base64_digit((b1 % 16) * 4 + b2 / 64);
        let d3 = base64_digit(b2 % 64);
        if bytes.len() == 1 {
            seq![d0, d1, '=', '=']
        } else if bytes.len() == 2 {
            seq![d0, d1, d2, '=']
        } else {
            seq![d0, d1, d2, d3] + base64_text(bytes.subrange(3, bytes.len() as int))
        }
    }
}

/// Base64 text of bytes (`Engine::encode` of the standard engine, with
/// padding). Claimed: the result is `base64_text` of the bytes, and the
/// same engine decodes it back to the bytes (the crate's `encode_slice`
/// example and its round-trip tests show this). The crate panics only when
/// the encoded length overflows `usize`, which `requires` rules out.
#[verifier::external_body]
fn base64_encode(bytes: &[u8]) -> (r: String)
    requires
        bytes@.len() <= usize::MAX / 2,
    ensures
        r@ == base64_text(bytes@),
        base64_bytes(r@) == Some(bytes@),
{
    base64::Engine::encode(&base64::engine::general_purpose::STANDARD, bytes)
}

/// What `base64::engine::general_purpose::STANDARD.decode` gives: the
/// bytes, or `None` where the crate reports an error.
pub uninterp spec fn base64_bytes(text: Seq<char>) -> Option<Seq<u8>>;

/// Bytes of base64 text (`Engine::decode` of the standard engine).
/// Claimed: the result is `base64_bytes` of the text, `None` standing for
/// the crate's error.
#[verifier::external_body]
fn base64_decode(text: &str) -> (r: Option<Vec<u8>>)
    ensures
        match r {
            Some(b) => base64_bytes(text@) == Some(b@),
            None => base64_bytes(text@) is None,
        },
{
    base64::Engine::decode(&base64::engine::general_purpose::STANDARD, text).ok()
}

/// What `String::from_utf8_lossy` gives for bytes.
pub uninterp spec fn utf8_lossy(bytes: Seq<u8>) -> Seq<char>;

/// Text of bytes, invalid sequences replaced (`String::from_utf8_lossy`).
/// Claimed: the result is `utf8_lossy` of the bytes, and for valid UTF-8 it
/// is the decoded text, as the function's documentation says.
#[verifier::external_body]
fn utf8_lossy_text(bytes: &[u8]) -> (r: String)
    ensures
        r@ == utf8_lossy(bytes@),
        vstd::utf8::valid_utf8(bytes@) ==> r@ == vstd::utf8::decode_utf8(bytes@),
{
    String::from_utf8_lossy(bytes).to_string()
}

/// How a password is stored: an empty one, or one already sealed, stays
/// as it is; otherwise, when the system sealed it into `sealed`, it is
/// stored as "dpapi:" and the base64 text of those bytes, and without
/// sealed bytes it is stored as it is.
pub open spec fn protected_text(plain: Seq<char>, sealed: Option<Seq<u8>>) -> Seq<char> {
    if plain.len() == 0 || starts_with(plain, "dpapi:"@) {
        plain
    } else {
        match sealed {
            Some(b) => "dpapi:"@ + base64_text(b),
            None => plain,
        }
    }
}

/// Seals a password for the settings file, given what the system's data
/// protection made of it (`None` where it failed or is not available).
pub fn protect_secret(plain: &str, sealed: Option<&[u8]>) -> (r: String)
    requires
        sealed matches Some(b) ==> b@.len() <= usize::MAX / 2,
    ensures
        r@ == protected_text(plain@, match sealed {
            Some(b) => Some(b@),
            None => None,
        }),
        plain@.len() > 0 && !starts_with(plain@, "dpapi:"@) ==> match sealed {
            Some(b) => base64_bytes(r@.subrange(6, r@.len() as int)) == Some(b@),
            None => true,
        },
{
    if plain.is_empty() || str_starts_with(plain, "dpapi:") {
        return string_of(plain);
    }
    match sealed {
        Some(b) => {
            let mut r = string_of("dpapi:");
            let e = base64_encode(b);
            push_string(&mut r, &e);
            proof {
                reveal_strlit("dpapi:");
                assert(r@.subrange(6, r@.len() as int) =~= e@);
            }
            r
        },
        None => string_of(plain),
    }
}

/// What a stored password needs before use.
#[derive(Debug)]
pub enum StoredSecret {
    /// Not sealed: use it as it is.
    Plain(String),
    /// Sealed: these bytes are to be opened by the system.
    Sealed(Vec<u8>),
    /// Marked sealed, but the base64 text does not decode: use an empty
    /// password.
    Unreadable,
}

/// Reads a stored password: text after "dpapi:" is base64 of sealed bytes.
pub open spec fn stored_secret_matches(r: StoredSecret, value: Seq<char>) -> bool {
    if starts_with(value, "dpapi:"@) {
        match base64_bytes(value.subrange(6, value.len() as int)) {
            Some(b) => r matches StoredSecret::Sealed(v) && v@ == b,
            None => r is Unreadable,
        }
    } else {
        r matches StoredSecret::Plain(p) && p@ == value
    }
}

/// Takes a stored password apart.
pub fn unprotect_secret(value: &str) -> (r: StoredSecret)
    ensures
        stored_secret_matches(r, value@),
{
    if !str_starts_with(value, "dpapi:") {
        return StoredSecret::Plain(string_of(value));
    }
    proof {
        reveal_strlit("dpapi:");
    }
    let cs = chars_of(value);
    let mut rest: Vec<char> = Vec::new();
    let mut i: usize = 6;
    while i < cs.len()
        invariant
            6 <= i <= cs.len(),
            rest@ == cs@.subrange(6, i as int),
        decreases cs.len() - i,
    {
        rest.push(cs[i]);
        i = i + 1;
        assert(cs@.subrange(6, i as int) == cs@.subrange(6, i - 1).push(cs@[i - 1]));
    }
    let text = string_from_chars(rest.as_slice());
    match base64_decode(text.as_str()) {
        Some(b) => StoredSecret::Sealed(b),
        None => StoredSecret::Unreadable,
    }
}

/// A password that `protect_secret` stored reads back through
/// `unprotect_secret` as what went in: the sealed bytes where the system
/// sealed it, the password itself where it did not. The premises on
/// `stored` are what `protect_secret` ensures of its result.
pub proof fn lemma_stored_secret_reads_back(
    plain: Seq<char>,
    sealed: Option<Seq<u8>>,
    stored: Seq<char>,
    r: StoredSecret,
)
    requires
        plain.len() > 0,
        !starts_with(plain, "dpapi:"@),
        stored == protected_text(plain, sealed),
        sealed matches Some(b) ==> base64_bytes(stored.subrange(6, stored.len() as int)) == Some(b),
        stored_secret_matches(r, stored),
    ensures
        match sealed {
            Some(b) => r matches StoredSecret::Sealed(v) && v@ == b,
            None => r matches StoredSecret::Plain(p) && p@ == plain,
        },
{
    reveal_strlit("dpapi:");
    if let Some(b) = sealed {
        assert(stored.subrange(0, 6) =~= "dpapi:"@);
        assert(starts_with(stored, "dpapi:"@));
    }
}

/// The password shown for what the system opened from sealed bytes: their
/// text (invalid UTF-8 replaced), which for valid UTF-8 is the decoded
/// text; empty where opening failed.
pub open spec fn opened_text_matches(opened: Option<Seq<u8>>, shown: Seq<char>) -> bool {
    match opened {
        Some(b) => shown == utf8_lossy(b) && (vstd::utf8::valid_utf8(b) ==> shown
            == vstd::utf8::decode_utf8(b)),
        None => shown.len() == 0,
    }
}

/// The password the system opened from sealed bytes; empty where opening
/// failed.
pub fn opened_secret(opened: Option<&[u8]>) -> (r: String)
    ensures
        opened_text_matches(
            match opened {
                Some(b) => Some(b@),
                None => None,
            },
            r@,
        ),
{
    match opened {
        Some(b) => utf8_lossy_text(b),
        None => String::new(),
    }
}

/// A password goes through the settings file and back: `protect_secret`
/// stores it, `unprotect_secret` takes the stored text apart, and where
/// the system sealed the password's UTF-8 into `sealed` and opens those
/// bytes again to the same UTF-8 (its data protection gives back what it
/// sealed, for the same user), `opened_secret` shows the password itself;
/// where nothing was sealed the stored text is the password. The premises
/// on `stored` are what `protect_secret` ensures of its result.
pub proof fn lemma_password_round_trip(
    plain: Seq<char>,
    sealed: Option<Seq<u8>>,
    stored: Seq<char>,
    r: StoredSecret,
    opened: Option<Seq<u8>>,
    shown: Seq<char>,
)
    requires
        plain.len() > 0,
        !starts_with(plain, "dpapi:"@),
        stored == protected_text(plain, sealed),
        sealed matches Some(b) ==> base64_bytes(stored.subrange(6, stored.len() as int)) == Some(b),
        stored_secret_matches(r, stored),
        sealed is Some ==> opened == Some(vstd::utf8::encode_utf8(plain)),
        opened_text_matches(opened, shown),
    ensures
        match sealed {
            Some(b) => r matches StoredSecret::Sealed(v) && v@ == b && shown == plain,
            None => r matches StoredSecret::Plain(p) && p@ == plain,
        },
{
    lemma_stored_secret_reads_back(plain, sealed, stored, r);
    if sealed is Some {
        vstd::utf8::encode_utf8_valid_utf8(plain);
        vstd::utf8::encode_utf8_decode_utf8(plain);
    }
}

} // verus!
