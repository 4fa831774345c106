//! Received messages: the listing the modem gives for `AT+CMGL=4`, PDUs
//! that arrive on their own, and the local inbox list.
//!
//! A listing holds, per message, a header line
//! `+CMGL: <index>,<stat>,[<alpha>],<length>` (four comma-separated fields,
//! each taken trimmed; index, status and length are numbers) followed on the
//! next line by the PDU in hex.

use vstd::prelude::*;
use vstd::utf8::encode_utf8;

use crate::contacts::{lemma_split_fields_nonempty_pub, split_chars, split_fields};
use crate::hex::{decode_hex, decode_hex_spec, hex_windows_whole, is_hex_char, lemma_hex_text_whole};
use crate::lines::{is_number_text, trim_chars};
use crate::pdu::{decode_sms_simple, sms_fields};
use crate::scan::{decimal_value, is_digit, parse_usize_digits};
use crate::text::{chars_of, matches_at, occurs_at, starts_with, str_eq, string_from_chars, string_of, trim_spec};

verus! {

/// A message of the inbox.
#[derive(Debug)]
pub struct InboxMessage {
    /// Where the modem stores it (0 for one that arrived directly).
    pub index: usize,
    pub status: String,
    pub pdu: String,
    pub phone: String,
    pub timestamp: String,
    pub unread: bool,
    pub pre_decoded: Option<String>,
}

/// The view of an optional string.
pub open spec fn opt_text(o: Option<String>) -> Option<Seq<char>> {
    match o {
        Some(s) => Some(s@),
        None => None,
    }
}

/// The fields of a message, strings taken as characters.
pub open spec fn message_view(m: InboxMessage) -> (
    usize,
    Seq<char>,
    Seq<char>,
    Seq<char>,
    Seq<char>,
    bool,
    Option<Seq<char>>,
) {
    (m.index, m.status@, m.pdu@, m.phone@, m.timestamp@, m.unread, opt_text(m.pre_decoded))
}

/// A copy of a message, field by field.
pub fn copy_message(m: &InboxMessage) -> (r: InboxMessage)
    ensures
        message_view(r) == message_view(*m),
{
    let pre_decoded = match &m.pre_decoded {
        Some(t) => Some(t.clone()),
        None => None,
    };
    InboxMessage {
        index: m.index,
        status: m.status.clone(),
        pdu: m.pdu.clone(),
        phone: m.phone.clone(),
        timestamp: m.timestamp.clone(),
        unread: m.unread,
        pre_decoded,
    }
}

// ---------------------------------------------------------------------------
// The listing
// ---------------------------------------------------------------------------

/// The lines of a response, each trimmed.
pub open spec fn listing_lines(resp: Seq<char>) -> Seq<Seq<char>> {
    split_fields(resp, '\n').map_values(|l: Seq<char>| trim_spec(l))
}

/// The fields of a header line after its tag.
pub open spec fn header_fields(l: Seq<char>) -> Seq<Seq<char>> {
    split_fields(l.subrange(6, l.len() as int), ',')
}

/// A `+CMGL:` header line.
pub open spec fn is_cmgl_header(l: Seq<char>) -> bool {
    starts_with(l, "+CMGL:"@) && {
        let f = header_fields(l);
        f.len() == 4 && is_number_text(trim_spec(f[0])) && is_number_text(trim_spec(f[1]))
            && is_number_text(trim_spec(f[3]))
    }
}

/// A number read as a `usize`, 0 when it does not fit.
pub open spec fn index_value(d: Seq<char>) -> usize {
    if decimal_value(d) <= usize::MAX {
        decimal_value(d) as usize
    } else {
        0
    }
}

/// Hex digits only, at least one.
pub open spec fn is_pdu_text(l: Seq<char>) -> bool {
    l.len() > 0 && forall|i: int| 0 <= i < l.len() ==> is_hex_char(#[trigger] l[i])
}

/// Index, status and PDU of each listed message, from line `i` on: a
/// header followed by a PDU line gives one entry and both lines are used;
/// any other line is passed over.
pub open spec fn cmgl_entries(lines: Seq<Seq<char>>, i: int) -> Seq<(usize, Seq<char>, Seq<char>)>
    decreases lines.len() - i,
{
    if i < 0 || i >= lines.len() {
        Seq::empty()
    } else if is_cmgl_header(lines[i]) && i + 1 < lines.len() && is_pdu_text(lines[i + 1]) {
        let f = header_fields(lines[i]);
        seq![(index_value(trim_spec(f[0])), trim_spec(f[1]), lines[i + 1])] + cmgl_entries(
            lines,
            i + 2,
        )
    } else {
        cmgl_entries(lines, i + 1)
    }
}

/// The inbox message for a listed entry: sender and time stamp decoded
/// from the PDU; unread when the status is "1".
pub open spec fn listed_message(m: InboxMessage, e: (usize, Seq<char>, Seq<char>)) -> bool {
    let f = sms_fields(decode_hex_spec(e.2));
    m.index == e.0 && m.status@ == e.1 && m.pdu@ == e.2 && m.phone@ == f.0 && m.timestamp@ == f.1
        && m.unread == (e.1 == "1"@) && m.pre_decoded is None
}

fn digit_field(f: &[char]) -> (r: Option<Vec<char>>)
    ensures
        match r {
            Some(t) => t@ == trim_spec(f@) && is_number_text(t@),
            None => !is_number_text(trim_spec(f@)),
        },
{
    let t = trim_chars(f);
    if t.len() == 0 {
        return None;
    }
    let mut i: usize = 0;
    while i < t.len()
        invariant
            0 <= i <= t.len(),
            t@ == trim_spec(f@),
            forall|j: int| 0 <= j < i ==> crate::ussd::is_ascii_digit(#[trigger] t@[j]),
        decreases t.len() - i,
    {
        if !('0' <= t[i] && t[i] <= '9') {
            assert(!crate::ussd::is_ascii_digit(t@[i as int]));
            return None;
        }
        i = i + 1;
    }
    Some(t)
}

/// Reads a header line: index and status, when it is one.
fn header_of(l: &[char]) -> (r: Option<(usize, String)>)
    ensures
        match r {
            Some((idx, st)) => is_cmgl_header(l@) && idx == index_value(
                trim_spec(header_fields(l@)[0]),
            ) && st@ == trim_spec(header_fields(l@)[1]),
            None => !is_cmgl_header(l@),
        },
{
    let tag = chars_of("+CMGL:");
    if !matches_at(l, &tag, 0) {
        proof {
            assert(!occurs_at(l@, tag@, 0));
        }
        return None;
    }
    proof {
        reveal_strlit("+CMGL:");
    }
    let mut rest: Vec<char> = Vec::new();
    let mut k: usize = 6;
    while k < l.len()
        invariant
            6 <= k <= l.len(),
            rest@ == l@.subrange(6, k as int),
        decreases l.len() - k,
    {
        rest.push(l[k]);
        k = k + 1;
        assert(l@.subrange(6, k as int) == l@.subrange(6, k - 1).push(l@[k - 1]));
    }
    let f = split_chars(&rest, ',');
    if f.len() != 4 {
        return None;
    }
    let i0 = match digit_field(f[0].as_slice()) {
        Some(t) => t,
        None => return None,
    };
    let s1 = match digit_field(f[1].as_slice()) {
        Some(t) => t,
        None => return None,
    };
    match digit_field(f[3].as_slice()) {
        Some(_) => {},
        None => return None,
    }
    proof {
        assert forall|j: int| 0 <= j < i0@.len() implies is_digit(#[trigger] i0@[j]) by {
            assert(crate::ussd::is_ascii_digit(i0@[j]));
        }
        assert(i0@.subrange(0, i0@.len() as int) == i0@);
    }
    let idx = match parse_usize_digits(&i0, 0, i0.len()) {
        Some(v) => v,
        None => 0,
    };
    Some((idx, string_from_chars(s1.as_slice())))
}

fn pdu_text(l: &[char]) -> (r: bool)
    ensures
        r == is_pdu_text(l@),
{
    if l.len() == 0 {
        return false;
    }
    let mut i: usize = 0;
    while i < l.len()
        invariant
            0 <= i <= l.len(),
            forall|j: int| 0 <= j < i ==> is_hex_char(#[trigger] l@[j]),
        decreases l.len() - i,
    {
        if !crate::hex::is_hex_digit(l[i]) {
            return false;
        }
        i = i + 1;
    }
    true
}

/// The message of a listed entry.
fn listed(idx: usize, status: String, pdu: &[char]) -> (m: InboxMessage)
    requires
        is_pdu_text(pdu@),
    ensures
        listed_message(m, (idx, status@, pdu@)),
{
    let pdu_s = string_from_chars(pdu);
    proof {
        lemma_hex_text_whole(pdu@);
    }
    let (phone, timestamp, _text, _dcs) = decode_sms_simple(pdu_s.as_str());
    let unread = str_eq(status.as_str(), "1");
    InboxMessage { index: idx, status, pdu: pdu_s, phone, timestamp, unread, pre_decoded: None }
}

/// The messages of an `AT+CMGL=4` response, in the order listed.
pub fn parse_cmgl_listing(response: &str) -> (r: Vec<InboxMessage>)
    ensures
        r@.len() == cmgl_entries(listing_lines(response@), 0).len(),
        forall|k: int|
            0 <= k < r@.len() ==> listed_message(
                #[trigger] r@[k],
                cmgl_entries(listing_lines(response@), 0)[k],
            ),
{
    let cs = chars_of(response);
    let raw = split_chars(&cs, '\n');
    let ghost lines = listing_lines(response@);
    let mut ls: Vec<Vec<char>> = Vec::new();
    let mut j: usize = 0;
    while j < raw.len()
        invariant
            0 <= j <= raw.len(),
            raw@.len() == lines.len(),
            lines == listing_lines(response@),
            forall|t: int| 0 <= t < raw@.len() ==> (#[trigger] raw@[t])@ == split_fields(
                response@,
                '\n',
            )[t],
            ls@.len() == j,
            forall|t: int| 0 <= t < j ==> (#[trigger] ls@[t])@ == lines[t],
        decreases raw.len() - j,
    {
        let t = trim_chars(raw[j].as_slice());
        ls.push(t);
        j = j + 1;
    }
    let ghost total = cmgl_entries(lines, 0);
    let mut r: Vec<InboxMessage> = Vec::new();
    let mut i: usize = 0;
    while i < ls.len()
        invariant
            0 <= i <= ls.len() + 1,
            ls@.len() == lines.len(),
            forall|t: int| 0 <= t < ls@.len() ==> (#[trigger] ls@[t])@ == lines[t],
            total == cmgl_entries(lines, 0),
            r@.len() + cmgl_entries(lines, i as int).len() == total.len(),
            cmgl_entries(lines, i as int) == total.subrange(r@.len() as int, total.len() as int),
            forall|k: int| 0 <= k < r@.len() ==> listed_message(#[trigger] r@[k], total[k]),
        decreases ls.len() + 1 - i,
    {
        let hdr = header_of(ls[i].as_slice());
        let next_is_pdu = i + 1 < ls.len() && pdu_text(ls[i + 1].as_slice());
        match hdr {
            Some((idx, st)) => {
                if next_is_pdu {
                    let m = listed(idx, st, ls[i + 1].as_slice());
                    proof {
                        let n = r@.len() as int;
                        let e = cmgl_entries(lines, i as int);
                        assert(e[0] == total[n]);
                        assert(e.subrange(1, e.len() as int) == cmgl_entries(lines, i + 2));
                        assert(total.subrange(n + 1, total.len() as int) == e.subrange(
                            1,
                            e.len() as int,
                        ));
                    }
                    r.push(m);
                    i = i + 2;
                } else {
                    i = i + 1;
                }
            },
            None => {
                i = i + 1;
            },
        }
    }
    assert(cmgl_entries(lines, i as int).len() == 0);
    r
}

// ---------------------------------------------------------------------------
// A PDU that arrives on its own
// ---------------------------------------------------------------------------

/// What a PDU that arrived on its own turns out to be.
#[derive(Debug)]
pub enum Incoming {
    /// No byte could be read from the hex text.
    Undecodable,
    /// Nothing is left after the service centre address.
    TooShort,
    /// A delivery report (message type indicator 2).
    StatusReport,
    /// A message, to go into the inbox.
    Message(InboxMessage),
}

/// Where the first octet of the TPDU stands: past a service centre address
/// whose length octet is between 1 and 19 and fits in the PDU.
pub open spec fn direct_offset(b: Seq<u8>) -> int {
    if b[0] > 0 && b[0] < 20 && (b[0] as int) < b.len() {
        1 + b[0] as int
    } else {
        0
    }
}

/// What a PDU given as hex turns out to be; a message is unread, stored at
/// index 0, with status "REC UNREAD" and the sender and time stamp decoded.
pub open spec fn incoming_matches(r: Incoming, pdu_hex: Seq<char>) -> bool {
    let b = decode_hex_spec(pdu_hex);
    if b.len() == 0 {
        r is Undecodable
    } else if direct_offset(b) >= b.len() {
        r is TooShort
    } else if b[direct_offset(b)] & 0x03 == 0x02 {
        r is StatusReport
    } else {
        match r {
            Incoming::Message(m) => {
                let f = sms_fields(b);
                m.index == 0 && m.status@ == "REC UNREAD"@ && m.pdu@ == pdu_hex && m.phone@ == f.0
                    && m.timestamp@ == f.1 && m.unread && m.pre_decoded is None
            },
            _ => false,
        }
    }
}

/// Sorts a PDU that arrived on its own.
pub fn classify_incoming(pdu_hex: &str) -> (r: Incoming)
    requires
        hex_windows_whole(pdu_hex@),
    ensures
        incoming_matches(r, pdu_hex@),
{
    let b = decode_hex(pdu_hex);
    if b.len() == 0 {
        return Incoming::Undecodable;
    }
    let mut offset: usize = 0;
    if b[0] > 0 && b[0] < 20 && (b[0] as usize) < b.len() {
        offset = 1 + b[0] as usize;
    }
    if offset >= b.len() {
        return Incoming::TooShort;
    }
    let mti = b[offset] & 0x03;
    if mti == 0x02 {
        return Incoming::StatusReport;
    }
    let (phone, timestamp, _text, _dcs) = decode_sms_simple(pdu_hex);
    Incoming::Message(
        InboxMessage {
            index: 0,
            status: string_of("REC UNREAD"),
            pdu: string_of(pdu_hex),
            phone,
            timestamp,
            unread: true,
            pre_decoded: None,
        },
    )
}


// ---------------------------------------------------------------------------
// The inbox list
// ---------------------------------------------------------------------------

/// The messages of the inbox and the selected row.
pub struct Inbox {
    pub messages: Vec<InboxMessage>,
    pub selected: Option<usize>,
}

/// The selected row, when it is in the list.
pub open spec fn selected_row(ib: Inbox) -> Option<int> {
    match ib.selected {
        Some(i) => if i < ib.messages@.len() {
            Some(i as int)
        } else {
            None
        },
        None => None,
    }
}

// ---------------------------------------------------------------------------
// The list as shown
// ---------------------------------------------------------------------------

/// Bytes the first `k` characters take in UTF-8.
pub open spec fn prefix_bytes(t: Seq<char>, k: int) -> nat {
    encode_utf8(t.take(k)).len()
}

/// The first count of characters, from `k` on, that takes at least `n`
/// bytes (or the whole text).
pub open spec fn bytes_reach(t: Seq<char>, n: nat, k: int) -> int
    decreases t.len() - k,
{
    if k < 0 || k >= t.len() || prefix_bytes(t, k) >= n {
        k
    } else {
        bytes_reach(t, n, k + 1)
    }
}

/// A time stamp as the list shows it: its first 16 bytes.
pub open spec fn stamp_shown(t: Seq<char>) -> Seq<char> {
    if encode_utf8(t).len() >= 16 {
        t.take(bytes_reach(t, 16, 0))
    } else {
        t
    }
}

/// Cutting the text after 16 bytes does not split a character.
pub open spec fn stamp_cut_ok(t: Seq<char>) -> bool {
    encode_utf8(t).len() >= 16 ==> prefix_bytes(t, bytes_reach(t, 16, 0)) == 16
}

/// The sender a list line shows: the stored one, else the one in the PDU.
pub open spec fn shown_phone(m: InboxMessage) -> Seq<char> {
    if m.phone@.len() == 0 {
        sms_fields(decode_hex_spec(m.pdu@)).0
    } else {
        m.phone@
    }
}

/// The time stamp a list line starts from: the stored one, else the one in
/// the PDU.
pub open spec fn shown_stamp(m: InboxMessage) -> Seq<char> {
    if m.timestamp@.len() == 0 {
        sms_fields(decode_hex_spec(m.pdu@)).1
    } else {
        m.timestamp@
    }
}

/// A message as its line in the list reads: an envelope (open while
/// unread), the sender, and the first 16 bytes of the time stamp.
pub open spec fn display_line(m: InboxMessage) -> Seq<char> {
    (if m.unread {
        "\u{1F4E9}"@
    } else {
        "\u{1F4E8}"@
    }) + " "@ + shown_phone(m) + " - "@ + stamp_shown(shown_stamp(m))
}

/// What a list line needs of a message: a PDU that can be read where a
/// field must come from it, and a stored time stamp that can be cut.
pub open spec fn displayable(m: InboxMessage) -> bool {
    &&& (m.phone@.len() == 0 || m.timestamp@.len() == 0) ==> hex_windows_whole(m.pdu@)
    &&& m.timestamp@.len() != 0 ==> stamp_cut_ok(m.timestamp@)
}

proof fn lemma_prefix_bytes_step(t: Seq<char>, k: int)
    requires
        0 <= k < t.len(),
    ensures
        prefix_bytes(t, k + 1) == prefix_bytes(t, k) + crate::text::utf8_width(t[k]),
{
    crate::text::lemma_encode_utf8_push(t.take(k), t[k]);
    assert(t.take(k + 1) == t.take(k).push(t[k]));
}

proof fn lemma_prefix_bytes_le(t: Seq<char>, k: int)
    requires
        0 <= k <= t.len(),
    ensures
        prefix_bytes(t, k) <= encode_utf8(t).len(),
{
    crate::text::lemma_encode_utf8_concat(t.take(k), t.skip(k));
    assert(t.take(k) + t.skip(k) == t);
}

proof fn lemma_ascii_stamp_cut(t: Seq<char>)
    requires
        crate::pdu::ascii_text(t),
    ensures
        stamp_cut_ok(t),
{
    if encode_utf8(t).len() >= 16 {
        assert(t.take(0) == Seq::<char>::empty());
        assert(encode_utf8(Seq::<char>::empty()) == Seq::<u8>::empty());
        lemma_ascii_reach(t, 0);
    }
}

proof fn lemma_ascii_reach(t: Seq<char>, k: int)
    requires
        crate::pdu::ascii_text(t),
        0 <= k <= t.len(),
        prefix_bytes(t, k) == k,
        encode_utf8(t).len() >= 16,
        k <= 16,
    ensures
        prefix_bytes(t, bytes_reach(t, 16, k)) == 16,
    decreases t.len() - k,
{
    if k < t.len() && k < 16 {
        lemma_prefix_bytes_step(t, k);
        assert((t[k] as u32) < 128);
        lemma_ascii_reach(t, k + 1);
    } else if k == t.len() {
        assert(t.take(k) == t);
    }
}

/// Builds the line that shows a message in the list.
pub fn display_line_of(m: &InboxMessage) -> (r: String)
    requires
        displayable(*m),
    ensures
        r@ == display_line(*m),
{
    proof {
        reveal_strlit("");
    }
    proof {
        if m.phone@.len() == 0 {
            assert(m.phone@ =~= ""@);
        }
        if m.timestamp@.len() == 0 {
            assert(m.timestamp@ =~= ""@);
        }
    }
    let phone = if str_eq(m.phone.as_str(), "") {
        let (p, _, _, _) = decode_sms_simple(m.pdu.as_str());
        p
    } else {
        string_of(m.phone.as_str())
    };
    let stamp = if str_eq(m.timestamp.as_str(), "") {
        let (_, t, _, _) = decode_sms_simple(m.pdu.as_str());
        proof {
            crate::pdu::lemma_sms_timestamp_ascii(decode_hex_spec(m.pdu@));
            lemma_ascii_stamp_cut(t@);
        }
        t
    } else {
        string_of(m.timestamp.as_str())
    };
    let cs = chars_of(stamp.as_str());
    let mut k: usize = 0;
    let mut used: usize = 0;
    proof {
        assert(cs@.take(0) == Seq::<char>::empty());
        assert(encode_utf8(Seq::<char>::empty()) == Seq::<u8>::empty());
        crate::text::lemma_encode_utf8_len_ge(cs@);
    }
    while k < cs.len() && used < 16
        invariant
            0 <= k <= cs.len(),
            cs@ == stamp@,
            used == prefix_bytes(cs@, k as int),
            bytes_reach(cs@, 16, 0) == bytes_reach(cs@, 16, k as int),
        decreases cs.len() - k,
    {
        let v = cs[k] as u32;
        let w: usize = if v <= 0x7F {
            1
        } else if v <= 0x7FF {
            2
        } else if v <= 0xFFFF {
            3
        } else {
            4
        };
        proof {
            lemma_prefix_bytes_step(cs@, k as int);
        }
        used = used + w;
        k = k + 1;
    }
    proof {
        assert(cs@.take(cs@.len() as int) == cs@);
        assert(bytes_reach(cs@, 16, 0) == k);
        if encode_utf8(cs@).len() < 16 {
            lemma_prefix_bytes_le(cs@, k as int);
            assert(k == cs.len());
        }
    }
    let mut r = if m.unread {
        string_of("\u{1F4E9}")
    } else {
        string_of("\u{1F4E8}")
    };
    crate::text::push_str(&mut r, " ");
    crate::text::push_string(&mut r, &phone);
    crate::text::push_str(&mut r, " - ");
    let shown = string_from_chars(slice_chars_to(&cs, k).as_slice());
    crate::text::push_string(&mut r, &shown);
    r
}

fn slice_chars_to(cs: &[char], k: usize) -> (r: Vec<char>)
    requires
        k <= cs.len(),
    ensures
        r@ == cs@.take(k as int),
{
    let mut r: Vec<char> = Vec::new();
    let mut i: usize = 0;
    while i < k
        invariant
            0 <= i <= k <= cs.len(),
            r@ == cs@.take(i as int),
        decreases k - i,
    {
        r.push(cs[i]);
        i = i + 1;
        assert(cs@.take(i as int) == cs@.take(i - 1).push(cs@[i - 1]));
    }
    r
}

/// The command that deletes the message stored at `index`.
pub open spec fn delete_command(index: usize) -> Seq<char> {
    "AT+CMGD="@ + crate::text::decimal(index as nat)
}

/// A message's fields once it is marked read.
pub open spec fn read_marked(
    v: (usize, Seq<char>, Seq<char>, Seq<char>, Seq<char>, bool, Option<Seq<char>>),
) -> (usize, Seq<char>, Seq<char>, Seq<char>, Seq<char>, bool, Option<Seq<char>>) {
    (v.0, v.1, v.2, v.3, v.4, false, v.6)
}

impl Inbox {
    pub fn new() -> (r: Self)
        ensures
            r.messages@.len() == 0,
            r.selected is None,
    {
        Inbox { messages: Vec::new(), selected: None }
    }

    /// A copy of the selected message.
    pub fn selected_message(&self) -> (r: Option<InboxMessage>)
        ensures
            match selected_row(*self) {
                Some(i) => r is Some && message_view(r->0) == message_view(self.messages@[i]),
                None => r is None,
            },
    {
        match self.selected {
            Some(i) => if i < self.messages.len() {
                Some(copy_message(&self.messages[i]))
            } else {
                None
            },
            None => None,
        }
    }

    /// Adds a message at the end of the list.
    pub fn add_message(&mut self, m: InboxMessage)
        ensures
            final(self).messages@ == old(self).messages@.push(m),
            final(self).selected == old(self).selected,
    {
        self.messages.push(m);
    }

    /// Replaces the list with a fresh listing.
    pub fn replace_all(&mut self, ms: Vec<InboxMessage>)
        ensures
            final(self).messages@ == ms@,
            final(self).selected == old(self).selected,
    {
        self.messages = ms;
    }

    /// The command that deletes the selected message from the modem.
    pub fn delete_command_for_selected(&self) -> (r: Option<String>)
        ensures
            match selected_row(*self) {
                Some(i) => r is Some && r->0@ == delete_command(self.messages@[i].index),
                None => r is None,
            },
    {
        match self.selected {
            Some(i) => if i < self.messages.len() {
                let mut c = string_of("AT+CMGD=");
                crate::text::push_decimal_usize(&mut c, self.messages[i].index);
                Some(c)
            } else {
                None
            },
            None => None,
        }
    }

    /// Removes the selected message once the modem confirmed the deletion
    /// (its answer holds "OK") or when no modem is connected; tells whether
    /// a message was removed.
    pub fn confirm_delete(&mut self, response: &str, connected: bool) -> (removed: bool)
        ensures
            removed == (selected_row(*old(self)) is Some && (crate::text::contains(
                response@,
                "OK"@,
            ) || !connected)),
            removed ==> final(self).messages@ == old(self).messages@.remove(
                selected_row(*old(self))->0,
            ) && final(self).selected is None,
            !removed ==> final(self).messages@ == old(self).messages@ && final(self).selected
                == old(self).selected,
    {
        let ok = crate::text::str_contains(response, "OK");
        match self.selected {
            Some(i) => {
                if i < self.messages.len() && (ok || !connected) {
                    self.messages.remove(i);
                    self.selected = None;
                    true
                } else {
                    false
                }
            },
            None => false,
        }
    }

    /// Marks the message in row `row` as read, here only (the modem is not
    /// told); every other message, and the selection, stay as they were. A
    /// row past the end changes nothing.
    pub fn mark_read(&mut self, row: usize)
        ensures
            final(self).messages@.len() == old(self).messages@.len(),
            final(self).selected == old(self).selected,
            row < old(self).messages@.len() ==> message_view(final(self).messages@[row as int])
                == read_marked(message_view(old(self).messages@[row as int])),
            forall|i: int|
                0 <= i < old(self).messages@.len() && i != row ==> #[trigger] final(self).messages@[i]
                    == old(self).messages@[i],
    {
        if row < self.messages.len() {
            let mut m = copy_message(&self.messages[row]);
            m.unread = false;
            self.messages.set(row, m);
        }
    }

    /// Empties the list once the modem confirmed that it deleted all its
    /// messages (its answer holds "OK"); tells whether it did.
    pub fn confirm_clear(&mut self, response: &str) -> (cleared: bool)
        ensures
            cleared == crate::text::contains(response@, "OK"@),
            cleared ==> final(self).messages@.len() == 0 && final(self).selected is None,
            !cleared ==> final(self).messages@ == old(self).messages@ && final(self).selected
                == old(self).selected,
    {
        if crate::text::str_contains(response, "OK") {
            self.messages.clear();
            self.selected = None;
            true
        } else {
            false
        }
    }
}


/// No two messages hold the same PDU.
pub open spec fn pdus_distinct(ms: Seq<InboxMessage>) -> bool {
    forall|i: int, j: int| 0 <= i < j < ms.len() ==> ms[i].pdu@ != ms[j].pdu@
}

/// Whether some message holds the PDU.
pub open spec fn holds_pdu(ms: Seq<InboxMessage>, pdu: Seq<char>) -> bool {
    exists|i: int| 0 <= i < ms.len() && ms[i].pdu@ == pdu
}

impl Inbox {
    /// Adds a message that arrived on its own, unless a message with the
    /// same PDU is already in the list (a repeated notification); tells
    /// whether it was added.
    pub fn add_incoming(&mut self, m: InboxMessage) -> (added: bool)
        ensures
            added == !holds_pdu(old(self).messages@, m.pdu@),
            added ==> final(self).messages@ == old(self).messages@.push(m),
            !added ==> final(self).messages@ == old(self).messages@,
            final(self).selected == old(self).selected,
            pdus_distinct(old(self).messages@) ==> pdus_distinct(final(self).messages@),
    {
        let mut i: usize = 0;
        while i < self.messages.len()
            invariant
                0 <= i <= self.messages@.len(),
                self.messages@ == old(self).messages@,
                self.selected == old(self).selected,
                forall|k: int| 0 <= k < i ==> self.messages@[k].pdu@ != m.pdu@,
            decreases self.messages.len() - i,
        {
            if str_eq(self.messages[i].pdu.as_str(), m.pdu.as_str()) {
                return false;
            }
            i = i + 1;
        }
        self.messages.push(m);
        true
    }
}


// ---------------------------------------------------------------------------
// Delivery reports kept in the modem's storage
// ---------------------------------------------------------------------------

/// A PDU text whose first TPDU octet says "status report" (message type
/// indicator 2), the service centre address skipped as for a PDU that
/// arrives on its own.
pub open spec fn is_report_pdu(pdu: Seq<char>) -> bool {
    let b = decode_hex_spec(pdu);
    b.len() > 0 && direct_offset(b) < b.len() && b[direct_offset(b)] & 0x03 == 0x02
}

/// The storage indices of the listed status reports, in order.
pub open spec fn report_indices(entries: Seq<(usize, Seq<char>, Seq<char>)>) -> Seq<usize>
    decreases entries.len(),
{
    if entries.len() == 0 {
        Seq::empty()
    } else {
        let rest = report_indices(entries.drop_last());
        if is_report_pdu(entries.last().2) {
            rest.push(entries.last().0)
        } else {
            rest
        }
    }
}

proof fn lemma_entries_are_pdus(lines: Seq<Seq<char>>, i: int)
    ensures
        forall|k: int|
            0 <= k < cmgl_entries(lines, i).len() ==> is_pdu_text(
                (#[trigger] cmgl_entries(lines, i)[k]).2,
            ),
    decreases lines.len() - i,
{
    if 0 <= i < lines.len() {
        if is_cmgl_header(lines[i]) && i + 1 < lines.len() && is_pdu_text(lines[i + 1]) {
            lemma_entries_are_pdus(lines, i + 2);
            let e = cmgl_entries(lines, i);
            let r = cmgl_entries(lines, i + 2);
            let f = header_fields(lines[i]);
            assert(e == seq![(index_value(trim_spec(f[0])), trim_spec(f[1]), lines[i + 1])] + r);
            assert forall|k: int| 0 <= k < e.len() implies is_pdu_text((#[trigger] e[k]).2) by {
                if k > 0 {
                    assert(e[k] == r[k - 1]);
                } else {
                    assert(e[0].2 == lines[i + 1]);
                }
            }
        } else {
            lemma_entries_are_pdus(lines, i + 1);
            assert(cmgl_entries(lines, i) == cmgl_entries(lines, i + 1));
        }
    }
}

/// The storage indices of the status reports in an `AT+CMGL=4` listing,
/// to be deleted one by one without touching the messages.
pub fn status_report_indices(response: &str) -> (r: Vec<usize>)
    ensures
        r@ == report_indices(cmgl_entries(listing_lines(response@), 0)),
{
    let ms = parse_cmgl_listing(response);
    let ghost es = cmgl_entries(listing_lines(response@), 0);
    proof {
        lemma_entries_are_pdus(listing_lines(response@), 0);
    }
    let mut r: Vec<usize> = Vec::new();
    let mut k: usize = 0;
    while k < ms.len()
        invariant
            0 <= k <= ms@.len(),
            ms@.len() == es.len(),
            forall|t: int| 0 <= t < ms@.len() ==> listed_message(#[trigger] ms@[t], es[t]),
            forall|t: int| 0 <= t < es.len() ==> is_pdu_text((#[trigger] es[t]).2),
            r@ == report_indices(es.take(k as int)),
        decreases ms.len() - k,
    {
        assert(es.take(k + 1).drop_last() == es.take(k as int));
        assert(listed_message(ms@[k as int], es[k as int]));
        proof {
            lemma_hex_text_whole(es[k as int].2);
        }
        match classify_incoming(ms[k].pdu.as_str()) {
            Incoming::StatusReport => {
                r.push(ms[k].index);
            },
            _ => {},
        }
        k = k + 1;
    }
    assert(es.take(es.len() as int) == es);
    r
}

/// Builds the command that deletes the message stored at `index`.
pub fn delete_command_for(index: usize) -> (r: String)
    ensures
        r@ == delete_command(index),
{
    let mut c = string_of("AT+CMGD=");
    crate::text::push_decimal_usize(&mut c, index);
    c
}

/// Milliseconds between two polls for unread messages.
pub const INBOX_POLL_MS: u64 = 5000;

/// Whether the unread messages are to be listed now, and with which
/// command: while connected, once five seconds have passed since the last
/// poll.
pub fn inbox_poll_due(connected: bool, since_last_poll_ms: u64) -> (r: Option<&'static str>)
    ensures
        r == (if connected && since_last_poll_ms >= 5000 {
            Some("AT+CMGL=0")
        } else {
            None::<&'static str>
        }),
{
    if connected && since_last_poll_ms >= INBOX_POLL_MS {
        Some("AT+CMGL=0")
    } else {
        None
    }
}

} // verus!
