//! Scheduled messages: the form that creates one, the list with its ids,
//! which entries are due at a given minute, and what becomes of an entry
//! once it was sent (done, or moved to its next repetition).
//!
//! Times are texts "YYYY-MM-DD HH:MM" and are compared as texts, character
//! by character, as Rust orders strings.

use vstd::prelude::*;

use crate::text::{push_str, str_trim, string_of, trim_spec};

verus! {

// ---------------------------------------------------------------------------
// Comparing time texts
// ---------------------------------------------------------------------------

/// `a` comes before `b` in lexicographic order of characters (which is the
/// byte order of their UTF-8 encodings).
pub open spec fn text_lt(a: Seq<char>, b: Seq<char>) -> bool
    decreases a.len(),
{
    if a.len() == 0 {
        b.len() > 0
    } else if b.len() == 0 {
        false
    } else if a[0] != b[0] {
        (a[0] as u32) < (b[0] as u32)
    } else {
        text_lt(a.drop_first(), b.drop_first())
    }
}

/// `a` comes before `b` or equals it.
pub open spec fn text_le(a: Seq<char>, b: Seq<char>) -> bool {
    text_lt(a, b) || a == b
}

fn lt_from(a: &[char], b: &[char], i: usize) -> (r: bool)
    requires
        i <= a.len(),
        i <= b.len(),
    ensures
        r == text_lt(a@.subrange(i as int, a@.len() as int), b@.subrange(i as int, b@.len() as int)),
    decreases a.len() - i,
{
    let ghost sa = a@.subrange(i as int, a@.len() as int);
    let ghost sb = b@.subrange(i as int, b@.len() as int);
    if i == a.len() {
        return i < b.len();
    }
    if i == b.len() {
        return false;
    }
    assert(sa[0] == a@[i as int] && sb[0] == b@[i as int]);
    if a[i] != b[i] {
        return (a[i] as u32) < (b[i] as u32);
    }
    assert(sa.drop_first() == a@.subrange(i + 1, a@.len() as int));
    assert(sb.drop_first() == b@.subrange(i + 1, b@.len() as int));
    lt_from(a, b, i + 1)
}

/// Whether `a` comes before `b`.
pub fn text_less(a: &str, b: &str) -> (r: bool)
    ensures
        r == text_lt(a@, b@),
{
    let ac = crate::text::chars_of(a);
    let bc = crate::text::chars_of(b);
    assert(ac@.subrange(0, ac@.len() as int) == ac@);
    assert(bc@.subrange(0, bc@.len() as int) == bc@);
    lt_from(&ac, &bc, 0)
}

/// Whether `a` comes before `b` or equals it.
pub fn text_less_eq(a: &str, b: &str) -> (r: bool)
    ensures
        r == text_le(a@, b@),
{
    text_less(a, b) || crate::text::str_eq(a, b)
}

// ---------------------------------------------------------------------------
// Entries and the form
// ---------------------------------------------------------------------------

/// A scheduled message.
#[derive(Debug, Clone)]
pub struct ScheduledSms {
    pub id: u64,
    pub recipients: Vec<String>,
    pub message: String,
    pub scheduled_time: String,
    pub sent: bool,
    pub repeat_minutes: Option<u32>,
    pub end_time: Option<String>,
    pub flash_sms: bool,
}

/// What the form for a new schedule holds.
pub struct ScheduleForm {
    pub recipients: Vec<String>,
    pub message: String,
    pub date: String,
    pub time: String,
    pub repeat_input: String,
    /// 0 minutes, 1 hours, 2 days.
    pub repeat_unit: u8,
    pub end_time: String,
    pub flash_sms: bool,
}

/// Why a form was refused.
#[derive(Debug, Clone, Copy, PartialEq, Eq, Structural)]
pub enum ScheduleError {
    NoRecipient,
    NoMessage,
    NoDateTime,
}

/// What the form shows for each refusal.
pub open spec fn schedule_error_text(e: ScheduleError) -> Seq<char> {
    match e {
        ScheduleError::NoRecipient => "Enter at least one recipient"@,
        ScheduleError::NoMessage => "Enter a message"@,
        ScheduleError::NoDateTime => "Enter date and time"@,
    }
}

/// The warning for a refusal.
pub fn schedule_error_message(e: ScheduleError) -> (r: &'static str)
    ensures
        r@ == schedule_error_text(e),
{
    match e {
        ScheduleError::NoRecipient => "Enter at least one recipient",
        ScheduleError::NoMessage => "Enter a message",
        ScheduleError::NoDateTime => "Enter date and time",
    }
}

/// What `str::parse::<u32>` accepts: an optional '+' and at least one
/// digit, within the range of `u32`.
pub open spec fn parse_u32(s: Seq<char>) -> Option<u32> {
    let d = if s.len() > 0 && s[0] == '+' {
        s.drop_first()
    } else {
        s
    };
    if d.len() == 0 || !crate::ussd::all_digits(d) || crate::scan::decimal_value(d) > u32::MAX {
        None
    } else {
        Some(crate::scan::decimal_value(d) as u32)
    }
}

/// Parses a whole text as a `u32`.
pub fn parse_u32_text(s: &str) -> (r: Option<u32>)
    ensures
        r == parse_u32(s@),
{
    let cs = crate::text::chars_of(s);
    let start: usize = if cs.len() > 0 && cs[0] == '+' {
        1
    } else {
        0
    };
    let ghost d = if s@.len() > 0 && s@[0] == '+' {
        s@.drop_first()
    } else {
        s@
    };
    assert(d == cs@.subrange(start as int, cs@.len() as int));
    if start >= cs.len() {
        return None;
    }
    let mut i: usize = start;
    while i < cs.len()
        invariant
            start <= i <= cs.len(),
            cs@ == s@,
            d == (if s@.len() > 0 && s@[0] == '+' {
                s@.drop_first()
            } else {
                s@
            }),
            d == cs@.subrange(start as int, cs@.len() as int),
            forall|j: int| start <= j < i ==> crate::ussd::is_ascii_digit(#[trigger] cs@[j]),
        decreases cs.len() - i,
    {
        if !('0' <= cs[i] && cs[i] <= '9') {
            assert(!crate::ussd::is_ascii_digit(d[i - start]));
            return None;
        }
        i = i + 1;
    }
    assert forall|j: int| start <= j < cs.len() implies crate::scan::is_digit(#[trigger] cs@[j]) by {
        assert(crate::ussd::is_ascii_digit(cs@[j]));
    }
    assert(crate::ussd::all_digits(d)) by {
        assert forall|j: int| 0 <= j < d.len() implies crate::ussd::is_ascii_digit(
            #[trigger] d[j],
        ) by {
            assert(d[j] == cs@[start + j]);
        }
    }
    crate::scan::parse_u32_digits(&cs, start, cs.len())
}

/// Minutes in one unit of repetition.
pub open spec fn unit_minutes(unit: u8) -> nat {
    if unit == 1 {
        60
    } else if unit == 2 {
        1440
    } else {
        1
    }
}

/// The repetition a form asks for: its trimmed count (0 when it is not a
/// number) times the unit; none for a count of 0.
pub open spec fn repeat_of(input: Seq<char>, unit: u8) -> Option<nat> {
    let n: nat = match parse_u32(trim_spec(input)) {
        Some(v) => v as nat,
        None => 0,
    };
    if n > 0 {
        Some(n * unit_minutes(unit))
    } else {
        None
    }
}

/// Whether the repetition fits in a `u32` of minutes.
pub open spec fn repeat_fits(input: Seq<char>, unit: u8) -> bool {
    match repeat_of(input, unit) {
        Some(m) => m <= u32::MAX,
        None => true,
    }
}

/// Tells whether a form's repetition fits in a `u32` of minutes.
pub fn repeat_in_range(input: &str, unit: u8) -> (r: bool)
    ensures
        r == repeat_fits(input@, unit),
{
    let n: u32 = match parse_u32_text(str_trim(input)) {
        Some(v) => v,
        None => 0,
    };
    let mult: u64 = if unit == 1 {
        60
    } else if unit == 2 {
        1440
    } else {
        1
    };
    n == 0 || (n as u64) * mult <= 4294967295
}

fn repeat_minutes(input: &str, unit: u8) -> (r: Option<u32>)
    requires
        repeat_fits(input@, unit),
    ensures
        match repeat_of(input@, unit) {
            Some(m) => r == Some(m as u32),
            None => r is None,
        },
{
    let n: u32 = match parse_u32_text(str_trim(input)) {
        Some(v) => v,
        None => 0,
    };
    if n > 0 {
        let mult: u32 = if unit == 1 {
            60
        } else if unit == 2 {
            1440
        } else {
            1
        };
        Some(n * mult)
    } else {
        None
    }
}

/// The entry a valid form gives: the trimmed date and time joined by a
/// space, the trimmed message, the repetition, and an end time only for a
/// repeating entry whose trimmed end time is not empty.
pub open spec fn entry_from_form(e: ScheduledSms, id: u64, f: ScheduleForm) -> bool {
    &&& e.id == id
    &&& e.recipients@ == f.recipients@
    &&& e.message@ == trim_spec(f.message@)
    &&& e.scheduled_time@ == trim_spec(f.date@) + " "@ + trim_spec(f.time@)
    &&& !e.sent
    &&& match repeat_of(f.repeat_input@, f.repeat_unit) {
        Some(m) => e.repeat_minutes == Some(m as u32),
        None => e.repeat_minutes is None,
    }
    &&& if repeat_of(f.repeat_input@, f.repeat_unit) is Some && trim_spec(f.end_time@).len() > 0 {
        (e.end_time matches Some(t) && t@ == trim_spec(f.end_time@))
    } else {
        e.end_time is None
    }
    &&& e.flash_sms == f.flash_sms
}

/// Checks a form and makes its entry under `id`.
pub fn new_schedule(id: u64, form: ScheduleForm) -> (r: Result<ScheduledSms, ScheduleError>)
    requires
        repeat_fits(form.repeat_input@, form.repeat_unit),
    ensures
        form.recipients@.len() == 0 ==> r == Err::<ScheduledSms, ScheduleError>(
            ScheduleError::NoRecipient,
        ),
        form.recipients@.len() > 0 && trim_spec(form.message@).len() == 0 ==> r == Err::<
            ScheduledSms,
            ScheduleError,
        >(ScheduleError::NoMessage),
        form.recipients@.len() > 0 && trim_spec(form.message@).len() > 0 && (form.date@.len() == 0
            || form.time@.len() == 0) ==> r == Err::<ScheduledSms, ScheduleError>(
            ScheduleError::NoDateTime,
        ),
        form.recipients@.len() > 0 && trim_spec(form.message@).len() > 0 && form.date@.len() > 0
            && form.time@.len() > 0 ==> (r matches Ok(e) && entry_from_form(e, id, form)),
{
    if form.recipients.len() == 0 {
        return Err(ScheduleError::NoRecipient);
    }
    let message = str_trim(form.message.as_str());
    if message.is_empty() {
        return Err(ScheduleError::NoMessage);
    }
    if form.date.as_str().is_empty() || form.time.as_str().is_empty() {
        return Err(ScheduleError::NoDateTime);
    }
    let mut scheduled_time = string_of(str_trim(form.date.as_str()));
    push_str(&mut scheduled_time, " ");
    push_str(&mut scheduled_time, str_trim(form.time.as_str()));
    let repeat = repeat_minutes(form.repeat_input.as_str(), form.repeat_unit);
    let end = str_trim(form.end_time.as_str());
    let end_time = if repeat.is_some() && !end.is_empty() {
        Some(string_of(end))
    } else {
        None
    };
    let message = string_of(message);
    let flash_sms = form.flash_sms;
    Ok(
        ScheduledSms {
            id,
            recipients: form.recipients,
            message,
            scheduled_time,
            sent: false,
            repeat_minutes: repeat,
            end_time,
            flash_sms,
        },
    )
}

/// The characters of each string.
pub open spec fn texts(v: Seq<String>) -> Seq<Seq<char>> {
    v.map_values(|s: String| s@)
}

/// No text occurs twice.
pub open spec fn distinct_texts(v: Seq<String>) -> bool {
    forall|i: int, j: int| 0 <= i < j < v.len() ==> v[i]@ != v[j]@
}

/// Adds a typed recipient to the form: trimmed, and only when it is not
/// empty and not already listed.
pub fn add_recipient(list: &mut Vec<String>, input: &str)
    ensures
        ({
            let t = trim_spec(input@);
            if t.len() > 0 && !texts(old(list)@).contains(t) {
                texts(final(list)@) == texts(old(list)@).push(t)
            } else {
                texts(final(list)@) == texts(old(list)@)
            }
        }),
        distinct_texts(old(list)@) ==> distinct_texts(final(list)@),
{
    let t = str_trim(input);
    if t.is_empty() {
        return;
    }
    let mut i: usize = 0;
    while i < list.len()
        invariant
            0 <= i <= list@.len(),
            list@ == old(list)@,
            t@ == trim_spec(input@),
            t@.len() > 0,
            forall|j: int| 0 <= j < i ==> list@[j]@ != t@,
        decreases list.len() - i,
    {
        if crate::text::str_eq(list[i].as_str(), t) {
            assert(texts(list@)[i as int] == t@);
            return;
        }
        i = i + 1;
    }
    assert(!texts(list@).contains(t@)) by {
        if texts(list@).contains(t@) {
            let k = choose|k: int| 0 <= k < texts(list@).len() && texts(list@)[k] == t@;
            assert(list@[k]@ == t@);
        }
    }
    list.push(string_of(t));
    assert(texts(list@) =~= texts(old(list)@).push(t@));
}

// ---------------------------------------------------------------------------
// The list of scheduled messages
// ---------------------------------------------------------------------------

/// The id after the largest in the list, 1 for an empty list.
pub open spec fn next_id_after(entries: Seq<ScheduledSms>) -> u64
    decreases entries.len(),
{
    if entries.len() == 0 {
        1
    } else {
        let rest = next_id_after(entries.drop_last());
        let own = (entries.last().id + 1) as u64;
        if entries.len() == 1 || own > rest {
            own
        } else {
            rest
        }
    }
}

/// The id to give the next entry of a loaded list.
pub fn next_schedule_id(entries: &Vec<ScheduledSms>) -> (r: u64)
    requires
        forall|i: int| 0 <= i < entries@.len() ==> (#[trigger] entries@[i]).id < u64::MAX,
    ensures
        r == next_id_after(entries@),
{
    let mut best: u64 = 1;
    let mut i: usize = 0;
    while i < entries.len()
        invariant
            0 <= i <= entries@.len(),
            forall|k: int| 0 <= k < entries@.len() ==> (#[trigger] entries@[k]).id < u64::MAX,
            best == next_id_after(entries@.take(i as int)),
        decreases entries.len() - i,
    {
        assert(entries@.take(i + 1).drop_last() == entries@.take(i as int));
        let own = entries[i].id + 1;
        if i == 0 || own > best {
            best = own;
        }
        i = i + 1;
    }
    assert(entries@.take(entries@.len() as int) == entries@);
    best
}

/// Whether an entry is due at minute `now`: not yet sent and scheduled at
/// or before it.
pub open spec fn is_due(e: ScheduledSms, now: Seq<char>) -> bool {
    !e.sent && text_le(e.scheduled_time@, now)
}

/// The ids of the due entries, in list order.
pub open spec fn due_ids(entries: Seq<ScheduledSms>, now: Seq<char>) -> Seq<u64>
    decreases entries.len(),
{
    if entries.len() == 0 {
        Seq::empty()
    } else {
        let rest = due_ids(entries.drop_last(), now);
        if is_due(entries.last(), now) {
            rest.push(entries.last().id)
        } else {
            rest
        }
    }
}

/// Whether the schedule tab lists an entry: a pending entry whose time has
/// passed is left out.
pub open spec fn is_listed(e: ScheduledSms, now: Seq<char>) -> bool {
    e.sent || !text_lt(e.scheduled_time@, now)
}

/// Tells whether the schedule tab lists an entry at minute `now`.
pub fn listed_at(e: &ScheduledSms, now: &str) -> (r: bool)
    ensures
        r == is_listed(*e, now@),
{
    e.sent || !text_less(e.scheduled_time.as_str(), now)
}

/// What becomes of a sent entry, given the time of its next repetition:
/// an entry that does not repeat is done; a repeating one moves to the
/// next time, unless that time is past its end time, when it is done.
pub open spec fn after_send(e: ScheduledSms, new: ScheduledSms, next: Seq<char>) -> bool {
    &&& new.id == e.id && new.recipients@ == e.recipients@ && new.message@ == e.message@
    &&& new.repeat_minutes == e.repeat_minutes && new.flash_sms == e.flash_sms
    &&& opt_str(new.end_time) == opt_str(e.end_time)
    &&& match e.repeat_minutes {
        None => new.sent && new.scheduled_time@ == e.scheduled_time@,
        Some(_) => match e.end_time {
            Some(end) => if text_lt(end@, next) {
                new.sent && new.scheduled_time@ == e.scheduled_time@
            } else {
                new.sent == e.sent && new.scheduled_time@ == next
            },
            None => new.sent == e.sent && new.scheduled_time@ == next,
        },
    }
}

/// The view of an optional string.
pub open spec fn opt_str(o: Option<String>) -> Option<Seq<char>> {
    match o {
        Some(s) => Some(s@),
        None => None,
    }
}

/// The first entry with id `id`.
pub open spec fn first_with_id(entries: Seq<ScheduledSms>, id: u64, i: int) -> Option<int>
    decreases entries.len() - i,
{
    if i < 0 || i >= entries.len() {
        None
    } else if entries[i].id == id {
        Some(i)
    } else {
        first_with_id(entries, id, i + 1)
    }
}

/// Applies the outcome of a send to one entry.
pub fn reschedule(e: &mut ScheduledSms, next: &str)
    ensures
        after_send(*old(e), *final(e), next@),
{
    match e.repeat_minutes {
        None => {
            e.sent = true;
        },
        Some(_) => {
            let past_end = match &e.end_time {
                Some(end) => text_less(end.as_str(), next),
                None => false,
            };
            if past_end {
                e.sent = true;
            } else {
                e.scheduled_time = string_of(next);
            }
        },
    }
}

/// The scheduled messages and the id the next one gets.
pub struct Schedule {
    pub entries: Vec<ScheduledSms>,
    pub next_id: u64,
}

impl Schedule {
    pub fn new() -> (r: Self)
        ensures
            r.entries@.len() == 0,
            r.next_id == 1,
    {
        Schedule { entries: Vec::new(), next_id: 1 }
    }

    /// A loaded list; the next id follows the largest id in it.
    pub fn from_entries(entries: Vec<ScheduledSms>) -> (r: Self)
        requires
            forall|i: int| 0 <= i < entries@.len() ==> (#[trigger] entries@[i]).id < u64::MAX,
        ensures
            r.entries@ == entries@,
            r.next_id == next_id_after(entries@),
    {
        let next_id = next_schedule_id(&entries);
        Schedule { entries, next_id }
    }

    /// Adds the entry of a valid form under the next id, which then moves
    /// on by one (wrapping).
    pub fn add(&mut self, form: ScheduleForm) -> (r: Result<u64, ScheduleError>)
        requires
            repeat_fits(form.repeat_input@, form.repeat_unit),
        ensures
            match r {
                Ok(id) => id == old(self).next_id && final(self).entries@.len() == old(
                    self,
                ).entries@.len() + 1 && final(self).entries@.drop_last() == old(self).entries@
                    && entry_from_form(final(self).entries@.last(), id, form)
                    && final(self).next_id == (if old(self).next_id == u64::MAX {
                    0
                } else {
                    old(self).next_id + 1
                }),
                Err(_) => final(self).entries@ == old(self).entries@ && final(self).next_id == old(
                    self,
                ).next_id,
            },
            r is Err <==> (form.recipients@.len() == 0 || trim_spec(form.message@).len() == 0
                || form.date@.len() == 0 || form.time@.len() == 0),
    {
        let id = self.next_id;
        match new_schedule(id, form) {
            Ok(e) => {
                self.entries.push(e);
                self.next_id = self.next_id.wrapping_add(1);
                Ok(id)
            },
            Err(err) => Err(err),
        }
    }

    /// Removes every entry with id `id`.
    pub fn delete(&mut self, id: u64)
        ensures
            final(self).entries@ == without_id(old(self).entries@, id),
            final(self).next_id == old(self).next_id,
    {
        let ghost all = self.entries@;
        let mut rest: Vec<ScheduledSms> = Vec::new();
        std::mem::swap(&mut rest, &mut self.entries);
        let mut kept: Vec<ScheduledSms> = Vec::new();
        let n = rest.len();
        let mut i: usize = 0;
        while i < n
            invariant
                n == all.len(),
                0 <= i <= n,
                rest@ == all.subrange(i as int, n as int),
                kept@ == without_id(all.take(i as int), id),
            decreases n - i,
        {
            assert(all.take(i + 1).drop_last() == all.take(i as int));
            assert(rest@[0] == all[i as int]);
            let e = rest.remove(0);
            assert(rest@ == all.subrange(i + 1, n as int));
            if e.id != id {
                kept.push(e);
            }
            i = i + 1;
        }
        assert(all.take(n as int) == all);
        self.entries = kept;
    }
}

/// The current local time to the minute, "YYYY-MM-DD HH:MM"
/// (`chrono::Local::now` formatted). Nothing is claimed of the text: it
/// depends on the clock.
#[verifier::external_body]
fn now_minute() -> (r: String) {
    chrono::Local::now().format("%Y-%m-%d %H:%M").to_string()
}

/// What chrono gives for the minute text `now` ("YYYY-MM-DD HH:MM") plus
/// `minutes`: `NaiveDateTime::parse_from_str` with that format, then
/// `checked_add_signed` of `TimeDelta::minutes`, formatted the same way;
/// `None` where the text does not parse or the date would leave chrono's
/// range.
pub uninterp spec fn minutes_after(now: Seq<char>, minutes: u32) -> Option<Seq<char>>;

/// The minute `minutes` after the minute text `now` (calendar arithmetic of
/// chrono's `NaiveDateTime`, no time zone involved). Claimed: the result is
/// `minutes_after` of the arguments. `TimeDelta::minutes` panics only beyond
/// `i64::MAX / 60` minutes, which no `u32` reaches.
#[verifier::external_body]
fn later_minute(now: &str, minutes: u32) -> (r: Option<String>)
    ensures
        match r {
            Some(t) => minutes_after(now@, minutes) == Some(t@),
            None => minutes_after(now@, minutes) is None,
        },
{
    match chrono::NaiveDateTime::parse_from_str(now, "%Y-%m-%d %H:%M") {
        Ok(t) => match t.checked_add_signed(chrono::TimeDelta::minutes(minutes as i64)) {
            Some(n) => Some(n.format("%Y-%m-%d %H:%M").to_string()),
            None => None,
        },
        Err(_) => None,
    }
}

/// The SMS class a scheduled entry is sent with: "0" for flash, else "1".
pub fn class_for_flash(flash: bool) -> (r: &'static str)
    ensures
        r@ == (if flash {
            "0"@
        } else {
            "1"@
        }),
{
    if flash {
        "0"
    } else {
        "1"
    }
}

/// Only the first entry with id `id` changed, as `after_send` with `next`
/// says; no entry with that id leaves everything as it was.
pub open spec fn entries_after_send(
    old_entries: Seq<ScheduledSms>,
    new_entries: Seq<ScheduledSms>,
    id: u64,
    next: Seq<char>,
) -> bool {
    new_entries.len() == old_entries.len() && match first_with_id(old_entries, id, 0) {
        Some(k) => after_send(old_entries[k], new_entries[k], next) && forall|j: int|
            0 <= j < old_entries.len() && j != k ==> #[trigger] new_entries[j] == old_entries[j],
        None => new_entries == old_entries,
    }
}

impl Schedule {
    /// The ids of the entries due at minute `now`, in list order.
    pub fn due_at(&self, now: &str) -> (r: Vec<u64>)
        ensures
            r@ == due_ids(self.entries@, now@),
    {
        let mut r: Vec<u64> = Vec::new();
        let mut i: usize = 0;
        while i < self.entries.len()
            invariant
                0 <= i <= self.entries@.len(),
                r@ == due_ids(self.entries@.take(i as int), now@),
            decreases self.entries.len() - i,
        {
            assert(self.entries@.take(i + 1).drop_last() == self.entries@.take(i as int));
            let e = &self.entries[i];
            if !e.sent && text_less_eq(e.scheduled_time.as_str(), now) {
                r.push(e.id);
            }
            i = i + 1;
        }
        assert(self.entries@.take(self.entries@.len() as int) == self.entries@);
        r
    }

    /// The current minute and the ids of the entries due then.
    pub fn due_now(&self) -> (r: (String, Vec<u64>))
        ensures
            r.1@ == due_ids(self.entries@, r.0@),
    {
        let now = now_minute();
        let ids = self.due_at(now.as_str());
        (now, ids)
    }

    /// Records that the entry with id `id` was sent, its next repetition
    /// being due at `next`.
    pub fn mark_sent(&mut self, id: u64, next: &str)
        ensures
            entries_after_send(old(self).entries@, final(self).entries@, id, next@),
            final(self).next_id == old(self).next_id,
    {
        let ghost before = self.entries@;
        let mut i: usize = 0;
        while i < self.entries.len()
            invariant
                0 <= i <= self.entries@.len(),
                self.entries@ == before,
                before == old(self).entries@,
                self.next_id == old(self).next_id,
                first_with_id(before, id, 0) == first_with_id(before, id, i as int),
            decreases self.entries.len() - i,
        {
            if self.entries[i].id == id {
                assert(first_with_id(before, id, 0) == Some(i as int));
                let mut e = self.entries.remove(i);
                reschedule(&mut e, next);
                self.entries.insert(i, e);
                assert forall|j: int| 0 <= j < before.len() && j != i implies #[trigger]
                    self.entries@[j] == before[j] by {
                    if j < i {
                        assert(self.entries@[j] == before[j]);
                    } else {
                        assert(self.entries@[j] == before[j]);
                    }
                }
                return;
            }
            i = i + 1;
        }
        assert(first_with_id(before, id, i as int) is None);
    }

    /// Records that the entry with id `id` was sent at minute `now`: one that
    /// repeats every `m` minutes moves to `m` minutes after `now` (or is done
    /// when that passes its end time); any other is done. A repeating entry
    /// whose next minute cannot be computed is done as well. The minutes are
    /// added to the wall-clock text of `now`, with no time zone: across a
    /// daylight-saving change the result differs by the shift from adding
    /// them to the instant, which would depend on the machine's time zone.
    pub fn complete_send(&mut self, id: u64, now: &str)
        ensures
            match next_slot(old(self).entries@, id, now@) {
                Some(next) => entries_after_send(old(self).entries@, final(self).entries@, id, next),
                None => entries_finished(old(self).entries@, final(self).entries@, id),
            },
            final(self).next_id == old(self).next_id,
    {
        let mut i: usize = 0;
        while i < self.entries.len() && self.entries[i].id != id
            invariant
                0 <= i <= self.entries@.len(),
                first_with_id(self.entries@, id, 0) == first_with_id(self.entries@, id, i as int),
            decreases self.entries.len() - i,
        {
            i = i + 1;
        }
        if i < self.entries.len() {
            assert(first_with_id(self.entries@, id, 0) == Some(i as int));
            match self.entries[i].repeat_minutes {
                Some(m) => match later_minute(now, m) {
                    Some(next) => self.mark_sent(id, next.as_str()),
                    None => self.mark_finished(id),
                },
                None => self.mark_sent(id, ""),
            }
        } else {
            assert(first_with_id(self.entries@, id, i as int) is None);
            self.mark_sent(id, "");
        }
    }

    /// Marks the first entry with id `id` done, its time kept.
    fn mark_finished(&mut self, id: u64)
        ensures
            entries_finished(old(self).entries@, final(self).entries@, id),
            final(self).next_id == old(self).next_id,
    {
        let ghost before = self.entries@;
        let mut i: usize = 0;
        while i < self.entries.len()
            invariant
                0 <= i <= self.entries@.len(),
                self.entries@ == before,
                before == old(self).entries@,
                self.next_id == old(self).next_id,
                first_with_id(before, id, 0) == first_with_id(before, id, i as int),
            decreases self.entries.len() - i,
        {
            if self.entries[i].id == id {
                assert(first_with_id(before, id, 0) == Some(i as int));
                let mut e = self.entries.remove(i);
                e.sent = true;
                self.entries.insert(i, e);
                assert forall|j: int| 0 <= j < before.len() && j != i implies #[trigger]
                    self.entries@[j] == before[j] by {
                    assert(self.entries@[j] == before[j]);
                }
                return;
            }
            i = i + 1;
        }
        assert(first_with_id(before, id, i as int) is None);
    }
}

/// When the entry with id `id` is next due after being sent at `now`: for
/// one that repeats every `m` minutes, `m` minutes after `now` (`None`
/// when that cannot be computed); for any other entry the time plays no
/// part (empty).
pub open spec fn next_slot(entries: Seq<ScheduledSms>, id: u64, now: Seq<char>) -> Option<
    Seq<char>,
> {
    match first_with_id(entries, id, 0) {
        Some(k) => match entries[k].repeat_minutes {
            Some(m) => minutes_after(now, m),
            None => Some(Seq::empty()),
        },
        None => Some(Seq::empty()),
    }
}

/// Only the first entry with id `id` changed: it is done, all else kept.
pub open spec fn entries_finished(
    old_entries: Seq<ScheduledSms>,
    new_entries: Seq<ScheduledSms>,
    id: u64,
) -> bool {
    new_entries.len() == old_entries.len() && match first_with_id(old_entries, id, 0) {
        Some(k) => {
            let e = old_entries[k];
            let n = new_entries[k];
            &&& n.id == e.id && n.recipients@ == e.recipients@ && n.message@ == e.message@
            &&& n.repeat_minutes == e.repeat_minutes && n.flash_sms == e.flash_sms
            &&& opt_str(n.end_time) == opt_str(e.end_time)
            &&& n.sent && n.scheduled_time@ == e.scheduled_time@
            &&& forall|j: int| 0 <= j < old_entries.len() && j != k ==> #[trigger] new_entries[j]
                == old_entries[j]
        },
        None => new_entries == old_entries,
    }
}

/// The entries without those with id `id`, in order.
pub open spec fn without_id(entries: Seq<ScheduledSms>, id: u64) -> Seq<ScheduledSms>
    decreases entries.len(),
{
    if entries.len() == 0 {
        Seq::empty()
    } else {
        let rest = without_id(entries.drop_last(), id);
        if entries.last().id != id {
            rest.push(entries.last())
        } else {
            rest
        }
    }
}


/// A form's count is a number of minutes (unit 0, or any unit past 2),
/// hours (unit 1) or days (unit 2): a count of `n` repeats every `n`,
/// `60 * n` or `24 * 60 * n` minutes. So the same count repeats 60 times
/// less often in hours than in minutes, and 24 times less often in days
/// than in hours. A count of 0, or text that is no number, repeats never.
pub proof fn lemma_repeat_counts_in_units(input: Seq<char>, unit: u8)
    ensures
        match parse_u32(trim_spec(input)) {
            Some(n) => n > 0 ==> {
                &&& repeat_of(input, 0) == Some(n as nat)
                &&& repeat_of(input, 1) == Some(60 * n as nat)
                &&& repeat_of(input, 2) == Some(24 * 60 * n as nat)
                &&& unit > 2 ==> repeat_of(input, unit) == Some(n as nat)
            },
            None => true,
        },
        (parse_u32(trim_spec(input)) is None || parse_u32(trim_spec(input)) == Some(0u32))
            ==> repeat_of(input, unit) is None,
        repeat_of(input, 1) matches Some(h) ==> repeat_of(input, 0) == Some(h / 60) && h % 60 == 0,
        repeat_of(input, 2) matches Some(d) ==> repeat_of(input, 1) == Some(d / 24) && d % 24 == 0,
{
    if let Some(n) = parse_u32(trim_spec(input)) {
        let k = n as nat;
        assert(k * 1 == k && k * 60 == 60 * k && k * 1440 == 24 * 60 * k) by (nonlinear_arith);
        assert((60 * k) / 60 == k && (60 * k) % 60 == 0) by (nonlinear_arith);
        assert((24 * 60 * k) / 24 == 60 * k && (24 * 60 * k) % 24 == 0) by (nonlinear_arith);
    }
}

/// Every id in a list is below the id the next entry gets, so a new entry
/// never takes an id already in use.
pub proof fn lemma_next_id_is_fresh(entries: Seq<ScheduledSms>)
    requires
        forall|i: int| 0 <= i < entries.len() ==> (#[trigger] entries[i]).id < u64::MAX,
    ensures
        forall|i: int| 0 <= i < entries.len() ==> (#[trigger] entries[i]).id < next_id_after(
            entries,
        ),
    decreases entries.len(),
{
    if entries.len() > 0 {
        let rest = entries.drop_last();
        assert forall|i: int| 0 <= i < rest.len() implies (#[trigger] rest[i]).id < u64::MAX by {
            assert(rest[i] == entries[i]);
        }
        lemma_next_id_is_fresh(rest);
        assert forall|i: int| 0 <= i < entries.len() implies (#[trigger] entries[i]).id
            < next_id_after(entries) by {
            if i < entries.len() - 1 {
                assert(entries[i] == rest[i]);
            }
        }
    }
}

} // verus!
