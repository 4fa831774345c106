//! The activity log: raw modem traffic and the readable entries kept apart,
//! each with a bounded length (the oldest entry goes first), all of them
//! together within a cap on the bytes of text they hold, and the filtered
//! view that the log panel shows for the chosen mode.

use vstd::prelude::*;
use vstd::utf8::encode_utf8;

use crate::lines::opt_view;
use crate::text::{chars_of, contains, str_contains, str_eq, str_trim, string_of, trim_spec};

verus! {

/// One log line.
#[derive(Debug)]
pub struct LogEntry {
    pub timestamp: String,
    pub category: String,
    pub message: String,
}

/// An entry's fields as characters.
pub open spec fn entry_view(e: LogEntry) -> (Seq<char>, Seq<char>, Seq<char>) {
    (e.timestamp@, e.category@, e.message@)
}

/// The views of a list of entries.
pub open spec fn entries_view(v: Seq<LogEntry>) -> Seq<(Seq<char>, Seq<char>, Seq<char>)> {
    v.map_values(|e: LogEntry| entry_view(e))
}

/// A copy of an entry.
pub fn copy_entry(e: &LogEntry) -> (r: LogEntry)
    ensures
        entry_view(r) == entry_view(*e),
{
    LogEntry {
        timestamp: e.timestamp.clone(),
        category: e.category.clone(),
        message: e.message.clone(),
    }
}

/// The short label a category is shown with.
pub open spec fn category_text(category: Seq<char>) -> Seq<char> {
    if category == "error"@ {
        "ERR"@
    } else if category == "sms"@ {
        "SMS"@
    } else if category == "system"@ {
        "SYS"@
    } else if category == "raw"@ {
        "RAW"@
    } else if category == "at"@ {
        " AT"@
    } else {
        "INF"@
    }
}

/// Labels a category for the log panel.
pub fn category_label(category: &str) -> (r: &'static str)
    ensures
        r@ == category_text(category@),
{
    if str_eq(category, "error") {
        "ERR"
    } else if str_eq(category, "sms") {
        "SMS"
    } else if str_eq(category, "system") {
        "SYS"
    } else if str_eq(category, "raw") {
        "RAW"
    } else if str_eq(category, "at") {
        " AT"
    } else {
        "INF"
    }
}

/// Whether the log mode shows entries of a category: "at" shows the
/// readable AT traffic and the raw serial data, "raw" only the raw data,
/// "system" system, SMS and error entries, "important" SMS and error
/// entries, any other mode everything.
pub open spec fn mode_keeps(mode: Seq<char>, category: Seq<char>) -> bool {
    if mode == "at"@ {
        category == "at"@ || category == "raw"@
    } else if mode == "raw"@ {
        category == "raw"@
    } else if mode == "system"@ {
        category == "system"@ || category == "sms"@ || category == "error"@
    } else if mode == "important"@ {
        category == "sms"@ || category == "error"@
    } else {
        true
    }
}

fn keeps(mode: &str, category: &str) -> (r: bool)
    ensures
        r == mode_keeps(mode@, category@),
{
    if str_eq(mode, "at") {
        str_eq(category, "at") || str_eq(category, "raw")
    } else if str_eq(mode, "raw") {
        str_eq(category, "raw")
    } else if str_eq(mode, "system") {
        str_eq(category, "system") || str_eq(category, "sms") || str_eq(category, "error")
    } else if str_eq(mode, "important") {
        str_eq(category, "sms") || str_eq(category, "error")
    } else {
        true
    }
}

/// Whether the log panel shows an entry: its category fits the mode, and
/// it is no status noise when noise is hidden.
pub open spec fn shows(mode: Seq<char>, hide_status: bool, e: (Seq<char>, Seq<char>, Seq<char>)) -> bool {
    mode_keeps(mode, e.1) && !(hide_status && is_status_noise(e.2))
}

/// The entries the panel shows, in order.
pub open spec fn kept(
    v: Seq<(Seq<char>, Seq<char>, Seq<char>)>,
    mode: Seq<char>,
    hide_status: bool,
) -> Seq<(Seq<char>, Seq<char>, Seq<char>)>
    decreases v.len(),
{
    if v.len() == 0 {
        Seq::empty()
    } else {
        let rest = kept(v.drop_last(), mode, hide_status);
        if shows(mode, hide_status, v.last()) {
            rest.push(v.last())
        } else {
            rest
        }
    }
}

/// The last `max` items of `v` (all of them when there are fewer).
pub open spec fn last_n<T>(v: Seq<T>, max: nat) -> Seq<T> {
    if v.len() <= max {
        v
    } else {
        v.subrange(v.len() - max, v.len() as int)
    }
}

/// What the log may hold in all, in bytes of text (50 MB).
pub const LOG_BYTE_CAP: usize = 50000000;

/// Bytes of text an entry holds: its time stamp, category and message in
/// UTF-8.
pub open spec fn entry_bytes(e: (Seq<char>, Seq<char>, Seq<char>)) -> nat {
    encode_utf8(e.0).len() + encode_utf8(e.1).len() + encode_utf8(e.2).len()
}

/// Bytes of text a list of entries holds.
pub open spec fn seq_bytes(v: Seq<(Seq<char>, Seq<char>, Seq<char>)>) -> nat
    decreases v.len(),
{
    if v.len() == 0 {
        0
    } else {
        seq_bytes(v.drop_last()) + entry_bytes(v.last())
    }
}

proof fn lemma_seq_bytes_push(
    v: Seq<(Seq<char>, Seq<char>, Seq<char>)>,
    e: (Seq<char>, Seq<char>, Seq<char>),
)
    ensures
        seq_bytes(v.push(e)) == seq_bytes(v) + entry_bytes(e),
{
    assert(v.push(e).drop_last() == v);
}

proof fn lemma_seq_bytes_remove(v: Seq<(Seq<char>, Seq<char>, Seq<char>)>, i: int)
    requires
        0 <= i < v.len(),
    ensures
        seq_bytes(v.remove(i)) + entry_bytes(v[i]) == seq_bytes(v),
    decreases v.len(),
{
    if i == v.len() - 1 {
        assert(v.remove(i) == v.drop_last());
    } else {
        lemma_seq_bytes_remove(v.drop_last(), i);
        assert(v.remove(i).drop_last() == v.drop_last().remove(i));
        assert(v.remove(i).last() == v.last());
    }
}

/// The three lists after trimming them to `cap` bytes: while they hold
/// more, the oldest raw entry goes, then (with no raw entry left) the
/// oldest routine entry, and last the oldest SMS or error entry.
pub open spec fn trim_to(
    raw: Seq<(Seq<char>, Seq<char>, Seq<char>)>,
    persistent: Seq<(Seq<char>, Seq<char>, Seq<char>)>,
    info: Seq<(Seq<char>, Seq<char>, Seq<char>)>,
    cap: nat,
) -> (
    Seq<(Seq<char>, Seq<char>, Seq<char>)>,
    Seq<(Seq<char>, Seq<char>, Seq<char>)>,
    Seq<(Seq<char>, Seq<char>, Seq<char>)>,
)
    decreases raw.len() + persistent.len() + info.len(),
{
    if seq_bytes(raw) + seq_bytes(persistent) + seq_bytes(info) <= cap {
        (raw, persistent, info)
    } else if raw.len() > 0 {
        trim_to(raw.drop_first(), persistent, info, cap)
    } else if info.len() > 0 {
        trim_to(raw, persistent, info.drop_first(), cap)
    } else if persistent.len() > 0 {
        trim_to(raw, persistent.drop_first(), info, cap)
    } else {
        (raw, persistent, info)
    }
}

/// The three lists after recording entry `e` (`readable` being the
/// readable form of a raw line), before the byte cap applies.
pub open spec fn added(
    raw: Seq<(Seq<char>, Seq<char>, Seq<char>)>,
    persistent: Seq<(Seq<char>, Seq<char>, Seq<char>)>,
    info: Seq<(Seq<char>, Seq<char>, Seq<char>)>,
    e: (Seq<char>, Seq<char>, Seq<char>),
    readable: Option<Seq<char>>,
    max_raw: nat,
    max_persistent: nat,
    max_info: nat,
) -> (
    Seq<(Seq<char>, Seq<char>, Seq<char>)>,
    Seq<(Seq<char>, Seq<char>, Seq<char>)>,
    Seq<(Seq<char>, Seq<char>, Seq<char>)>,
) {
    if e.1 == "raw"@ {
        (
            raw_after(raw, e, max_raw),
            persistent,
            match readable {
                Some(t) => last_n(info.push((e.0, "at"@, t)), max_info),
                None => info,
            },
        )
    } else {
        let (p, i) = readable_after(persistent, info, e, max_persistent, max_info);
        (raw, p, i)
    }
}

proof fn lemma_trim_spares_small_persistent(
    raw: Seq<(Seq<char>, Seq<char>, Seq<char>)>,
    persistent: Seq<(Seq<char>, Seq<char>, Seq<char>)>,
    info: Seq<(Seq<char>, Seq<char>, Seq<char>)>,
    cap: nat,
)
    requires
        seq_bytes(persistent) <= cap,
    ensures
        trim_to(raw, persistent, info, cap).1 == persistent,
    decreases raw.len() + persistent.len() + info.len(),
{
    if seq_bytes(raw) + seq_bytes(persistent) + seq_bytes(info) <= cap {
    } else if raw.len() > 0 {
        lemma_trim_spares_small_persistent(raw.drop_first(), persistent, info, cap);
    } else if info.len() > 0 {
        lemma_trim_spares_small_persistent(raw, persistent, info.drop_first(), cap);
    } else {
        assert(raw.len() == 0 && info.len() == 0);
    }
}

/// Bytes of UTF-8 a text takes.
fn text_bytes(s: &str) -> (n: u128)
    ensures
        n == encode_utf8(s@).len(),
        n <= 4 * usize::MAX,
{
    let cs = chars_of(s);
    let mut n: u128 = 0;
    let mut i: usize = 0;
    proof {
        assert(cs@.take(0) == Seq::<char>::empty());
        assert(encode_utf8(Seq::<char>::empty()) == Seq::<u8>::empty());
    }
    while i < cs.len()
        invariant
            0 <= i <= cs.len(),
            cs@ == s@,
            n == encode_utf8(cs@.take(i as int)).len(),
            n <= 4 * i,
        decreases cs.len() - i,
    {
        let v = cs[i] as u32;
        let w: u128 = if v <= 0x7F {
            1
        } else if v <= 0x7FF {
            2
        } else if v <= 0xFFFF {
            3
        } else {
            4
        };
        proof {
            crate::text::lemma_encode_utf8_push(cs@.take(i as int), cs@[i as int]);
            assert(cs@.take(i + 1) == cs@.take(i as int).push(cs@[i as int]));
        }
        n = n + w;
        i = i + 1;
    }
    assert(cs@.take(cs.len() as int) == cs@);
    n
}

/// Bytes of text an entry holds.
fn entry_size(e: &LogEntry) -> (n: u128)
    ensures
        n == entry_bytes(entry_view(*e)),
        n <= 12 * usize::MAX,
{
    text_bytes(e.timestamp.as_str()) + text_bytes(e.category.as_str()) + text_bytes(
        e.message.as_str(),
    )
}

/// The log: raw modem traffic; SMS and error entries, kept in a large list
/// of their own so that routine entries never push them out; every other
/// readable entry; the bytes of text all of them hold, within a cap; a
/// pause switch; and the cached view of the log panel with a flag telling
/// when it is out of date.
pub struct LogBook {
    pub raw: Vec<LogEntry>,
    pub persistent: Vec<LogEntry>,
    pub info: Vec<LogEntry>,
    pub max_raw: usize,
    pub max_persistent: usize,
    pub max_info: usize,
    pub used_bytes: u128,
    pub max_bytes: usize,
    pub paused: bool,
    pub cache_dirty: bool,
    pub cached: Vec<LogEntry>,
}

/// SMS and error entries go to the persistent list.
pub open spec fn is_persistent_category(category: Seq<char>) -> bool {
    category == "sms"@ || category == "error"@
}

/// The readable lists after adding entry `e` of category `e.1`: SMS and
/// error entries to the persistent list, any other to the info list.
pub open spec fn readable_after(
    persistent: Seq<(Seq<char>, Seq<char>, Seq<char>)>,
    info: Seq<(Seq<char>, Seq<char>, Seq<char>)>,
    e: (Seq<char>, Seq<char>, Seq<char>),
    max_persistent: nat,
    max_info: nat,
) -> (Seq<(Seq<char>, Seq<char>, Seq<char>)>, Seq<(Seq<char>, Seq<char>, Seq<char>)>) {
    if is_persistent_category(e.1) {
        (last_n(persistent.push(e), max_persistent), info)
    } else {
        (persistent, last_n(info.push(e), max_info))
    }
}

proof fn lemma_kept_concat(
    a: Seq<(Seq<char>, Seq<char>, Seq<char>)>,
    b: Seq<(Seq<char>, Seq<char>, Seq<char>)>,
    mode: Seq<char>,
    hide_status: bool,
)
    ensures
        kept(a + b, mode, hide_status) == kept(a, mode, hide_status) + kept(b, mode, hide_status),
    decreases b.len(),
{
    if b.len() == 0 {
        assert(a + b == a);
        assert(kept(a, mode, hide_status) + Seq::empty() == kept(a, mode, hide_status));
    } else {
        lemma_kept_concat(a, b.drop_last(), mode, hide_status);
        assert((a + b).drop_last() == a + b.drop_last());
        assert((a + b).last() == b.last());
        let kb = kept(b.drop_last(), mode, hide_status);
        let ka = kept(a, mode, hide_status);
        if shows(mode, hide_status, b.last()) {
            assert(ka + kb.push(b.last()) == (ka + kb).push(b.last()));
        }
    }
}

/// Appends to `out` the entries of `src` that the panel shows.
fn append_kept(out: &mut Vec<LogEntry>, src: &Vec<LogEntry>, mode: &str, hide_status: bool)
    ensures
        entries_view(final(out)@) == entries_view(old(out)@) + kept(
            entries_view(src@),
            mode@,
            hide_status,
        ),
{
    let ghost start = entries_view(out@);
    let ghost all = entries_view(src@);
    let mut i: usize = 0;
    while i < src.len()
        invariant
            0 <= i <= src@.len(),
            all == entries_view(src@),
            entries_view(out@) == start + kept(all.take(i as int), mode@, hide_status),
        decreases src.len() - i,
    {
        let e = &src[i];
        assert(entry_view(*e) == all[i as int]);
        assert(all.take(i + 1).drop_last() == all.take(i as int));
        if keeps(mode, e.category.as_str()) && !(hide_status && status_noise(e.message.as_str())) {
            let c = copy_entry(e);
            let ghost prev = out@;
            out.push(c);
            assert(out@ == prev.push(c));
            assert(entries_view(out@) =~= entries_view(prev).push(entry_view(c)));
            assert(entries_view(out@) =~= start + kept(all.take(i as int), mode@, hide_status).push(
                all[i as int],
            ));
        }
        i = i + 1;
    }
    assert(all.take(src@.len() as int) == all);
}


/// Status polling noise: lines about signal, network, registration,
/// operator, frequency and data flow reports, and bare "OK" answers (also
/// as the escaped raw chunk).
pub open spec fn is_status_noise(msg: Seq<char>) -> bool {
    contains(msg, "Signal"@) || contains(msg, "Network"@) || contains(msg, "+CSQ"@) || contains(
        msg,
        "+COPS"@,
    ) || contains(msg, "+CREG"@) || contains(msg, "+CGREG"@) || contains(msg, "^SYSINFOEX"@)
        || contains(msg, "^RSSI"@) || contains(msg, "^HCSQ"@) || contains(msg, "^HFREQINFO"@)
        || contains(msg, "^DSFLOWRPT"@) || trim_spec(msg) == "OK"@ || msg == "\"\\r\\nOK\\r\\n\""@
}

/// Tells whether a log line is status polling noise.
pub fn status_noise(msg: &str) -> (r: bool)
    ensures
        r == is_status_noise(msg@),
{
    str_contains(msg, "Signal") || str_contains(msg, "Network") || str_contains(msg, "+CSQ")
        || str_contains(msg, "+COPS") || str_contains(msg, "+CREG") || str_contains(msg, "+CGREG")
        || str_contains(msg, "^SYSINFOEX") || str_contains(msg, "^RSSI") || str_contains(
        msg,
        "^HCSQ",
    ) || str_contains(msg, "^HFREQINFO") || str_contains(msg, "^DSFLOWRPT") || str_eq(
        str_trim(msg),
        "OK",
    ) || str_eq(msg, "\"\\r\\nOK\\r\\n\"")
}

/// The entry that goes when the raw list is full: the oldest noise entry,
/// or the oldest entry when none is noise.
pub open spec fn eviction_index(v: Seq<(Seq<char>, Seq<char>, Seq<char>)>, i: int) -> int
    decreases v.len() - i,
{
    if i < 0 || i >= v.len() {
        0
    } else if is_status_noise(v[i].2) {
        i
    } else {
        eviction_index(v, i + 1)
    }
}

proof fn lemma_eviction_index_bound(v: Seq<(Seq<char>, Seq<char>, Seq<char>)>, i: int)
    requires
        0 <= i,
        v.len() > 0,
    ensures
        0 <= eviction_index(v, i) < v.len(),
    decreases v.len() - i,
{
    if i < v.len() && !is_status_noise(v[i].2) {
        lemma_eviction_index_bound(v, i + 1);
    }
}

/// Appends a raw entry; when the list is full, the oldest noise entry
/// goes first (the oldest entry when there is no noise). Returns the bytes
/// of text that left with the dropped entry.
fn push_raw_bounded(v: &mut Vec<LogEntry>, e: LogEntry, max: usize) -> (freed: u128)
    requires
        max > 0,
        old(v)@.len() <= max,
    ensures
        final(v)@.len() <= max,
        entries_view(final(v)@) == if old(v)@.len() < max {
            entries_view(old(v)@).push(entry_view(e))
        } else {
            entries_view(old(v)@).remove(eviction_index(entries_view(old(v)@), 0)).push(
                entry_view(e),
            )
        },
        seq_bytes(entries_view(final(v)@)) + freed == seq_bytes(entries_view(old(v)@))
            + entry_bytes(entry_view(e)),
{
    let ghost before = entries_view(v@);
    let mut freed: u128 = 0;
    if v.len() >= max {
        let mut k: usize = 0;
        while k < v.len() && !status_noise(v[k].message.as_str())
            invariant
                0 <= k <= v@.len(),
                v@.len() == max,
                before == entries_view(v@),
                eviction_index(before, 0) == eviction_index(before, k as int),
            decreases v.len() - k,
        {
            assert(before[k as int].2 == v@[k as int].message@);
            k = k + 1;
        }
        let found = k < v.len();
        let idx = if found {
            k
        } else {
            0
        };
        proof {
            lemma_eviction_index_bound(before, 0);
            if found {
                assert(before[k as int].2 == v@[k as int].message@);
            }
        }
        assert(idx == eviction_index(before, 0));
        freed = entry_size(&v[idx]);
        v.remove(idx);
        assert(entries_view(v@) =~= before.remove(idx as int));
        proof {
            lemma_seq_bytes_remove(before, idx as int);
        }
    }
    let ghost mid = entries_view(v@);
    v.push(e);
    assert(entries_view(v@) =~= mid.push(entry_view(e)));
    proof {
        lemma_seq_bytes_push(mid, entry_view(e));
    }
    assert(entries_view(v@) =~= if before.len() < max {
        before.push(entry_view(e))
    } else {
        before.remove(eviction_index(before, 0)).push(entry_view(e))
    });
    freed
}

/// The raw list after appending `e` with bound `max`.
pub open spec fn raw_after(
    v: Seq<(Seq<char>, Seq<char>, Seq<char>)>,
    e: (Seq<char>, Seq<char>, Seq<char>),
    max: nat,
) -> Seq<(Seq<char>, Seq<char>, Seq<char>)> {
    if v.len() < max {
        v.push(e)
    } else {
        v.remove(eviction_index(v, 0)).push(e)
    }
}

/// Appends `e` to a bounded list, dropping the oldest entry first when it
/// is full. Returns the bytes of text that left with the dropped entry.
fn push_bounded(v: &mut Vec<LogEntry>, e: LogEntry, max: usize) -> (freed: u128)
    requires
        max > 0,
        old(v)@.len() <= max,
    ensures
        final(v)@.len() <= max,
        entries_view(final(v)@) == last_n(entries_view(old(v)@.push(e)), max as nat),
        seq_bytes(entries_view(final(v)@)) + freed == seq_bytes(entries_view(old(v)@))
            + entry_bytes(entry_view(e)),
{
    let ghost before = old(v)@.push(e);
    let ghost start = entries_view(old(v)@);
    let mut freed: u128 = 0;
    if v.len() >= max {
        freed = entry_size(&v[0]);
        v.remove(0);
        proof {
            assert(entries_view(v@) =~= start.remove(0));
            lemma_seq_bytes_remove(start, 0);
            assert(entries_view(v@.push(e)) =~= last_n(entries_view(before), max as nat));
        }
    } else {
        proof {
            assert(entries_view(v@.push(e)) =~= last_n(entries_view(before), max as nat));
        }
    }
    let ghost mid = entries_view(v@);
    v.push(e);
    assert(entries_view(v@) =~= mid.push(entry_view(e)));
    proof {
        lemma_seq_bytes_push(mid, entry_view(e));
    }
    freed
}

/// What recording entry `e` (with `readable`, the readable form of a raw
/// line) does to the log `before`, giving `after`: the bounds, the byte cap,
/// the pause switch and the panel's cached view stay; while paused nothing
/// else changes; otherwise the panel is out of date and the lists are those
/// of `added`, trimmed to the byte cap by `trim_to`.
pub open spec fn logged(
    before: LogBook,
    after: LogBook,
    e: (Seq<char>, Seq<char>, Seq<char>),
    readable: Option<Seq<char>>,
) -> bool {
    &&& after.max_raw == before.max_raw && after.max_persistent == before.max_persistent
        && after.max_info == before.max_info && after.max_bytes == before.max_bytes
    &&& after.paused == before.paused
    &&& entries_view(after.cached@) == entries_view(before.cached@)
    &&& before.paused ==> after.lists() == before.lists() && after.cache_dirty
        == before.cache_dirty
    &&& !before.paused ==> after.cache_dirty
    &&& !before.paused ==> after.lists() == ({
        let a = added(
            before.lists().0,
            before.lists().1,
            before.lists().2,
            e,
            readable,
            before.max_raw as nat,
            before.max_persistent as nat,
            before.max_info as nat,
        );
        trim_to(a.0, a.1, a.2, before.max_bytes as nat)
    })
}

impl LogBook {
    /// The lists as entry views.
    pub open spec fn lists(&self) -> (
        Seq<(Seq<char>, Seq<char>, Seq<char>)>,
        Seq<(Seq<char>, Seq<char>, Seq<char>)>,
        Seq<(Seq<char>, Seq<char>, Seq<char>)>,
    ) {
        (entries_view(self.raw@), entries_view(self.persistent@), entries_view(self.info@))
    }

    /// Every list within its bound, the bounds positive, and the bytes
    /// counted exactly and within the cap.
    pub open spec fn wf(&self) -> bool {
        &&& self.max_raw > 0 && self.max_persistent > 0 && self.max_info > 0
        &&& self.raw@.len() <= self.max_raw && self.persistent@.len() <= self.max_persistent
            && self.info@.len() <= self.max_info
        &&& self.used_bytes == seq_bytes(self.lists().0) + seq_bytes(self.lists().1) + seq_bytes(
            self.lists().2,
        )
        &&& self.used_bytes <= self.max_bytes
    }

    /// An empty log with the given list bounds, holding at most 50 MB of
    /// text.
    pub fn new(max_raw: usize, max_persistent: usize, max_info: usize) -> (r: Self)
        requires
            max_raw > 0,
            max_persistent > 0,
            max_info > 0,
        ensures
            r.wf(),
            r.raw@.len() == 0 && r.persistent@.len() == 0 && r.info@.len() == 0
                && r.cached@.len() == 0,
            r.max_raw == max_raw && r.max_persistent == max_persistent && r.max_info == max_info,
            r.max_bytes == LOG_BYTE_CAP,
            !r.paused && r.cache_dirty,
    {
        LogBook::with_byte_cap(max_raw, max_persistent, max_info, LOG_BYTE_CAP)
    }

    /// An empty log with the given list bounds and byte cap.
    pub fn with_byte_cap(max_raw: usize, max_persistent: usize, max_info: usize, max_bytes: usize) -> (r: Self)
        requires
            max_raw > 0,
            max_persistent > 0,
            max_info > 0,
        ensures
            r.wf(),
            r.raw@.len() == 0 && r.persistent@.len() == 0 && r.info@.len() == 0
                && r.cached@.len() == 0,
            r.max_raw == max_raw && r.max_persistent == max_persistent && r.max_info == max_info,
            r.max_bytes == max_bytes,
            !r.paused && r.cache_dirty,
    {
        let r = LogBook {
            raw: Vec::new(),
            persistent: Vec::new(),
            info: Vec::new(),
            max_raw,
            max_persistent,
            max_info,
            used_bytes: 0,
            max_bytes,
            paused: false,
            cache_dirty: true,
            cached: Vec::new(),
        };
        assert(entries_view(r.raw@) =~= Seq::empty());
        assert(entries_view(r.persistent@) =~= Seq::empty());
        assert(entries_view(r.info@) =~= Seq::empty());
        r
    }

    /// Drops entries until the lists hold no more than the byte cap: the
    /// oldest raw entries first, then the oldest routine entries, and last
    /// the oldest SMS and error entries.
    fn trim_bytes(&mut self)
        requires
            old(self).used_bytes == seq_bytes(old(self).lists().0) + seq_bytes(
                old(self).lists().1,
            ) + seq_bytes(old(self).lists().2),
        ensures
            final(self).lists() == trim_to(
                old(self).lists().0,
                old(self).lists().1,
                old(self).lists().2,
                old(self).max_bytes as nat,
            ),
            final(self).used_bytes == seq_bytes(final(self).lists().0) + seq_bytes(
                final(self).lists().1,
            ) + seq_bytes(final(self).lists().2),
            final(self).used_bytes <= final(self).max_bytes,
            final(self).raw@.len() <= old(self).raw@.len(),
            final(self).persistent@.len() <= old(self).persistent@.len(),
            final(self).info@.len() <= old(self).info@.len(),
            final(self).max_raw == old(self).max_raw,
            final(self).max_persistent == old(self).max_persistent,
            final(self).max_info == old(self).max_info,
            final(self).max_bytes == old(self).max_bytes,
            final(self).paused == old(self).paused,
            final(self).cache_dirty == old(self).cache_dirty,
            entries_view(final(self).cached@) == entries_view(old(self).cached@),
    {
        let ghost goal = trim_to(
            old(self).lists().0,
            old(self).lists().1,
            old(self).lists().2,
            old(self).max_bytes as nat,
        );
        while self.used_bytes > self.max_bytes as u128
            invariant
                self.used_bytes == seq_bytes(self.lists().0) + seq_bytes(self.lists().1)
                    + seq_bytes(self.lists().2),
                trim_to(self.lists().0, self.lists().1, self.lists().2, self.max_bytes as nat)
                    == goal,
                self.raw@.len() <= old(self).raw@.len(),
                self.persistent@.len() <= old(self).persistent@.len(),
                self.info@.len() <= old(self).info@.len(),
                self.max_raw == old(self).max_raw,
                self.max_persistent == old(self).max_persistent,
                self.max_info == old(self).max_info,
                self.max_bytes == old(self).max_bytes,
                self.paused == old(self).paused,
                self.cache_dirty == old(self).cache_dirty,
                entries_view(self.cached@) == entries_view(old(self).cached@),
            decreases self.raw@.len() + self.persistent@.len() + self.info@.len(),
        {
            let ghost before = self.lists();
            if self.raw.len() > 0 {
                let f = entry_size(&self.raw[0]);
                self.raw.remove(0);
                proof {
                    assert(self.lists().0 =~= before.0.remove(0));
                    assert(before.0.remove(0) =~= before.0.drop_first());
                    lemma_seq_bytes_remove(before.0, 0);
                }
                self.used_bytes = self.used_bytes - f;
            } else if self.info.len() > 0 {
                let f = entry_size(&self.info[0]);
                self.info.remove(0);
                proof {
                    assert(self.lists().2 =~= before.2.remove(0));
                    assert(before.2.remove(0) =~= before.2.drop_first());
                    lemma_seq_bytes_remove(before.2, 0);
                }
                self.used_bytes = self.used_bytes - f;
            } else {
                assert(before.0.len() == 0 && before.2.len() == 0);
                assert(self.persistent@.len() > 0);
                let f = entry_size(&self.persistent[0]);
                self.persistent.remove(0);
                proof {
                    assert(self.lists().1 =~= before.1.remove(0));
                    assert(before.1.remove(0) =~= before.1.drop_first());
                    lemma_seq_bytes_remove(before.1, 0);
                }
                self.used_bytes = self.used_bytes - f;
            }
        }
    }

    /// Records a line. While paused nothing changes. A raw line goes to the
    /// raw list, and its readable form, when it has one, to the info list
    /// under "at"; SMS and error lines go to the persistent list; any other
    /// line to the info list. Each list drops its oldest entry when full
    /// (the raw list its oldest noise entry first); then, while the lists
    /// hold more text than the byte cap, the oldest entries go (see
    /// `trim_to`).
    pub fn log(&mut self, msg: &str, category: &str, ts: &str, readable: Option<String>)
        requires
            old(self).wf(),
        ensures
            final(self).wf(),
            logged(*old(self), *final(self), (ts@, category@, msg@), opt_view(readable)),
    {
        if self.paused {
            return;
        }
        self.cache_dirty = true;
        let entry = LogEntry {
            timestamp: string_of(ts),
            category: string_of(category),
            message: string_of(msg),
        };
        let ghost e = entry_view(entry);
        let size = entry_size(&entry);
        proof {
            reveal_strlit("raw");
            reveal_strlit("sms");
            reveal_strlit("error");
            reveal_strlit("at");
        }
        if str_eq(category, "raw") {
            let freed = push_raw_bounded(&mut self.raw, entry, self.max_raw);
            self.used_bytes = self.used_bytes + size - freed;
            match readable {
                Some(t) => {
                    let r_entry = LogEntry {
                        timestamp: string_of(ts),
                        category: string_of("at"),
                        message: t,
                    };
                    let r_size = entry_size(&r_entry);
                    let ghost before_info = entries_view(self.info@);
                    let r_freed = push_bounded(&mut self.info, r_entry, self.max_info);
                    proof {
                        assert(entries_view(old(self).info@.push(r_entry)) =~= entries_view(
                            old(self).info@,
                        ).push(entry_view(r_entry)));
                    }
                    self.used_bytes = self.used_bytes + r_size - r_freed;
                },
                None => {},
            }
        } else if str_eq(category, "sms") || str_eq(category, "error") {
            let freed = push_bounded(&mut self.persistent, entry, self.max_persistent);
            proof {
                assert(entries_view(old(self).persistent@.push(entry)) =~= entries_view(
                    old(self).persistent@,
                ).push(e));
            }
            self.used_bytes = self.used_bytes + size - freed;
        } else {
            let freed = push_bounded(&mut self.info, entry, self.max_info);
            proof {
                assert(entries_view(old(self).info@.push(entry)) =~= entries_view(
                    old(self).info@,
                ).push(e));
            }
            self.used_bytes = self.used_bytes + size - freed;
        }
        self.trim_bytes();
    }

    /// Forgets every entry.
    pub fn clear_log(&mut self)
        requires
            old(self).wf(),
        ensures
            final(self).wf(),
            final(self).raw@.len() == 0 && final(self).persistent@.len() == 0
                && final(self).info@.len() == 0,
            final(self).cache_dirty,
            final(self).max_raw == old(self).max_raw,
            final(self).max_persistent == old(self).max_persistent,
            final(self).max_info == old(self).max_info,
            final(self).max_bytes == old(self).max_bytes,
            final(self).paused == old(self).paused,
            entries_view(final(self).cached@) == entries_view(old(self).cached@),
    {
        self.raw.clear();
        self.persistent.clear();
        self.info.clear();
        self.used_bytes = 0;
        self.cache_dirty = true;
        assert(entries_view(self.raw@) =~= Seq::empty());
        assert(entries_view(self.persistent@) =~= Seq::empty());
        assert(entries_view(self.info@) =~= Seq::empty());
    }

    /// Refreshes the panel's view when it is out of date: the raw, then the
    /// persistent, then the info entries that the mode shows, without status
    /// noise when `hide_status` is set.
    pub fn rebuild_log_cache(&mut self, mode: &str, hide_status: bool)
        requires
            old(self).wf(),
        ensures
            final(self).wf(),
            entries_view(final(self).raw@) == entries_view(old(self).raw@),
            entries_view(final(self).persistent@) == entries_view(old(self).persistent@),
            entries_view(final(self).info@) == entries_view(old(self).info@),
            final(self).max_raw == old(self).max_raw,
            final(self).max_persistent == old(self).max_persistent,
            final(self).max_info == old(self).max_info,
            final(self).paused == old(self).paused,
            !final(self).cache_dirty,
            old(self).cache_dirty ==> entries_view(final(self).cached@) == kept(
                entries_view(old(self).raw@ + old(self).persistent@ + old(self).info@),
                mode@,
                hide_status,
            ),
            !old(self).cache_dirty ==> entries_view(final(self).cached@) == entries_view(
                old(self).cached@,
            ),
    {
        if !self.cache_dirty {
            return;
        }
        let mut filtered: Vec<LogEntry> = Vec::new();
        append_kept(&mut filtered, &self.raw, mode, hide_status);
        append_kept(&mut filtered, &self.persistent, mode, hide_status);
        append_kept(&mut filtered, &self.info, mode, hide_status);
        proof {
            let r = entries_view(self.raw@);
            let p = entries_view(self.persistent@);
            let i = entries_view(self.info@);
            assert(entries_view(self.raw@ + self.persistent@ + self.info@) =~= r + p + i);
            lemma_kept_concat(r, p, mode@, hide_status);
            lemma_kept_concat(r + p, i, mode@, hide_status);
            assert(entries_view(Seq::<LogEntry>::empty()) =~= Seq::empty());
            assert(Seq::<(Seq<char>, Seq<char>, Seq<char>)>::empty() + kept(r, mode@, hide_status)
                == kept(r, mode@, hide_status));
        }
        self.cached = filtered;
        self.cache_dirty = false;
    }
}

/// Logging anything but an SMS or error line never removes an SMS or error
/// entry, as long as those entries alone fit within the byte cap: the
/// persistent list stays as it was.
pub proof fn lemma_routine_entries_spare_persistent(
    raw: Seq<(Seq<char>, Seq<char>, Seq<char>)>,
    persistent: Seq<(Seq<char>, Seq<char>, Seq<char>)>,
    info: Seq<(Seq<char>, Seq<char>, Seq<char>)>,
    e: (Seq<char>, Seq<char>, Seq<char>),
    readable: Option<Seq<char>>,
    max_raw: nat,
    max_persistent: nat,
    max_info: nat,
    cap: nat,
)
    requires
        !is_persistent_category(e.1),
        seq_bytes(persistent) <= cap,
    ensures
        ({
            let a = added(raw, persistent, info, e, readable, max_raw, max_persistent, max_info);
            trim_to(a.0, a.1, a.2, cap).1 == persistent
        }),
{
    let a = added(raw, persistent, info, e, readable, max_raw, max_persistent, max_info);
    assert(a.1 == persistent);
    lemma_trim_spares_small_persistent(a.0, a.1, a.2, cap);
}

/// `x` is what is left of `y` once some of its oldest items are dropped.
pub open spec fn is_suffix_of<T>(x: Seq<T>, y: Seq<T>) -> bool {
    x.len() <= y.len() && x == y.subrange(y.len() - x.len(), y.len() as int)
}

proof fn lemma_suffix_trans<T>(x: Seq<T>, y: Seq<T>, z: Seq<T>)
    requires
        is_suffix_of(x, y),
        is_suffix_of(y, z),
    ensures
        is_suffix_of(x, z),
{
    assert(x =~= z.subrange(z.len() - x.len(), z.len() as int));
}

proof fn lemma_suffix_drop_first<T>(x: Seq<T>, y: Seq<T>)
    requires
        is_suffix_of(x, y),
        x.len() > 0,
    ensures
        is_suffix_of(x.drop_first(), y),
{
    assert(x.drop_first() =~= y.subrange(y.len() - (x.len() - 1), y.len() as int));
}

/// Trimming to the byte cap only drops the oldest entries of each list.
proof fn lemma_trim_keeps_suffixes(
    raw: Seq<(Seq<char>, Seq<char>, Seq<char>)>,
    persistent: Seq<(Seq<char>, Seq<char>, Seq<char>)>,
    info: Seq<(Seq<char>, Seq<char>, Seq<char>)>,
    cap: nat,
)
    ensures
        is_suffix_of(trim_to(raw, persistent, info, cap).0, raw),
        is_suffix_of(trim_to(raw, persistent, info, cap).1, persistent),
        is_suffix_of(trim_to(raw, persistent, info, cap).2, info),
    decreases raw.len() + persistent.len() + info.len(),
{
    assert(raw.subrange(0, raw.len() as int) =~= raw);
    assert(persistent.subrange(0, persistent.len() as int) =~= persistent);
    assert(info.subrange(0, info.len() as int) =~= info);
    if seq_bytes(raw) + seq_bytes(persistent) + seq_bytes(info) <= cap {
    } else if raw.len() > 0 {
        lemma_trim_keeps_suffixes(raw.drop_first(), persistent, info, cap);
        lemma_suffix_drop_first(raw, raw);
        lemma_suffix_trans(trim_to(raw, persistent, info, cap).0, raw.drop_first(), raw);
    } else if info.len() > 0 {
        lemma_trim_keeps_suffixes(raw, persistent, info.drop_first(), cap);
        lemma_suffix_drop_first(info, info);
        lemma_suffix_trans(trim_to(raw, persistent, info, cap).2, info.drop_first(), info);
    } else if persistent.len() > 0 {
        lemma_trim_keeps_suffixes(raw, persistent.drop_first(), info, cap);
        lemma_suffix_drop_first(persistent, persistent);
        lemma_suffix_trans(
            trim_to(raw, persistent, info, cap).1,
            persistent.drop_first(),
            persistent,
        );
    }
}

proof fn lemma_last_n_suffix<T>(v: Seq<T>, max: nat)
    ensures
        is_suffix_of(last_n(v, max), v),
{
    assert(v.subrange(0, v.len() as int) =~= v);
}

/// What logging does to the log. While paused, nothing changes. Otherwise
/// the panel is out of date, every list keeps to its bound and the byte cap
/// holds; each list is what it held, in the same order, with the new line
/// (or, for a raw line, the raw list with it and the info list with its
/// readable form under "at") added last and some of the oldest entries
/// dropped. So the new line is the newest entry of its list unless the byte
/// cap emptied that list, and a line that fits under the cap with
/// everything already kept is not trimmed at all.
pub proof fn lemma_log_law(
    before: LogBook,
    after: LogBook,
    e: (Seq<char>, Seq<char>, Seq<char>),
    readable: Option<Seq<char>>,
)
    requires
        before.wf(),
        after.wf(),
        logged(before, after, e, readable),
    ensures
        before.paused ==> after.lists() == before.lists() && after.cache_dirty
            == before.cache_dirty,
        !before.paused ==> after.cache_dirty,
        after.raw@.len() <= after.max_raw && after.persistent@.len() <= after.max_persistent
            && after.info@.len() <= after.max_info,
        after.used_bytes <= after.max_bytes,
        ({
            let (r, p, i) = before.lists();
            let (r2, p2, i2) = after.lists();
            &&& !before.paused && e.1 == "raw"@ ==> {
                &&& is_suffix_of(r2, raw_after(r, e, before.max_raw as nat))
                &&& (r2.len() > 0 ==> r2.last() == e)
                &&& is_suffix_of(p2, p)
                &&& match readable {
                    Some(t) => is_suffix_of(i2, i.push((e.0, "at"@, t))) && (i2.len() > 0
                        ==> i2.last() == (e.0, "at"@, t)),
                    None => is_suffix_of(i2, i),
                }
            }
            &&& !before.paused && e.1 != "raw"@ && is_persistent_category(e.1) ==> {
                &&& is_suffix_of(p2, p.push(e)) && (p2.len() > 0 ==> p2.last() == e)
                &&& is_suffix_of(r2, r) && is_suffix_of(i2, i)
            }
            &&& !before.paused && e.1 != "raw"@ && !is_persistent_category(e.1) ==> {
                &&& is_suffix_of(i2, i.push(e)) && (i2.len() > 0 ==> i2.last() == e)
                &&& is_suffix_of(r2, r) && is_suffix_of(p2, p)
            }
        }),
        ({
            let (r, p, i) = before.lists();
            let a = added(
                r,
                p,
                i,
                e,
                readable,
                before.max_raw as nat,
                before.max_persistent as nat,
                before.max_info as nat,
            );
            !before.paused && seq_bytes(a.0) + seq_bytes(a.1) + seq_bytes(a.2)
                <= before.max_bytes ==> after.lists() == a
        }),
{
    if !before.paused {
        let (r, p, i) = before.lists();
        let a = added(
            r,
            p,
            i,
            e,
            readable,
            before.max_raw as nat,
            before.max_persistent as nat,
            before.max_info as nat,
        );
        lemma_trim_keeps_suffixes(a.0, a.1, a.2, before.max_bytes as nat);
        let (r2, p2, i2) = after.lists();
        assert(is_suffix_of(r, r) && is_suffix_of(p, p) && is_suffix_of(i, i)) by {
            assert(r.subrange(0, r.len() as int) =~= r);
            assert(p.subrange(0, p.len() as int) =~= p);
            assert(i.subrange(0, i.len() as int) =~= i);
        }
        if e.1 == "raw"@ {
            if r2.len() > 0 {
                assert(r2.last() == a.0.last());
            }
            if let Some(t) = readable {
                lemma_last_n_suffix(i.push((e.0, "at"@, t)), before.max_info as nat);
                lemma_suffix_trans(i2, a.2, i.push((e.0, "at"@, t)));
                if i2.len() > 0 {
                    assert(i2.last() == i.push((e.0, "at"@, t)).last());
                }
            }
        } else if is_persistent_category(e.1) {
            lemma_last_n_suffix(p.push(e), before.max_persistent as nat);
            lemma_suffix_trans(p2, a.1, p.push(e));
            if p2.len() > 0 {
                assert(p2.last() == p.push(e).last());
            }
        } else {
            lemma_last_n_suffix(i.push(e), before.max_info as nat);
            lemma_suffix_trans(i2, a.2, i.push(e));
            if i2.len() > 0 {
                assert(i2.last() == i.push(e).last());
            }
        }
    }
}

/// The log modes the settings accept; any other is read as "system".
pub open spec fn normalized_log_mode(mode: Seq<char>) -> Seq<char> {
    if mode == "at"@ || mode == "system"@ || mode == "important"@ || mode == "all"@ || mode
        == "raw"@ {
        mode
    } else {
        "system"@
    }
}

/// Reads a saved log mode.
pub fn normalize_log_mode(mode: &str) -> (r: String)
    ensures
        r@ == normalized_log_mode(mode@),
{
    if str_eq(mode, "at") || str_eq(mode, "system") || str_eq(mode, "important") || str_eq(
        mode,
        "all",
    ) || str_eq(mode, "raw") {
        string_of(mode)
    } else {
        string_of("system")
    }
}

} // verus!
