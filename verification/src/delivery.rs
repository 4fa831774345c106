//! SMS-STATUS-REPORT PDUs and the list of sent messages awaiting their
//! delivery reports, matched by message reference.

use std::collections::HashMap;

use vstd::prelude::*;
use vstd::slice::slice_subrange;

use crate::contacts::{contact_display, resolve_contact_name, Contact};
use crate::hex::{decode_hex, decode_hex_spec, hex_windows_whole};
use crate::pdu::{address_text, decode_address, decode_timestamp, timestamp_text};
use crate::text::{hex2, push_hex2, push_str, push_string, str_eq, string_of};

verus! {

// ---------------------------------------------------------------------------
// Status report PDU
// ---------------------------------------------------------------------------

/// The fields of a status report.
#[derive(Debug, Clone)]
pub struct StatusReport {
    /// Message reference of the message it reports on.
    pub mr: u32,
    /// Recipient address ("Unknown" when cut off).
    pub phone: String,
    /// Service centre time stamp ("Unknown" when cut off).
    pub sent_time: String,
    /// Discharge time ("Unknown" when cut off).
    pub discharge_time: String,
    /// TP-Status (0xFF when cut off).
    pub status: u8,
}

/// The fields of a status report PDU given as bytes, or `None` for one
/// shorter than 10 bytes or cut off before its recipient address.
pub open spec fn status_report_fields(b: Seq<u8>) -> Option<(u32, Seq<char>, Seq<char>, Seq<char>, u8)> {
    if b.len() < 10 {
        None
    } else {
        let off0: int = if b[0] > 0 && b[0] < 20 {
            1 + b[0] as int
        } else {
            0
        };
        if off0 + 1 >= b.len() || off0 + 2 >= b.len() || off0 + 3 >= b.len() {
            None
        } else {
            let mr = b[off0 + 1] as u32;
            let addr_len = b[off0 + 2] as int;
            let addr_type = b[off0 + 3];
            let off4 = off0 + 4;
            let digits = (addr_len + 1) / 2;
            let phone = if off4 + digits <= b.len() {
                address_text(b.subrange(off4, off4 + digits), addr_len as nat, addr_type)
            } else {
                "Unknown"@
            };
            let off5 = off4 + digits;
            let sent = if off5 + 7 <= b.len() {
                timestamp_text(b.subrange(off5, off5 + 7))
            } else {
                "Unknown"@
            };
            let off6 = if off5 + 7 <= b.len() {
                off5 + 7
            } else {
                off5
            };
            let discharge = if off6 + 7 <= b.len() {
                timestamp_text(b.subrange(off6, off6 + 7))
            } else {
                "Unknown"@
            };
            let off7 = if off6 + 7 <= b.len() {
                off6 + 7
            } else {
                off6
            };
            let status = if off7 < b.len() {
                b[off7]
            } else {
                0xFF
            };
            Some((mr, phone, sent, discharge, status))
        }
    }
}

/// The report's fields agree with `status_report_fields`.
pub open spec fn report_matches(
    r: StatusReport,
    f: (u32, Seq<char>, Seq<char>, Seq<char>, u8),
) -> bool {
    r.mr == f.0 && r.phone@ == f.1 && r.sent_time@ == f.2 && r.discharge_time@ == f.3 && r.status
        == f.4
}

/// Reads an SMS-STATUS-REPORT PDU given as hex text.
pub fn parse_status_report(pdu_hex: &str) -> (r: Option<StatusReport>)
    requires
        hex_windows_whole(pdu_hex@),
    ensures
        match status_report_fields(decode_hex_spec(pdu_hex@)) {
            Some(f) => r is Some && report_matches(r->0, f),
            None => r is None,
        },
{
    let b = decode_hex(pdu_hex);
    let n = b.len();
    if n < 10 {
        return None;
    }
    let mut off: usize = 0;
    if b[0] > 0 && b[0] < 20 {
        off = 1 + b[0] as usize;
    }
    if off + 1 >= n || off + 2 >= n || off + 3 >= n {
        return None;
    }
    let mr = b[off + 1] as u32;
    let addr_len = b[off + 2] as usize;
    let addr_type = b[off + 3];
    let off4 = off + 4;
    let digits = (addr_len + 1) / 2;
    proof {
        reveal_strlit("Unknown");
    }
    let phone = if digits <= n - off4 {
        decode_address(slice_subrange(b.as_slice(), off4, off4 + digits), b[off + 2], addr_type)
    } else {
        string_of("Unknown")
    };
    let off5 = if digits <= n - off4 {
        off4 + digits
    } else {
        n
    };
    let has_sent = digits <= n - off4 && off5 <= n && 7 <= n - off5;
    let sent_time = if has_sent {
        decode_timestamp(slice_subrange(b.as_slice(), off5, off5 + 7))
    } else {
        string_of("Unknown")
    };
    let off6 = if has_sent {
        off5 + 7
    } else {
        off5
    };
    let has_discharge = digits <= n - off4 && off6 <= n && 7 <= n - off6;
    let discharge_time = if has_discharge {
        decode_timestamp(slice_subrange(b.as_slice(), off6, off6 + 7))
    } else {
        string_of("Unknown")
    };
    let off7 = if has_discharge {
        off6 + 7
    } else {
        off6
    };
    let status = if digits <= n - off4 && off7 < n {
        b[off7]
    } else {
        0xFF
    };
    Some(StatusReport { mr, phone, sent_time, discharge_time, status })
}

/// The TP-Status text.
pub open spec fn status_text(status: u8) -> Seq<char> {
    match status {
        0x00 => "Delivered"@,
        0x20 => "Expired"@,
        0x40 => "Deleted by sender"@,
        0x60 => "Replaced by sender"@,
        0x61 => "Congestion"@,
        0x62 => "Busy"@,
        0x63 => "No response"@,
        0x64 => "Service rejected"@,
        0x65 => "QoS not available"@,
        0x66 => "Error in TE"@,
        0x7F => "Remote procedure error"@,
        0xFF => "Status unknown"@,
        _ => "Unknown (0x"@ + hex2(status) + ")"@,
    }
}

/// Describes a TP-Status value.
pub fn delivery_status_text(status: u8) -> (r: String)
    ensures
        r@ == status_text(status),
{
    match status {
        0x00 => string_of("Delivered"),
        0x20 => string_of("Expired"),
        0x40 => string_of("Deleted by sender"),
        0x60 => string_of("Replaced by sender"),
        0x61 => string_of("Congestion"),
        0x62 => string_of("Busy"),
        0x63 => string_of("No response"),
        0x64 => string_of("Service rejected"),
        0x65 => string_of("QoS not available"),
        0x66 => string_of("Error in TE"),
        0x7F => string_of("Remote procedure error"),
        0xFF => string_of("Status unknown"),
        _ => {
            let mut r = string_of("Unknown (0x");
            push_hex2(&mut r, status);
            push_str(&mut r, ")");
            r
        },
    }
}

// ---------------------------------------------------------------------------
// Sent messages and their report rows
// ---------------------------------------------------------------------------

/// What was sent under a message reference.
#[derive(Debug, Clone)]
pub struct SentMessageInfo {
    pub msg_type: String,
    pub phone: String,
    pub content: String,
}

/// One row of the delivery report list.
#[derive(Debug, Clone)]
pub struct DeliveryRecord {
    pub mr: u32,
    pub phone: String,
    pub msg_type: String,
    pub status: String,
    pub sent: String,
    pub updated: String,
    pub content: String,
    pub detail: String,
    pub tag: String,
}

/// The status shown in the list: a ping reads "Ping: Delivery confirmed" or
/// "Ping: <status>", another sent message "Delivered" or the status text,
/// and a report for no message sent here the status text.
pub open spec fn readable_status(info: Option<SentMessageInfo>, status: u8) -> Seq<char> {
    match info {
        Some(i) => if i.msg_type@ == "ping"@ {
            if status == 0 {
                "Ping: Delivery confirmed"@
            } else {
                "Ping: "@ + status_text(status)
            }
        } else if status == 0 {
            "Delivered"@
        } else {
            status_text(status)
        },
        None => status_text(status),
    }
}

/// "delivered" for status 0, else "failed".
pub open spec fn status_tag(status: u8) -> Seq<char> {
    if status == 0 {
        "delivered"@
    } else {
        "failed"@
    }
}

/// The detail text of a report row.
pub open spec fn report_detail(
    display_phone: Seq<char>,
    info: Option<SentMessageInfo>,
    report: StatusReport,
    pdu_hex: Seq<char>,
) -> Seq<char> {
    match info {
        Some(i) => "Phone: "@ + display_phone + "\nOriginal To: "@ + i.phone@ + "\nContent: "@
            + i.content@ + "\nSent At: "@ + report.sent_time@ + "\nStatus Time: "@
            + report.discharge_time@ + "\nStatus: "@ + status_text(report.status) + "\nPDU: "@
            + pdu_hex,
        None => "Phone: "@ + display_phone + "\nSent At: "@ + report.sent_time@
            + "\nStatus Time: "@ + report.discharge_time@ + "\nStatus: "@ + status_text(
            report.status,
        ) + "\nPDU: "@ + pdu_hex,
    }
}

/// The rows of sent messages and what was sent under each message reference.
pub struct DeliveryLog {
    pub records: Vec<DeliveryRecord>,
    pub sent_messages: HashMap<u32, SentMessageInfo>,
}

/// The first row with message reference `mr`, from `i` on.
pub open spec fn first_row(records: Seq<DeliveryRecord>, mr: u32, i: int) -> Option<int>
    decreases records.len() - i,
{
    if i < 0 || i >= records.len() {
        None
    } else if records[i].mr == mr {
        Some(i)
    } else {
        first_row(records, mr, i + 1)
    }
}

/// The row has the given status, update time, tag and detail, and otherwise
/// the fields of `r`.
pub open spec fn row_updated(
    new: DeliveryRecord,
    r: DeliveryRecord,
    status: Seq<char>,
    updated: Seq<char>,
    tag: Seq<char>,
    detail: Seq<char>,
) -> bool {
    new.mr == r.mr && new.phone@ == r.phone@ && new.msg_type@ == r.msg_type@ && new.sent@
        == r.sent@ && new.content@ == r.content@ && new.status@ == status && new.updated@ == updated
        && new.tag@ == tag && new.detail@ == detail
}

/// What `update_delivery_row` does to the rows: the first row with the
/// message reference takes the new status, time, tag and detail; with no
/// such row, an "Unknown" row is appended.
pub open spec fn rows_after_update(
    old_rows: Seq<DeliveryRecord>,
    new_rows: Seq<DeliveryRecord>,
    mr: u32,
    status: Seq<char>,
    updated: Seq<char>,
    tag: Seq<char>,
    detail: Seq<char>,
) -> bool {
    match first_row(old_rows, mr, 0) {
        Some(k) => new_rows.len() == old_rows.len() && row_updated(
            new_rows[k],
            old_rows[k],
            status,
            updated,
            tag,
            detail,
        ) && forall|j: int| 0 <= j < old_rows.len() && j != k ==> #[trigger] new_rows[j] == old_rows[j],
        None => new_rows.len() == old_rows.len() + 1 && new_rows.take(old_rows.len() as int)
            == old_rows && ({
            let r = new_rows.last();
            r.mr == mr && r.phone@ == "Unknown"@ && r.msg_type@ == "?"@ && r.status@ == status
                && r.sent@ == "-"@ && r.updated@ == updated && r.content@ == Seq::<char>::empty()
                && r.detail@ == detail && r.tag@ == tag
        }),
    }
}

proof fn lemma_first_row_none_before(records: Seq<DeliveryRecord>, mr: u32, i: int)
    requires
        0 <= i <= records.len(),
        forall|j: int| 0 <= j < i ==> (#[trigger] records[j]).mr != mr,
    ensures
        first_row(records, mr, 0) == first_row(records, mr, i),
    decreases i,
{
    if i > 0 {
        lemma_first_row_none_before(records, mr, i - 1);
    }
}

impl DeliveryLog {
    pub fn new() -> (r: Self)
        ensures
            r.records@.len() == 0,
            r.sent_messages@ == Map::<u32, SentMessageInfo>::empty(),
    {
        DeliveryLog { records: Vec::new(), sent_messages: HashMap::new() }
    }

    /// Adds the "Pending" row of a message just sent.
    pub fn add_delivery_row(
        &mut self,
        mr: u32,
        display_phone: String,
        msg_type: String,
        content_preview: String,
        sent_ts: String,
    )
        ensures
            final(self).sent_messages@ == old(self).sent_messages@,
            final(self).records@.len() == old(self).records@.len() + 1,
            final(self).records@.take(old(self).records@.len() as int) == old(self).records@,
            ({
                let r = final(self).records@.last();
                r.mr == mr && r.phone@ == display_phone@ && r.msg_type@ == msg_type@ && r.status@
                    == "Pending"@ && r.sent@ == sent_ts@ && r.updated@ == Seq::<char>::empty()
                    && r.content@ == content_preview@ && r.detail@ == Seq::<char>::empty()
                    && r.tag@ == "pending"@
            }),
    {
        self.records.push(
            DeliveryRecord {
                mr,
                phone: display_phone,
                msg_type,
                status: string_of("Pending"),
                sent: sent_ts,
                updated: String::new(),
                content: content_preview,
                detail: String::new(),
                tag: string_of("pending"),
            },
        );
        assert(self.records@.take(old(self).records@.len() as int) == old(self).records@);
    }

    /// Records a report on the first row with its message reference, or
    /// appends an "Unknown" row when no message was sent under it.
    pub fn update_delivery_row(
        &mut self,
        mr: u32,
        readable_status: String,
        discharge_time: String,
        tag: String,
        detail: String,
    )
        ensures
            final(self).sent_messages@ == old(self).sent_messages@,
            rows_after_update(
                old(self).records@,
                final(self).records@,
                mr,
                readable_status@,
                discharge_time@,
                tag@,
                detail@,
            ),
    {
        let ghost old_rows = self.records@;
        let mut i: usize = 0;
        while i < self.records.len()
            invariant
                self.records@ == old_rows,
                old_rows == old(self).records@,
                self.sent_messages@ == old(self).sent_messages@,
                0 <= i <= self.records.len(),
                forall|j: int| 0 <= j < i ==> (#[trigger] old_rows[j]).mr != mr,
            decreases self.records.len() - i,
        {
            if self.records[i].mr == mr {
                proof {
                    lemma_first_row_none_before(old_rows, mr, i as int);
                }
                let r = &self.records[i];
                let rec = DeliveryRecord {
                    mr: r.mr,
                    phone: r.phone.clone(),
                    msg_type: r.msg_type.clone(),
                    status: readable_status,
                    sent: r.sent.clone(),
                    updated: discharge_time,
                    content: r.content.clone(),
                    detail,
                    tag,
                };
                self.records.set(i, rec);
                assert(self.records@ == old_rows.update(i as int, self.records@[i as int]));
                return;
            }
            i = i + 1;
        }
        proof {
            lemma_first_row_none_before(old_rows, mr, old_rows.len() as int);
            reveal_strlit("Unknown");
            reveal_strlit("?");
            reveal_strlit("-");
        }
        self.records.push(
            DeliveryRecord {
                mr,
                phone: string_of("Unknown"),
                msg_type: string_of("?"),
                status: readable_status,
                sent: string_of("-"),
                updated: discharge_time,
                content: String::new(),
                detail,
                tag,
            },
        );
        assert(self.records@.take(old_rows.len() as int) == old_rows);
    }

    /// Remembers what was sent under a message reference (a later send under
    /// the same reference replaces it) and adds its "Pending" row.
    pub fn record_sent(
        &mut self,
        mr: u32,
        info: SentMessageInfo,
        display_phone: String,
        content_preview: String,
        sent_ts: String,
    )
        ensures
            final(self).sent_messages@ == old(self).sent_messages@.insert(mr, info),
            final(self).records@.len() == old(self).records@.len() + 1,
            final(self).records@.take(old(self).records@.len() as int) == old(self).records@,
            ({
                let r = final(self).records@.last();
                r.mr == mr && r.phone@ == display_phone@ && r.msg_type@ == info.msg_type@
                    && r.status@ == "Pending"@ && r.sent@ == sent_ts@ && r.updated@ == Seq::<
                    char,
                >::empty() && r.content@ == content_preview@ && r.detail@ == Seq::<char>::empty()
                    && r.tag@ == "pending"@
            }),
    {
        let msg_type = info.msg_type.clone();
        self.sent_messages.insert(mr, info);
        self.add_delivery_row(mr, display_phone, msg_type, content_preview, sent_ts);
    }

    /// Applies a status report: its row shows the readable status, the
    /// discharge time, the tag and the detail text. Returns the phone as
    /// shown and the readable status, for the log line.
    pub fn apply_status_report(
        &mut self,
        report: &StatusReport,
        book: &[Contact],
        pdu_hex: &str,
    ) -> (r: (String, String))
        ensures
            final(self).sent_messages@ == old(self).sent_messages@,
            ({
                let info = if old(self).sent_messages@.contains_key(report.mr) {
                    Some(old(self).sent_messages@[report.mr])
                } else {
                    None
                };
                let display = contact_display(book@, report.phone@);
                &&& r.0@ == display
                &&& r.1@ == readable_status(info, report.status)
                &&& rows_after_update(
                    old(self).records@,
                    final(self).records@,
                    report.mr,
                    readable_status(info, report.status),
                    report.discharge_time@,
                    status_tag(report.status),
                    report_detail(display, info, *report, pdu_hex@),
                )
            }),
    {
        let status_text = delivery_status_text(report.status);
        let info = self.sent_messages.get(&report.mr);
        let readable = match info {
            Some(i) => {
                proof {
                    reveal_strlit("ping");
                }
                if str_eq(i.msg_type.as_str(), "ping") {
                    if report.status == 0 {
                        string_of("Ping: Delivery confirmed")
                    } else {
                        let mut t = string_of("Ping: ");
                        push_string(&mut t, &status_text);
                        t
                    }
                } else if report.status == 0 {
                    string_of("Delivered")
                } else {
                    status_text.clone()
                }
            },
            None => status_text.clone(),
        };
        let tag = if report.status == 0 {
            string_of("delivered")
        } else {
            string_of("failed")
        };
        let display = resolve_contact_name(book, report.phone.as_str());
        let mut detail = string_of("Phone: ");
        push_string(&mut detail, &display);
        match info {
            Some(i) => {
                push_str(&mut detail, "\nOriginal To: ");
                push_string(&mut detail, &i.phone);
                push_str(&mut detail, "\nContent: ");
                push_string(&mut detail, &i.content);
            },
            None => {},
        }
        push_str(&mut detail, "\nSent At: ");
        push_string(&mut detail, &report.sent_time);
        push_str(&mut detail, "\nStatus Time: ");
        push_string(&mut detail, &report.discharge_time);
        push_str(&mut detail, "\nStatus: ");
        push_string(&mut detail, &status_text);
        push_str(&mut detail, "\nPDU: ");
        push_str(&mut detail, pdu_hex);
        let ghost info_s = if self.sent_messages@.contains_key(report.mr) {
            Some(self.sent_messages@[report.mr])
        } else {
            None
        };
        assert(detail@ =~= report_detail(display@, info_s, *report, pdu_hex@));
        let readable_out = readable.clone();
        self.update_delivery_row(report.mr, readable, report.discharge_time.clone(), tag, detail);
        (display, readable_out)
    }

    /// Empties the list.
    pub fn clear_delivery_reports(&mut self)
        ensures
            final(self).records@.len() == 0,
            final(self).sent_messages@ == old(self).sent_messages@,
    {
        self.records.clear();
    }
}

/// A report for a message sent here lands on that message's row: after its
/// "Pending" row was added as the only row with the reference, applying the
/// report updates that row and keeps the others.
pub proof fn lemma_report_lands_on_sent_row(
    rows: Seq<DeliveryRecord>,
    after_send: Seq<DeliveryRecord>,
    after_report: Seq<DeliveryRecord>,
    mr: u32,
    status: Seq<char>,
    updated: Seq<char>,
    tag: Seq<char>,
    detail: Seq<char>,
)
    requires
        forall|j: int| 0 <= j < rows.len() ==> (#[trigger] rows[j]).mr != mr,
        after_send.len() == rows.len() + 1,
        after_send.take(rows.len() as int) == rows,
        after_send.last().mr == mr,
        rows_after_update(after_send, after_report, mr, status, updated, tag, detail),
    ensures
        after_report.len() == after_send.len(),
        row_updated(after_report.last(), after_send.last(), status, updated, tag, detail),
        after_report.take(rows.len() as int) == rows,
{
    assert forall|j: int| 0 <= j < rows.len() implies (#[trigger] after_send[j]).mr != mr by {
        assert(after_send[j] == after_send.take(rows.len() as int)[j]);
    }
    lemma_first_row_none_before(after_send, mr, rows.len() as int);
    assert(first_row(after_send, mr, rows.len() as int) == Some(rows.len() as int));
    assert(after_report.take(rows.len() as int) =~= rows) by {
        assert forall|j: int| 0 <= j < rows.len() implies after_report.take(rows.len() as int)[j]
            == rows[j] by {
            assert(after_send[j] == after_send.take(rows.len() as int)[j]);
        }
    }
}

/// A status report PDU: the service centre address (its length first), the
/// first octet, the message reference, the recipient (its number of digits,
/// its type and its semi-octets), the time the message was sent, the time
/// of the status, and the status.
pub open spec fn report_pdu(
    smsc: Seq<u8>,
    first: u8,
    mr: u8,
    addr_len: u8,
    addr_type: u8,
    addr: Seq<u8>,
    sent: Seq<u8>,
    discharge: Seq<u8>,
    status: u8,
) -> Seq<u8> {
    seq![smsc.len() as u8] + smsc + seq![first, mr, addr_len, addr_type] + addr + sent + discharge
        + seq![status]
}

/// A status report reads back as what it holds, whatever the parity of the
/// recipient's digit count: the reference, the recipient read from its
/// `ceil(digits / 2)` octets, the two time stamps read from the 7 octets
/// each right after them, and the status octet after those.
pub proof fn lemma_report_reads_back(
    smsc: Seq<u8>,
    first: u8,
    mr: u8,
    addr_len: u8,
    addr_type: u8,
    addr: Seq<u8>,
    sent: Seq<u8>,
    discharge: Seq<u8>,
    status: u8,
)
    requires
        0 < smsc.len() < 20,
        addr.len() == (addr_len as int + 1) / 2,
        sent.len() == 7,
        discharge.len() == 7,
    ensures
        status_report_fields(
            report_pdu(smsc, first, mr, addr_len, addr_type, addr, sent, discharge, status),
        ) == Some(
            (
                mr as u32,
                address_text(addr, addr_len as nat, addr_type),
                timestamp_text(sent),
                timestamp_text(discharge),
                status,
            ),
        ),
{
    let b = report_pdu(smsc, first, mr, addr_len, addr_type, addr, sent, discharge, status);
    let l = smsc.len() as int;
    let k = addr.len() as int;
    assert(b.len() == l + k + 20);
    assert(b[0] == smsc.len() as u8);
    let off0 = 1 + l;
    assert(b[off0 + 1] == mr && b[off0 + 2] == addr_len && b[off0 + 3] == addr_type);
    let off4 = off0 + 4;
    assert(b.subrange(off4, off4 + k) =~= addr);
    assert(b.subrange(off4 + k, off4 + k + 7) =~= sent);
    assert(b.subrange(off4 + k + 7, off4 + k + 14) =~= discharge);
    assert(b[off4 + k + 14] == status);
}

} // verus!
