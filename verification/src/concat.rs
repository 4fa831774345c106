//! Concatenated messages: an SMS-DELIVER whose user data begins with a
//! header holding a concatenation element (3GPP TS 23.040, element 0x00
//! with an 8-bit reference or 0x08 with a 16-bit one) is one part of a
//! longer message. Parts are kept until every part of a message has
//! arrived; the message then enters the inbox once, its text the parts'
//! texts joined in order.

use vstd::prelude::*;
use vstd::slice::slice_subrange;

use crate::hex::{decode_hex, decode_hex_spec, hex_windows_whole};
use crate::inbox::{message_view, InboxMessage};
use crate::pdu::{decode_7bit, decode_ucs2, is_ucs2_dcs, septets_text, tpdu_offset, ucs2_text};
use crate::septets::unpack_limited_spec;
use crate::text::{push_string, str_eq, string_of};

verus! {

/// Where the user data length octet of an SMS-DELIVER stands, with the
/// data coding scheme and the first octet; `None` for another message type
/// or a PDU cut short before its user data.
pub open spec fn deliver_layout(b: Seq<u8>) -> Option<(int, u8, u8)> {
    let off0 = tpdu_offset(b);
    if b.len() == 0 || off0 >= b.len() {
        None
    } else {
        let first = b[off0];
        let off1 = off0 + 1;
        if first & 0x03 != 0 || off1 + 1 >= b.len() {
            None
        } else {
            let off3 = off1 + 2;
            let off4 = off3 + (b[off1] as int + 1) / 2;
            if off4 + 1 >= b.len() {
                None
            } else {
                let off6 = off4 + 2 + 7;
                if off6 >= b.len() {
                    None
                } else {
                    Some((off6, b[off4 + 1], first))
                }
            }
        }
    }
}

/// Reference, part count and part number of a concatenation element that
/// opens the user data header starting at `ud`.
pub open spec fn concat_element(b: Seq<u8>, ud: int) -> Option<(u16, u8, u8)> {
    if ud + 2 >= b.len() {
        None
    } else if b[ud + 1] == 0x00 && b[ud + 2] == 3 && ud + 5 < b.len() {
        Some((b[ud + 3] as u16, b[ud + 4], b[ud + 5]))
    } else if b[ud + 1] == 0x08 && b[ud + 2] == 4 && ud + 6 < b.len() {
        Some(((b[ud + 3] as int * 256 + b[ud + 4] as int) as u16, b[ud + 5], b[ud + 6]))
    } else {
        None
    }
}

/// The text of a part, its header skipped: for UCS2 the octets after the
/// header (cut short with the PDU), for 7-bit the septets after the ones
/// the header fills.
pub open spec fn part_text(b: Seq<u8>, ud: int, udl: nat, dcs: u8) -> Seq<char> {
    let h = b[ud] as int + 1;
    if is_ucs2_dcs(dcs) {
        let end = if ud + 2 * udl as int <= b.len() {
            ud + 2 * udl as int
        } else {
            b.len() as int
        };
        if ud + h <= end {
            ucs2_text(b.subrange(ud + h, end))
        } else {
            Seq::empty()
        }
    } else {
        let end = if ud + (7 * udl as int + 7) / 8 <= b.len() {
            ud + (7 * udl as int + 7) / 8
        } else {
            b.len() as int
        };
        let skip = (h * 8 + 6) / 7;
        let all = septets_text(b.subrange(ud, end), udl);
        if skip <= all.len() {
            all.subrange(skip, all.len() as int)
        } else {
            Seq::empty()
        }
    }
}

/// The part a PDU is: reference, part count, part number and text.
pub open spec fn concat_part(b: Seq<u8>) -> Option<(u16, u8, u8, Seq<char>)> {
    match deliver_layout(b) {
        None => None,
        Some((o, dcs, first)) => if first & 0x40 == 0 || o + 1 >= b.len() {
            None
        } else {
            match concat_element(b, o + 1) {
                None => None,
                Some((r, total, seq)) => Some(
                    (r, total, seq, part_text(b, o + 1, b[o] as nat, dcs)),
                ),
            }
        },
    }
}

/// What a PDU given as hex says about concatenation.
#[derive(Debug)]
pub struct PartInfo {
    pub reference: u16,
    pub total: u8,
    pub seq: u8,
    pub text: String,
}

fn layout_of(b: &[u8]) -> (r: Option<(usize, u8, u8)>)
    ensures
        match deliver_layout(b@) {
            Some((o, d, f)) => r == Some((o as usize, d, f)) && o < b@.len(),
            None => r is None,
        },
{
    let n = b.len();
    if n == 0 {
        return None;
    }
    let mut off0: usize = 0;
    if n > 1 && b[0] > 0 && b[0] < 20 && (b[0] as usize) + 1 < n && (b[1] == 0x91 || b[1] == 0x81
        || b[1] == 0x80 || b[1] == 0xA1) {
        off0 = 1 + b[0] as usize;
    }
    assert(off0 == tpdu_offset(b@));
    if off0 >= n {
        return None;
    }
    let first = b[off0];
    let off1 = off0 + 1;
    if first & 0x03 != 0 || off1 + 1 >= n {
        return None;
    }
    let off3 = off1 + 2;
    let digits = (b[off1] as usize + 1) / 2;
    if digits >= n - off3 || off3 + digits + 1 >= n {
        return None;
    }
    let off4 = off3 + digits;
    if 9 >= n - off4 {
        return None;
    }
    Some((off4 + 9, b[off4 + 1], first))
}

fn element_of(b: &[u8], ud: usize) -> (r: Option<(u16, u8, u8)>)
    ensures
        r == concat_element(b@, ud as int),
{
    let n = b.len();
    if ud >= n || n - ud <= 2 {
        return None;
    }
    if b[ud + 1] == 0x00 && b[ud + 2] == 3 && n - ud > 5 {
        Some((b[ud + 3] as u16, b[ud + 4], b[ud + 5]))
    } else if b[ud + 1] == 0x08 && b[ud + 2] == 4 && n - ud > 6 {
        let hi = b[ud + 3] as u16;
        let lo = b[ud + 4] as u16;
        let r: u16 = hi * 256 + lo;
        assert(r == (b@[ud + 3] as int * 256 + b@[ud + 4] as int) as u16);
        Some((r, b[ud + 5], b[ud + 6]))
    } else {
        None
    }
}

fn part_text_of(b: &[u8], ud: usize, udl: usize, dcs: u8) -> (r: String)
    requires
        ud < b@.len(),
        udl < 256,
    ensures
        r@ == part_text(b@, ud as int, udl as nat, dcs),
{
    let n = b.len();
    let h = b[ud] as usize + 1;
    if is_ucs2(dcs) {
        let end = if 2 * udl <= n - ud {
            ud + 2 * udl
        } else {
            n
        };
        if h <= end - ud {
            decode_ucs2(slice_subrange(b, ud + h, end))
        } else {
            String::new()
        }
    } else {
        let end = if (7 * udl + 7) / 8 <= n - ud {
            ud + (7 * udl + 7) / 8
        } else {
            n
        };
        let piece = slice_subrange(b, ud, end);
        assert(piece@.len() == 0 || 8 * (piece@.len() - 1) < 7 * udl + 64) by (nonlinear_arith)
            requires
                piece@.len() <= (7 * udl + 7) / 8,
        ;
        let all = decode_7bit(piece, udl);
        let skip = (h * 8 + 6) / 7;
        let cs = crate::text::chars_of(all.as_str());
        if skip <= cs.len() {
            let mut t = String::new();
            let mut k: usize = skip;
            while k < cs.len()
                invariant
                    skip <= k <= cs.len(),
                    t@ == cs@.subrange(skip as int, k as int),
                decreases cs.len() - k,
            {
                crate::text::string_push(&mut t, cs[k]);
                k = k + 1;
                assert(cs@.subrange(skip as int, k as int) == cs@.subrange(skip as int, k - 1).push(
                    cs@[k - 1],
                ));
            }
            t
        } else {
            String::new()
        }
    }
}

/// Reads the concatenation element and text of a part; `None` for a PDU
/// that is no part of a longer message.
pub fn concat_part_of(pdu_hex: &str) -> (r: Option<PartInfo>)
    requires
        hex_windows_whole(pdu_hex@),
    ensures
        match concat_part(decode_hex_spec(pdu_hex@)) {
            Some((rf, t, s, x)) => r is Some && r->0.reference == rf && r->0.total == t
                && r->0.seq == s && r->0.text@ == x,
            None => r is None,
        },
{
    let b = decode_hex(pdu_hex);
    let (o, dcs, first) = match layout_of(b.as_slice()) {
        Some(l) => l,
        None => return None,
    };
    if first & 0x40 == 0 || o + 1 >= b.len() {
        return None;
    }
    let (reference, total, seq) = match element_of(b.as_slice(), o + 1) {
        Some(e) => e,
        None => return None,
    };
    let text = part_text_of(b.as_slice(), o + 1, b[o] as usize, dcs);
    Some(PartInfo { reference, total, seq, text })
}

fn is_ucs2(dcs: u8) -> (r: bool)
    ensures
        r == is_ucs2_dcs(dcs),
{
    dcs == 0x08 || dcs == 0x0C || dcs == 0x18 || dcs == 0x1C
}


// ---------------------------------------------------------------------------
// Assembling the parts
// ---------------------------------------------------------------------------

/// A message whose parts are arriving: sender, reference, one slot per
/// part (filled by part number), and the inbox entry of the part that
/// arrived first.
pub struct PendingMessage {
    pub phone: String,
    pub reference: u16,
    pub parts: Vec<Option<String>>,
    pub first: InboxMessage,
}

/// The texts of the slots, in order.
pub open spec fn slots_view(parts: Seq<Option<String>>) -> Seq<Option<Seq<char>>> {
    parts.map_values(|o: Option<String>| match o {
        Some(t) => Some(t@),
        None => None,
    })
}

/// Every slot is filled.
pub open spec fn all_filled(parts: Seq<Option<Seq<char>>>) -> bool {
    forall|i: int| 0 <= i < parts.len() ==> (#[trigger] parts[i]) is Some
}

/// The slots' texts joined in slot order.
pub open spec fn joined(parts: Seq<Option<Seq<char>>>) -> Seq<char>
    decreases parts.len(),
{
    if parts.len() == 0 {
        Seq::empty()
    } else {
        joined(parts.drop_last()) + match parts.last() {
            Some(t) => t,
            None => Seq::empty(),
        }
    }
}

/// Where the pending message of a sender and reference stands, if any.
pub open spec fn pending_index(p: Seq<PendingMessage>, phone: Seq<char>, reference: u16, i: int) -> Option<int>
    decreases p.len() - i,
{
    if i < 0 || i >= p.len() {
        None
    } else if p[i].phone@ == phone && p[i].reference == reference {
        Some(i)
    } else {
        pending_index(p, phone, reference, i + 1)
    }
}

/// The parts received so far.
pub struct ConcatBuffer {
    pub pending: Vec<PendingMessage>,
}

/// The slots of a pending message after part `seq` arrived with `text`.
pub open spec fn slots_after(slots: Seq<Option<Seq<char>>>, seq: u8, text: Seq<char>) -> Seq<Option<Seq<char>>> {
    if 1 <= seq <= slots.len() {
        slots.update(seq - 1, Some(text))
    } else {
        slots
    }
}

fn join_slots(parts: &Vec<Option<String>>) -> (r: String)
    ensures
        r@ == joined(slots_view(parts@)),
{
    let mut r = String::new();
    let mut i: usize = 0;
    while i < parts.len()
        invariant
            0 <= i <= parts@.len(),
            r@ == joined(slots_view(parts@.take(i as int))),
        decreases parts.len() - i,
    {
        assert(slots_view(parts@.take(i + 1)).drop_last() == slots_view(parts@.take(i as int)));
        match &parts[i] {
            Some(t) => push_string(&mut r, t),
            None => {},
        }
        i = i + 1;
    }
    assert(parts@.take(parts@.len() as int) == parts@);
    r
}

fn filled(parts: &Vec<Option<String>>) -> (r: bool)
    ensures
        r == all_filled(slots_view(parts@)),
{
    let mut i: usize = 0;
    while i < parts.len()
        invariant
            0 <= i <= parts@.len(),
            forall|k: int| 0 <= k < i ==> (#[trigger] slots_view(parts@)[k]) is Some,
        decreases parts.len() - i,
    {
        if parts[i].is_none() {
            assert(slots_view(parts@)[i as int] is None);
            return false;
        }
        i = i + 1;
    }
    true
}

impl ConcatBuffer {
    pub fn new() -> (r: Self)
        ensures
            r.pending@.len() == 0,
    {
        ConcatBuffer { pending: Vec::new() }
    }

    /// Takes in part `part` of a message from `phone`, whose inbox entry is
    /// `msg`. A part with no valid number (0, or above the part count) is
    /// a message of its own and is handed back at once. Otherwise it fills
    /// the slot of its number in the pending message of its sender and
    /// reference (started with this part's count of empty slots, and this
    /// part's entry, when there is none); once every slot is filled the
    /// pending message is removed and handed back as the entry of the part
    /// that arrived first, with the slots' texts joined in part order as
    /// its text.
    pub fn add_part(&mut self, phone: &str, part: PartInfo, msg: InboxMessage) -> (r: Option<
        InboxMessage,
    >)
        ensures
            (part.seq == 0 || part.seq > part.total) ==> r == Some(msg) && final(self).pending@
                == old(self).pending@,
            1 <= part.seq <= part.total ==> ({
                let old_p = old(self).pending@;
                let k = pending_index(old_p, phone@, part.reference, 0);
                let at = match k {
                    Some(k) => k,
                    None => old_p.len() as int,
                };
                let base = match k {
                    Some(k) => slots_view(old_p[k].parts@),
                    None => Seq::new(part.total as nat, |i: int| None::<Seq<char>>),
                };
                let first = match k {
                    Some(k) => old_p[k].first,
                    None => msg,
                };
                let slots = slots_after(base, part.seq, part.text@);
                &&& (r is Some) == all_filled(slots)
                &&& r is Some ==> message_view(r->0) == (
                    first.index,
                    first.status@,
                    first.pdu@,
                    first.phone@,
                    first.timestamp@,
                    first.unread,
                    Some(joined(slots)),
                )
                &&& r is Some ==> final(self).pending@ == (if k is Some {
                    old_p.remove(at)
                } else {
                    old_p
                })
                &&& r is None ==> {
                    let p = final(self).pending@;
                    &&& p.len() == (if k is Some {
                        old_p.len()
                    } else {
                        old_p.len() + 1
                    })
                    &&& forall|j: int| 0 <= j < old_p.len() && j != at ==> #[trigger] p[j] == old_p[j]
                    &&& p[at].phone@ == phone@ && p[at].reference == part.reference
                    &&& slots_view(p[at].parts@) == slots && p[at].first == first
                }
            }),
    {
        if part.seq == 0 || part.seq > part.total {
            return Some(msg);
        }
        let mut i: usize = 0;
        while i < self.pending.len() && !(str_eq(self.pending[i].phone.as_str(), phone)
            && self.pending[i].reference == part.reference)
            invariant
                0 <= i <= self.pending@.len(),
                self.pending@ == old(self).pending@,
                pending_index(old(self).pending@, phone@, part.reference, 0) == pending_index(
                    old(self).pending@,
                    phone@,
                    part.reference,
                    i as int,
                ),
            decreases self.pending.len() - i,
        {
            i = i + 1;
        }
        if i >= self.pending.len() {
            let mut slots: Vec<Option<String>> = Vec::new();
            let mut k: u8 = 0;
            while k < part.total
                invariant
                    0 <= k <= part.total,
                    slots@.len() == k,
                    forall|t: int| 0 <= t < k ==> (#[trigger] slots@[t]) is None,
                decreases part.total - k,
            {
                slots.push(None);
                k = k + 1;
            }
            assert(slots_view(slots@) =~= Seq::new(part.total as nat, |i: int| None::<Seq<char>>));
            self.pending.push(PendingMessage { phone: string_of(phone), reference: part.reference, parts: slots, first: msg });
            i = self.pending.len() - 1;
        } else {
            assert(pending_index(old(self).pending@, phone@, part.reference, 0) == Some(i as int));
        }
        let ghost before = slots_view(self.pending@[i as int].parts@);
        let mut entry = self.pending.remove(i);
        let seq = part.seq as usize;
        if seq <= entry.parts.len() {
            entry.parts.set(seq - 1, Some(part.text));
        }
        assert(slots_view(entry.parts@) =~= slots_after(before, part.seq, part.text@));
        if filled(&entry.parts) {
            let text = join_slots(&entry.parts);
            let mut m = entry.first;
            m.pre_decoded = Some(text);
            Some(m)
        } else {
            self.pending.insert(i, entry);
            None
        }
    }
}

} // verus!
