//! Outcome of sending a PDU: `+CMS ERROR` causes, the message reference of
//! `+CMGS`, and the prompt and final-result checks of an AT exchange.

use vstd::prelude::*;

use crate::scan::{tagged_number, tagged_u32};
use crate::contacts::{recipient_list, recipients};
use crate::text::{
    chars_of, contains, decimal, push_decimal, push_str, str_contains, str_trim, string_of,
    trim_spec,
};

verus! {

/// The text of a `+CMS ERROR` cause (3GPP TS 27.005 and 24.011 values).
pub open spec fn cms_description(code: u32) -> Seq<char> {
    match code {
        1 => "Unassigned number"@,
        8 => "Operator barred"@,
        10 => "Call barred"@,
        21 => "Transfer rejected"@,
        27 => "Destination out of service"@,
        28 => "Unidentified subscriber"@,
        29 => "Facility rejected"@,
        30 => "Unknown subscriber"@,
        38 => "Network out of order"@,
        41 => "Temporary failure"@,
        42 => "Congestion"@,
        47 => "Resources unavailable"@,
        50 => "Facility not subscribed"@,
        69 => "Requested facility not implemented"@,
        81 => "Invalid SM transfer reference value"@,
        95 => "Invalid message"@,
        96 => "Invalid mandatory information"@,
        97 => "Message type non-existent"@,
        98 => "Message not compatible with SM protocol"@,
        99 => "Information element non-existent"@,
        111 => "Protocol error"@,
        127 => "Interworking error"@,
        128 => "Telematic interworking not supported"@,
        129 => "SMS type 0 not supported"@,
        130 => "Cannot replace short message"@,
        143 => "Unspecified TP-PID error"@,
        144 => "Data coding scheme not supported"@,
        159 => "Unspecified TP-DCS error"@,
        160 => "Command cannot be acted on"@,
        161 => "Command unsupported"@,
        175 => "Unspecified TP-command error"@,
        176 => "TPDU not supported"@,
        192 => "SC busy"@,
        193 => "No SC subscription"@,
        194 => "SC system failure"@,
        195 => "Invalid SME address"@,
        196 => "Destination SME barred"@,
        197 => "SM rejected - duplicate SM"@,
        198 => "TP-VPF not supported"@,
        199 => "TP-VP not supported"@,
        208 => "SIM SMS storage full"@,
        209 => "No SMS storage in SIM"@,
        210 => "Error in MS"@,
        211 => "Memory capacity exceeded"@,
        212 => "SIM application toolkit busy"@,
        213 => "SIM data download error"@,
        255 => "Unspecified error cause"@,
        300 => "ME failure"@,
        301 => "SMS service reserved"@,
        302 => "Operation not allowed"@,
        303 => "Operation not supported"@,
        304 => "Invalid PDU mode / message ref exhausted - wait and retry"@,
        305 => "Invalid text mode parameter"@,
        310 => "SIM not inserted"@,
        311 => "SIM PIN required"@,
        312 => "PH-SIM PIN required"@,
        313 => "SIM failure"@,
        314 => "SIM busy - try again"@,
        315 => "SIM wrong"@,
        316 => "SIM PUK required"@,
        320 => "Memory failure"@,
        321 => "Invalid memory index"@,
        322 => "Memory full"@,
        330 => "SMSC address unknown"@,
        331 => "No network service"@,
        332 => "Network timeout"@,
        340 => "No +CNMA expected"@,
        500 => "Unknown error"@,
        _ => "Unknown CMS error"@,
    }
}

fn cms_description_text(code: u32) -> (r: &'static str)
    ensures
        r@ == cms_description(code),
{
    match code {
        1 => "Unassigned number",
        8 => "Operator barred",
        10 => "Call barred",
        21 => "Transfer rejected",
        27 => "Destination out of service",
        28 => "Unidentified subscriber",
        29 => "Facility rejected",
        30 => "Unknown subscriber",
        38 => "Network out of order",
        41 => "Temporary failure",
        42 => "Congestion",
        47 => "Resources unavailable",
        50 => "Facility not subscribed",
        69 => "Requested facility not implemented",
        81 => "Invalid SM transfer reference value",
        95 => "Invalid message",
        96 => "Invalid mandatory information",
        97 => "Message type non-existent",
        98 => "Message not compatible with SM protocol",
        99 => "Information element non-existent",
        111 => "Protocol error",
        127 => "Interworking error",
        128 => "Telematic interworking not supported",
        129 => "SMS type 0 not supported",
        130 => "Cannot replace short message",
        143 => "Unspecified TP-PID error",
        144 => "Data coding scheme not supported",
        159 => "Unspecified TP-DCS error",
        160 => "Command cannot be acted on",
        161 => "Command unsupported",
        175 => "Unspecified TP-command error",
        176 => "TPDU not supported",
        192 => "SC busy",
        193 => "No SC subscription",
        194 => "SC system failure",
        195 => "Invalid SME address",
        196 => "Destination SME barred",
        197 => "SM rejected - duplicate SM",
        198 => "TP-VPF not supported",
        199 => "TP-VP not supported",
        208 => "SIM SMS storage full",
        209 => "No SMS storage in SIM",
        210 => "Error in MS",
        211 => "Memory capacity exceeded",
        212 => "SIM application toolkit busy",
        213 => "SIM data download error",
        255 => "Unspecified error cause",
        300 => "ME failure",
        301 => "SMS service reserved",
        302 => "Operation not allowed",
        303 => "Operation not supported",
        304 => "Invalid PDU mode / message ref exhausted - wait and retry",
        305 => "Invalid text mode parameter",
        310 => "SIM not inserted",
        311 => "SIM PIN required",
        312 => "PH-SIM PIN required",
        313 => "SIM failure",
        314 => "SIM busy - try again",
        315 => "SIM wrong",
        316 => "SIM PUK required",
        320 => "Memory failure",
        321 => "Invalid memory index",
        322 => "Memory full",
        330 => "SMSC address unknown",
        331 => "No network service",
        332 => "Network timeout",
        340 => "No +CNMA expected",
        500 => "Unknown error",
        _ => "Unknown CMS error",
    }
}

/// "+CMS ERROR <code>: <description>" for the first `+CMS ERROR:` code in a
/// response, or `None` when there is none (or it does not fit a `u32`).
pub open spec fn cms_error_text(response: Seq<char>) -> Option<Seq<char>> {
    match tagged_u32(response, "+CMS ERROR:"@) {
        Some(code) => Some("+CMS ERROR "@ + decimal(code as nat) + ": "@ + cms_description(code)),
        None => None,
    }
}

/// Describes the `+CMS ERROR` that a response reports.
pub fn decode_cms_error(response: &str) -> (r: Option<String>)
    ensures
        match r {
            Some(t) => cms_error_text(response@) == Some(t@),
            None => cms_error_text(response@) is None,
        },
{
    let cs = chars_of(response);
    let tag = chars_of("+CMS ERROR:");
    match tagged_number(&cs, &tag) {
        None => None,
        Some(code) => {
            let mut t = string_of("+CMS ERROR ");
            push_decimal(&mut t, code);
            push_str(&mut t, ": ");
            push_str(&mut t, cms_description_text(code));
            Some(t)
        },
    }
}

/// The message reference that a `+CMGS: <mr>` confirmation carries.
pub fn sent_message_reference(response: &str) -> (r: Option<u32>)
    ensures
        r == tagged_u32(response@, "+CMGS:"@),
{
    let cs = chars_of(response);
    let tag = chars_of("+CMGS:");
    tagged_number(&cs, &tag)
}

/// The modem accepted the PDU: its reply holds "OK" or "+CMGS".
pub fn send_confirmed(response: &str) -> (r: bool)
    ensures
        r == (contains(response@, "OK"@) || contains(response@, "+CMGS"@)),
{
    str_contains(response, "OK") || str_contains(response, "+CMGS")
}

/// A command's reply is complete once it holds "OK\r\n" or "ERROR".
pub fn response_complete(response: &str) -> (r: bool)
    ensures
        r == (contains(response@, "OK\r\n"@) || contains(response@, "ERROR"@)),
{
    str_contains(response, "OK\r\n") || str_contains(response, "ERROR")
}

/// What the text received after `AT+CMGS=<n>` shows so far.
#[derive(Debug, Clone, Copy, PartialEq, Eq)]
pub enum PromptState {
    /// The '>' prompt arrived: the PDU can be sent.
    Prompt,
    /// The modem refused the command.
    Refused,
    /// Nothing decisive yet.
    Waiting,
}

/// Reads the text received while waiting for the PDU prompt: a '>' is the
/// prompt; otherwise "+CMS ERROR" or "ERROR" is a refusal.
pub fn prompt_state(received: &str) -> (r: PromptState)
    ensures
        r == (if contains(received@, ">"@) {
            PromptState::Prompt
        } else if contains(received@, "+CMS ERROR"@) || contains(received@, "ERROR"@) {
            PromptState::Refused
        } else {
            PromptState::Waiting
        }),
{
    if str_contains(received, ">") {
        PromptState::Prompt
    } else if str_contains(received, "+CMS ERROR") || str_contains(received, "ERROR") {
        PromptState::Refused
    } else {
        PromptState::Waiting
    }
}

/// The first 40 characters followed by "..." for a longer text, "(invisible
/// ping)" for an empty one, else the text itself.
pub open spec fn content_preview_text(content: Seq<char>) -> Seq<char> {
    if content.len() > 40 {
        content.take(40) + "..."@
    } else if content.len() == 0 {
        "(invisible ping)"@
    } else {
        content
    }
}

/// The short form of a message shown in the delivery report list.
pub fn content_preview(content: &str) -> (r: String)
    ensures
        r@ == content_preview_text(content@),
{
    let cs = chars_of(content);
    if cs.len() > 40 {
        let mut r = String::new();
        let mut i: usize = 0;
        while i < 40
            invariant
                0 <= i <= 40,
                40 < cs.len(),
                r@ == cs@.take(i as int),
            decreases 40 - i,
        {
            crate::text::string_push(&mut r, cs[i]);
            i = i + 1;
            assert(cs@.take(i as int) == cs@.take(i - 1).push(cs@[i - 1]));
        }
        push_str(&mut r, "...");
        r
    } else if cs.len() == 0 {
        string_of("(invisible ping)")
    } else {
        string_of(content)
    }
}

/// The kind of message recorded for a sent SMS: class 0 is a flash
/// message, every other class a normal one.
pub fn message_type(sms_class: &str) -> (r: &'static str)
    ensures
        r@ == (if sms_class@ == "0"@ {
            "flash"@
        } else {
            "normal"@
        }),
{
    if crate::text::str_eq(sms_class, "0") {
        "flash"
    } else {
        "normal"
    }
}

/// What the Send button of the SMS form leads to.
#[derive(Debug)]
pub enum SendRequest {
    /// The form is not filled in as it must be: this warning is shown.
    Refused(String),
    /// The form is fine but no modem is connected.
    NotConnected,
    /// Send this trimmed text to these recipients.
    Send(Vec<String>, String),
}

/// Checks the SMS form: at least one recipient and some text besides
/// whitespace, at most 160 characters (the 7-bit limit), and a connected
/// modem; the recipients are the non-empty trimmed pieces of the
/// comma-separated list, and the text goes out trimmed.
pub fn send_request(phone_number: &str, message: &str, connected: bool) -> (r: SendRequest)
    ensures
        ({
            let list = recipient_list(phone_number@);
            let text = trim_spec(message@);
            if list.len() == 0 || text.len() == 0 {
                r matches SendRequest::Refused(w) && w@ == "Enter phone number(s) and message"@
            } else if message@.len() > 160 {
                r matches SendRequest::Refused(w) && w@ == "Max 160 chars for 7-bit encoding"@
            } else if !connected {
                r is NotConnected
            } else {
                r matches SendRequest::Send(to, t) && t@ == text && to@.len() == list.len()
                    && forall|i: int| 0 <= i < to@.len() ==> (#[trigger] to@[i])@ == list[i]
            }
        }),
{
    let to = recipients(phone_number);
    let text = str_trim(message);
    if to.len() == 0 || text.is_empty() {
        return SendRequest::Refused(string_of("Enter phone number(s) and message"));
    }
    let count = chars_of(message).len();
    if count > 160 {
        return SendRequest::Refused(string_of("Max 160 chars for 7-bit encoding"));
    }
    if !connected {
        return SendRequest::NotConnected;
    }
    SendRequest::Send(to, string_of(text))
}

} // verus!
