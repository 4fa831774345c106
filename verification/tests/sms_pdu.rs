use modat::contacts::{
    add_current_phone_as_contact, add_manual_contact, append_contact_to_recipients,
    contact_error_message, recipients, resolve_contact_name, Contact, ContactError,
};
use modat::delivery::{parse_status_report, DeliveryLog, SentMessageInfo};
use modat::gsm::{gsm_decode, gsm_encode};
use modat::hex::decode_hex;
use modat::pdu::{decode_phone_number, decode_sms_simple, decode_timestamp, decode_ucs2, encode_phone};
use modat::sending::{
    content_preview, decode_cms_error, message_type, prompt_state, send_request, sent_message_reference, PromptState,
    SendRequest,
};
use modat::septets::{gsm_7bit_unpack, pack_7bit};
use modat::submit::{build_ping_pdu, build_pdu, select_dcs};

#[test]
fn pack_7bit_packs_hello() {
    assert_eq!(pack_7bit(b"hello"), vec![0xE8, 0x32, 0x9B, 0xFD, 0x06]);
    assert_eq!(pack_7bit(b"hellohello"), vec![0xE8, 0x32, 0x9B, 0xFD, 0x46, 0x97, 0xD9, 0xEC, 0x37]);
    assert!(pack_7bit(b"").is_empty());
}

#[test]
fn unpack_gives_back_packed_septets() {
    let data = b"hellohello";
    let mut expected = data.to_vec();
    expected.push(0);
    assert_eq!(gsm_7bit_unpack(&pack_7bit(data)), expected);
    let eight = b"abcdefgh";
    assert_eq!(gsm_7bit_unpack(&pack_7bit(eight)), eight.to_vec());
}

#[test]
fn gsm_alphabet_round_trip() {
    let text = "Hello @£$ Δ_ä";
    assert_eq!(gsm_decode(&gsm_encode(text)), text);
    assert_eq!(gsm_encode("@A"), vec![0x00, 0x41]);
}

#[test]
fn decode_hex_reads_pairs() {
    assert_eq!(decode_hex("48656C6C6F"), b"Hello".to_vec());
    assert_eq!(decode_hex("  abc "), vec![0x0A, 0xBC]);
    assert_eq!(decode_hex("zz41"), vec![0x41]);
    assert!(decode_hex("").is_empty());
}

#[test]
fn cms_error_is_described() {
    assert_eq!(
        decode_cms_error("\r\n+CMS ERROR: 330\r\n").as_deref(),
        Some("+CMS ERROR 330: SMSC address unknown")
    );
    assert_eq!(decode_cms_error("+CMS ERROR: 7").as_deref(), Some("+CMS ERROR 7: Unknown CMS error"));
    assert_eq!(decode_cms_error("OK"), None);
}

#[test]
fn send_confirmation_gives_reference() {
    assert_eq!(sent_message_reference("\r\n+CMGS: 42\r\n\r\nOK\r\n"), Some(42));
    assert_eq!(sent_message_reference("ERROR"), None);
    assert_eq!(prompt_state("\r\n> "), PromptState::Prompt);
    assert_eq!(prompt_state("+CMS ERROR: 500"), PromptState::Refused);
    assert_eq!(prompt_state(""), PromptState::Waiting);
}

#[test]
fn preview_cuts_long_text() {
    let long = "a".repeat(45);
    assert_eq!(content_preview(&long), format!("{}...", "a".repeat(40)));
    assert_eq!(content_preview(""), "(invisible ping)");
    assert_eq!(content_preview("short"), "short");
}

#[test]
fn phone_is_encoded_in_semi_octets() {
    assert_eq!(encode_phone("+6281234567890"), "261832547698F0");
    assert_eq!(encode_phone("1234"), "2143");
    assert_eq!(decode_phone_number(&[0x26, 0x18, 0x32, 0x54, 0x76, 0x98, 0xF0], 0x91), "+6281234567890");
    assert_eq!(decode_phone_number(&[0x21, 0x43], 0x81), "1234");
}

#[test]
fn timestamp_is_decoded() {
    assert_eq!(decode_timestamp(&[0x52, 0x10, 0x91, 0x21, 0x43, 0x05, 0x80]), "2025-01-19 12:34:50 +2");
    assert_eq!(decode_timestamp(&[0x52, 0x10]), "Unknown");
}

#[test]
fn build_pdu_for_normal_message() {
    let r = build_pdu("+6281234567890", "Hello", "1", "0x11 (Class 1 - 7bit) [OK]", true, false);
    assert_eq!(r, Ok(("21000D91261832547698F0001105C8329BFD06".to_string(), 19)));
}

#[test]
fn build_pdu_for_flash_message() {
    let r = build_pdu("08123", "Hi", "0", "0x13 (Class 3 - 7bit) [OK]", false, false);
    assert_eq!(r, Ok(("010005818021F3005002C834".to_string(), 12)));
}

#[test]
fn build_pdu_normalizes_phone_and_empty_text() {
    let r = build_pdu("+62 812-3", "", "1", "0x12 (Class 2 - 7bit) [OK]", false, false);
    assert_eq!(r, Ok(("01000691261832001200".to_string(), 10)));
}

#[test]
fn build_pdu_refuses_bad_input() {
    assert_eq!(
        build_pdu("12a", "Hi", "0", "", false, false),
        Err("Invalid phone number: 12a".to_string())
    );
    assert_eq!(
        build_pdu("123", "héllo", "1", "0x11", false, false),
        Err("Message contains non-ASCII characters. UCS2 SMS sending is not implemented yet.".to_string())
    );
}

#[test]
fn dcs_follows_class_and_choice() {
    assert_eq!(select_dcs("0", "0x11 (Class 1)"), 0x50);
    assert_eq!(select_dcs("1", "0x11 (Class 1 - 7bit) [OK]"), 0x11);
    assert_eq!(select_dcs("2", "garbage"), 0x50);
}

#[test]
fn ping_pdu_is_built() {
    let (pdu, len) = build_ping_pdu("+62812");
    assert_eq!(pdu, "210005912618F2400000");
    assert_eq!(len, 10);
}

#[test]
fn deliver_pdu_is_decoded() {
    let (phone, ts, text, dcs) =
        decode_sms_simple("07911326040000F0040B911346610089F60000208062917314080CC8F71D14969741F977FD07");
    assert_eq!(phone, "+31641600986");
    assert_eq!(ts, "2002-08-26 19:37:41 -20");
    assert_eq!(text, "How are you?");
    assert_eq!(dcs, 0);
}

#[test]
fn status_report_is_parsed() {
    let pdu = "07912618010000F0062A0D91261832547698F0521091214305805210912153058000";
    let r = parse_status_report(pdu).expect("report");
    assert_eq!(r.mr, 42);
    assert_eq!(r.phone, "+6281234567890");
    assert_eq!(r.sent_time, "2025-01-19 12:34:50 +2");
    assert_eq!(r.discharge_time, "2025-01-19 12:35:50 +2");
    assert_eq!(r.status, 0);
    assert!(parse_status_report("0011").is_none());
}

#[test]
fn report_lands_on_sent_row() {
    let mut log = DeliveryLog::new();
    let info = SentMessageInfo {
        msg_type: "normal".to_string(),
        phone: "+6281234567890".to_string(),
        content: "Hello".to_string(),
    };
    log.record_sent(42, info, "Budi (+6281234567890)".to_string(), "Hello".to_string(), "2025-01-19 12:34:00".to_string());
    assert_eq!(log.records[0].status, "Pending");
    let pdu = "07912618010000F0062A0D91261832547698F0521091214305805210912153058000";
    let report = parse_status_report(pdu).unwrap();
    let book = vec![Contact { name: "Budi".to_string(), number: "+6281234567890".to_string() }];
    let (shown, readable) = log.apply_status_report(&report, &book, pdu);
    assert_eq!(shown, "Budi (+6281234567890)");
    assert_eq!(readable, "Delivered");
    assert_eq!(log.records.len(), 1);
    assert_eq!(log.records[0].status, "Delivered");
    assert_eq!(log.records[0].tag, "delivered");
    assert_eq!(log.records[0].updated, "2025-01-19 12:35:50 +2");
    log.clear_delivery_reports();
    assert!(log.records.is_empty());
}

#[test]
fn unknown_report_adds_row() {
    let mut log = DeliveryLog::new();
    let pdu = "07912618010000F0062A0D91261832547698F0521091214305805210912153058062";
    let report = parse_status_report(pdu).unwrap();
    let (_, readable) = log.apply_status_report(&report, &[], pdu);
    assert_eq!(readable, "Busy");
    assert_eq!(log.records.len(), 1);
    assert_eq!(log.records[0].phone, "Unknown");
    assert_eq!(log.records[0].tag, "failed");
}

#[test]
fn recipients_are_split_and_trimmed() {
    assert_eq!(recipients(" 081, ,+62 "), vec!["081".to_string(), "+62".to_string()]);
    assert!(recipients("").is_empty());
}

#[test]
fn contacts_are_added_and_resolved() {
    let mut book: Vec<Contact> = Vec::new();
    assert_eq!(add_current_phone_as_contact(&mut book, "0812, 0813", "  "), Err(ContactError::MissingName));
    assert_eq!(add_current_phone_as_contact(&mut book, " ,0813", "Ani"), Err(ContactError::MissingPhone));
    assert_eq!(add_current_phone_as_contact(&mut book, "0812, 0813", " Ani "), Ok(()));
    assert_eq!(add_manual_contact(&mut book, "Budi", " "), Err(ContactError::MissingField));
    assert_eq!(add_manual_contact(&mut book, " Budi ", " 0899 "), Ok(()));
    assert_eq!(book.len(), 2);
    assert_eq!(book[0].name, "Ani");
    assert_eq!(book[0].number, "0812");
    assert_eq!(resolve_contact_name(&book, " 0899 "), "Budi (0899)");
    assert_eq!(resolve_contact_name(&book, "0700"), "0700");
    assert_eq!(contact_error_message(ContactError::MissingField), "Please fill both fields");
    assert_eq!(append_contact_to_recipients(" 0812 ", &book[1]), "0812,0899");
    assert_eq!(append_contact_to_recipients("  ", &book[1]), "0899");
}

#[test]
fn alphanumeric_sender_is_decoded() {
    let (phone, ts, text, _) = decode_sms_simple("07912618010000F00409D0B3A4DBFC0600005210912143058002C834");
    assert_eq!(phone, "3Info");
    assert_eq!(ts, "2025-01-19 12:34:50 +2");
    assert_eq!(text, "Hi");
    assert_eq!(modat::pdu::decode_address(&[0x21, 0x43], 4, 0x81), "1234");
}

#[test]
fn class_zero_is_sent_as_flash() {
    assert_eq!(message_type("0"), "flash");
    assert_eq!(message_type("1"), "normal");
    assert_eq!(message_type("none"), "normal");
}

#[test]
fn written_phone_numbers_read_back() {
    for phone in ["+6281234567890", "+628123456789", "08123", "1", "+", "++62+81"] {
        let encoded = encode_phone(phone);
        let bytes = decode_hex(&encoded);
        let digits: String = phone.chars().filter(|c| *c != '+').collect();
        assert_eq!(decode_phone_number(&bytes, 0x91), format!("+{}", digits));
    }
}

#[test]
fn ucs2_user_data_is_decoded() {
    assert_eq!(decode_ucs2(&[0x00, 0x48, 0x00, 0x69]), "Hi");
    assert_eq!(decode_ucs2(&[0x00, 0x48, 0x00, 0x69, 0x00]), "Hi");
    assert_eq!(decode_ucs2(&[0xD8, 0x3D, 0xDE, 0x00]), "\u{1F600}");
    assert_eq!(decode_ucs2(&[0x04, 0x1F]), "\u{41F}");
    assert_eq!(decode_ucs2(&[0xD8, 0x00]), "(binary)");
    assert_eq!(decode_ucs2(&[]), "");
}

#[test]
fn written_pdus_read_back() {
    let (pdu, _) = build_pdu("+62 812-3456-789", "Hello @ World_!", "1", "0x11 (Class 1 - 7bit) [OK]", true, false).unwrap();
    let (phone, ts, text, dcs) = decode_sms_simple(&pdu);
    assert_eq!(phone, "+628123456789");
    assert_eq!(ts, "");
    assert_eq!(text, "Hello @ World_!");
    assert_eq!(dcs, 0x11);
    let (pdu, _) = build_pdu("08123", "12345678", "0", "", false, false).unwrap();
    assert_eq!(decode_sms_simple(&pdu), ("08123".to_string(), String::new(), "12345678".to_string(), 0x50));
    let (pdu, _) = build_pdu("+6281", "ignored", "1", "0x11", false, true).unwrap();
    assert_eq!(decode_sms_simple(&pdu), ("+6281".to_string(), String::new(), String::new(), 0x11));
}

#[test]
fn padded_hex_of_either_case_reads_back_as_its_bytes() {
    let bytes: Vec<u8> = (0u8..=255).collect();
    let upper: String = bytes.iter().map(|b| format!("{:02X}", b)).collect();
    let lower: String = bytes.iter().map(|b| format!("{:02x}", b)).collect();
    assert_eq!(decode_hex(&format!(" \t{}\r\n", upper)), bytes);
    assert_eq!(decode_hex(&format!("\n {} ", lower)), bytes);
    assert_eq!(decode_hex(" \t "), Vec::<u8>::new());
}

#[test]
fn alphanumeric_senders_are_read_as_text() {
    assert_eq!(decode_phone_number(&[0xB3, 0xA4, 0xDB, 0xFC, 0x06], 0xD0), "3Info");
    assert_eq!(decode_phone_number(&[0x21, 0x43, 0xF5], 0x81), "12345");
    assert_eq!(decode_phone_number(&[0x21, 0x43, 0xF5], 0x91), "+12345");
}

#[test]
fn gsm_codes_read_back_as_their_characters() {
    assert_eq!(gsm_decode(&[0x24]), "\u{a4}");
    assert_eq!(gsm_decode(&[0x02]), "$");
    let all: String = (0u8..128).map(|b| gsm_decode(&[b])).collect();
    assert_eq!(gsm_encode(&all), (0u8..128).collect::<Vec<u8>>());
    assert_eq!(gsm_decode(&gsm_encode(&all)), all);
}

#[test]
fn phone_numbers_read_back_under_any_numeric_type() {
    for t in [0x81u8, 0x91, 0xA1, 0x80] {
        let bytes = decode_hex(&encode_phone("12345"));
        let lead = if t & 0x70 == 0x10 { "+" } else { "" };
        assert_eq!(decode_phone_number(&bytes, t), format!("{}12345", lead));
    }
    assert_eq!(encode_phone("12345"), "2143F5");
    assert_eq!(encode_phone("+12345"), encode_phone("12345"));
}

#[test]
fn send_form_is_checked_before_sending() {
    let refused = |r: SendRequest| match r {
        SendRequest::Refused(w) => w,
        other => panic!("expected a warning, got {:?}", other),
    };
    assert_eq!(refused(send_request(" , ", "Hi", true)), "Enter phone number(s) and message");
    assert_eq!(refused(send_request("0812", " \n ", true)), "Enter phone number(s) and message");
    assert_eq!(refused(send_request("0812", &"a".repeat(161), true)), "Max 160 chars for 7-bit encoding");
    assert!(matches!(send_request("0812", "Hi", false), SendRequest::NotConnected));
    match send_request(" 0812 , ,+62 99 ", "  Hello  ", true) {
        SendRequest::Send(to, text) => {
            assert_eq!(to, vec!["0812".to_string(), "+62 99".to_string()]);
            assert_eq!(text, "Hello");
        }
        other => panic!("expected a send, got {:?}", other),
    }
    assert!(matches!(send_request("0812", &"é".repeat(160), true), SendRequest::Send(_, _)));
}
