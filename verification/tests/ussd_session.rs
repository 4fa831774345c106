use modat::ussd::{decode_ussd_text, encode_ussd_code, extract_ussd_buttons, UssdSession};

#[test]
fn ussd_code_is_packed_for_gsm_schemes() {
    assert_eq!(encode_ussd_code("*123#", "15"), "AA986C3602");
    assert_eq!(encode_ussd_code("*123#", "none"), "*123#");
}

#[test]
fn ussd_packed_answer_is_decoded() {
    assert_eq!(decode_ussd_text("AA986C3602"), "*123#@");
    assert_eq!(decode_ussd_text("Saldo 5000"), "Saldo 5000");
}

#[test]
fn menu_items_are_extracted() {
    let b = extract_ussd_buttons("Menu:\n1. Pulsa\n2. Paket\n88. Kembali");
    assert_eq!(b, vec!["1. Pulsa".to_string(), "2. Paket".to_string(), "88. Kembali".to_string()]);
    assert!(extract_ussd_buttons("Onnet:0 s/d 04-OCT-28").is_empty());
}

#[test]
fn session_sends_and_remembers_codes() {
    let mut s = UssdSession::new();
    let (cmd, payload) = s.send_ussd("*123#", "15", false, "10:00:00");
    assert_eq!(payload, "AA986C3602");
    assert_eq!(cmd, "AT+CUSD=1,\"AA986C3602\",15\r\n");
    assert_eq!(s.console, "[10:00:00] >>> AT+CUSD=1,\"AA986C3602\",15\n");
    for code in ["*1#", "*2#", "*3#", "*4#", "*5#", "*1#"] {
        s.send_ussd(code, "none", true, "t");
    }
    assert_eq!(s.history, vec!["*1#", "*2#", "*3#", "*4#", "*5#"]);
    assert!(s.history.len() <= 5);
}

#[test]
fn session_takes_answers() {
    let mut s = UssdSession::new();
    s.handle_cusd_urc("+CUSD: 1,\"Pilih:\n1. Pulsa\n2. Paket\",15", "t");
    assert!(s.active);
    assert_eq!(s.buttons, vec!["1. Pulsa".to_string(), "2. Paket".to_string()]);
    s.handle_cusd_urc("+CUSD: 0,\"\",15", "t");
    assert!(!s.active);
    assert_eq!(s.response, "USSD: No further action required");
    s.handle_cusd_urc("+CUSD: 2", "t");
    assert_eq!(s.response, "USSD: Session ended (no response from network)");
    s.handle_cusd_urc("+CUSD: 4", "t");
    assert_eq!(s.response, "USSD: unknown status 4");
    let cancel = s.cancel_ussd("t");
    assert_eq!(cancel, "AT+CUSD=2\r\n");
}

#[test]
fn menu_items_after_non_ascii_text_are_cut_by_characters() {
    assert_eq!(extract_ussd_buttons("\u{e9}\u{e9} 1. Ya"), vec!["1. Ya".to_string()]);
    assert_eq!(
        extract_ussd_buttons("Pilih \u{394}:\n1. \u{a3}5 Paket\n2. Caf\u{e9}"),
        vec!["1. \u{a3}5 Paket".to_string(), "2. Caf\u{e9}".to_string()]
    );
}

#[test]
fn reply_labels_give_their_menu_number() {
    assert_eq!(modat::ussd::reply_option_of("1. Ya"), Some(1));
    assert_eq!(modat::ussd::reply_option_of(" 88. Kembali"), Some(88));
    assert_eq!(modat::ussd::reply_option_of("Kembali"), None);
    assert_eq!(modat::ussd::reply_option_of("99999999999999999999999 x"), None);
}
