use modat::inbox::{classify_incoming, display_line_of, parse_cmgl_listing, Inbox, InboxMessage, Incoming};
use modat::lines::{
    line_kind_of, map_operator, network_of_line, operator_of_line, read_command_for,
    readable_status_of, storage_command_of,
    registration_of_line, signal_of_line, signal_text_of, stored_index_of, take_line, LineEvent,
    LineKind, LineRouter,
};
use modat::modem::{
    baud_of, csrf_token_of, get_signal_color, handshake_command, handshake_failure, handshake_reply, hilink_status_ok,
    is_pcui_description, looks_like_modem_page, mode_for_profile, modem_init_commands, pcui_port_of, router_addresses, modem_address_of,
    plan_connection, SignalColor,
    switch_action, switch_request_for, ConnectPlan, ConnectionState, FullModemInfo,
    HandshakeOutcome, HandshakeStep, StatusColor, SwitchAction,
};
use modat::ports::{
    detect_port_profile, friendly_port_of, get_manual_port_device, hardware_changed, port_description, port_matches_profile,
    propose_port, serial_profile_label, serial_profile_label_for_ports, PortEntry, UsbInfo,
};

const DELIVER: &str = "0791261801000000040B912618325476F800005210912143058005C8329BFD06";

#[test]
fn operator_codes_are_named() {
    assert_eq!(map_operator("51010"), "Telkomsel");
    assert_eq!(map_operator("51089"), "Tri");
    assert_eq!(map_operator("Vodafone"), "Vodafone");
}

#[test]
fn signal_lines_are_read() {
    assert_eq!(signal_of_line("+CSQ: 20,99").as_deref(), Some("3/5 (20)"));
    assert_eq!(signal_of_line("+CSQ: 99,99").as_deref(), Some("No signal"));
    assert_eq!(signal_of_line("+CSQ: 31,0").as_deref(), Some("5/5 (31)"));
    assert_eq!(signal_of_line("+CSQ: x"), None);
    assert_eq!(signal_text_of(5), "0/5 (5)");
}

#[test]
fn registration_lines_are_read() {
    let r = registration_of_line("+CREG: 2,1,\"1A2B\",\"01C3D4E5\",7").unwrap();
    assert_eq!(r.status, "Registered (Home)");
    assert_eq!(r.lac.as_deref(), Some("1A2B"));
    assert_eq!(r.cell_id.as_deref(), Some("01C3D4E5"));
    let u = registration_of_line("+CREG: 5").unwrap();
    assert_eq!(u.status, "Roaming");
    assert!(u.lac.is_none() && u.cell_id.is_none());
    let g = registration_of_line("+CGREG: 1,\"00FF\",\"ABCD\"").unwrap();
    assert_eq!(g.status, "Registered (Home)");
    assert_eq!(g.lac.as_deref(), Some("00FF"));
    assert_eq!(g.cell_id.as_deref(), Some("ABCD"));
    assert_eq!(registration_of_line("+CREG: 0,9").unwrap().status, "Unknown (9)");
    assert!(registration_of_line("+CREG: x").is_none());
    assert!(registration_of_line("+CSQ: 1").is_none());
}

#[test]
fn operator_and_network_lines_are_read() {
    assert_eq!(operator_of_line("+COPS: 0,0,\"51010\",7").as_deref(), Some("Telkomsel"));
    assert_eq!(operator_of_line("+COPS: 0,2,51089,7").as_deref(), Some("Tri"));
    assert_eq!(operator_of_line("+COPS: 0"), None);
    assert_eq!(network_of_line("^SYSINFOEX:2,3,0,1,,6,\"LTE\",101,\"LTE FDD\"").as_deref(), Some("LTE"));
    assert_eq!(network_of_line("^SYSINFOEX:2,3"), None);
}

#[test]
fn storage_notices_give_read_commands() {
    assert_eq!(stored_index_of("+CMTI: \"SM\",5"), Some(5));
    assert_eq!(stored_index_of("+CDSI: \"ME\", 12"), Some(12));
    assert_eq!(stored_index_of("+CMTI: \"SM\""), None);
    assert_eq!(read_command_for(5), "AT+CMGR=5\r\n");
}

#[test]
fn lines_are_classified() {
    assert_eq!(line_kind_of(""), LineKind::Empty);
    assert_eq!(line_kind_of("+CDS: 25"), LineKind::ReportHeader);
    assert_eq!(line_kind_of("+CDSI: \"SM\",3"), LineKind::StoredReport);
    assert_eq!(line_kind_of("+CMT: ,24"), LineKind::IncomingHeader);
    assert_eq!(line_kind_of("^HCSQ: \"LTE\",50,40,120,30"), LineKind::SignalDetail);
    assert_eq!(line_kind_of("+CGREG: 1"), LineKind::Registration);
    assert_eq!(line_kind_of("0791261801000000"), LineKind::Hex);
    assert_eq!(line_kind_of("ABCD"), LineKind::Other);
    assert_eq!(line_kind_of("OK"), LineKind::Other);
}

#[test]
fn header_routes_next_pdu() {
    let mut r = LineRouter::new();
    assert!(matches!(r.process_serial_line("+CMT: ,24"), LineEvent::IncomingHeader));
    assert!(r.expecting_cmt_pdu);
    match r.process_serial_line(DELIVER) {
        LineEvent::IncomingPdu(p) => assert_eq!(p, DELIVER),
        _ => panic!("expected an incoming PDU"),
    }
    assert!(!r.expecting_cmt_pdu);
    assert!(matches!(r.process_serial_line(DELIVER), LineEvent::UnsolicitedHex));
    r.process_serial_line("+CDS: 25");
    assert!(matches!(r.process_serial_line(DELIVER), LineEvent::ReportPdu(_)));
    r.process_serial_line("+CMGR: 0,,24");
    assert!(matches!(r.process_serial_line(DELIVER), LineEvent::ReadPdu(_)));
    match r.process_serial_line("+CSQ: 20,99") {
        LineEvent::Signal(Some(t)) => assert_eq!(t, "3/5 (20)"),
        _ => panic!("expected a signal"),
    }
    match r.process_serial_line("+CMTI: \"SM\",7") {
        LineEvent::NewMessage(i) => assert_eq!(i, Some(7)),
        _ => panic!("expected a notice"),
    }
}

#[test]
fn buffer_is_cut_into_lines() {
    let mut buf = "abc \r\nde".to_string();
    assert_eq!(take_line(&mut buf).as_deref(), Some("abc"));
    assert_eq!(buf, "de");
    assert_eq!(take_line(&mut buf), None);
    assert_eq!(buf, "de");
}

#[test]
fn listing_is_parsed() {
    let resp = format!("\r\n+CMGL: 1,1,,26\r\n{}\r\n+CMGL: 2,0,\"\",5\r\nZZ\r\n\r\nOK\r\n", DELIVER);
    let ms = parse_cmgl_listing(&resp);
    assert_eq!(ms.len(), 1);
    assert_eq!(ms[0].index, 1);
    assert_eq!(ms[0].status, "1");
    assert!(ms[0].unread);
    assert_eq!(ms[0].phone, "+62812345678");
    assert_eq!(ms[0].timestamp, "2025-01-19 12:34:50 +2");
    assert_eq!(ms[0].pdu, DELIVER);
}

#[test]
fn incoming_pdus_are_sorted() {
    match classify_incoming(DELIVER) {
        Incoming::Message(m) => {
            assert_eq!(m.phone, "+62812345678");
            assert_eq!(m.status, "REC UNREAD");
            assert_eq!(m.index, 0);
            assert!(m.unread);
        }
        _ => panic!("expected a message"),
    }
    assert!(matches!(
        classify_incoming("07912618010000F0062A0D91261832547698F0521091214305805210912153058000"),
        Incoming::StatusReport
    ));
    assert!(matches!(classify_incoming("zz"), Incoming::Undecodable));
    assert!(matches!(classify_incoming("0100"), Incoming::TooShort));
}

fn message(pdu: &str, index: usize) -> InboxMessage {
    InboxMessage {
        index,
        status: "1".to_string(),
        pdu: pdu.to_string(),
        phone: String::new(),
        timestamp: String::new(),
        unread: true,
        pre_decoded: None,
    }
}

#[test]
fn inbox_deletes_selected_message() {
    let mut ib = Inbox::new();
    ib.add_message(message("00AA", 3));
    ib.add_message(message("00BB", 4));
    assert!(ib.delete_command_for_selected().is_none());
    ib.selected = Some(1);
    assert_eq!(ib.delete_command_for_selected().as_deref(), Some("AT+CMGD=4"));
    assert!(!ib.confirm_delete("ERROR", true));
    assert_eq!(ib.messages.len(), 2);
    assert!(ib.confirm_delete("\r\nOK\r\n", true));
    assert_eq!(ib.messages.len(), 1);
    assert_eq!(ib.messages[0].pdu, "00AA");
    assert!(ib.selected.is_none());
    assert!(ib.confirm_clear("OK"));
    assert!(ib.messages.is_empty());
}

#[test]
fn marking_read_touches_only_that_row() {
    let mut ib = Inbox::new();
    ib.add_message(message("00AA", 0));
    ib.add_message(message("00BB", 0));
    ib.add_message(message("00CC", 3));
    ib.selected = Some(1);
    ib.mark_read(1);
    assert!(ib.messages[0].unread && !ib.messages[1].unread && ib.messages[2].unread);
    assert_eq!(ib.messages[1].pdu, "00BB");
    assert_eq!(ib.selected, Some(1));
    ib.mark_read(9);
    assert!(ib.messages[0].unread && ib.messages[2].unread);
}

#[test]
fn repeated_pdu_is_not_added_twice() {
    let mut ib = Inbox::new();
    assert!(ib.add_incoming(message("00AA", 0)));
    assert!(!ib.add_incoming(message("00AA", 0)));
    assert!(ib.add_incoming(message("00BB", 0)));
    assert_eq!(ib.messages.len(), 2);
}

#[test]
fn modem_info_takes_responses() {
    let mut info = FullModemInfo::default();
    assert!(info.signal.is_empty() && info.rsrq.is_empty());
    info.apply_signal_response("\r\n+CSQ: 18,99\r\n\r\nOK\r\n");
    assert_eq!(info.signal, "3/5 (18)");
    info.apply_operator_response("+COPS: 0,0,\"51001\",7\r\nOK");
    assert_eq!(info.operator, "Indosat");
    info.apply_network_response("^SYSINFOEX:2,3,0,1,,6,\"LTE\",101,\"LTE\"\r\nOK");
    assert_eq!(info.network, "LTE");
    info.apply_registration_response("\r\n+CREG: 2,1,\"1A2B\",\"0000ABCD\",7\r\n\r\nOK\r\n");
    assert_eq!(info.net_reg, "Registered (Home)");
    assert_eq!(info.tac_lac, "1A2B");
    assert_eq!(info.cell_id, "0000ABCD");
    info.apply_registration_response("+CREG: 0,2\r\nOK");
    assert_eq!(info.net_reg, "Searching...");
    assert_eq!(info.tac_lac, "1A2B");
}

#[test]
fn handshake_walks_its_steps() {
    assert_eq!(handshake_command(HandshakeStep::SimCheck), "AT+CPIN?");
    assert_eq!(handshake_reply(HandshakeStep::Attention, "\r\nOK\r\n"), HandshakeOutcome::Next(HandshakeStep::SimCheck));
    assert_eq!(handshake_reply(HandshakeStep::SimCheck, "+CPIN: READY"), HandshakeOutcome::Next(HandshakeStep::PduMode));
    assert_eq!(handshake_reply(HandshakeStep::PduMode, "OK"), HandshakeOutcome::Connected);
    assert_eq!(handshake_reply(HandshakeStep::SimCheck, "+CME ERROR: 10"), HandshakeOutcome::Failed(HandshakeStep::SimCheck));
    assert_eq!(handshake_failure(HandshakeStep::Attention), "Connection failed: Modem not responding");
}

#[test]
fn connection_state_follows_events() {
    let mut st = ConnectionState::new();
    st.on_mode("Serial");
    assert_eq!(st.status_text, "Serial mode detected (not connected)");
    assert_eq!(st.status_color, StatusColor::LightBlue);
    assert_eq!(st.detected_mode, "Serial");
    st.on_com_ports(vec!["HUAWEI Mobile Connect - PC UI Interface (COM5)".to_string()], "COM5 label", "Project Mode");
    assert_eq!(st.manual_port, "COM5 label");
    assert_eq!(st.displayed_serial_profile, "Project Mode");
    st.on_connected("COM5", "Unknown", "Debug Mode");
    assert!(st.connected);
    assert_eq!(st.status_text, "Connected: COM5");
    assert_eq!(st.serial_profile, "Debug Mode");
    st.on_mode("HiLink");
    assert_eq!(st.detected_mode, "Serial");
    st.on_disconnect();
    assert_eq!(st.status_text, "Disconnected");
    assert_eq!(st.signal, "---");
}

#[test]
fn connection_plans_and_switches() {
    assert_eq!(plan_connection(true, "Debug Mode", "Debug Mode", "x", ""), ConnectPlan::PcUiPort);
    assert_eq!(plan_connection(true, "Unknown", "Debug Mode", "x", ""), ConnectPlan::SwitchThenWait);
    assert_eq!(plan_connection(false, "", "Debug Mode", "Unknown", "COM3"), ConnectPlan::ResetAndSwitch);
    assert_eq!(plan_connection(false, "", "Debug Mode", "Debug Mode", ""), ConnectPlan::NoPort);
    assert_eq!(plan_connection(false, "", "Debug Mode", "Debug Mode", "COM3"), ConnectPlan::ChosenPort);
    assert!(matches!(switch_action(true, Some("COM4"), "", "Serial", ""), SwitchAction::ResetConnected(p) if p == "COM4"));
    assert!(matches!(switch_action(true, None, "", "Serial", ""), SwitchAction::NoPort));
    assert!(matches!(switch_action(false, None, "COM7", "", "Debug Mode"), SwitchAction::ResetSelected(p) if p == "COM7"));
    assert!(matches!(switch_action(false, None, "COM7", "HiLink", "Unknown"), SwitchAction::SwitchOverHttp));
    let (page, kind, body) = switch_request_for("Debug Mode");
    assert_eq!(page, "switchDebugMode.html");
    assert_eq!(kind, "1");
    assert!(body.contains("<switchType>1</switchType>"));
    assert_eq!(switch_request_for("Project Mode").1, "0");
    assert_eq!(modem_address_of("  "), "192.168.8.1");
    assert_eq!(modem_address_of(" 10.0.0.138 "), "10.0.0.138");
    assert_eq!(baud_of("115200"), 115200);
    assert_eq!(baud_of("fast"), 9600);
    assert!(hilink_status_ok(401, false));
    assert!(!hilink_status_ok(302, false));
    assert!(hilink_status_ok(302, true));
    assert!(looks_like_modem_page(true, "<response><DeviceName>E3372</DeviceName>"));
    assert!(!looks_like_modem_page(false, "Huawei"));
    assert!(is_pcui_description("huawei mobile connect - pc ui interface (com5)"));
}

#[test]
fn ports_are_matched_to_profiles() {
    assert!(port_matches_profile("huawei mobile connect - pc ui interface (com5)", "Project Mode"));
    assert!(port_matches_profile("android adapter serial b (com9)", "Debug Mode"));
    assert!(!port_matches_profile("pc ui", "Other"));
    let labels = vec!["USB Serial A (COM3)".to_string(), "HUAWEI PC UI (COM4)".to_string()];
    assert_eq!(serial_profile_label_for_ports(&labels, "Unknown"), "Debug Mode");
    assert_eq!(serial_profile_label_for_ports(&labels[1..], "Unknown"), "Project Mode");
    assert_eq!(serial_profile_label_for_ports(&[], "Unknown"), "Unknown");
    assert_eq!(detect_port_profile("Huawei Application Interface"), "Project Mode");
    assert_eq!(serial_profile_label(false, "Debug Mode"), "Unknown");
    assert_eq!(serial_profile_label(true, "Debug Mode"), "Debug Mode");
}

#[test]
fn ports_are_described_and_chosen() {
    let usb = UsbInfo { manufacturer: Some("HUAWEI".to_string()), product: None, serial_number: Some("123".to_string()) };
    assert_eq!(port_description(None, Some(&usb)), "HUAWEI  123");
    assert_eq!(port_description(Some("PC UI (COM4)"), Some(&usb)), "PC UI (COM4)");
    assert_eq!(port_description(None, None), "Unknown device");
    let ports = vec![
        PortEntry { name: "COM3".to_string(), label: "Modem (COM3)".to_string() },
        PortEntry { name: "COM4".to_string(), label: "HUAWEI PC UI (COM4)".to_string() },
    ];
    assert_eq!(propose_port(&ports, "COM3", ""), "Modem (COM3)");
    assert_eq!(propose_port(&ports, "", "COM3"), "HUAWEI PC UI (COM4)");
    assert_eq!(propose_port(&ports[..1], "", "COM9"), "Modem (COM3)");
    assert_eq!(propose_port(&[], "", ""), "");
    assert_eq!(get_manual_port_device(&ports, "HUAWEI PC UI (COM4)"), "COM4");
    assert_eq!(get_manual_port_device(&ports, "Other port (com12)"), "COM12");
    assert_eq!(get_manual_port_device(&ports, "nothing"), "");
}

#[test]
fn stored_reports_are_found_in_listing() {
    let report = "07912618010000F0062A0D91261832547698F0521091214305805210912153058000";
    let resp = format!("+CMGL: 3,1,,26\r\n{}\r\n+CMGL: 4,1,,30\r\n{}\r\nOK\r\n", DELIVER, report);
    assert_eq!(modat::inbox::status_report_indices(&resp), vec![4]);
    assert_eq!(modat::inbox::delete_command_for(4), "AT+CMGD=4");
}

#[test]
fn switch_page_token_is_read() {
    let page = "<head><meta name=\"csrf_token\" content=\"abc123XYZ\"/></head>";
    assert_eq!(csrf_token_of(page).as_deref(), Some("abc123XYZ"));
    let page2 = "<meta content=\"early\"><meta name=\"csrf_token\" content=\"late\">";
    assert_eq!(csrf_token_of(page2).as_deref(), Some("late"));
    assert_eq!(csrf_token_of("<meta name=\"csrf_token\">"), None);
    assert_eq!(csrf_token_of("<html></html>"), None);
    assert_eq!(csrf_token_of("csrf_token content=\"unterminated"), None);
}

#[test]
fn detected_profile_gives_mode() {
    assert_eq!(mode_for_profile("Project Mode"), "Serial");
    assert_eq!(mode_for_profile("Debug Mode"), "Serial");
    assert_eq!(mode_for_profile("Unknown"), "Unknown");
}

#[test]
fn friendly_names_give_port() {
    assert_eq!(
        friendly_port_of("HUAWEI Mobile Connect - PC UI Interface (COM7)").as_deref(),
        Some("COM7")
    );
    assert_eq!(friendly_port_of("USB Serial (COM12) extra").as_deref(), Some("COM12"));
    assert_eq!(friendly_port_of("Ports (COM & LPT) (COM3)").as_deref(), Some("COM3"));
    assert_eq!(friendly_port_of("Modem (com4)"), None);
    assert_eq!(friendly_port_of("Modem (COM)"), None);
    assert_eq!(friendly_port_of("Modem (COM5"), None);
}

#[test]
fn raw_output_gets_readable_form() {
    assert_eq!(readable_status_of("^RSSI: 17").as_deref(), Some("RSSI level: 17/31"));
    assert_eq!(readable_status_of("^RSSI:5\r\n").as_deref(), Some("RSSI level: 5/31"));
    assert_eq!(readable_status_of("+CREG: 0,1").as_deref(), Some("Network: Registered (Home)"));
    assert_eq!(
        readable_status_of("+CGREG: 2,5,\"1A2B\",\"00C0FFEE\"").as_deref(),
        Some("Network: Roaming  TAC:1A2B  CID:00C0FFEE")
    );
    assert_eq!(readable_status_of("OK\n+CREG: 2\r\n").as_deref(), Some("Network: Searching"));
    assert_eq!(readable_status_of("+CREG: 0,0").as_deref(), Some("Network: Not registered"));
    assert_eq!(readable_status_of("+CREG: 4").as_deref(), Some("Network: 4"));
    assert_eq!(
        readable_status_of("^HFREQINFO: 1,6,3,1300,18150,200,19300,17200,200").as_deref(),
        Some("Frequency info updated (see Network Info tab)")
    );
    assert_eq!(readable_status_of("OK"), None);
}

#[test]
fn signal_reading_is_coloured() {
    assert_eq!(get_signal_color("---"), SignalColor::Gray);
    assert_eq!(get_signal_color("No signal"), SignalColor::Gray);
    assert_eq!(get_signal_color("3/5 (21)"), SignalColor::Green);
    assert_eq!(get_signal_color("2/5 (20)"), SignalColor::Green);
    assert_eq!(get_signal_color("2/5 (12)"), SignalColor::Yellow);
    assert_eq!(get_signal_color("1/5 (11)"), SignalColor::Red);
    assert_eq!(get_signal_color("weird"), SignalColor::Gray);
}

fn stored(phone: &str, timestamp: &str, pdu: &str, unread: bool) -> InboxMessage {
    InboxMessage {
        index: 1,
        status: "REC READ".to_string(),
        pdu: pdu.to_string(),
        phone: phone.to_string(),
        timestamp: timestamp.to_string(),
        unread,
        pre_decoded: None,
    }
}

#[test]
fn inbox_lines_show_sender_and_time() {
    assert_eq!(
        display_line_of(&stored("", "", DELIVER, true)),
        "\u{1F4E9} +62812345678 - 2025-01-19 12:34"
    );
    assert_eq!(display_line_of(&stored("Alice", "short", "", false)), "\u{1F4E8} Alice - short");
    assert_eq!(
        display_line_of(&stored("Bob", "2024-12-31 23:59:59 +7", "", false)),
        "\u{1F4E8} Bob - 2024-12-31 23:59"
    );
    assert_eq!(
        display_line_of(&stored("Eve", "\u{e9}\u{e9}\u{e9}\u{e9}\u{e9}\u{e9}\u{e9}\u{e9}xyz", "", true)),
        "\u{1F4E9} Eve - \u{e9}\u{e9}\u{e9}\u{e9}\u{e9}\u{e9}\u{e9}\u{e9}"
    );
    assert_eq!(
        display_line_of(&stored("Ann", "", DELIVER, false)),
        "\u{1F4E8} Ann - 2025-01-19 12:34"
    );
}

#[test]
fn repeated_adapter_reports_are_logged_once() {
    let mut c = ConnectionState::new();
    assert_eq!(c.rndis_status, "Unknown");
    assert!(c.on_rndis_status("Available"));
    assert!(!c.on_rndis_status("Available"));
    assert!(c.on_rndis_status("Not Available"));
    assert_eq!(c.rndis_status, "Not Available");
}

#[test]
fn pc_ui_port_is_found_by_label() {
    let port = |name: &str, label: &str| PortEntry { name: name.to_string(), label: label.to_string() };
    let ports = vec![
        port("COM3", "COM3 - USB Serial Device"),
        port("COM7", "COM7 - HUAWEI Mobile Connect - PC UI Interface"),
        port("COM9", "COM9 - FC - PC UI"),
    ];
    assert_eq!(pcui_port_of(&ports).as_deref(), Some("COM7"));
    assert_eq!(pcui_port_of(&ports[2..]).as_deref(), Some("COM9"));
    assert_eq!(pcui_port_of(&ports[..1]), None);
    assert_eq!(pcui_port_of(&[]), None);
}

#[test]
fn hardware_changes_are_noticed() {
    let v = |xs: &[&str]| xs.iter().map(|s| s.to_string()).collect::<Vec<String>>();
    assert!(!hardware_changed(&v(&["COM3", "COM7"]), &v(&["COM7", "COM3"]), true, true));
    assert!(hardware_changed(&v(&["COM3"]), &v(&["COM3", "COM7"]), false, false));
    assert!(hardware_changed(&v(&["COM3", "COM7"]), &v(&["COM3"]), false, false));
    assert!(hardware_changed(&v(&["COM3"]), &v(&["COM3"]), false, true));
    assert!(!hardware_changed(&v(&[]), &v(&[]), false, false));
    assert!(!hardware_changed(&v(&["COM3", "COM3"]), &v(&["COM3"]), false, false));
}

#[test]
fn notices_select_their_storage() {
    assert_eq!(
        storage_command_of("+CMTI: \"SM\",3").as_deref(),
        Some("AT+CPMS=\"SM\",\"SM\",\"SM\"\r\n")
    );
    assert_eq!(
        storage_command_of("+CDSI: \"ME\",12").as_deref(),
        Some("AT+CPMS=\"ME\",\"ME\",\"ME\"\r\n")
    );
    assert_eq!(storage_command_of("+CMTI: 3"), None);
}

#[test]
fn modem_is_prepared_in_order() {
    let cmds = modem_init_commands();
    assert_eq!(
        cmds,
        vec![
            "AT+CREG=2",
            "AT+CGREG=2",
            "AT^HCSQ=1",
            "AT^CURC=0",
            "AT+CPMS=\"ME\",\"ME\",\"ME\"",
            "AT+CNMI=2,0,0,2,1"
        ]
    );
    let storage = cmds.iter().position(|c| c.starts_with("AT+CPMS")).unwrap();
    let routing = cmds.iter().position(|c| c.starts_with("AT+CNMI")).unwrap();
    assert!(storage < routing);
}

#[test]
fn signal_detail_reports_are_read() {
    let r = modat::cell::hcsq_reading_of("^HCSQ: \"LTE\",45,62,130,28\r\nOK").unwrap();
    assert_eq!(r.tech, "LTE");
    assert_eq!(r.rssi_dbm, -75);
    assert_eq!(r.rsrp_dbm, -78);
    assert_eq!(r.sinr_field, "130");
    assert_eq!(r.rsrq_field, "28");
    let r = modat::cell::hcsq_reading_of("noise\n^HCSQ:\"WCDMA\", x ,7, 1, 2, 9").unwrap();
    assert_eq!(r.tech, "WCDMA");
    assert_eq!(r.rssi_dbm, -120);
    assert_eq!(r.rsrp_dbm, -133);
    assert!(modat::cell::hcsq_reading_of("^HCSQ: \"NOSERVICE\"").is_none());
    assert!(modat::cell::hcsq_reading_of("^HCSQ: \"\",1,2,3,4").is_none());
    assert!(modat::cell::hcsq_reading_of("+CSQ: 20,99").is_none());
}

#[test]
fn frequency_reports_are_read() {
    let f = modat::cell::hfreqinfo_fields_of("^HFREQINFO: 1,6,3,1300,18150,200,19300,17200,200\r\n").unwrap();
    assert_eq!(f.len(), 9);
    assert_eq!(f[2], "3");
    assert_eq!(f[3], "1300");
    assert_eq!(f[8], "200");
    assert!(modat::cell::hfreqinfo_fields_of("^HFREQINFO: 1,6,,1300,18150,200,19300,17200,200").is_none());
    assert!(modat::cell::hfreqinfo_fields_of("^HFREQINFO: 1,6,3\n,1300,18150,200,19300,17200,200").is_none());
    assert!(modat::cell::hfreqinfo_fields_of("OK").is_none());
}

#[test]
fn router_addresses_are_tried_in_order() {
    assert_eq!(
        router_addresses(),
        vec!["192.168.8.1", "192.168.9.1", "192.168.1.1", "192.168.0.1", "10.0.0.138"]
    );
}

#[test]
fn inbox_is_polled_every_five_seconds_while_connected() {
    assert_eq!(modat::inbox::inbox_poll_due(true, 5000), Some("AT+CMGL=0"));
    assert_eq!(modat::inbox::inbox_poll_due(true, 4999), None);
    assert_eq!(modat::inbox::inbox_poll_due(false, 60000), None);
}
