use modat::logbook::{category_label, normalize_log_mode, LogBook, LOG_BYTE_CAP};
use modat::schedule::{
    add_recipient, class_for_flash, listed_at, new_schedule, next_schedule_id, parse_u32_text,
    repeat_in_range, reschedule, schedule_error_message, text_less, Schedule, ScheduleError,
    ScheduleForm, ScheduledSms,
};
use modat::settings::{
    bool_setting, initial_dcs_of, opened_secret, protect_secret, sms_class_of,
    sync_class_from_dcs, sync_dcs_from_class, unprotect_secret, update_char_count,
    AppSettingsFile, FormState, StoredSecret,
};
use modat::terminal::{at_commands, complete_from, suggestions, transcript_for, CommandHistory, Recall};

#[test]
fn log_keeps_bounded_lists() {
    let mut log = LogBook::new(3, 2, 2);
    for i in 0..5 {
        log.log(&format!("raw {}", i), "raw", "00:00:0", None);
    }
    assert_eq!(log.raw.len(), 3);
    assert_eq!(log.raw[0].message, "raw 2");
    log.log("\"+CSQ: 20\"", "raw", "t", Some("RSSI level: 20/31".to_string()));
    assert_eq!(log.info.len(), 1);
    assert_eq!(log.info[0].category, "at");
    log.log("sent", "sms", "t", None);
    log.log("oops", "error", "t", None);
    log.log("third", "sms", "t", None);
    assert_eq!(log.persistent.len(), 2);
    assert_eq!(log.persistent[0].message, "oops");
    for i in 0..10 {
        log.log(&format!("poll {}", i), "system", "t", None);
    }
    assert_eq!(log.persistent.len(), 2);
    assert_eq!(log.info.len(), 2);
}

#[test]
fn each_logged_line_is_the_newest_of_its_list() {
    let mut log = LogBook::new(2, 2, 2);
    for i in 0..5 {
        let t = format!("t{}", i);
        log.log(&format!("AT+X{}", i), "raw", &t, Some(format!("cmd {}", i)));
        assert_eq!(log.raw.last().unwrap().message, format!("AT+X{}", i));
        let at = log.info.last().unwrap();
        assert_eq!((at.category.as_str(), at.message.as_str(), at.timestamp.as_str()), ("at", format!("cmd {}", i).as_str(), t.as_str()));
        log.log(&format!("sms {}", i), "sms", &t, None);
        assert_eq!(log.persistent.last().unwrap().message, format!("sms {}", i));
        log.log(&format!("info {}", i), "info", &t, None);
        assert_eq!(log.info.last().unwrap().message, format!("info {}", i));
        assert!(log.raw.len() <= 2 && log.persistent.len() <= 2 && log.info.len() <= 2);
    }
    assert!(log.cache_dirty);
}

#[test]
fn logged_lines_survive_the_byte_cap_unless_their_list_is_emptied() {
    let mut log = LogBook::with_byte_cap(10, 10, 10, 20);
    log.log("0123456789012345678901234567890", "info", "t", None);
    assert!(log.info.is_empty());
    log.log("ab", "info", "t", None);
    log.log("cd", "info", "t", None);
    assert_eq!(log.info.last().unwrap().message, "cd");
    assert_eq!(log.info[0].message, "ab");
    log.paused = true;
    log.log("ef", "info", "t", None);
    assert_eq!(log.info.len(), 2);
}

#[test]
fn log_view_follows_mode() {
    let mut log = LogBook::new(10, 10, 10);
    log.log("r", "raw", "t", None);
    log.log("s", "system", "t", None);
    log.log("m", "sms", "t", None);
    log.log("e", "error", "t", None);
    log.log("i", "info", "t", None);
    log.rebuild_log_cache("important", false);
    let shown: Vec<&str> = log.cached.iter().map(|e| e.message.as_str()).collect();
    assert_eq!(shown, vec!["m", "e"]);
    assert!(!log.cache_dirty);
    log.rebuild_log_cache("all", false);
    assert_eq!(log.cached.len(), 2);
    log.log("x", "sms", "t", None);
    log.rebuild_log_cache("all", false);
    assert_eq!(log.cached.len(), 6);
    assert_eq!(log.cached[0].message, "r");
    log.rebuild_log_cache("system", false);
    log.paused = true;
    log.log("y", "sms", "t", None);
    assert!(!log.cache_dirty);
    log.clear_log();
    assert!(log.raw.is_empty() && log.persistent.is_empty() && log.info.is_empty());
}

#[test]
fn categories_have_labels() {
    assert_eq!(category_label("error"), "ERR");
    assert_eq!(category_label("at"), " AT");
    assert_eq!(category_label("whatever"), "INF");
    assert_eq!(normalize_log_mode("raw"), "raw");
    assert_eq!(normalize_log_mode("verbose"), "system");
}

#[test]
fn default_settings() {
    let cfg = AppSettingsFile::default();
    assert_eq!(cfg.app.geometry, "850x720");
    assert_eq!(cfg.serial.baud, "9600");
    assert_eq!(cfg.sms.dcs, "0x50 (Class 0 - 7bit) [OK]");
    assert_eq!(cfg.sms.log_mode, "system");
    assert_eq!(cfg.network.modem_ip, "192.168.8.1");
    assert_eq!(cfg.network.switch_mode, "Debug Mode");
}

#[test]
fn form_is_saved_into_settings() {
    let mut cfg = AppSettingsFile::default();
    cfg.take_form(FormState {
        manual_port: "COM5".to_string(),
        manual_baud: "115200".to_string(),
        manual_bypass: true,
        phone_number: "0812".to_string(),
        sms_class_label: "1 (Normal)".to_string(),
        dcs_value: "0x11 (Class 1 - 7bit) [OK]".to_string(),
        delivery_report: false,
        log_mode: "all".to_string(),
        modem_ip: "192.168.9.1".to_string(),
        modem_user: "root".to_string(),
        sealed_password: "pw".to_string(),
        switch_mode: "Project Mode".to_string(),
    });
    assert_eq!(cfg.serial.bypass_autodetect, "true");
    assert_eq!(cfg.sms.delivery_report, "false");
    assert_eq!(cfg.app.geometry, "850x720");
    assert!(bool_setting(&cfg.serial.bypass_autodetect, false));
    assert!(bool_setting("maybe", true));
}

#[test]
fn class_and_scheme_follow_each_other() {
    assert_eq!(sms_class_of("2 (SIM)"), 2);
    assert_eq!(sms_class_of(""), 0);
    assert_eq!(sync_dcs_from_class(3), "0x13 (Class 3 - 7bit) [OK]");
    assert_eq!(sync_dcs_from_class(9), "0x50 (Class 0 - 7bit) [OK]");
    assert_eq!(sync_class_from_dcs("0xF2 (Class 2 - 7bit alt)", 0), 2);
    assert_eq!(sync_class_from_dcs("  0x01 (GSM 7-bit default)", 3), 1);
    assert_eq!(sync_class_from_dcs("weird", 3), 3);
    assert_eq!(initial_dcs_of("", 1), ("0x50 (Class 0 - 7bit) [OK]".to_string(), 1));
    assert_eq!(initial_dcs_of("0x12 (Class 2 - 7bit) [OK]", 0), ("0x12 (Class 2 - 7bit) [OK]".to_string(), 2));
}

#[test]
fn char_counter_counts_segments() {
    assert_eq!(update_char_count(""), "0 / 160 (1 seg)");
    assert_eq!(update_char_count("Hello"), "5 / 155 (1 seg)");
    assert_eq!(update_char_count(&"a".repeat(160)), "160 / 0 (1 seg)");
    assert_eq!(update_char_count(&"a".repeat(161)), "161 / 159 (2 seg)");
}

#[test]
fn password_envelope() {
    assert_eq!(protect_secret("pw", Some(&[1, 2])), "dpapi:AQI=");
    assert_eq!(protect_secret("pw", None), "pw");
    assert_eq!(protect_secret("", Some(&[1])), "");
    assert_eq!(protect_secret("dpapi:xyz", Some(&[1])), "dpapi:xyz");
    match unprotect_secret("dpapi:AQI=") {
        StoredSecret::Sealed(b) => assert_eq!(b, vec![1, 2]),
        _ => panic!("expected sealed bytes"),
    }
    assert!(matches!(unprotect_secret("plain"), StoredSecret::Plain(p) if p == "plain"));
    assert!(matches!(unprotect_secret("dpapi:!!!"), StoredSecret::Unreadable));
    assert_eq!(opened_secret(Some(b"abc")), "abc");
    assert_eq!(opened_secret(Some(&[0x61, 0xFF, 0x62])), "a\u{FFFD}b");
    assert_eq!(opened_secret(None), "");
}

#[test]
fn sealed_bytes_are_stored_as_standard_base64() {
    assert_eq!(protect_secret("pw", Some(b"Man")), "dpapi:TWFu");
    assert_eq!(protect_secret("pw", Some(b"Ma")), "dpapi:TWE=");
    assert_eq!(protect_secret("pw", Some(b"M")), "dpapi:TQ==");
    assert_eq!(protect_secret("pw", Some(&[0xFB, 0xFF, 0xBF])), "dpapi:+/+/");
    assert_eq!(protect_secret("pw", Some(b"hello world~")), "dpapi:aGVsbG8gd29ybGR+");
    assert_eq!(protect_secret("pw", Some(&[])), "dpapi:");
}

#[test]
fn stored_passwords_read_back_as_what_went_in() {
    let sealed: Vec<u8> = (0u8..=255).collect();
    for n in [0usize, 1, 2, 3, 4, 5, 100, 256] {
        let stored = protect_secret("secret", Some(&sealed[..n]));
        match unprotect_secret(&stored) {
            StoredSecret::Sealed(b) => assert_eq!(b, sealed[..n].to_vec()),
            _ => panic!("expected sealed bytes"),
        }
    }
    let stored = protect_secret("plain pw", None);
    assert!(matches!(unprotect_secret(&stored), StoredSecret::Plain(p) if p == "plain pw"));
}

fn form(recipients: &[&str], message: &str, repeat: &str, unit: u8, end: &str) -> ScheduleForm {
    ScheduleForm {
        recipients: recipients.iter().map(|s| s.to_string()).collect(),
        message: message.to_string(),
        date: "2025-01-19".to_string(),
        time: " 08:30 ".to_string(),
        repeat_input: repeat.to_string(),
        repeat_unit: unit,
        end_time: end.to_string(),
        flash_sms: false,
    }
}

#[test]
fn schedule_form_is_checked() {
    assert_eq!(new_schedule(1, form(&[], "hi", "0", 0, "")).unwrap_err(), ScheduleError::NoRecipient);
    assert_eq!(new_schedule(1, form(&["0812"], "  ", "0", 0, "")).unwrap_err(), ScheduleError::NoMessage);
    let mut f = form(&["0812"], "hi", "0", 0, "");
    f.date.clear();
    assert_eq!(new_schedule(1, f).unwrap_err(), ScheduleError::NoDateTime);
    assert_eq!(schedule_error_message(ScheduleError::NoMessage), "Enter a message");
    let e = new_schedule(7, form(&["0812"], " hi ", " 2 ", 1, " 2025-01-20 00:00 ")).unwrap();
    assert_eq!(e.id, 7);
    assert_eq!(e.message, "hi");
    assert_eq!(e.scheduled_time, "2025-01-19 08:30");
    assert_eq!(e.repeat_minutes, Some(120));
    assert_eq!(e.end_time.as_deref(), Some("2025-01-20 00:00"));
    let once = new_schedule(8, form(&["0812"], "hi", "x", 2, "2025")).unwrap();
    assert_eq!(once.repeat_minutes, None);
    assert_eq!(once.end_time, None);
    assert!(repeat_in_range("3", 2));
    assert!(!repeat_in_range("4294967295", 1));
    assert_eq!(parse_u32_text("+12"), Some(12));
    assert_eq!(parse_u32_text("-1"), None);
}

#[test]
fn schedule_list_and_sending() {
    let mut s = Schedule::new();
    assert_eq!(s.add(form(&["0812"], "a", "0", 0, "")), Ok(1));
    assert_eq!(s.add(form(&["0813"], "b", "30", 0, "2025-01-19 09:00")), Ok(2));
    assert_eq!(s.add(form(&[], "c", "0", 0, "")), Err(ScheduleError::NoRecipient));
    assert_eq!(s.next_id, 3);
    assert_eq!(s.due_at("2025-01-19 08:29"), Vec::<u64>::new());
    assert_eq!(s.due_at("2025-01-19 08:30"), vec![1, 2]);
    s.mark_sent(1, "");
    assert!(s.entries[0].sent);
    s.mark_sent(2, "2025-01-19 09:00");
    assert!(!s.entries[1].sent);
    assert_eq!(s.entries[1].scheduled_time, "2025-01-19 09:00");
    s.mark_sent(2, "2025-01-19 09:30");
    assert!(s.entries[1].sent);
    assert!(listed_at(&s.entries[0], "2030-01-01 00:00"));
    s.delete(1);
    assert_eq!(s.entries.len(), 1);
    assert_eq!(s.entries[0].id, 2);
    assert_eq!(class_for_flash(true), "0");
}

#[test]
fn loaded_list_gets_fresh_ids() {
    let mk = |id: u64| ScheduledSms {
        id,
        recipients: vec![],
        message: String::new(),
        scheduled_time: String::new(),
        sent: false,
        repeat_minutes: None,
        end_time: None,
        flash_sms: false,
    };
    assert_eq!(next_schedule_id(&vec![]), 1);
    assert_eq!(next_schedule_id(&vec![mk(4), mk(9), mk(2)]), 10);
    let s = Schedule::from_entries(vec![mk(5)]);
    assert_eq!(s.next_id, 6);
    let mut e = mk(1);
    e.repeat_minutes = Some(5);
    reschedule(&mut e, "2025-01-01 00:05");
    assert_eq!(e.scheduled_time, "2025-01-01 00:05");
    assert!(!e.sent);
}

#[test]
fn recipients_are_not_listed_twice() {
    let mut list: Vec<String> = Vec::new();
    add_recipient(&mut list, " 0812 ");
    add_recipient(&mut list, "0812");
    add_recipient(&mut list, "   ");
    add_recipient(&mut list, "0813");
    assert_eq!(list, vec!["0812".to_string(), "0813".to_string()]);
}

#[test]
fn times_compare_as_text() {
    assert!(text_less("2025-01-19 08:30", "2025-01-19 09:00"));
    assert!(!text_less("2025-01-19 09:00", "2025-01-19 09:00"));
    assert!(text_less("2025", "2025-01"));
}

#[test]
fn at_table_and_completion() {
    let table = at_commands();
    assert_eq!(table.len(), 147);
    assert!(table.iter().all(|(c, _)| c.starts_with("AT")));
    assert_eq!(complete_from(&table, "at+cs"), Some("AT+CSQ"));
    assert_eq!(complete_from(&table, "xyz"), None);
    assert!(suggestions(&table, "a").is_empty());
    let s = suggestions(&table, "AT^HCSQ");
    assert_eq!(s.len(), 2);
    assert_eq!(s[0].0, "AT^HCSQ?");
    assert_eq!(suggestions(&table, "AT+C").len(), 8);
}

#[test]
fn history_is_walked_with_arrows() {
    let mut h = CommandHistory::new();
    for i in 0..101 {
        h.push(&format!("AT{}", i));
    }
    assert_eq!(h.entries.len(), 100);
    assert_eq!(h.entries[0], "AT1");
    assert!(matches!(h.up(), Recall::Show(c) if c == "AT100"));
    assert!(matches!(h.up(), Recall::Show(c) if c == "AT99"));
    assert!(matches!(h.down(), Recall::Show(c) if c == "AT100"));
    assert!(matches!(h.down(), Recall::Clear));
    let mut empty = CommandHistory::new();
    assert!(matches!(empty.up(), Recall::Keep));
}

#[test]
fn transcript_lines() {
    assert_eq!(transcript_for("12:00:00", "AT", Some("OK")), "\n[12:00:00] >>> AT\nOK\n");
    assert_eq!(transcript_for("t", "AT", Some("")), "\n[t] >>> AT\n  (no response)\n");
    assert_eq!(transcript_for("t", "AT", None), "\n[t] >>> AT\n  [NOT CONNECTED - cannot send AT command]\n");
}

#[test]
fn raw_noise_goes_first_and_can_be_hidden() {
    let mut log = LogBook::new(3, 10, 10);
    log.log("\"AT+CMGS=19\\r\"", "raw", "t", None);
    log.log("\"+CSQ: 20,99\\r\\n\"", "raw", "t", None);
    log.log("\"+CMTI: \\\"SM\\\",3\\r\\n\"", "raw", "t", None);
    log.log("\"0791...\"", "raw", "t", None);
    let kept: Vec<&str> = log.raw.iter().map(|e| e.message.as_str()).collect();
    assert_eq!(kept, vec!["\"AT+CMGS=19\\r\"", "\"+CMTI: \\\"SM\\\",3\\r\\n\"", "\"0791...\""]);
    log.log("Signal: 3/5", "system", "t", None);
    log.log("Sent to 0812", "system", "t", None);
    log.log("OK", "system", "t", None);
    log.rebuild_log_cache("system", true);
    let shown: Vec<&str> = log.cached.iter().map(|e| e.message.as_str()).collect();
    assert_eq!(shown, vec!["Sent to 0812"]);
    assert!(modat::logbook::status_noise("\"\\r\\nOK\\r\\n\""));
    assert!(!modat::logbook::status_noise("Sent"));
}

#[test]
fn log_text_stays_within_byte_cap() {
    assert_eq!(LOG_BYTE_CAP, 50_000_000);
    assert_eq!(LogBook::new(1, 1, 1).max_bytes, LOG_BYTE_CAP);
    let mut log = LogBook::with_byte_cap(10, 10, 10, 30);
    log.log("aaaaaaaaaa", "raw", "t", None);
    log.log("bbbbbbbbbb", "raw", "t", None);
    assert_eq!(log.used_bytes, 28);
    log.log("cc", "sms", "t", None);
    assert_eq!(log.raw.len(), 1);
    assert_eq!(log.raw[0].message, "bbbbbbbbbb");
    assert_eq!(log.persistent.len(), 1);
    assert_eq!(log.used_bytes, 20);
    log.log("dddddddddddddddddddd", "system", "t", None);
    assert!(log.raw.is_empty());
    assert!(log.info.is_empty());
    assert_eq!(log.persistent.len(), 1);
    assert_eq!(log.persistent[0].message, "cc");
    assert_eq!(log.used_bytes, 6);
    log.log(&"e".repeat(40), "error", "t", None);
    assert!(log.persistent.is_empty());
    assert_eq!(log.used_bytes, 0);
    log.log("\u{e9}", "info", "t", None);
    assert_eq!(log.used_bytes, 1 + 4 + 2);
}

#[test]
fn at_view_shows_readable_and_raw_traffic() {
    let mut log = LogBook::new(10, 10, 10);
    log.log("\"AT+CSQ\\r\"", "raw", "t", None);
    log.log("\"^RSSI: 17\\r\\n\"", "raw", "t", Some("RSSI level: 17/31".to_string()));
    log.log("s", "system", "t", None);
    log.log("m", "sms", "t", None);
    log.rebuild_log_cache("at", false);
    let shown: Vec<&str> = log.cached.iter().map(|e| e.message.as_str()).collect();
    assert_eq!(shown, vec!["\"AT+CSQ\\r\"", "\"^RSSI: 17\\r\\n\"", "RSSI level: 17/31"]);
    log.rebuild_log_cache("raw", false);
    assert_eq!(log.cached.len(), 3);
    log.log("n", "system", "t", None);
    log.rebuild_log_cache("raw", false);
    let shown: Vec<&str> = log.cached.iter().map(|e| e.message.as_str()).collect();
    assert_eq!(shown, vec!["\"AT+CSQ\\r\"", "\"^RSSI: 17\\r\\n\""]);
}

#[test]
fn sent_entries_move_by_their_interval_from_now() {
    let mk = |id: u64, repeat: Option<u32>, end: Option<&str>| ScheduledSms {
        id,
        recipients: vec!["+62812".to_string()],
        message: "m".to_string(),
        scheduled_time: "2025-01-01 23:00".to_string(),
        sent: false,
        repeat_minutes: repeat,
        end_time: end.map(|e| e.to_string()),
        flash_sms: false,
    };
    let mut s = Schedule::from_entries(vec![
        mk(1, Some(15), None),
        mk(2, None, None),
        mk(3, Some(60), Some("2025-01-02 00:30")),
        mk(4, Some(1440), None),
    ]);
    s.complete_send(1, "2025-01-01 23:50");
    assert_eq!(s.entries[0].scheduled_time, "2025-01-02 00:05");
    assert!(!s.entries[0].sent);
    s.complete_send(2, "2025-01-01 23:50");
    assert!(s.entries[1].sent);
    assert_eq!(s.entries[1].scheduled_time, "2025-01-01 23:00");
    s.complete_send(3, "2025-01-01 23:50");
    assert!(s.entries[2].sent);
    s.complete_send(4, "2024-02-28 10:00");
    assert_eq!(s.entries[3].scheduled_time, "2024-02-29 10:00");
    s.complete_send(4, "not a time");
    assert!(s.entries[3].sent);
    s.complete_send(9, "2025-01-01 23:50");
    assert_eq!(s.entries.len(), 4);
}
