use at_webserver::config::Config;
use at_webserver::dispatch::{call_notice, delete_command, memory_full_notice, read_command};
use at_webserver::handlers::{
    clip_number, cmti_index, find_pdu, parse_monsc, pdcp_fields, should_notify, signal_alert,
    NotificationManager, NotificationType, Rat, DEFAULT_RSRP_HIGH, DEFAULT_RSRP_LOW,
};
use at_webserver::urc::{
    handler_kinds, is_urc_str, CallHandler, MemoryFullHandler, NetworkSignalHandler, NewSMSHandler,
    PDCPDataHandler, UrcKind,
};

fn chars(s: &str) -> Vec<char> {
    s.chars().collect()
}

#[test]
fn classifier_recognises_each_urc() {
    assert!(CallHandler.can_handle("RING"));
    assert!(CallHandler.can_handle("+CLIP: \"123\",129"));
    assert!(MemoryFullHandler.can_handle("+CIEV:\"MESSAGE\",0"));
    assert!(MemoryFullHandler.can_handle("+CMS ERROR: 322"));
    assert!(NewSMSHandler.can_handle("+CMTI: \"SM\",3"));
    assert!(PDCPDataHandler.can_handle("^PDCPDATAINFO: 1,2"));
    assert!(!PDCPDataHandler.can_handle(" x^PDCPDATAINFO:"));
    assert!(NetworkSignalHandler.can_handle("^CERSSI: 1"));
    assert!(NetworkSignalHandler.can_handle("^HCSQ: \"LTE\""));
    assert!(!is_urc_str("OK"));
    assert!(!is_urc_str("+CSQ: 20,99"));
    assert_eq!(handler_kinds(&chars("RING +CMTI: x")), vec![UrcKind::Call, UrcKind::NewSms]);
}

#[test]
fn cmti_index_is_read() {
    assert_eq!(cmti_index("+CMTI: \"SM\",3").as_deref(), Some("3"));
    assert_eq!(cmti_index("+CMTI: \"ME\", 12").as_deref(), Some("12"));
    assert_eq!(cmti_index("+CMTI: \"SM\",x"), None);
    assert_eq!(cmti_index("+CMTI: SM,3"), None);
    assert_eq!(read_command("12"), "AT+CMGR=12");
    assert_eq!(delete_command("12"), "AT+CMGD=12");
}

#[test]
fn clip_number_is_read() {
    assert_eq!(clip_number("+CLIP: \"+8613800000000\",145").as_deref(), Some("+8613800000000"));
    assert_eq!(clip_number("+CLIP: \"\",128"), None);
    let n = call_notice("+CLIP: \"555\",129").unwrap();
    assert_eq!((n.sender.as_str(), n.content.as_str()), ("555", "Incoming Call"));
    let n = call_notice("RING").unwrap();
    assert_eq!((n.sender.as_str(), n.content.as_str()), ("System", "Incoming Call (Ring)"));
    assert!(call_notice("+CLIP: 555").is_none());
    assert_eq!(memory_full_notice().kind, NotificationType::MemoryFull);
}

#[test]
fn pdu_line_is_found_from_the_end() {
    assert_eq!(find_pdu("+CMGR: 0,,22\r\n0011AABBCCDDEEFF\r\nOK").as_deref(), Some("0011AABBCCDDEEFF"));
    assert_eq!(find_pdu("0011AABBCCDD\n0022AABBCCDD\nOK").as_deref(), Some("0022AABBCCDD"));
    assert_eq!(find_pdu("ABCDEF\nOK"), None);
    assert_eq!(find_pdu("0011AABBCCDDXX"), None);
}

#[test]
fn monsc_records() {
    let r = parse_monsc("^MONSC: NR,51,633984,321,114,-85,-11,15,20,30\r\nOK").unwrap();
    assert_eq!(r.rat, Rat::Nr);
    assert_eq!((r.arfcn.as_str(), r.pci.as_str()), ("633984", "321"));
    assert_eq!((r.rsrp, r.rsrq, r.quality), (-85, -11, 15));
    let r = parse_monsc("^MONSC: LTE,1,1300,210,123,-90,-10,20").unwrap();
    assert_eq!(r.rat, Rat::Lte);
    assert_eq!(r.rsrp, -90);
    assert!(parse_monsc("^MONSC: NONE").is_none());
    let big = parse_monsc("^MONSC: NR,1,2,3,4,-99999999999,0,0").unwrap();
    assert_eq!(big.rsrp, 0);
}

#[test]
fn signal_alerts_only_at_extremes() {
    assert_eq!(signal_alert("^MONSC: NR,51,633984,321,114,-85,-11,15", DEFAULT_RSRP_LOW, DEFAULT_RSRP_HIGH), None);
    assert_eq!(
        signal_alert("^MONSC: NR,51,633984,321,114,-115,-11,15", DEFAULT_RSRP_LOW, DEFAULT_RSRP_HIGH).as_deref(),
        Some("\u{1f4f6} 5G Signal Info\nRAT: NR\nARFCN: 633984\nPCI: 321\nRSRP: -115 dBm\nRSRQ: -11 dB\nSINR: 15 dB")
    );
    assert_eq!(
        signal_alert("^MONSC: LTE,1,1300,210,123,-55,-8,-60", DEFAULT_RSRP_LOW, DEFAULT_RSRP_HIGH).as_deref(),
        Some("\u{1f4f6} 4G Signal Info\nRAT: LTE\nARFCN: 1300\nPCI: 210\nRSRP: -55 dBm\nRSRQ: -8 dB\nRSSI: -60 dBm")
    );
    assert!(signal_alert("^MONSC: NR,51,633984,321,114,-85,-11,15", -80, -70).is_some());
    assert!(MemoryFullHandler.can_handle("x +CMS ERROR: 322"));
}

#[test]
fn pdcp_fields_are_split() {
    let f = pdcp_fields("^PDCPDATAINFO: 1,1,100,20,5,30,10,5,100,50,1024,2048,0,0").unwrap();
    assert_eq!(f.len(), 14);
    assert_eq!(f[0], "1");
    assert_eq!(f[13], "0");
    assert!(pdcp_fields("^PDCPDATAINFO: 1,2,3").is_none());
    assert!(pdcp_fields("RING").is_none());
}

#[test]
fn notification_filter() {
    let mut c = Config::default().notification_config;
    c.notify_signal = false;
    assert!(should_notify(&c, NotificationType::SMS));
    assert!(!should_notify(&c, NotificationType::Signal));
    let m = NotificationManager::new(c);
    assert!(m.message_for("a", "b", NotificationType::Signal).is_none());
    let msg = m.message_for("a", "b", NotificationType::Call).unwrap();
    assert_eq!((msg.sender.as_str(), msg.content.as_str()), ("a", "b"));
}

#[test]
fn default_config_values() {
    let c = Config::default();
    assert_eq!(c.at_config.network.host, "192.168.8.1");
    assert_eq!(c.at_config.network.port, 20249);
    assert_eq!(c.schedule_config.night_start, "22:00");
    assert_eq!(c.advanced_network_config.dns_list, vec!["223.5.5.5", "119.29.29.29"]);
}
