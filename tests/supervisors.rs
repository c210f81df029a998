use at_webserver::dial::{
    detect_modem_ifname, dial_commands, has_valid_ip, is_candidate_iface, is_modem_vendor, pdp_type_for,
    setup_commands, DialAction, DialState,
};
use at_webserver::gateway::{
    auth_accepts, client_request, connect_response, gateway_reply, sanitize_command, strip_echo, ClientRequest,
};
use at_webserver::models::ATResponse;

#[test]
fn addresses_in_cgpaddr_answers() {
    assert!(has_valid_ip("+CGPADDR: 1,\"10.0.0.5\"\r\nOK"));
    assert!(has_valid_ip("+CGPADDR: 1,\"0.0.0.0\",\"2409:8a00::1\""));
    assert!(!has_valid_ip("+CGPADDR: 1,\"0.0.0.0\"\r\nOK"));
    assert!(!has_valid_ip("+CGPADDR: 1,\"::\""));
    assert!(!has_valid_ip("+CGPADDR: 1"));
    assert!(!has_valid_ip("+CGPADDR: 1,\"1234567890.123456\""));
    assert!(!has_valid_ip("OK"));
    assert!(has_valid_ip("junk\n  +CGPADDR: 0,\"192.168.1.1\"  \nOK"));
}

#[test]
fn dial_edges() {
    let mut d = DialState::new();
    assert_eq!(d.on_ip_check(false), DialAction::Dial);
    assert_eq!(d.on_ip_check(true), DialAction::Setup);
    assert!(d.is_connected);
    assert_eq!(d.on_ip_check(true), DialAction::Nothing);
    assert_eq!(d.on_ip_check(false), DialAction::Dial);
    assert!(!d.is_connected);
    assert_eq!(d.on_ip_check(true), DialAction::Setup);
}

#[test]
fn dial_and_setup_commands() {
    assert_eq!(setup_commands(), vec!["AT+CNMI=2,1,0,2,0", "AT+CMGF=0", "AT+CLIP=1"]);
    assert_eq!(
        dial_commands("ipv4v6"),
        vec!["AT+CGDCONT=1,\"IPV4V6\",\"auto\"", "AT+QNETDEVCTL=1,1,1", "AT+CGACT=1,1", "AT+CGACT=1,0"]
    );
    assert_eq!(pdp_type_for("ipv6"), "IPV6");
    assert_eq!(pdp_type_for("ip"), "IP");
    assert_eq!(pdp_type_for("whatever"), "IP");
}

#[test]
fn interface_choice() {
    assert_eq!(detect_modem_ifname("wwan0", Some("usb1".to_string())), "wwan0");
    assert_eq!(detect_modem_ifname("auto", Some("usb1".to_string())), "usb1");
    assert_eq!(detect_modem_ifname("", None), "usb0");
    assert!(!is_candidate_iface("lo"));
    assert!(!is_candidate_iface("br-lan"));
    assert!(!is_candidate_iface("wlan0"));
    assert!(!is_candidate_iface("ra0"));
    assert!(is_candidate_iface("eth1"));
    assert!(is_modem_vendor("2C7C\n"));
    assert!(is_modem_vendor(" 12d1 "));
    assert!(!is_modem_vendor("8086"));
    assert!(!is_modem_vendor(""));
}

#[test]
fn client_messages() {
    assert!(matches!(client_request("ping", None), ClientRequest::Pong));
    assert!(matches!(client_request("{}", Some(" AT+CONNECT? ".to_string())), ClientRequest::ConnectQuery));
    assert!(matches!(client_request("GET_SYS_LOGS", None), ClientRequest::GetLogs));
    assert!(matches!(client_request("CLEAR_SYS_LOGS", None), ClientRequest::ClearLogs));
    match client_request("x", Some("AT+CSQ".to_string())) {
        ClientRequest::Submit(c) => assert_eq!(c, "AT+CSQ"),
        _ => panic!("expected a command"),
    }
    let r = connect_response();
    assert!(r.success);
    assert_eq!(r.data.as_deref(), Some("+CONNECT: 0\r\nOK"));
}

#[test]
fn syscfgex_is_sanitised() {
    assert_eq!(
        sanitize_command("AT^SYSCFGEX=\"00\",3FFFFFFF,1,2,\"7FFFFFFFFFFFFFFF\",\"\",\"\"\r\nOK"),
        "AT^SYSCFGEX=\"00\",3FFFFFFF,1,2,\"7FFFFFFFFFFFFFFF\",\"\",\"\"\r"
    );
    assert_eq!(sanitize_command("AT^SYSCFGEX=\"03\",3FFFFFFF,1,2\n"), "AT^SYSCFGEX=\"03\",3FFFFFFF,1,2\r");
    assert_eq!(sanitize_command("AT+COPS?"), "AT+COPS?");
}

#[test]
fn echo_and_blank_lines_are_stripped() {
    assert_eq!(strip_echo("AT+CSQ\r\n\r\n+CSQ: 20,99\r\nOK", "AT+CSQ"), "+CSQ: 20,99\r\nOK");
    assert_eq!(strip_echo("", "AT"), "");
    let r = gateway_reply(&ATResponse::error("ERROR".to_string()), "AT");
    assert_eq!(r.data, None);
    assert_eq!(r.error.as_deref(), Some("ERROR"));
}

#[test]
fn auth_keys() {
    assert!(auth_accepts("k", Some("k".to_string())));
    assert!(!auth_accepts("k", Some("K".to_string())));
    assert!(!auth_accepts("k", None));
}
