use at_webserver::config::Config;
use at_webserver::models::ConnectionType;
use at_webserver::uci::{dns_servers, parse_number, parse_uci_line, UciSettings};

const SHOW: &str = "at-webserver.config=config\n\
at-webserver.config.connection_type='SERIAL'\n\
at-webserver.config.serial_port='custom'\n\
at-webserver.config.serial_port_custom='/dev/ttyACM2'\n\
at-webserver.config.network_port='99999'\n\
at-webserver.config.websocket_port='9000'\n\
at-webserver.config.notify_sms='off'\n\
at-webserver.config.notify_call='maybe'\n\
at-webserver.config.schedule_enabled='1'\n\
at-webserver.config.schedule_night_start='23:15'\n\
at-webserver.config.schedule_night_lte_type='1'\n\
at-webserver.config.websocket_auth_key=\"\"\n\
other.section.key='x'\n";

#[test]
fn uci_lines() {
    assert_eq!(
        parse_uci_line("at-webserver.config.network_host= '10.0.0.1' "),
        Some(("network_host".to_string(), "10.0.0.1".to_string()))
    );
    assert_eq!(
        parse_uci_line("at-webserver.config.at-webserver.config.name=\"' x '\""),
        Some(("name".to_string(), "' x '".to_string()))
    );
    assert_eq!(parse_uci_line("at-webserver.config.a=b=c"), Some(("a".to_string(), "b=c".to_string())));
    assert_eq!(parse_uci_line("at-webserver.config"), None);
    assert_eq!(parse_uci_line("network.lan.proto='dhcp'"), None);
}

#[test]
fn numbers_parse_like_std() {
    let n = |s: &str, m: u64| parse_number(&s.chars().collect::<Vec<_>>(), m);
    assert_eq!(n("8765", 65535), Some(8765));
    assert_eq!(n("+42", 255), Some(42));
    assert_eq!(n("256", 255), None);
    assert_eq!(n("", 255), None);
    assert_eq!(n("+", 255), None);
    assert_eq!(n("-1", 255), None);
    assert_eq!(n("18446744073709551615", u64::MAX), Some(u64::MAX));
    assert_eq!(n("18446744073709551616", u64::MAX), None);
}

#[test]
fn config_from_registry_and_environment() {
    let settings = UciSettings::from_output(SHOW);
    let none = UciSettings::from_output("");
    let c = Config::from_uci(&settings, vec![], &none);
    assert_eq!(c.at_config.connection_type, ConnectionType::Serial);
    assert_eq!(c.at_config.serial.port, "/dev/ttyACM2");
    assert_eq!(c.at_config.network.port, 20249);
    assert_eq!(c.websocket_config.ipv4.port, 9000);
    assert_eq!(c.websocket_config.ipv6.port, 9000);
    assert!(!c.notification_config.notify_sms);
    assert!(c.notification_config.notify_call);
    assert!(c.schedule_config.enabled);
    assert_eq!(c.schedule_config.night_start, "23:15");
    assert_eq!(c.schedule_config.night_lte_type, 1);
    assert_eq!(c.websocket_config.auth_key, None);
    assert_eq!(c.advanced_network_config.dns_list, vec!["223.5.5.5", "119.29.29.29"]);

    let env = UciSettings {
        entries: vec![
            ("AT_CONNECTION_TYPE".to_string(), "NETWORK".to_string()),
            ("AT_NETWORK_PORT".to_string(), "2000".to_string()),
            ("AT_LOG_FILE".to_string(), "/tmp/sms.log".to_string()),
        ],
    };
    let c = Config::from_uci(&settings, dns_servers(" 1.1.1.1\n8.8.8.8 \n"), &env);
    assert_eq!(c.at_config.connection_type, ConnectionType::Network);
    assert_eq!(c.at_config.network.port, 2000);
    assert_eq!(c.notification_config.log_file.as_deref(), Some("/tmp/sms.log"));
    assert_eq!(c.advanced_network_config.dns_list, vec!["1.1.1.1", "8.8.8.8"]);
}
