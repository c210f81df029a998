//! The daemon's configuration, as plain values.
use vstd::prelude::*;
use crate::models::ConnectionType;
use crate::text::text;

verus! {

#[derive(Debug, Clone)]
pub struct Config {
    pub at_config: AtConfig,
    pub notification_config: NotificationConfig,
    pub websocket_config: WebSocketConfig,
    pub schedule_config: ScheduleConfig,
    pub advanced_network_config: AdvancedNetworkConfig,
}

#[derive(Debug, Clone)]
pub struct AtConfig {
    pub connection_type: ConnectionType,
    pub network: NetworkConfig,
    pub serial: SerialConfig,
}

#[derive(Debug, Clone)]
pub struct NetworkConfig {
    pub host: String,
    pub port: u16,
    pub timeout: u64,
}

#[derive(Debug, Clone)]
pub struct SerialConfig {
    pub port: String,
    pub baudrate: u32,
    pub timeout: u64,
}

#[derive(Debug, Clone)]
pub struct NotificationConfig {
    pub wechat_webhook: Option<String>,
    pub log_file: Option<String>,
    pub notify_sms: bool,
    pub notify_call: bool,
    pub notify_memory_full: bool,
    pub notify_signal: bool,
}

#[derive(Debug, Clone)]
pub struct WebSocketConfig {
    pub ipv4: IpConfig,
    pub ipv6: IpConfig,
    pub auth_key: Option<String>,
}

#[derive(Debug, Clone)]
pub struct IpConfig {
    pub host: String,
    pub port: u16,
}

/// The day/night lock schedule. Lists (bands, ARFCNs, SCS types, PCIs) are
/// comma-separated text.
#[derive(Debug, Clone)]
pub struct ScheduleConfig {
    pub enabled: bool,
    pub check_interval: u64,
    pub timeout: u64,
    pub unlock_lte: bool,
    pub unlock_nr: bool,
    pub toggle_airplane: bool,
    pub night_enabled: bool,
    pub night_start: String,
    pub night_end: String,
    pub night_lte_type: u8,
    pub night_lte_bands: String,
    pub night_lte_arfcns: String,
    pub night_lte_pcis: String,
    pub night_nr_type: u8,
    pub night_nr_bands: String,
    pub night_nr_arfcns: String,
    pub night_nr_scs_types: String,
    pub night_nr_pcis: String,
    pub day_enabled: bool,
    pub day_lte_type: u8,
    pub day_lte_bands: String,
    pub day_lte_arfcns: String,
    pub day_lte_pcis: String,
    pub day_nr_type: u8,
    pub day_nr_bands: String,
    pub day_nr_arfcns: String,
    pub day_nr_scs_types: String,
    pub day_nr_pcis: String,
}

#[derive(Debug, Clone)]
pub struct AdvancedNetworkConfig {
    pub pdp_type: String,
    pub ra_master: bool,
    pub extend_prefix: bool,
    pub do_not_add_dns: bool,
    pub dns_list: Vec<String>,
    pub ifname: String,
}

impl Default for Config {
    /// Network transport to 192.168.8.1:20249, serial on /dev/ttyUSB0 at
    /// 115200, every notification on, WebSocket on port 8765 without a key,
    /// the schedule off (night 22:00-06:00, band locks, airplane toggling),
    /// PDP type ipv4v6 with two public DNS servers.
    fn default() -> (r: Config)
        ensures
            r.at_config.connection_type == ConnectionType::Network,
            r.at_config.network.host@ == "192.168.8.1"@,
            r.at_config.network.port == 20249,
            r.at_config.network.timeout == 10,
            r.at_config.serial.port@ == "/dev/ttyUSB0"@,
            r.at_config.serial.baudrate == 115200,
            r.at_config.serial.timeout == 10,
            r.notification_config.wechat_webhook is None,
            r.notification_config.log_file is None,
            r.notification_config.notify_sms && r.notification_config.notify_call,
            r.notification_config.notify_memory_full && r.notification_config.notify_signal,
            r.websocket_config.ipv4.host@ == "0.0.0.0"@ && r.websocket_config.ipv4.port == 8765,
            r.websocket_config.ipv6.host@ == "::"@ && r.websocket_config.ipv6.port == 8765,
            r.websocket_config.auth_key is None,
            !r.schedule_config.enabled,
            r.schedule_config.check_interval == 60,
            r.schedule_config.timeout == 180,
            r.schedule_config.unlock_lte && r.schedule_config.unlock_nr && r.schedule_config.toggle_airplane,
            r.schedule_config.night_enabled && r.schedule_config.day_enabled,
            r.schedule_config.night_start@ == "22:00"@,
            r.schedule_config.night_end@ == "06:00"@,
            r.schedule_config.night_lte_type == 3 && r.schedule_config.night_nr_type == 3,
            r.schedule_config.day_lte_type == 3 && r.schedule_config.day_nr_type == 3,
            r.schedule_config.night_lte_bands@.len() == 0 && r.schedule_config.night_nr_bands@.len() == 0,
            r.schedule_config.day_lte_bands@.len() == 0 && r.schedule_config.day_nr_bands@.len() == 0,
            r.advanced_network_config.pdp_type@ == "ipv4v6"@,
            !r.advanced_network_config.ra_master,
            r.advanced_network_config.extend_prefix,
            !r.advanced_network_config.do_not_add_dns,
            r.advanced_network_config.dns_list@.len() == 2,
            r.advanced_network_config.dns_list@[0]@ == "223.5.5.5"@,
            r.advanced_network_config.dns_list@[1]@ == "119.29.29.29"@,
            r.advanced_network_config.ifname@ == "auto"@,
    {
        let mut dns: Vec<String> = Vec::new();
        dns.push(text("223.5.5.5"));
        dns.push(text("119.29.29.29"));
        Config {
            at_config: AtConfig {
                connection_type: ConnectionType::Network,
                network: NetworkConfig { host: text("192.168.8.1"), port: 20249, timeout: 10 },
                serial: SerialConfig { port: text("/dev/ttyUSB0"), baudrate: 115200, timeout: 10 },
            },
            notification_config: NotificationConfig {
                wechat_webhook: None,
                log_file: None,
                notify_sms: true,
                notify_call: true,
                notify_memory_full: true,
                notify_signal: true,
            },
            websocket_config: WebSocketConfig {
                ipv4: IpConfig { host: text("0.0.0.0"), port: 8765 },
                ipv6: IpConfig { host: text("::"), port: 8765 },
                auth_key: None,
            },
            schedule_config: ScheduleConfig {
                enabled: false,
                check_interval: 60,
                timeout: 180,
                unlock_lte: true,
                unlock_nr: true,
                toggle_airplane: true,
                night_enabled: true,
                night_start: text("22:00"),
                night_end: text("06:00"),
                night_lte_type: 3,
                night_lte_bands: String::new(),
                night_lte_arfcns: String::new(),
                night_lte_pcis: String::new(),
                night_nr_type: 3,
                night_nr_bands: String::new(),
                night_nr_arfcns: String::new(),
                night_nr_scs_types: String::new(),
                night_nr_pcis: String::new(),
                day_enabled: true,
                day_lte_type: 3,
                day_lte_bands: String::new(),
                day_lte_arfcns: String::new(),
                day_lte_pcis: String::new(),
                day_nr_type: 3,
                day_nr_bands: String::new(),
                day_nr_arfcns: String::new(),
                day_nr_scs_types: String::new(),
                day_nr_pcis: String::new(),
            },
            advanced_network_config: AdvancedNetworkConfig {
                pdp_type: text("ipv4v6"),
                ra_master: false,
                extend_prefix: true,
                do_not_add_dns: false,
                dns_list: dns,
                ifname: text("auto"),
            },
        }
    }
}

} // verus!
