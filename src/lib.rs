//! AT-command session library for a cellular modem daemon: line framing,
//! URC classification, the per-command transaction state machine, the SMS
//! PDU codec, partial-SMS assembly, the day/night lock schedule, the dial
//! supervisor's decisions and the gateway's command handling.
pub mod text;
pub mod framer;
pub mod models;
pub mod urc;
pub mod mux;
pub mod pdu;
pub mod sms_cache;
pub mod config;
pub mod schedule;
pub mod dial;
pub mod handlers;
pub mod gateway;
pub mod dispatch;
pub mod uci;
