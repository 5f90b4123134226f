//! The logic of a front end of sing-box: share links become configurations, nodes
//! are kept and chosen, and sing-box is started, watched and asked for its traffic.
//! What is read, written, sent and shown is handed in and out as plain values.
pub mod codec;
pub mod config_gen;
pub mod config_laws;
pub mod console;
pub mod console_laws;
pub mod format;
pub mod json;
pub mod latency;
pub mod logs;
pub mod nodes;
pub mod outbound_laws;
pub mod ports;
pub mod singbox;
pub mod state_laws;
pub mod status;
pub mod system;
pub mod template_laws;
pub mod text;
pub mod traffic;
pub mod watchdog;
