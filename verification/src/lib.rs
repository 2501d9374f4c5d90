//! Verified core of NetTamer, a per-process network monitor: process-name
//! matching, firewall and throttle tables, token buckets, alert evaluation,
//! event and packet decoding, and the small codecs the desktop shell uses.

pub mod text;
pub mod matcher;
pub mod models;
pub mod fmt;
pub mod clock;
pub mod keyed;
pub mod firewall;
pub mod rate_limiter;
pub mod throttle;
pub mod alert;
pub mod codec;
pub mod etw;
pub mod aggregator;
pub mod packet;
pub mod process;
pub mod state;
pub mod icons;
pub mod isolation;
pub mod speed_icon;
pub mod settings;
pub mod store;
pub mod overlay;
pub mod exe_paths;
