//! Server configuration: plain values, with defaults for headless runs.

use vstd::prelude::*;
use vstd::string::StringExecFns;

verus! {

/// Server configuration.
#[derive(Debug)]
pub struct ServerConfig {
    /// Data directory for world storage.
    pub data_dir: String,
    /// Log level name.
    pub log_level: String,
    /// Ticks per second (0 = unlimited).
    pub ticks_per_second: u32,
    /// Auto-save interval in ticks (0 = disabled).
    pub auto_save_interval: u64,
}

impl Default for ServerConfig {
    fn default() -> (r: ServerConfig)
        ensures
            r.data_dir@ == "./data"@,
            r.log_level@ == "info"@,
            r.ticks_per_second == 0,
            r.auto_save_interval == 100,
    {
        ServerConfig {
            data_dir: String::from_str("./data"),
            log_level: String::from_str("info"),
            ticks_per_second: 0,
            auto_save_interval: 100,
        }
    }
}

} // verus!
