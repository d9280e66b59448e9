//! The agent's configuration as read from its TOML file.

use vstd::prelude::*;

verus! {

pub const DEFAULT_CONFIG_PATH: &'static str = "/etc/foundry-agent/config.toml";

/// The agent's configuration.
pub struct AgentConfig {
    /// Base URL of the controller.
    pub controller_url: String,
    /// Seconds between controller polls.
    pub poll_interval_secs: u64,
}

/// The poll interval when the file does not set one.
pub fn default_poll_interval_secs() -> (r: u64)
    ensures
        r == 15,
{
    15
}

} // verus!
