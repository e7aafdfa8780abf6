//! Configuration of the protocol handler.

use vstd::prelude::*;

verus! {

/// Configuration of the service.
#[derive(Debug, Clone, Copy)]
pub struct MoqIrohConfig {
    pub max_buffer_size: usize,
    /// Milliseconds.
    pub heartbeat_interval: u64,
    pub enable_relay: bool,
}

impl Default for MoqIrohConfig {
    fn default() -> (c: Self)
        ensures
            c == (MoqIrohConfig {
                max_buffer_size: 1_048_576,
                heartbeat_interval: 5000,
                enable_relay: false,
            }),
    {
        MoqIrohConfig { max_buffer_size: 1_048_576, heartbeat_interval: 5000, enable_relay: false }
    }
}

/// Gathers what a protocol handler is made with.
#[derive(Debug)]
pub struct Builder {
    config: Option<MoqIrohConfig>,
}

impl Builder {
    /// The configuration that was set.
    pub closed spec fn configured(&self) -> Option<MoqIrohConfig> {
        self.config
    }

    /// A builder without a configuration.
    pub fn new() -> (b: Self)
        ensures
            b.configured() is None,
    {
        Builder { config: None }
    }

    /// Sets the configuration, in place of one set before.
    pub fn config(self, config: MoqIrohConfig) -> (b: Self)
        ensures
            b.configured() == Some(config),
    {
        Builder { config: Some(config) }
    }

    /// The configuration that was set.
    pub fn get_config(&self) -> (c: Option<MoqIrohConfig>)
        ensures
            c == self.configured(),
    {
        self.config
    }
}

impl Default for Builder {
    fn default() -> (b: Self)
        ensures
            b.configured() is None,
    {
        Builder { config: None }
    }
}

} // verus!
