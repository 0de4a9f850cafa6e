//! Configuration system for state stores.

use super::redis_backend::{RedisConfig, RedisConfigView};
use vstd::prelude::*;

verus! {

/// State store configuration.
#[derive(Debug)]
pub enum StateStoreConfig {
    /// In-memory state store (single instance only).
    Memory,
    /// Redis state store for horizontal scaling.
    Redis(RedisConfig),
}

/// The abstract value of a [`StateStoreConfig`].
pub enum StateStoreConfigView {
    Memory,
    Redis(RedisConfigView),
}

impl View for StateStoreConfig {
    type V = StateStoreConfigView;

    open spec fn view(&self) -> StateStoreConfigView {
        match self {
            StateStoreConfig::Memory => StateStoreConfigView::Memory,
            StateStoreConfig::Redis(c) => StateStoreConfigView::Redis(c@),
        }
    }
}

impl Clone for StateStoreConfig {
    fn clone(&self) -> (copy: Self)
        ensures
            copy@ == self@,
    {
        match self {
            StateStoreConfig::Memory => StateStoreConfig::Memory,
            StateStoreConfig::Redis(c) => StateStoreConfig::Redis(c.clone()),
        }
    }
}

impl Default for StateStoreConfig {
    /// The in-memory configuration.
    fn default() -> (config: Self)
        ensures
            config@ == StateStoreConfigView::Memory,
    {
        StateStoreConfig::Memory
    }
}

impl StateStoreConfig {
    /// A Redis configuration with default settings.
    pub fn redis_default() -> (config: Self)
        ensures
            config@ == StateStoreConfigView::Redis(RedisConfigView::default_settings()),
    {
        StateStoreConfig::Redis(RedisConfig::default())
    }

    /// A Redis configuration with the given URL and default settings otherwise.
    pub fn redis_url(url: &str) -> (config: Self)
        ensures
            config@ == StateStoreConfigView::Redis(
                RedisConfigView { urls: seq![url@], ..RedisConfigView::default_settings() },
            ),
    {
        let mut backend = RedisConfig::default();
        backend.urls = vec![String::from_str(url)];
        proof {
            assert(backend@.urls =~= seq![url@]);
        }
        StateStoreConfig::Redis(backend)
    }

    /// A Redis configuration with several URLs for failover, default settings otherwise.
    pub fn redis_multi(urls: Vec<String>) -> (config: Self)
        ensures
            config@ == StateStoreConfigView::Redis(
                RedisConfigView {
                    urls: urls@.map_values(|u: String| u@),
                    ..RedisConfigView::default_settings()
                },
            ),
    {
        let mut backend = RedisConfig::default();
        backend.urls = urls;
        StateStoreConfig::Redis(backend)
    }

    /// A Redis configuration with the given URL and session time-to-live (nanoseconds),
    /// default settings otherwise.
    pub fn redis_with_ttl(url: &str, ttl: u128) -> (config: Self)
        ensures
            config@ == StateStoreConfigView::Redis(
                RedisConfigView {
                    urls: seq![url@],
                    session_ttl: ttl,
                    ..RedisConfigView::default_settings()
                },
            ),
    {
        let mut backend = RedisConfig::default();
        backend.urls = vec![String::from_str(url)];
        backend.session_ttl = ttl;
        proof {
            assert(backend@.urls =~= seq![url@]);
        }
        StateStoreConfig::Redis(backend)
    }

    /// Whether this configuration needs network connectivity.
    pub fn requires_network(&self) -> (network: bool)
        ensures
            network == (self@ is Redis),
    {
        match self {
            StateStoreConfig::Memory => false,
            StateStoreConfig::Redis(_) => true,
        }
    }

    /// A descriptive name for this configuration.
    pub fn name(&self) -> (name: &'static str)
        ensures
            name@ == (if self@ is Redis {
                "redis"@
            } else {
                "memory"@
            }),
    {
        match self {
            StateStoreConfig::Memory => "memory",
            StateStoreConfig::Redis(_) => "redis",
        }
    }
}

/// Builder for state store configurations.
#[derive(Debug)]
pub struct StateStoreConfigBuilder {
    config: StateStoreConfig,
}

impl StateStoreConfigBuilder {
    /// The configuration that `build` hands out.
    pub closed spec fn spec_config(&self) -> StateStoreConfigView {
        self.config@
    }

    /// A builder for the default (in-memory) configuration.
    pub fn new() -> (builder: Self)
        ensures
            builder.spec_config() == StateStoreConfigView::Memory,
    {
        StateStoreConfigBuilder { config: StateStoreConfig::default() }
    }

    /// Use in-memory storage.
    pub fn memory(self) -> (builder: Self)
        ensures
            builder.spec_config() == StateStoreConfigView::Memory,
    {
        StateStoreConfigBuilder { config: StateStoreConfig::Memory }
    }

    /// Use Redis storage with the given configuration.
    pub fn redis(self, config: RedisConfig) -> (builder: Self)
        ensures
            builder.spec_config() == StateStoreConfigView::Redis(config@),
    {
        StateStoreConfigBuilder { config: StateStoreConfig::Redis(config) }
    }

    /// The configuration built.
    pub fn build(self) -> (config: StateStoreConfig)
        ensures
            config@ == self.spec_config(),
    {
        self.config
    }
}

impl Default for StateStoreConfigBuilder {
    fn default() -> (builder: Self)
        ensures
            builder.spec_config() == StateStoreConfigView::Memory,
    {
        StateStoreConfigBuilder::new()
    }
}

impl From<RedisConfig> for StateStoreConfig {
    fn from(config: RedisConfig) -> (converted: Self) {
        StateStoreConfig::Redis(config)
    }
}

impl vstd::std_specs::convert::FromSpecImpl<RedisConfig> for StateStoreConfig {
    open spec fn obeys_from_spec() -> bool {
        true
    }

    open spec fn from_spec(v: RedisConfig) -> StateStoreConfig {
        StateStoreConfig::Redis(v)
    }
}

} // verus!
