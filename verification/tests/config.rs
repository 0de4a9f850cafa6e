use rmcp::state_store::redis_backend::RedisConfig;
use rmcp::state_store::{StateStoreConfig, StateStoreConfigBuilder};

#[test]
fn test_default_config() {
    let config = StateStoreConfig::default();
    assert!(matches!(config, StateStoreConfig::Memory));
    assert!(!config.requires_network());
    assert_eq!(config.name(), "memory");
}

#[test]
fn test_builder() {
    let config = StateStoreConfigBuilder::new().memory().build();
    assert!(matches!(config, StateStoreConfig::Memory));
}

#[test]
fn test_redis_config() {
    let config = StateStoreConfig::redis_default();
    assert!(matches!(config, StateStoreConfig::Redis(_)));
    assert!(config.requires_network());
    assert_eq!(config.name(), "redis");

    let config = StateStoreConfig::redis_url("redis://localhost:6379");
    assert!(matches!(config, StateStoreConfig::Redis(_)));

    let config = StateStoreConfig::redis_multi(vec![
        "redis://node1:6379".to_string(),
        "redis://node2:6379".to_string(),
    ]);
    assert!(matches!(config, StateStoreConfig::Redis(_)));
}

#[test]
fn test_state_store_config() {
    let config = StateStoreConfig::default();
    assert!(!config.requires_network());
    assert_eq!(config.name(), "memory");

    let config = StateStoreConfigBuilder::new().memory().build();
    assert!(matches!(config, StateStoreConfig::Memory));

    let config = StateStoreConfig::redis_default();
    assert!(config.requires_network());
    assert_eq!(config.name(), "redis");

    let config = StateStoreConfig::redis_url("redis://localhost:6379");
    assert!(matches!(config, StateStoreConfig::Redis(_)));
}

#[test]
fn redis_default_settings() {
    let config = RedisConfig::default();
    assert_eq!(config.urls, vec!["redis://127.0.0.1:6379".to_string()]);
    assert_eq!(config.key_prefix, "rmcp");
    assert_eq!(config.session_ttl, 3_600_000_000_000);
    assert_eq!(config.cache_capacity, 1000);
}

#[test]
fn redis_url_keeps_other_defaults() {
    match StateStoreConfig::redis_url("redis://localhost:6379") {
        StateStoreConfig::Redis(c) => {
            assert_eq!(c.urls, vec!["redis://localhost:6379".to_string()]);
            assert_eq!(c.key_prefix, "rmcp");
            assert_eq!(c.cache_capacity, 1000);
            assert_eq!(c.session_ttl, 3_600_000_000_000);
        }
        StateStoreConfig::Memory => panic!("expected a Redis configuration"),
    }
}

#[test]
fn redis_multi_keeps_every_url_in_order() {
    let urls = vec!["redis://node1:6379".to_string(), "redis://node2:6379".to_string()];
    match StateStoreConfig::redis_multi(urls.clone()) {
        StateStoreConfig::Redis(c) => {
            assert_eq!(c.urls, urls);
            assert_eq!(c.key_prefix, "rmcp");
        }
        StateStoreConfig::Memory => panic!("expected a Redis configuration"),
    }
}

#[test]
fn redis_with_ttl_sets_ttl() {
    match StateStoreConfig::redis_with_ttl("redis://x:1", 5_000_000_000) {
        StateStoreConfig::Redis(c) => {
            assert_eq!(c.urls, vec!["redis://x:1".to_string()]);
            assert_eq!(c.session_ttl, 5_000_000_000);
            assert_eq!(c.cache_capacity, 1000);
        }
        StateStoreConfig::Memory => panic!("expected a Redis configuration"),
    }
}

#[test]
fn builder_redis_then_memory_and_from() {
    let mut custom = RedisConfig::default();
    custom.key_prefix = "app".to_string();
    let config = StateStoreConfigBuilder::new().redis(custom.clone()).build();
    match &config {
        StateStoreConfig::Redis(c) => assert_eq!(c.key_prefix, "app"),
        StateStoreConfig::Memory => panic!("expected a Redis configuration"),
    }
    assert!(config.requires_network());
    let config = StateStoreConfigBuilder::new().redis(custom.clone()).memory().build();
    assert!(matches!(config, StateStoreConfig::Memory));
    let config: StateStoreConfig = custom.into();
    assert_eq!(config.name(), "redis");
    let config = StateStoreConfigBuilder::default().build();
    assert_eq!(config.name(), "memory");
}
