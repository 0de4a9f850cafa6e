use rmcp::state_store::redis_backend::{RedisConfig, RedisStateStore};
use rmcp::transport::sse_server::{
    connection_record, endpoint_event_data, ping_interval, post_event_outcome, server_instance_id,
    PostEventOutcome, DEFAULT_AUTO_PING_INTERVAL,
};

#[test]
fn trim_stop_is_last_kept_index() {
    assert_eq!(RedisStateStore::trim_stop(1), 0);
    assert_eq!(RedisStateStore::trim_stop(1000), 999);
}

#[test]
fn endpoint_event_names_post_path_and_session() {
    assert_eq!(endpoint_event_data("/message", "abc"), "/message?sessionId=abc");
    assert_eq!(server_instance_id("1234"), "sse-server-1234");
}

#[test]
fn ping_interval_defaults_to_fifteen_seconds() {
    assert_eq!(ping_interval(None), DEFAULT_AUTO_PING_INTERVAL);
    assert_eq!(DEFAULT_AUTO_PING_INTERVAL, 15_000_000_000);
    assert_eq!(ping_interval(Some(5)), 5);
}

#[test]
fn post_event_answers() {
    assert_eq!(post_event_outcome(false, false), PostEventOutcome::NotFound);
    assert_eq!(post_event_outcome(false, true), PostEventOutcome::NotFound);
    assert_eq!(post_event_outcome(true, false), PostEventOutcome::Gone);
    assert_eq!(post_event_outcome(true, true), PostEventOutcome::Accepted);
    assert_eq!(PostEventOutcome::Accepted.status_code(), 202);
    assert_eq!(PostEventOutcome::NotFound.status_code(), 404);
    assert_eq!(PostEventOutcome::Gone.status_code(), 410);
}

#[test]
fn connection_record_fields() {
    let r = connection_record(5, 7, &"inst".to_string());
    assert_eq!(r.created_at, 5);
    assert_eq!(r.last_ping, 5);
    assert_eq!(r.ping_interval, 7);
    assert_eq!(r.server_instance_id, "inst");
}

#[test]
fn default_config_is_usable_for_keys() {
    let c = RedisConfig::default();
    assert_eq!(c.key_prefix, "rmcp");
}

fn config_with_prefix(prefix: &str) -> RedisConfig {
    let mut c = RedisConfig::default();
    c.key_prefix = prefix.to_string();
    c
}

#[test]
fn redis_key_naming_convention() {
    let c = config_with_prefix("rmcp");
    let id = "uuid123".to_string();
    assert_eq!(c.session_key(&id), "rmcp:session:uuid123:meta");
    assert_eq!(c.session_handle_key(&id), "rmcp:session:uuid123:handle");
    assert_eq!(c.sse_connection_key(&id), "rmcp:sse:uuid123:connection");
    assert_eq!(c.tx_routes_key(&id), "rmcp:session:uuid123:tx_routes");
    assert_eq!(c.resource_routes_key(&id), "rmcp:session:uuid123:resource_routes");
    assert_eq!(c.cache_key(&id, None), "rmcp:session:uuid123:cache:common");
    assert_eq!(c.cache_key(&id, Some(0)), "rmcp:session:uuid123:cache:request:0");
    assert_eq!(c.cache_key(&id, Some(123)), "rmcp:session:uuid123:cache:request:123");
    assert_eq!(
        c.cache_key(&id, Some(u64::MAX)),
        format!("rmcp:session:uuid123:cache:request:{}", u64::MAX)
    );
    assert_eq!(c.request_cache_pattern(&id), "rmcp:session:uuid123:cache:request:*");
    assert_eq!(c.responders_key("svc"), "rmcp:service:svc:responders");
    assert_eq!(c.tokens_key("svc"), "rmcp:service:svc:cancellation_tokens");
}

#[test]
fn cache_keys_render_numbers_like_display() {
    let c = config_with_prefix("p");
    let id = "s".to_string();
    for n in [1u64, 9, 10, 99, 100, 1_000_000_007, 18_446_744_073_709_551_614] {
        assert_eq!(c.cache_key(&id, Some(n)), format!("p:session:s:cache:request:{}", n));
    }
}

#[test]
fn session_keys_list_every_key_then_extra() {
    let c = config_with_prefix("x");
    let id = "s".to_string();
    let keys = c.session_keys(&id, vec!["x:session:s:cache:request:5".to_string()]);
    assert_eq!(
        keys,
        vec![
            "x:session:s:meta".to_string(),
            "x:session:s:handle".to_string(),
            "x:sse:s:connection".to_string(),
            "x:session:s:tx_routes".to_string(),
            "x:session:s:resource_routes".to_string(),
            "x:session:s:cache:common".to_string(),
            "x:session:s:cache:request:5".to_string(),
        ]
    );
}

#[test]
fn ttl_seconds_truncates_nanoseconds() {
    let mut c = RedisConfig::default();
    assert_eq!(c.ttl_seconds(), 3600);
    c.session_ttl = 1_999_999_999;
    assert_eq!(c.ttl_seconds(), 1);
    c.session_ttl = u128::MAX;
    assert_eq!(c.ttl_seconds(), u64::MAX);
}
