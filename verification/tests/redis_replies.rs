use std::sync::Arc;

use rmcp::model::RequestId;
use rmcp::state_store::redis_backend::{client_at, RedisConfig, RedisStateStore};
use rmcp::state_store::redis_replies::{
    active_sessions_among, cache_read_range, healthy_instances_among, heartbeat_plan, oldest_first,
    parse_request_id, routes_from_fields, sessions_held_by, stale_sessions_among, SessionMeta,
};
use rmcp::state_store::{
    pinged_at, record_unhealthy, EventId, InstanceHealthData, MemoryStateStore, ResourceKey,
    RouteData, ServerSessionMessage, SessionId, SseConnectionData,
};

const SEC: u128 = 1_000_000_000;

fn connection(instance: &str, last_ping: u128) -> SseConnectionData {
    SseConnectionData {
        created_at: 0,
        last_ping,
        ping_interval: 30 * SEC,
        server_instance_id: instance.to_string(),
    }
}

fn health(instance: &str, is_healthy: bool) -> InstanceHealthData {
    InstanceHealthData {
        server_instance_id: instance.to_string(),
        last_heartbeat: 3,
        is_healthy,
        failed_health_checks: if is_healthy { 0 } else { 1 },
    }
}

fn message(channel: Option<u64>, index: usize) -> ServerSessionMessage {
    ServerSessionMessage {
        event_id: EventId { http_request_id: channel, index },
        message: Arc::new(serde_json::Value::from(index as u64)),
    }
}

#[test]
fn hash_fields_parse_as_u64_does() {
    for field in ["0", "42", "007", "+7", "18446744073709551615", "", "+", "-1", "12a", " 1", "18446744073709551616", "١"] {
        assert_eq!(parse_request_id(field), field.parse::<u64>().ok(), "field {:?}", field);
    }
    assert_eq!(parse_request_id("42"), Some(42));
    assert_eq!(parse_request_id("+7"), Some(7));
    assert_eq!(parse_request_id("18446744073709551615"), Some(u64::MAX));
    assert_eq!(parse_request_id("18446744073709551616"), None);
    assert_eq!(parse_request_id("-0"), None);
}

#[test]
fn request_ids_read_back_as_written() {
    for id in [0u64, 9, 10, 123, u64::MAX] {
        assert_eq!(parse_request_id(&id.to_string()), Some(id));
    }
}

#[test]
fn cache_read_bounds_skip_the_oldest() {
    assert_eq!(cache_read_range(0), Some((0, -1)));
    assert_eq!(cache_read_range(2), Some((0, -3)));
    assert_eq!(cache_read_range(isize::MAX as usize), Some((0, isize::MIN)));
    assert_eq!(cache_read_range(usize::MAX), None);
}

#[test]
fn lists_kept_newest_first_read_oldest_first() {
    assert_eq!(oldest_first(vec![3, 2, 1]), vec![1, 2, 3]);
    assert_eq!(oldest_first(Vec::<u8>::new()), Vec::<u8>::new());
    // LRANGE 0 -3 on [m4, m3, m2, m1, m0] gives [m4, m3, m2]: reading from index 2.
    let newest_first = vec![4, 3, 2, 1, 0];
    let read = newest_first[..3].to_vec();
    assert_eq!(oldest_first(read), vec![2, 3, 4]);
}

#[test]
fn sse_connection_keys_name_their_session() {
    let c = RedisConfig::default();
    assert_eq!(c.sse_connection_pattern(), "rmcp:sse:*:connection");
    let key = c.sse_connection_key(&"abc".to_string());
    assert_eq!(c.session_of_sse_connection_key(&key), Some("abc".to_string()));
    assert_eq!(c.session_of_sse_connection_key("rmcp:sse::connection"), Some(String::new()));
    assert_eq!(c.session_of_sse_connection_key("rmcp:sse:a:b:connection"), Some("a:b".to_string()));
    assert_eq!(c.session_of_sse_connection_key("rmcp:session:abc:meta"), None);
    assert_eq!(c.session_of_sse_connection_key("other:sse:abc:connection"), None);
    assert_eq!(c.session_of_sse_connection_key("rmcp:sse:abc:connectio"), None);
    assert_eq!(c.session_of_sse_connection_key("rmcp:sse:connection"), None);
}

#[test]
fn instance_health_keys() {
    let c = RedisConfig::default();
    assert_eq!(c.instance_health_key("i1"), "rmcp:instance:i1:health");
    assert_eq!(c.instance_health_pattern(), "rmcp:instance:*:health");
}

#[test]
fn discovery_answers_from_records_read_back() {
    let conns: Vec<(SessionId, SseConnectionData)> = vec![
        ("s1".into(), connection("a", 100 * SEC)),
        ("s2".into(), connection("b", 10 * SEC)),
        ("s3".into(), connection("a", 5 * SEC)),
    ];
    assert_eq!(
        active_sessions_among(&conns),
        vec![
            ("s1".to_string(), "a".to_string()),
            ("s2".to_string(), "b".to_string()),
            ("s3".to_string(), "a".to_string())
        ]
    );
    assert_eq!(sessions_held_by(&conns, "a"), vec!["s1".to_string(), "s3".to_string()]);
    assert_eq!(sessions_held_by(&conns, "c"), Vec::<String>::new());
    assert_eq!(stale_sessions_among(&conns, 60 * SEC, 100 * SEC), vec!["s2".to_string(), "s3".to_string()]);
    assert_eq!(stale_sessions_among(&conns, 92 * SEC, 100 * SEC), vec!["s3".to_string()]);
    assert_eq!(stale_sessions_among(&conns, 95 * SEC, 100 * SEC), Vec::<String>::new());
    // A ping later than the clock is not stale.
    assert_eq!(stale_sessions_among(&conns, 0, 50 * SEC), vec!["s2".to_string(), "s3".to_string()]);
}

#[test]
fn healthy_instances_from_records_read_back() {
    let conns = vec![connection("a", 1), connection("b", 1), connection("a", 2)];
    let mut healthy = healthy_instances_among(&conns, &vec![health("b", false), health("c", true)]);
    healthy.sort();
    assert_eq!(healthy, vec!["a".to_string(), "c".to_string()]);
    let mut all = healthy_instances_among(&conns, &Vec::new());
    all.sort();
    assert_eq!(all, vec!["a".to_string(), "b".to_string()]);
    assert!(healthy_instances_among(&Vec::new(), &vec![health("x", false)]).is_empty());
}

#[test]
fn unhealthy_records_count_failed_checks() {
    let first = record_unhealthy(None, "i", 77);
    assert_eq!(first.server_instance_id, "i");
    assert_eq!(first.last_heartbeat, 77);
    assert!(!first.is_healthy);
    assert_eq!(first.failed_health_checks, 1);
    let second = record_unhealthy(Some(&first), "i", 99);
    assert_eq!(second.last_heartbeat, 77);
    assert_eq!(second.failed_health_checks, 2);
    let saturated = InstanceHealthData { failed_health_checks: u32::MAX, ..health("i", true) };
    assert_eq!(record_unhealthy(Some(&saturated), "i", 1).failed_health_checks, u32::MAX);
}

#[test]
fn pinging_updates_only_the_last_ping() {
    let c = connection("a", 5);
    let p = pinged_at(&c, 9);
    assert_eq!(p.last_ping, 9);
    assert_eq!(p.created_at, c.created_at);
    assert_eq!(p.ping_interval, c.ping_interval);
    assert_eq!(p.server_instance_id, "a");
}

#[test]
fn route_data_lists_each_resource_once() {
    let a = ResourceKey::McpRequestId(RequestId::Number(1));
    let b = ResourceKey::ProgressToken("t".into());
    let dup = RouteData {
        resources: vec![a.clone(), b.clone(), a.clone()],
        capacity: 3,
        created_at: 4,
    };
    assert!(!dup.has_distinct_resources());
    let route = RouteData::new(dup.resources.clone(), 3, 4);
    assert_eq!(route.resources, vec![a.clone(), b.clone()]);
    assert_eq!(route.capacity, 3);
    assert_eq!(route.created_at, 4);
    assert!(route.has_distinct_resources());
    // Number 1 and string "1" are different request identifiers.
    let mixed = RouteData::new(
        vec![a.clone(), ResourceKey::McpRequestId(RequestId::String("1".into()))],
        0,
        0,
    );
    assert_eq!(mixed.resources.len(), 2);
}

#[test]
fn cache_keys_of_different_sessions_differ() {
    let c = RedisConfig::default();
    let s1: SessionId = "s1".into();
    let s2: SessionId = "s2".into();
    for h1 in [None, Some(0), Some(1), Some(12)] {
        for h2 in [None, Some(0), Some(1), Some(12)] {
            assert_ne!(c.cache_key(&s1, h1), c.cache_key(&s2, h2));
        }
    }
    // A session named like another's channel suffix still gets a distinct key.
    let tricky: SessionId = "s1:cache:request:1".into();
    assert_ne!(c.cache_key(&tricky, None), c.cache_key(&s1, Some(1)));
    let pattern = c.request_cache_pattern(&s1);
    let prefix = pattern.strip_suffix('*').unwrap();
    assert!(c.cache_key(&s1, Some(42)).starts_with(prefix));
    assert!(!c.cache_key(&s2, Some(42)).starts_with(prefix));
}

#[test]
fn replay_after_n_messages_on_interleaved_channels() {
    let mut store = MemoryStateStore::new();
    let id: SessionId = "s".into();
    store.create_session_at(&id, 0);
    let n = 6;
    for i in 0..n {
        store.cache_message_at(&id, Some(1), &message(Some(1), i), 1).unwrap();
        store.cache_message_at(&id, Some(2), &message(Some(2), 100 + i), 1).unwrap();
        store.cache_message_at(&id, None, &message(None, 200 + i), 1).unwrap();
    }
    for k in 0..=n + 1 {
        let replay = store.get_cached_messages(&id, Some(1), k).unwrap();
        let expected: Vec<usize> = (k.min(n)..n).collect();
        assert_eq!(replay.iter().map(|m| m.event_id.index).collect::<Vec<_>>(), expected);
        assert!(replay.iter().all(|m| m.event_id.http_request_id == Some(1)));
    }
    assert!(store.get_cached_messages(&"other".to_string(), Some(1), 0).unwrap().is_empty());
}

#[test]
fn clients_are_opened_for_each_configured_url_in_turn() {
    let mut config = RedisConfig::default();
    config.urls = vec![
        "redis://127.0.0.1:6379".to_string(),
        "http://example.com".to_string(),
        "redis://".to_string(),
        "redis://10.0.0.2:6380/1".to_string(),
    ];
    assert!(matches!(client_at(&config, 0), Some(Ok(_))));
    assert!(matches!(client_at(&config, 1), Some(Err(_))));
    assert!(matches!(client_at(&config, 2), Some(Err(_))));
    assert!(matches!(client_at(&config, 3), Some(Ok(_))));
    assert!(client_at(&config, 4).is_none());
    config.urls.clear();
    assert!(client_at(&config, 0).is_none());
}

#[test]
fn route_fields_keep_those_that_parse_and_decode() {
    let route = |capacity: usize| RouteData { resources: Vec::new(), capacity, created_at: 1 };
    let fields = vec![
        ("7".to_string(), Some(route(70))),
        ("x".to_string(), Some(route(1))),
        ("8".to_string(), None),
        ("+9".to_string(), Some(route(90))),
        ("18446744073709551616".to_string(), Some(route(2))),
    ];
    let routes = routes_from_fields(fields);
    assert_eq!(routes, vec![(7, route(70)), (9, route(90))]);
    assert!(routes_from_fields(Vec::new()).is_empty());
}

#[test]
fn session_metadata_refresh() {
    let meta = SessionMeta::created(5);
    assert_eq!(meta, SessionMeta { created_at: 5, last_activity: 5 });
    assert_eq!(
        SessionMeta::refreshed(Some(meta), 9),
        Some(SessionMeta { created_at: 5, last_activity: 9 })
    );
    assert_eq!(SessionMeta::refreshed(None, 9), None);
}

#[test]
fn heartbeat_decisions() {
    let c = connection("a", 1);
    let plan = heartbeat_plan(true, Some(&c), 50);
    assert!(plan.refresh_session && plan.accepted);
    assert_eq!(plan.connection.unwrap().last_ping, 50);
    let plan = heartbeat_plan(false, Some(&c), 50);
    assert!(!plan.refresh_session && plan.accepted);
    let plan = heartbeat_plan(true, None, 50);
    assert!(plan.accepted && plan.connection.is_none());
    let plan = heartbeat_plan(false, None, 50);
    assert!(!plan.accepted && !plan.refresh_session && plan.connection.is_none());
}

#[test]
fn trim_stop_without_underflow() {
    assert_eq!(RedisStateStore::trim_stop(0), -1);
    assert_eq!(RedisStateStore::trim_stop(usize::MAX), isize::MAX);
}

#[test]
fn patterns_escape_glob_characters() {
    let c = RedisConfig::default();
    assert_eq!(c.request_cache_pattern(&"a*b".to_string()), "rmcp:session:a\\*b:cache:request:*");
    assert_eq!(c.request_cache_pattern(&"[x]?\\".to_string()), "rmcp:session:\\[x\\]\\?\\\\:cache:request:*");
    let mut starred = RedisConfig::default();
    starred.key_prefix = "p*".to_string();
    assert_eq!(starred.sse_connection_pattern(), "p\\*:sse:*:connection");
    assert_eq!(starred.instance_health_pattern(), "p\\*:instance:*:health");
}

#[test]
fn different_prefixes_share_no_key() {
    let mut a = RedisConfig::default();
    a.key_prefix = "a".to_string();
    let mut ab = RedisConfig::default();
    ab.key_prefix = "ab".to_string();
    let id: SessionId = "s".into();
    let b_id: SessionId = "b:session:s".into();
    assert_ne!(a.session_key(&b_id), ab.session_key(&id));
    assert_ne!(a.cache_key(&id, Some(1)), ab.cache_key(&id, Some(1)));
    assert_eq!(a.session_key(&id), RedisConfig { key_prefix: "a".to_string(), ..RedisConfig::default() }.session_key(&id));
}

#[test]
fn redis_channel_keeps_newest_over_many_messages() {
    // A list kept newest first, pushed at the head and trimmed as the store does.
    let capacity = 3;
    let mut list: Vec<usize> = Vec::new();
    for m in 0..7 {
        list.insert(0, m);
        let stop = RedisStateStore::trim_stop(capacity);
        list.truncate((stop + 1) as usize);
        assert!(list.len() <= capacity);
        let read = oldest_first(list.clone());
        let first = (m + 1).saturating_sub(capacity);
        assert_eq!(read, (first..=m).collect::<Vec<_>>());
    }
    let (start, stop) = cache_read_range(1).unwrap();
    assert_eq!((start, stop), (0, -2));
    // LRANGE 0 -2 on [6, 5, 4] is [6, 5]: from index 1 of the oldest-first [4, 5, 6].
    assert_eq!(oldest_first(list[..2].to_vec()), vec![5, 6]);
}
