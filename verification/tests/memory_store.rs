use std::sync::Arc;

use rmcp::model::RequestId;
use rmcp::state_store::{
    CancellationTokenData, EventId, MemoryStateStore, MemoryStateStoreError, ResourceKey,
    ResponderData, RouteData, ServerSessionMessage, SessionHandleData, SessionId,
    SseConnectionData,
};

const SEC: u128 = 1_000_000_000;

fn connection(instance: &str, last_ping: u128) -> SseConnectionData {
    SseConnectionData {
        created_at: last_ping,
        last_ping,
        ping_interval: 30 * SEC,
        server_instance_id: instance.to_string(),
    }
}

fn message(index: usize, text: &str) -> ServerSessionMessage {
    ServerSessionMessage {
        event_id: EventId { http_request_id: None, index },
        message: Arc::new(serde_json::Value::String(text.to_string())),
    }
}

fn route(capacity: usize) -> RouteData {
    RouteData { resources: Vec::new(), capacity, created_at: 7 }
}

#[test]
fn test_memory_state_store_session_lifecycle() {
    let mut store = MemoryStateStore::new();
    let session_id: SessionId = "test-session-123".into();

    assert!(!store.session_exists(&session_id).unwrap());
    store.create_session(&session_id).unwrap();
    assert!(store.session_exists(&session_id).unwrap());
    store.update_session_ttl(&session_id, 3600).unwrap();
    store.delete_session(&session_id).unwrap();
    assert!(!store.session_exists(&session_id).unwrap());
}

#[test]
fn test_memory_state_store_session_handles() {
    let mut store = MemoryStateStore::new();
    let session_id: SessionId = "test-session-456".into();
    store.create_session(&session_id).unwrap();

    let handle_data = SessionHandleData { created_at: 1, last_activity: 1, channel_capacity: 64 };
    store.register_session_handle(&session_id, &handle_data).unwrap();
    let retrieved = store.get_session_handle(&session_id).unwrap();
    assert!(retrieved.is_some());
    assert_eq!(retrieved.unwrap().channel_capacity, 64);

    store.remove_session_handle(&session_id).unwrap();
    let retrieved = store.get_session_handle(&session_id).unwrap();
    assert!(retrieved.is_none());
}

#[test]
fn test_memory_state_store_basic_operations() {
    let mut store = MemoryStateStore::new();
    let session_id: SessionId = "test-session-basic".into();
    store.create_session(&session_id).unwrap();

    let handle_data = SessionHandleData { created_at: 1, last_activity: 1, channel_capacity: 64 };
    store.register_session_handle(&session_id, &handle_data).unwrap();
    let retrieved = store.get_session_handle(&session_id).unwrap();
    assert!(retrieved.is_some());
    assert_eq!(retrieved.unwrap().channel_capacity, 64);

    let connection_data = SseConnectionData {
        created_at: 1,
        last_ping: 1,
        ping_interval: 30 * SEC,
        server_instance_id: "test-server".to_string(),
    };
    store.register_sse_connection(&session_id, &connection_data).unwrap();
    let retrieved = store.get_sse_connection(&session_id).unwrap();
    assert!(retrieved.is_some());
    assert_eq!(retrieved.unwrap().ping_interval, 30 * SEC);

    let http_request_id = 12345u64;
    let route_data = RouteData { resources: Vec::new(), capacity: 64, created_at: 1 };
    store.store_tx_route(&session_id, http_request_id, &route_data).unwrap();
    let retrieved = store.get_tx_route(&session_id, http_request_id).unwrap();
    assert!(retrieved.is_some());
    assert_eq!(retrieved.unwrap().capacity, 64);

    let service_id = "test-service";
    let request_id = RequestId::String("req-123".into());
    let responder_data = ResponderData { created_at: 1, timeout: Some(30 * SEC) };
    store.store_request_responder(service_id, &request_id, &responder_data).unwrap();
    let retrieved = store.get_request_responder(service_id, &request_id).unwrap();
    assert!(retrieved.is_some());
    assert_eq!(retrieved.unwrap().timeout, Some(30 * SEC));
}

#[test]
fn test_memory_state_store_concurrent_access() {
    let mut store = MemoryStateStore::new();
    let session_id: SessionId = "concurrent-test".into();
    store.create_session(&session_id).unwrap();

    for i in 0..10usize {
        let http_request_id = i as u64;
        let route_data = route(64 + i);
        store.store_tx_route(&session_id, http_request_id, &route_data).unwrap();
        let retrieved = store.get_tx_route(&session_id, http_request_id).unwrap();
        assert!(retrieved.is_some());
        assert_eq!(retrieved.unwrap().capacity, 64 + i);
        store.remove_tx_route(&session_id, http_request_id).unwrap();
    }

    let routes = store.list_tx_routes(&session_id).unwrap();
    assert_eq!(routes.len(), 0);
}

#[test]
fn missing_session_is_reported_by_name() {
    let mut store = MemoryStateStore::new();
    let id: SessionId = "ghost".into();
    assert_eq!(
        store.update_session_ttl(&id, 10),
        Err(MemoryStateStoreError::SessionNotFound("ghost".to_string()))
    );
    assert_eq!(
        store.store_tx_route(&id, 1, &route(1)),
        Err(MemoryStateStoreError::SessionNotFound("ghost".to_string()))
    );
    assert_eq!(
        store.store_resource_route(&id, &ResourceKey::ProgressToken("t".into()), 1),
        Err(MemoryStateStoreError::SessionNotFound("ghost".to_string()))
    );
    assert_eq!(
        store.cache_message(&id, None, &message(0, "m")),
        Err(MemoryStateStoreError::SessionNotFound("ghost".to_string()))
    );
    assert_eq!(
        store.update_session_heartbeat(&id),
        Err(MemoryStateStoreError::SessionNotFound("ghost".to_string()))
    );
    // Removals and reads on a missing session succeed and find nothing.
    assert_eq!(store.remove_tx_route(&id, 1), Ok(()));
    assert_eq!(store.trim_cache(&id, None, 0), Ok(()));
    assert!(store.get_tx_route(&id, 1).unwrap().is_none());
    assert!(store.list_tx_routes(&id).unwrap().is_empty());
    assert!(store.list_resource_routes(&id).unwrap().is_empty());
    assert!(store.get_cached_messages(&id, None, 0).unwrap().is_empty());
    assert!(!store.session_exists(&id).unwrap());
}

#[test]
fn delete_session_removes_handle_and_connection_only_of_that_session() {
    let mut store = MemoryStateStore::new();
    let a: SessionId = "a".into();
    let b: SessionId = "b".into();
    for id in [&a, &b] {
        store.create_session(id).unwrap();
        store
            .register_session_handle(id, &SessionHandleData { created_at: 0, last_activity: 0, channel_capacity: 8 })
            .unwrap();
        store.register_sse_connection(id, &connection("srv", 0)).unwrap();
    }
    store.delete_session(&a).unwrap();
    assert!(!store.session_exists(&a).unwrap());
    assert!(store.get_session_handle(&a).unwrap().is_none());
    assert!(store.get_sse_connection(&a).unwrap().is_none());
    assert!(store.session_exists(&b).unwrap());
    assert!(store.get_session_handle(&b).unwrap().is_some());
    assert!(store.get_sse_connection(&b).unwrap().is_some());
}

#[test]
fn create_session_resets_an_existing_session() {
    let mut store = MemoryStateStore::new();
    let id: SessionId = "s".into();
    store.create_session_at(&id, 10);
    store.store_tx_route_at(&id, 5, &route(3), 11).unwrap();
    assert!(store.get_tx_route(&id, 5).unwrap().is_some());
    store.create_session_at(&id, 20);
    assert!(store.get_tx_route(&id, 5).unwrap().is_none());
}

#[test]
fn tx_routes_replace_and_list() {
    let mut store = MemoryStateStore::new();
    let id: SessionId = "s".into();
    store.create_session_at(&id, 0);
    store.store_tx_route_at(&id, 1, &route(10), 1).unwrap();
    store.store_tx_route_at(&id, 2, &route(20), 2).unwrap();
    store.store_tx_route_at(&id, 1, &route(11), 3).unwrap();
    let mut routes = store.list_tx_routes(&id).unwrap();
    routes.sort_by_key(|(k, _)| *k);
    assert_eq!(routes.len(), 2);
    assert_eq!(routes[0].0, 1);
    assert_eq!(routes[0].1.capacity, 11);
    assert_eq!(routes[1].0, 2);
    assert_eq!(routes[1].1.capacity, 20);
}

#[test]
fn route_data_resources_survive_a_round_trip() {
    let mut store = MemoryStateStore::new();
    let id: SessionId = "s".into();
    store.create_session_at(&id, 0);
    let data = RouteData {
        resources: vec![
            ResourceKey::McpRequestId(RequestId::Number(4)),
            ResourceKey::ProgressToken("p".into()),
        ],
        capacity: 9,
        created_at: 99,
    };
    store.store_tx_route_at(&id, 7, &data, 1).unwrap();
    assert_eq!(store.get_tx_route(&id, 7).unwrap(), Some(data));
}

#[test]
fn resource_routes_store_get_remove_list() {
    let mut store = MemoryStateStore::new();
    let id: SessionId = "s".into();
    store.create_session_at(&id, 0);
    let k1 = ResourceKey::McpRequestId(RequestId::Number(1));
    let k2 = ResourceKey::McpRequestId(RequestId::String("1".into()));
    let k3 = ResourceKey::ProgressToken("1".into());
    store.store_resource_route_at(&id, &k1, 100, 1).unwrap();
    store.store_resource_route_at(&id, &k2, 200, 1).unwrap();
    store.store_resource_route_at(&id, &k3, 300, 1).unwrap();
    assert_eq!(store.get_resource_route(&id, &k1).unwrap(), Some(100));
    assert_eq!(store.get_resource_route(&id, &k2).unwrap(), Some(200));
    assert_eq!(store.get_resource_route(&id, &k3).unwrap(), Some(300));
    assert_eq!(store.list_resource_routes(&id).unwrap().len(), 3);
    store.remove_resource_route_at(&id, &k2, 2).unwrap();
    assert_eq!(store.get_resource_route(&id, &k2).unwrap(), None);
    assert_eq!(store.list_resource_routes(&id).unwrap().len(), 2);
}

#[test]
fn message_cache_appends_reads_from_index_and_trims_oldest() {
    let mut store = MemoryStateStore::new();
    let id: SessionId = "s".into();
    store.create_session_at(&id, 0);
    for i in 0..5 {
        store.cache_message_at(&id, None, &message(i, "common"), 1).unwrap();
    }
    store.cache_message_at(&id, Some(9), &message(0, "req"), 1).unwrap();

    let all = store.get_cached_messages(&id, None, 0).unwrap();
    assert_eq!(all.iter().map(|m| m.event_id.index).collect::<Vec<_>>(), vec![0, 1, 2, 3, 4]);
    let tail = store.get_cached_messages(&id, None, 3).unwrap();
    assert_eq!(tail.iter().map(|m| m.event_id.index).collect::<Vec<_>>(), vec![3, 4]);
    assert!(store.get_cached_messages(&id, None, 5).unwrap().is_empty());
    assert!(store.get_cached_messages(&id, None, 100).unwrap().is_empty());
    assert_eq!(store.get_cached_messages(&id, Some(9), 0).unwrap().len(), 1);
    assert!(store.get_cached_messages(&id, Some(8), 0).unwrap().is_empty());

    store.trim_cache_at(&id, None, 2, 2).unwrap();
    let kept = store.get_cached_messages(&id, None, 0).unwrap();
    assert_eq!(kept.iter().map(|m| m.event_id.index).collect::<Vec<_>>(), vec![3, 4]);
    assert_eq!(*kept[1].message, serde_json::Value::String("common".into()));
    store.trim_cache_at(&id, None, 10, 3).unwrap();
    assert_eq!(store.get_cached_messages(&id, None, 0).unwrap().len(), 2);
    store.trim_cache_at(&id, None, 0, 4).unwrap();
    assert!(store.get_cached_messages(&id, None, 0).unwrap().is_empty());
    // The other channel is untouched.
    assert_eq!(store.get_cached_messages(&id, Some(9), 0).unwrap().len(), 1);
}

#[test]
fn responders_and_tokens_are_keyed_by_service_and_request() {
    let mut store = MemoryStateStore::new();
    let r = RequestId::Number(7);
    store.store_request_responder("svc-a", &r, &ResponderData { created_at: 1, timeout: None }).unwrap();
    assert!(store.get_request_responder("svc-b", &r).unwrap().is_none());
    assert!(store.get_request_responder("svc-a", &RequestId::String("7".into())).unwrap().is_none());
    assert_eq!(
        store.get_request_responder("svc-a", &r).unwrap(),
        Some(ResponderData { created_at: 1, timeout: None })
    );
    store.remove_request_responder("svc-a", &r).unwrap();
    assert!(store.get_request_responder("svc-a", &r).unwrap().is_none());

    let token = CancellationTokenData { created_at: 3, is_cancelled: true, cancel_reason: Some("user".into()) };
    store.store_cancellation_token("svc-a", &r, &token).unwrap();
    assert_eq!(store.get_cancellation_token("svc-a", &r).unwrap(), Some(token));
    store.remove_cancellation_token("svc-a", &r).unwrap();
    assert!(store.get_cancellation_token("svc-a", &r).unwrap().is_none());
}

#[test]
fn session_discovery_by_instance() {
    let mut store = MemoryStateStore::new();
    let s1: SessionId = "session-1".into();
    let s2: SessionId = "session-2".into();
    let s3: SessionId = "session-3".into();
    store.register_sse_connection(&s1, &connection("server-A", 0)).unwrap();
    store.register_sse_connection(&s2, &connection("server-B", 0)).unwrap();
    store.register_sse_connection(&s3, &connection("server-A", 0)).unwrap();

    assert_eq!(store.find_session_instance(&s1).unwrap(), Some("server-A".to_string()));
    assert_eq!(store.find_session_instance(&s2).unwrap(), Some("server-B".to_string()));
    assert_eq!(store.find_session_instance(&"missing".to_string()).unwrap(), None);

    let all = store.list_active_sessions().unwrap();
    assert_eq!(all.len(), 3);
    let map: std::collections::HashMap<_, _> = all.into_iter().collect();
    assert_eq!(map.get(&s1), Some(&"server-A".to_string()));
    assert_eq!(map.get(&s2), Some(&"server-B".to_string()));
    assert_eq!(map.get(&s3), Some(&"server-A".to_string()));

    let a = store.list_sessions_by_instance("server-A").unwrap();
    assert_eq!(a.len(), 2);
    assert!(a.contains(&s1) && a.contains(&s3));
    assert_eq!(store.list_sessions_by_instance("server-B").unwrap(), vec![s2.clone()]);
    assert!(store.list_sessions_by_instance("server-C").unwrap().is_empty());
}

#[test]
fn session_health_and_heartbeat() {
    let mut store = MemoryStateStore::new();
    let id: SessionId = "health".into();
    store.register_sse_connection(&id, &connection("srv", 100 * SEC)).unwrap();
    assert_eq!(store.is_session_healthy_at(&id, 60 * SEC, 150 * SEC), Ok(true));
    assert_eq!(store.is_session_healthy_at(&id, 60 * SEC, 160 * SEC), Ok(true));
    assert_eq!(store.is_session_healthy_at(&id, 60 * SEC, 161 * SEC), Ok(false));
    // A ping in the future of `now` counts as no idle time.
    assert_eq!(store.is_session_healthy_at(&id, 0, 50 * SEC), Ok(true));
    store.update_session_heartbeat_at(&id, 200 * SEC).unwrap();
    assert_eq!(store.get_sse_connection(&id).unwrap().unwrap().last_ping, 200 * SEC);
    assert_eq!(store.is_session_healthy_at(&id, 60 * SEC, 250 * SEC), Ok(true));
    assert_eq!(store.is_session_healthy_at(&"none".to_string(), 60 * SEC, 0), Ok(false));
    assert_eq!(store.is_session_healthy(&id, u128::MAX), Ok(true));
}

#[test]
fn cleanup_removes_only_stale_sessions() {
    let mut store = MemoryStateStore::new();
    let old: SessionId = "cleanup-1".into();
    let recent: SessionId = "cleanup-2".into();
    store.create_session_at(&old, 0);
    store.register_sse_connection(&old, &connection("srv", 0)).unwrap();
    store.create_session_at(&recent, 290 * SEC);
    store.register_sse_connection(&recent, &connection("srv", 290 * SEC)).unwrap();

    let stale = store.cleanup_stale_sessions_at(60 * SEC, 300 * SEC).unwrap();
    assert_eq!(stale, vec![old.clone()]);
    assert!(store.get_sse_connection(&old).unwrap().is_none());
    assert!(!store.session_exists(&old).unwrap());
    assert!(store.get_sse_connection(&recent).unwrap().is_some());
    assert!(store.session_exists(&recent).unwrap());
    assert!(store.cleanup_stale_sessions_at(60 * SEC, 300 * SEC).unwrap().is_empty());
}

#[test]
fn unhealthy_instances_are_excluded() {
    let mut store = MemoryStateStore::new();
    store.register_sse_connection(&"s0".to_string(), &connection("server-0", 0)).unwrap();
    store.register_sse_connection(&"s1".to_string(), &connection("server-1", 0)).unwrap();
    store.register_sse_connection(&"s2".to_string(), &connection("server-1", 0)).unwrap();
    let mut healthy = store.get_healthy_instances().unwrap();
    healthy.sort();
    assert_eq!(healthy, vec!["server-0".to_string(), "server-1".to_string()]);

    store.mark_instance_unhealthy_at("server-0", 5).unwrap();
    assert_eq!(store.get_healthy_instances().unwrap(), vec!["server-1".to_string()]);
    store.mark_instance_unhealthy("server-9").unwrap();
    assert!(!store.get_healthy_instances().unwrap().contains(&"server-9".to_string()));
}

#[test]
fn reregistering_a_connection_moves_the_session_to_the_new_instance() {
    let mut store = MemoryStateStore::new();
    let id: SessionId = "s".into();
    store.register_sse_connection(&id, &connection("server-A", 0)).unwrap();
    store.register_sse_connection(&id, &connection("server-B", 0)).unwrap();
    assert_eq!(store.find_session_instance(&id).unwrap(), Some("server-B".to_string()));
    assert!(store.list_sessions_by_instance("server-A").unwrap().is_empty());
    assert_eq!(store.list_sessions_by_instance("server-B").unwrap(), vec![id.clone()]);
    assert_eq!(store.list_active_sessions().unwrap().len(), 1);
}

#[test]
fn routes_of_one_session_do_not_leak_into_another() {
    let mut store = MemoryStateStore::new();
    let a: SessionId = "a".into();
    let b: SessionId = "b".into();
    store.create_session_at(&a, 0);
    store.create_session_at(&b, 0);
    store.store_tx_route_at(&a, 1, &route(5), 1).unwrap();
    assert!(store.get_tx_route(&b, 1).unwrap().is_none());
    store.remove_tx_route_at(&b, 1, 2).unwrap();
    assert_eq!(store.get_tx_route(&a, 1).unwrap().map(|r| r.capacity), Some(5));
    store.cache_message_at(&a, None, &message(0, "x"), 3).unwrap();
    assert!(store.get_cached_messages(&b, None, 0).unwrap().is_empty());
}

#[test]
fn heartbeat_for_a_session_without_connection_is_accepted() {
    let mut store = MemoryStateStore::new();
    let id: SessionId = "plain".into();
    store.create_session_at(&id, 0);
    assert_eq!(store.update_session_heartbeat_at(&id, 10), Ok(()));
    assert_eq!(store.is_session_healthy_at(&id, 100, 10), Ok(false));
}

#[test]
fn default_store_is_empty() {
    let store = MemoryStateStore::default();
    assert!(store.list_active_sessions().unwrap().is_empty());
    assert!(store.get_healthy_instances().unwrap().is_empty());
}
