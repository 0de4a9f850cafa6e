//! Several server instances sharing one state store behind a load balancer that places
//! new clients in turn and routes requests to instances picked at random.

use std::cell::RefCell;
use std::collections::{HashMap, HashSet};
use std::rc::Rc;

use rmcp::state_store::{MemoryStateStore, SessionId, SseConnectionData};

const SEC: u128 = 1_000_000_000;

/// A random number, from the random bits of a version 4 UUID.
fn random_u128() -> u128 {
    uuid::Uuid::new_v4().as_u128()
}

struct ServerInstance {
    instance_id: String,
    state_store: Rc<RefCell<MemoryStateStore>>,
    sessions: RefCell<HashMap<SessionId, String>>,
    next_session: RefCell<u64>,
}

impl ServerInstance {
    fn new(instance_id: String, shared: Rc<RefCell<MemoryStateStore>>) -> Self {
        ServerInstance {
            instance_id,
            state_store: shared,
            sessions: RefCell::new(HashMap::new()),
            next_session: RefCell::new(0),
        }
    }

    fn accept_client(&self, client_id: String) -> SessionId {
        let n = {
            let mut next = self.next_session.borrow_mut();
            *next += 1;
            *next
        };
        let session_id: SessionId = format!("session-{}-{}-{}", self.instance_id, n, random_u128() as u64);
        self.sessions.borrow_mut().insert(session_id.clone(), client_id);
        let mut store = self.state_store.borrow_mut();
        store.create_session(&session_id).unwrap();
        let now = std::time::SystemTime::now()
            .duration_since(std::time::UNIX_EPOCH)
            .unwrap()
            .as_nanos();
        let connection_data = SseConnectionData {
            created_at: now,
            last_ping: now,
            ping_interval: 30 * SEC,
            server_instance_id: self.instance_id.clone(),
        };
        store.register_sse_connection(&session_id, &connection_data).unwrap();
        session_id
    }

    fn handle_request(&self, session_id: &SessionId) -> Result<String, String> {
        if let Some(client_id) = self.sessions.borrow().get(session_id) {
            return Ok(format!("Handled locally on {} for client {}", self.instance_id, client_id));
        }
        match self.state_store.borrow().find_session_instance(session_id).unwrap() {
            Some(owner) if owner == self.instance_id => Err("Session ownership mismatch".into()),
            Some(owner) => Ok(format!("Forwarded from {} to {} for session {}", self.instance_id, owner, session_id)),
            None => Err("Session not found".into()),
        }
    }

    fn shutdown(&self) {
        let mut store = self.state_store.borrow_mut();
        store.mark_instance_unhealthy(&self.instance_id).unwrap();
        let local: Vec<SessionId> = self.sessions.borrow().keys().cloned().collect();
        for session_id in local {
            store.remove_sse_connection(&session_id).unwrap();
            store.delete_session(&session_id).unwrap();
        }
        self.sessions.borrow_mut().clear();
    }

    fn session_count(&self) -> usize {
        self.sessions.borrow().len()
    }
}

struct LoadBalancer {
    instances: Vec<ServerInstance>,
    current_instance: RefCell<usize>,
    shared_state_store: Rc<RefCell<MemoryStateStore>>,
    failed_instances: RefCell<HashSet<usize>>,
}

impl LoadBalancer {
    fn new(instance_count: usize) -> Self {
        let shared = Rc::new(RefCell::new(MemoryStateStore::new()));
        let instances = (0..instance_count)
            .map(|i| ServerInstance::new(format!("server-{}", i), shared.clone()))
            .collect();
        LoadBalancer {
            instances,
            current_instance: RefCell::new(0),
            shared_state_store: shared,
            failed_instances: RefCell::new(HashSet::new()),
        }
    }

    fn accept_new_client(&self, client_id: String) -> Result<(usize, SessionId), String> {
        let failed = self.failed_instances.borrow();
        let mut current = self.current_instance.borrow_mut();
        let mut attempts = 0;
        let mut index = *current;
        while failed.contains(&index) && attempts < self.instances.len() {
            index = (index + 1) % self.instances.len();
            attempts += 1;
        }
        if attempts == self.instances.len() {
            return Err("No healthy instances available".into());
        }
        *current = (index + 1) % self.instances.len();
        drop(current);
        drop(failed);
        let session_id = self.instances[index].accept_client(client_id);
        Ok((index, session_id))
    }

    /// Sends the request to an instance picked at random, with no session affinity.
    fn route_request(&self, session_id: &SessionId) -> Result<String, String> {
        let index = (random_u128() % self.instances.len() as u128) as usize;
        self.instances[index].handle_request(session_id)
    }

    fn fail_instance(&self, index: usize) {
        if index < self.instances.len() {
            self.failed_instances.borrow_mut().insert(index);
            self.instances[index].shutdown();
        }
    }

    fn total_session_count(&self) -> usize {
        self.instances.iter().map(|i| i.session_count()).sum()
    }

    fn session_exists(&self, session_id: &SessionId) -> bool {
        self.shared_state_store.borrow().session_exists(session_id).unwrap()
    }
}

#[test]
fn test_load_balancer_basic_distribution() {
    let lb = LoadBalancer::new(3);
    let mut client_sessions = Vec::new();
    for i in 0..9 {
        let (instance_index, session_id) = lb.accept_new_client(format!("client-{}", i)).unwrap();
        assert!(lb.session_exists(&session_id));
        client_sessions.push((instance_index, session_id));
    }
    let mut instance_counts = HashMap::new();
    for (instance_index, _) in &client_sessions {
        *instance_counts.entry(*instance_index).or_insert(0) += 1;
    }
    assert_eq!(instance_counts.len(), 3);
    for count in instance_counts.values() {
        assert_eq!(*count, 3);
    }
    assert_eq!(lb.total_session_count(), 9);
}

#[test]
fn test_cross_instance_request_routing() {
    let lb = LoadBalancer::new(2);
    let (instance_0, session_id) = lb.accept_new_client("test-client".to_string()).unwrap();
    assert_eq!(instance_0, 0);
    for _ in 0..10 {
        let result = lb.route_request(&session_id).unwrap();
        assert!(result.contains("Handled locally") || result.contains("Forwarded"));
    }
}

#[test]
fn test_instance_failure_and_recovery() {
    let lb = LoadBalancer::new(3);
    for i in 0..6 {
        lb.accept_new_client(format!("client-{}", i)).unwrap();
    }
    assert_eq!(lb.total_session_count(), 6);
    lb.fail_instance(0);
    let healthy = lb.shared_state_store.borrow().get_healthy_instances().unwrap();
    assert!(!healthy.contains(&"server-0".to_string()));
    assert!(lb.total_session_count() < 6);
    let new_session = lb.accept_new_client("new-client".to_string()).unwrap();
    assert!(new_session.0 != 0);
}

#[test]
fn test_session_discovery_across_instances() {
    let lb = LoadBalancer::new(3);
    let (instance_0, session_a) = lb.accept_new_client("client-a".to_string()).unwrap();
    let (instance_1, session_b) = lb.accept_new_client("client-b".to_string()).unwrap();
    let (instance_2, session_c) = lb.accept_new_client("client-c".to_string()).unwrap();
    let store = lb.shared_state_store.borrow();
    assert!(store.list_sessions_by_instance(&format!("server-{}", instance_0)).unwrap().contains(&session_a));
    assert!(store.list_sessions_by_instance(&format!("server-{}", instance_1)).unwrap().contains(&session_b));
    assert!(store.list_sessions_by_instance(&format!("server-{}", instance_2)).unwrap().contains(&session_c));
    let all_sessions = store.list_active_sessions().unwrap();
    assert_eq!(all_sessions.len(), 3);
    let session_map: HashMap<SessionId, String> = all_sessions.into_iter().collect();
    assert!(session_map.contains_key(&session_a));
    assert!(session_map.contains_key(&session_b));
    assert!(session_map.contains_key(&session_c));
}

#[test]
fn test_concurrent_multi_instance_operations() {
    let lb = LoadBalancer::new(4);
    let mut session_ids = Vec::new();
    for i in 0..20 {
        let (_, session_id) = lb.accept_new_client(format!("concurrent-client-{}", i)).unwrap();
        for _ in 0..5 {
            lb.route_request(&session_id).unwrap();
            if random_u128() % 2 == 0 {
                lb.shared_state_store.borrow_mut().update_session_heartbeat(&session_id).unwrap();
            }
        }
        session_ids.push(session_id);
    }
    assert_eq!(session_ids.len(), 20);
    assert_eq!(lb.total_session_count(), 20);
    assert_eq!(lb.shared_state_store.borrow().list_active_sessions().unwrap().len(), 20);
}

#[test]
fn test_session_cleanup_across_instances() {
    let lb = LoadBalancer::new(2);
    let (_, session_1) = lb.accept_new_client("client-1".to_string()).unwrap();
    let (_, session_2) = lb.accept_new_client("client-2".to_string()).unwrap();
    let _stale = lb.shared_state_store.borrow_mut().cleanup_stale_sessions(60 * SEC).unwrap();
    assert!(lb.session_exists(&session_1));
    assert!(lb.session_exists(&session_2));
}

#[test]
fn test_zero_downtime_scaling() {
    let lb = LoadBalancer::new(2);
    let mut sessions = Vec::new();
    for i in 0..4 {
        let (_, session_id) = lb.accept_new_client(format!("client-{}", i)).unwrap();
        sessions.push(session_id);
    }
    assert_eq!(lb.total_session_count(), 4);
    let new_instance = ServerInstance::new("server-new".to_string(), lb.shared_state_store.clone());
    assert_eq!(new_instance.state_store.borrow().list_active_sessions().unwrap().len(), 4);
    new_instance.accept_client("new-client".to_string());
    assert_eq!(lb.shared_state_store.borrow().list_active_sessions().unwrap().len(), 5);
    for session_id in &sessions {
        assert!(lb.session_exists(session_id));
    }
}
