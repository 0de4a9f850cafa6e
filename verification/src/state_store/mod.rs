//! State store data types and backends.
//!
//! Points in time are held as nanoseconds since the UNIX epoch and spans of
//! time as nanoseconds, both in `u128`.

pub mod config;
pub mod keyed;
pub mod laws;
pub mod memory;
pub mod redis_backend;
pub mod redis_replies;

pub use config::{StateStoreConfig, StateStoreConfigBuilder};
pub use memory::{MemoryStateStore, MemoryStateStoreError};
pub use redis_backend::{RedisConfig, RedisStateStore};

use crate::model::{RequestId, RequestIdView};
use keyed::{LookupKey, Record};
use std::sync::Arc;
use vstd::prelude::*;

verus! {

/// Identifier of a session.
pub type SessionId = String;

/// HTTP request identifier used for routing.
pub type HttpRequestId = u64;

/// `serde_json::Value`, carried opaquely inside cached messages.
#[verifier::external_type_specification]
#[verifier::external_body]
pub struct ExJsonValue(serde_json::Value);

/// Hands out another pointer to the same JSON value.
///
/// Trusted: `Arc::clone` returns a pointer to the same allocation, so the
/// result points at a value equal to the argument's.
#[verifier::external_body]
fn share_json(value: &Arc<serde_json::Value>) -> (shared: Arc<serde_json::Value>)
    ensures
        shared == *value,
{
    Arc::clone(value)
}

/// Key of a resource that a request is routed by.
#[derive(Debug, PartialEq, Eq)]
pub enum ResourceKey {
    McpRequestId(RequestId),
    ProgressToken(String),
}

/// The abstract value of a [`ResourceKey`].
pub enum ResourceKeyView {
    McpRequestId(RequestIdView),
    ProgressToken(Seq<char>),
}

impl View for ResourceKey {
    type V = ResourceKeyView;

    open spec fn view(&self) -> ResourceKeyView {
        match self {
            ResourceKey::McpRequestId(id) => ResourceKeyView::McpRequestId(id@),
            ResourceKey::ProgressToken(t) => ResourceKeyView::ProgressToken(t@),
        }
    }
}

impl Clone for ResourceKey {
    fn clone(&self) -> (copy: Self)
        ensures
            copy == *self,
    {
        match self {
            ResourceKey::McpRequestId(id) => ResourceKey::McpRequestId(id.clone()),
            ResourceKey::ProgressToken(t) => ResourceKey::ProgressToken(t.clone()),
        }
    }
}

impl LookupKey for ResourceKey {
    fn same_key(&self, other: &Self) -> (same: bool) {
        match (self, other) {
            (ResourceKey::McpRequestId(a), ResourceKey::McpRequestId(b)) => a.same_as(b),
            (ResourceKey::ProgressToken(a), ResourceKey::ProgressToken(b)) => a.eq(b),
            _ => false,
        }
    }

    fn copy_key(&self) -> (copy: Self) {
        self.clone()
    }
}

impl LookupKey for RequestId {
    fn same_key(&self, other: &Self) -> (same: bool) {
        self.same_as(other)
    }

    fn copy_key(&self) -> (copy: Self) {
        self.clone()
    }
}

/// A service's request: the service's identifier and the request's.
impl LookupKey for (String, RequestId) {
    fn same_key(&self, other: &Self) -> (same: bool) {
        self.0.eq(&other.0) && self.1.same_as(&other.1)
    }

    fn copy_key(&self) -> (copy: Self) {
        (self.0.clone(), self.1.clone())
    }
}

/// Position of a message in a session's event stream.
#[derive(Debug, Clone, Copy, PartialEq, Eq)]
pub struct EventId {
    pub http_request_id: Option<HttpRequestId>,
    pub index: usize,
}

/// A message sent by the server in a session, kept for replay.
#[derive(Debug)]
pub struct ServerSessionMessage {
    pub event_id: EventId,
    pub message: Arc<serde_json::Value>,
}

impl View for ServerSessionMessage {
    type V = ServerSessionMessage;

    open spec fn view(&self) -> ServerSessionMessage {
        *self
    }
}

impl Clone for ServerSessionMessage {
    fn clone(&self) -> (copy: Self)
        ensures
            copy == *self,
    {
        ServerSessionMessage { event_id: self.event_id, message: share_json(&self.message) }
    }
}

impl Record for std::collections::VecDeque<ServerSessionMessage> {
    open spec fn inv(&self) -> bool {
        true
    }
}

/// HTTP request routing data.
#[derive(Debug, PartialEq, Eq)]
pub struct RouteData {
    /// The resources routed to the request, each once.
    pub resources: Vec<ResourceKey>,
    pub capacity: usize,
    /// Nanoseconds since the UNIX epoch.
    pub created_at: u128,
}

/// The abstract value of a [`RouteData`].
pub struct RouteDataView {
    pub resources: Seq<ResourceKeyView>,
    pub capacity: usize,
    pub created_at: u128,
}

impl View for RouteData {
    type V = RouteDataView;

    open spec fn view(&self) -> RouteDataView {
        RouteDataView {
            resources: self.resources@.map_values(|r: ResourceKey| r@),
            capacity: self.capacity,
            created_at: self.created_at,
        }
    }
}

impl Clone for RouteData {
    fn clone(&self) -> (copy: Self)
        ensures
            copy@ == self@,
    {
        let mut resources: Vec<ResourceKey> = Vec::new();
        let n = self.resources.len();
        let mut i: usize = 0;
        while i < n
            invariant
                n == self.resources@.len(),
                i <= n,
                resources@.len() == i,
                forall|j: int| 0 <= j < i ==> #[trigger] resources@[j] == self.resources@[j],
            decreases n - i,
        {
            resources.push(self.resources[i].clone());
            i = i + 1;
        }
        let copy = RouteData { resources, capacity: self.capacity, created_at: self.created_at };
        assert(copy.resources@.map_values(|r: ResourceKey| r@) =~= self.resources@.map_values(
            |r: ResourceKey| r@,
        ));
        copy
    }
}

/// The entries of `s` without repeats, each where it first occurs.
pub open spec fn first_occurrences<T>(s: Seq<T>) -> Seq<T>
    decreases s.len(),
{
    if s.len() == 0 {
        Seq::empty()
    } else {
        let earlier = first_occurrences(s.drop_last());
        if earlier.contains(s.last()) {
            earlier
        } else {
            earlier.push(s.last())
        }
    }
}

impl RouteData {
    /// The resources form a set: none is listed twice.
    pub open spec fn wf(&self) -> bool {
        self@.resources.no_duplicates()
    }

    /// Routing data whose resources are those given, each kept once, in the order of
    /// their first occurrence.
    pub fn new(resources: Vec<ResourceKey>, capacity: usize, created_at: u128) -> (route: RouteData)
        ensures
            route.wf(),
            route.capacity == capacity,
            route.created_at == created_at,
            route@.resources.to_set() == resources@.map_values(|k: ResourceKey| k@).to_set(),
            route@.resources == first_occurrences(resources@.map_values(|k: ResourceKey| k@)),
    {
        let ghost given = resources@.map_values(|k: ResourceKey| k@);
        let mut kept: Vec<ResourceKey> = Vec::new();
        let n = resources.len();
        let mut i: usize = 0;
        while i < n
            invariant
                n == resources@.len(),
                i <= n,
                given == resources@.map_values(|k: ResourceKey| k@),
                kept@.map_values(|k: ResourceKey| k@).no_duplicates(),
                kept@.map_values(|k: ResourceKey| k@).to_set() == given.take(i as int).to_set(),
                kept@.map_values(|k: ResourceKey| k@) == first_occurrences(given.take(i as int)),
            decreases n - i,
        {
            let ghost before = kept@.map_values(|k: ResourceKey| k@);
            let candidate = &resources[i];
            let mut seen = false;
            let m = kept.len();
            let mut j: usize = 0;
            while j < m
                invariant
                    m == kept@.len(),
                    j <= m,
                    before == kept@.map_values(|k: ResourceKey| k@),
                    seen <==> exists|t: int| 0 <= t < j && #[trigger] before[t] == candidate@,
                decreases m - j,
            {
                assert(before[j as int] == kept@[j as int]@);
                if kept[j].same_key(candidate) {
                    seen = true;
                }
                j = j + 1;
            }
            proof {
                assert(given.take(i + 1) =~= given.take(i as int).push(candidate@));
                assert(given.take(i + 1).drop_last() =~= given.take(i as int));
                given.take(i as int).lemma_push_to_set_commute(candidate@);
                assert(seen <==> before.contains(candidate@));
                assert(seen <==> before.to_set().contains(candidate@));
            }
            if !seen {
                kept.push(candidate.clone());
                proof {
                    let after = kept@.map_values(|k: ResourceKey| k@);
                    assert(after =~= before.push(candidate@));
                    before.lemma_push_to_set_commute(candidate@);
                    assert forall|a: int, b: int|
                        0 <= a < after.len() && 0 <= b < after.len() && a != b implies #[trigger] after[a]
                        != #[trigger] after[b] by {
                        if a == before.len() {
                            assert(before[b] == after[b]);
                        } else if b == before.len() {
                            assert(before[a] == after[a]);
                        }
                    }
                }
            } else {
                assert(before.to_set().insert(candidate@) =~= before.to_set());
            }
            i = i + 1;
        }
        assert(given.take(n as int) =~= given);
        RouteData { resources: kept, capacity, created_at }
    }

    /// Whether no resource is listed twice.
    pub fn has_distinct_resources(&self) -> (distinct: bool)
        ensures
            distinct == self.wf(),
    {
        let ghost views = self@.resources;
        let n = self.resources.len();
        let mut i: usize = 0;
        while i < n
            invariant
                n == self.resources@.len(),
                i <= n,
                views == self@.resources,
                forall|a: int, b: int|
                    0 <= a < i && 0 <= b < n && a != b ==> #[trigger] views[a] != #[trigger] views[b],
            decreases n - i,
        {
            let mut j: usize = 0;
            while j < n
                invariant
                    n == self.resources@.len(),
                    i < n,
                    j <= n,
                    views == self@.resources,
                    forall|a: int, b: int|
                        0 <= a < i && 0 <= b < n && a != b ==> #[trigger] views[a] != #[trigger] views[b],
                    forall|b: int| 0 <= b < j && b != i ==> views[i as int] != #[trigger] views[b],
                decreases n - j,
            {
                if j != i && self.resources[i].same_key(&self.resources[j]) {
                    assert(views[i as int] == views[j as int]);
                    return false;
                }
                j = j + 1;
            }
            assert forall|a: int, b: int|
                0 <= a < i + 1 && 0 <= b < n && a != b implies #[trigger] views[a] != #[trigger] views[b] by {
                if a == i {
                    assert(views[i as int] != views[b]);
                }
            }
            i = i + 1;
        }
        true
    }
}

impl Record for RouteData {
    open spec fn inv(&self) -> bool {
        self.wf()
    }
}

/// Session handle metadata.
#[derive(Debug, Clone, Copy, PartialEq, Eq)]
pub struct SessionHandleData {
    /// Nanoseconds since the UNIX epoch.
    pub created_at: u128,
    /// Nanoseconds since the UNIX epoch.
    pub last_activity: u128,
    pub channel_capacity: usize,
}

impl View for SessionHandleData {
    type V = SessionHandleData;

    open spec fn view(&self) -> SessionHandleData {
        *self
    }
}

impl Record for SessionHandleData {
    open spec fn inv(&self) -> bool {
        true
    }
}

/// SSE connection metadata, with the server instance that holds the connection.
#[derive(Debug, PartialEq, Eq)]
pub struct SseConnectionData {
    /// Nanoseconds since the UNIX epoch.
    pub created_at: u128,
    /// Nanoseconds since the UNIX epoch.
    pub last_ping: u128,
    /// Nanoseconds.
    pub ping_interval: u128,
    pub server_instance_id: String,
}

/// The abstract value of an [`SseConnectionData`].
pub struct SseConnectionView {
    pub created_at: u128,
    pub last_ping: u128,
    pub ping_interval: u128,
    pub server_instance_id: Seq<char>,
}

impl View for SseConnectionData {
    type V = SseConnectionView;

    open spec fn view(&self) -> SseConnectionView {
        SseConnectionView {
            created_at: self.created_at,
            last_ping: self.last_ping,
            ping_interval: self.ping_interval,
            server_instance_id: self.server_instance_id@,
        }
    }
}

impl Clone for SseConnectionData {
    fn clone(&self) -> (copy: Self)
        ensures
            copy == *self,
    {
        SseConnectionData {
            created_at: self.created_at,
            last_ping: self.last_ping,
            ping_interval: self.ping_interval,
            server_instance_id: self.server_instance_id.clone(),
        }
    }
}

impl Record for SseConnectionData {
    open spec fn inv(&self) -> bool {
        true
    }
}

/// Service request responder metadata.
#[derive(Debug, Clone, Copy, PartialEq, Eq)]
pub struct ResponderData {
    /// Nanoseconds since the UNIX epoch.
    pub created_at: u128,
    /// Nanoseconds.
    pub timeout: Option<u128>,
}

impl View for ResponderData {
    type V = ResponderData;

    open spec fn view(&self) -> ResponderData {
        *self
    }
}

impl Record for ResponderData {
    open spec fn inv(&self) -> bool {
        true
    }
}

/// Cancellation token state.
#[derive(Debug, PartialEq, Eq)]
pub struct CancellationTokenData {
    /// Nanoseconds since the UNIX epoch.
    pub created_at: u128,
    pub is_cancelled: bool,
    pub cancel_reason: Option<String>,
}

/// The abstract value of a [`CancellationTokenData`].
pub struct CancellationTokenView {
    pub created_at: u128,
    pub is_cancelled: bool,
    pub cancel_reason: Option<Seq<char>>,
}

impl View for CancellationTokenData {
    type V = CancellationTokenView;

    open spec fn view(&self) -> CancellationTokenView {
        CancellationTokenView {
            created_at: self.created_at,
            is_cancelled: self.is_cancelled,
            cancel_reason: match &self.cancel_reason {
                Some(r) => Some(r@),
                None => None,
            },
        }
    }
}

impl Clone for CancellationTokenData {
    fn clone(&self) -> (copy: Self)
        ensures
            copy == *self,
    {
        CancellationTokenData {
            created_at: self.created_at,
            is_cancelled: self.is_cancelled,
            cancel_reason: match &self.cancel_reason {
                Some(r) => Some(r.clone()),
                None => None,
            },
        }
    }
}

impl Record for CancellationTokenData {
    open spec fn inv(&self) -> bool {
        true
    }
}

/// Health record of a server instance.
#[derive(Debug, PartialEq, Eq)]
pub struct InstanceHealthData {
    pub server_instance_id: String,
    /// Nanoseconds since the UNIX epoch.
    pub last_heartbeat: u128,
    pub is_healthy: bool,
    pub failed_health_checks: u32,
}

/// The abstract value of an [`InstanceHealthData`].
pub struct InstanceHealthView {
    pub server_instance_id: Seq<char>,
    pub last_heartbeat: u128,
    pub is_healthy: bool,
    pub failed_health_checks: u32,
}

impl View for InstanceHealthData {
    type V = InstanceHealthView;

    open spec fn view(&self) -> InstanceHealthView {
        InstanceHealthView {
            server_instance_id: self.server_instance_id@,
            last_heartbeat: self.last_heartbeat,
            is_healthy: self.is_healthy,
            failed_health_checks: self.failed_health_checks,
        }
    }
}

impl Clone for InstanceHealthData {
    fn clone(&self) -> (copy: Self)
        ensures
            copy == *self,
    {
        InstanceHealthData {
            server_instance_id: self.server_instance_id.clone(),
            last_heartbeat: self.last_heartbeat,
            is_healthy: self.is_healthy,
            failed_health_checks: self.failed_health_checks,
        }
    }
}

impl Record for InstanceHealthData {
    open spec fn inv(&self) -> bool {
        true
    }
}

/// The health record of an instance once it is reported unhealthy: one more failed
/// check than `previous` records (at most `u32::MAX`), with its last heartbeat kept;
/// a first report counts one failed check, with `now` as its heartbeat.
pub open spec fn unhealthy_record(
    previous: Option<InstanceHealthView>,
    instance: Seq<char>,
    now: u128,
) -> InstanceHealthView {
    match previous {
        Some(h) => InstanceHealthView {
            server_instance_id: instance,
            last_heartbeat: h.last_heartbeat,
            is_healthy: false,
            failed_health_checks: if h.failed_health_checks < u32::MAX {
                (h.failed_health_checks + 1) as u32
            } else {
                u32::MAX
            },
        },
        None => InstanceHealthView {
            server_instance_id: instance,
            last_heartbeat: now,
            is_healthy: false,
            failed_health_checks: 1,
        },
    }
}

/// The record that reports `instance` unhealthy at `now`, after the record `previous`
/// that the store held for it, if any.
pub fn record_unhealthy(previous: Option<&InstanceHealthData>, instance: &str, now: u128) -> (record:
    InstanceHealthData)
    ensures
        record@ == unhealthy_record(
            match previous {
                Some(h) => Some(h@),
                None => None,
            },
            instance@,
            now,
        ),
{
    match previous {
        Some(h) => InstanceHealthData {
            server_instance_id: String::from_str(instance),
            last_heartbeat: h.last_heartbeat,
            is_healthy: false,
            failed_health_checks: if h.failed_health_checks < u32::MAX {
                h.failed_health_checks + 1
            } else {
                u32::MAX
            },
        },
        None => InstanceHealthData {
            server_instance_id: String::from_str(instance),
            last_heartbeat: now,
            is_healthy: false,
            failed_health_checks: 1,
        },
    }
}

/// The connection record once the connection is pinged at `now`.
pub fn pinged_at(connection: &SseConnectionData, now: u128) -> (pinged: SseConnectionData)
    ensures
        pinged@ == (SseConnectionView { last_ping: now, ..connection@ }),
{
    SseConnectionData {
        created_at: connection.created_at,
        last_ping: now,
        ping_interval: connection.ping_interval,
        server_instance_id: connection.server_instance_id.clone(),
    }
}

/// The view of an optional value.
pub open spec fn view_opt<T: View>(o: Option<T>) -> Option<T::V> {
    match o {
        Some(t) => Some(t@),
        None => None,
    }
}

/// What a map holds for `k`, if anything.
pub open spec fn map_get<K, V>(m: Map<K, V>, k: K) -> Option<V> {
    if m.contains_key(k) {
        Some(m[k])
    } else {
        None
    }
}

/// `s` lists the entries of `m`, each key once.
pub open spec fn lists_map<K, V>(s: Seq<(K, V)>, m: Map<K, V>) -> bool {
    &&& forall|i: int, j: int| 0 <= i < s.len() && 0 <= j < s.len() && i != j ==> #[trigger] s[i].0 != #[trigger] s[j].0
    &&& forall|i: int| 0 <= i < s.len() ==> #[trigger] m.contains_key(s[i].0) && m[s[i].0] == s[i].1
    &&& forall|k: K| #[trigger] m.contains_key(k) ==> exists|i: int| 0 <= i < s.len() && #[trigger] s[i].0 == k
}

/// `s` lists the members of `set`, each once.
pub open spec fn lists_set<T>(s: Seq<T>, set: Set<T>) -> bool {
    &&& s.no_duplicates()
    &&& forall|x: T| #[trigger] set.contains(x) <==> s.contains(x)
}

} // verus!
