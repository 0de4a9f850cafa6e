//! In-memory state store for single-instance deployments and testing.
//!
//! Every operation is stated as a transition of [`StoreState`], the abstract
//! value of the store. Operations that stamp a time come in two forms: one
//! that takes the time as an argument and has an exact contract, and one that
//! reads the system clock and then does the same.

use super::keyed::{KeyedList, Record};
use super::{
    lists_map, lists_set, map_get, view_opt, CancellationTokenData, CancellationTokenView,
    HttpRequestId, InstanceHealthData, InstanceHealthView, ResourceKey, ResourceKeyView,
    ResponderData, RouteData, RouteDataView, ServerSessionMessage, SessionHandleData, SessionId,
    SseConnectionData, SseConnectionView, record_unhealthy, unhealthy_record,
};
use crate::model::{RequestId, RequestIdView};
use std::collections::VecDeque;
use vstd::prelude::*;

verus! {

broadcast use vstd::std_specs::vecdeque::group_vec_dequeue_axioms;

/// `std::time::SystemTime`, a reading of the system clock.
#[verifier::external_type_specification]
#[verifier::external_body]
pub struct ExSystemTime(std::time::SystemTime);

/// `std::time::SystemTimeError`, the answer for a reading before the epoch.
#[verifier::external_type_specification]
#[verifier::external_body]
pub struct ExSystemTimeError(std::time::SystemTimeError);

/// The system clock's current reading.
///
/// Trusted: calls `SystemTime::now`; nothing is stated of the reading.
#[verifier::external_body]
fn clock_reading() -> std::time::SystemTime {
    std::time::SystemTime::now()
}

/// The time elapsed from the UNIX epoch to `t`.
///
/// Trusted: calls `SystemTime::duration_since` with `UNIX_EPOCH`, which fails for a
/// reading before the epoch; nothing is stated of the span.
#[verifier::external_body]
fn elapsed_since_epoch(t: &std::time::SystemTime) -> Result<std::time::Duration, std::time::SystemTimeError> {
    t.duration_since(std::time::UNIX_EPOCH)
}

/// The whole nanoseconds in `d`.
///
/// Trusted: calls `Duration::as_nanos`; nothing is stated of the count.
#[verifier::external_body]
fn duration_as_nanos(d: &std::time::Duration) -> u128 {
    d.as_nanos()
}

/// The current time, in nanoseconds since the UNIX epoch; a clock set before the epoch
/// reads as 0.
fn now_nanos() -> u128 {
    match elapsed_since_epoch(&clock_reading()) {
        Ok(elapsed) => duration_as_nanos(&elapsed),
        Err(_) => 0,
    }
}

impl Default for MemoryStateStore {
    fn default() -> (store: Self)
        ensures
            store.wf(),
            store@ == StoreState::empty(),
    {
        MemoryStateStore::new()
    }
}

/// Errors of the in-memory state store.
#[derive(Debug, PartialEq, Eq)]
pub enum MemoryStateStoreError {
    SessionNotFound(String),
    RouteNotFound,
    ResourceNotFound,
    ResponderNotFound,
    CancellationTokenNotFound,
}

/// `e` reports that the session `id` does not exist.
pub open spec fn reports_missing_session(e: MemoryStateStoreError, id: Seq<char>) -> bool {
    match e {
        MemoryStateStoreError::SessionNotFound(s) => s@ == id,
        _ => false,
    }
}

/// The views of a sequence of strings.
pub open spec fn string_views(v: Seq<String>) -> Seq<Seq<char>> {
    v.map_values(|x: String| x@)
}

/// Whether `v` holds a string equal to `s`.
pub(crate) fn strings_contain(v: &Vec<String>, s: &String) -> (found: bool)
    ensures
        found == string_views(v@).contains(s@),
{
    let n = v.len();
    let mut i: usize = 0;
    while i < n
        invariant
            n == v@.len(),
            i <= n,
            forall|j: int| 0 <= j < i ==> #[trigger] v@[j]@ != s@,
        decreases n - i,
    {
        if v[i].eq(s) {
            assert(string_views(v@)[i as int] == s@);
            return true;
        }
        i = i + 1;
    }
    assert forall|j: int| 0 <= j < string_views(v@).len() implies #[trigger] string_views(v@)[j] != s@ by {
        assert(v@[j]@ != s@);
    }
    false
}

/// The abstract state of one session.
#[verifier::ext_equal]
pub struct SessionState {
    pub created_at: u128,
    pub last_activity: u128,
    pub tx_routes: Map<HttpRequestId, RouteDataView>,
    pub resource_routes: Map<ResourceKeyView, HttpRequestId>,
    pub message_cache: Map<Option<HttpRequestId>, Seq<ServerSessionMessage>>,
}

impl SessionState {
    /// A session created at `now`, with no routes and no cached messages.
    pub open spec fn fresh(now: u128) -> SessionState {
        SessionState {
            created_at: now,
            last_activity: now,
            tx_routes: Map::empty(),
            resource_routes: Map::empty(),
            message_cache: Map::empty(),
        }
    }

    /// The messages cached on the channel `channel` (`None` is the common channel).
    pub open spec fn cached(self, channel: Option<HttpRequestId>) -> Seq<ServerSessionMessage> {
        if self.message_cache.contains_key(channel) {
            self.message_cache[channel]
        } else {
            Seq::empty()
        }
    }
}

/// The newest `max_size` messages of `cache`, or all of them if there are no more.
pub open spec fn keep_newest(cache: Seq<ServerSessionMessage>, max_size: nat) -> Seq<
    ServerSessionMessage,
> {
    if cache.len() > max_size {
        cache.subrange(cache.len() - max_size, cache.len() as int)
    } else {
        cache
    }
}

/// The messages of `cache` from position `from` on.
pub open spec fn messages_from(cache: Seq<ServerSessionMessage>, from: nat) -> Seq<
    ServerSessionMessage,
> {
    if from >= cache.len() {
        Seq::empty()
    } else {
        cache.subrange(from as int, cache.len() as int)
    }
}

/// Time elapsed from `then` to `now`; zero if `then` is later than `now`.
pub open spec fn idle_time(then: u128, now: u128) -> nat {
    if now >= then {
        (now - then) as nat
    } else {
        0
    }
}

/// Whether the connection was pinged at most `max_idle` before `now`.
pub fn connection_is_healthy(connection: &SseConnectionData, max_idle: u128, now: u128) -> (healthy: bool)
    ensures
        healthy == (idle_time(connection.last_ping, now) <= max_idle),
{
    if now >= connection.last_ping {
        now - connection.last_ping <= max_idle
    } else {
        true
    }
}

/// The abstract state of a [`MemoryStateStore`].
#[verifier::ext_equal]
pub struct StoreState {
    pub sessions: Map<Seq<char>, SessionState>,
    pub session_handles: Map<Seq<char>, SessionHandleData>,
    pub sse_connections: Map<Seq<char>, SseConnectionView>,
    pub request_responders: Map<(Seq<char>, RequestIdView), ResponderData>,
    pub cancellation_tokens: Map<(Seq<char>, RequestIdView), CancellationTokenView>,
    pub instance_health: Map<Seq<char>, InstanceHealthView>,
}

impl StoreState {
    pub open spec fn empty() -> StoreState {
        StoreState {
            sessions: Map::empty(),
            session_handles: Map::empty(),
            sse_connections: Map::empty(),
            request_responders: Map::empty(),
            cancellation_tokens: Map::empty(),
            instance_health: Map::empty(),
        }
    }

    pub open spec fn session_exists(self, id: Seq<char>) -> bool {
        self.sessions.contains_key(id)
    }

    /// Replaces the session `id` by `s` (or adds it).
    pub open spec fn with_session(self, id: Seq<char>, s: SessionState) -> StoreState {
        StoreState { sessions: self.sessions.insert(id, s), ..self }
    }

    /// Creates (or resets) the session `id` at `now`.
    pub open spec fn create_session(self, id: Seq<char>, now: u128) -> StoreState {
        self.with_session(id, SessionState::fresh(now))
    }

    /// Removes the sessions in `ids` with their handles and SSE connections.
    pub open spec fn delete_sessions(self, ids: Set<Seq<char>>) -> StoreState {
        StoreState {
            sessions: self.sessions.remove_keys(ids),
            session_handles: self.session_handles.remove_keys(ids),
            sse_connections: self.sse_connections.remove_keys(ids),
            ..self
        }
    }

    /// Removes the session `id` with its handle and SSE connection.
    pub open spec fn delete_session(self, id: Seq<char>) -> StoreState {
        StoreState {
            sessions: self.sessions.remove(id),
            session_handles: self.session_handles.remove(id),
            sse_connections: self.sse_connections.remove(id),
            ..self
        }
    }

    /// Records activity on the session `id` at `now`, if it exists.
    pub open spec fn touch(self, id: Seq<char>, now: u128) -> StoreState {
        if self.sessions.contains_key(id) {
            self.with_session(id, SessionState { last_activity: now, ..self.sessions[id] })
        } else {
            self
        }
    }

    pub open spec fn register_session_handle(self, id: Seq<char>, h: SessionHandleData) -> StoreState {
        StoreState { session_handles: self.session_handles.insert(id, h), ..self }
    }

    pub open spec fn remove_session_handle(self, id: Seq<char>) -> StoreState {
        StoreState { session_handles: self.session_handles.remove(id), ..self }
    }

    pub open spec fn register_sse_connection(self, id: Seq<char>, c: SseConnectionView) -> StoreState {
        StoreState { sse_connections: self.sse_connections.insert(id, c), ..self }
    }

    pub open spec fn remove_sse_connection(self, id: Seq<char>) -> StoreState {
        StoreState { sse_connections: self.sse_connections.remove(id), ..self }
    }

    /// The transmit routes of the session `id`; none if it does not exist.
    pub open spec fn tx_routes(self, id: Seq<char>) -> Map<HttpRequestId, RouteDataView> {
        if self.sessions.contains_key(id) {
            self.sessions[id].tx_routes
        } else {
            Map::empty()
        }
    }

    pub open spec fn tx_route(self, id: Seq<char>, req: HttpRequestId) -> Option<RouteDataView> {
        map_get(self.tx_routes(id), req)
    }

    pub open spec fn store_tx_route(
        self,
        id: Seq<char>,
        req: HttpRequestId,
        route: RouteDataView,
        now: u128,
    ) -> StoreState {
        if self.sessions.contains_key(id) {
            let s = self.sessions[id];
            self.with_session(
                id,
                SessionState { tx_routes: s.tx_routes.insert(req, route), last_activity: now, ..s },
            )
        } else {
            self
        }
    }

    pub open spec fn remove_tx_route(self, id: Seq<char>, req: HttpRequestId, now: u128) -> StoreState {
        if self.sessions.contains_key(id) {
            let s = self.sessions[id];
            self.with_session(
                id,
                SessionState { tx_routes: s.tx_routes.remove(req), last_activity: now, ..s },
            )
        } else {
            self
        }
    }

    /// The resource routes of the session `id`; none if it does not exist.
    pub open spec fn resource_routes(self, id: Seq<char>) -> Map<ResourceKeyView, HttpRequestId> {
        if self.sessions.contains_key(id) {
            self.sessions[id].resource_routes
        } else {
            Map::empty()
        }
    }

    pub open spec fn resource_route(self, id: Seq<char>, key: ResourceKeyView) -> Option<HttpRequestId> {
        map_get(self.resource_routes(id), key)
    }

    pub open spec fn store_resource_route(
        self,
        id: Seq<char>,
        key: ResourceKeyView,
        req: HttpRequestId,
        now: u128,
    ) -> StoreState {
        if self.sessions.contains_key(id) {
            let s = self.sessions[id];
            self.with_session(
                id,
                SessionState {
                    resource_routes: s.resource_routes.insert(key, req),
                    last_activity: now,
                    ..s
                },
            )
        } else {
            self
        }
    }

    pub open spec fn remove_resource_route(
        self,
        id: Seq<char>,
        key: ResourceKeyView,
        now: u128,
    ) -> StoreState {
        if self.sessions.contains_key(id) {
            let s = self.sessions[id];
            self.with_session(
                id,
                SessionState { resource_routes: s.resource_routes.remove(key), last_activity: now, ..s },
            )
        } else {
            self
        }
    }

    /// The messages cached for the session `id` on `channel`.
    pub open spec fn cached(self, id: Seq<char>, channel: Option<HttpRequestId>) -> Seq<
        ServerSessionMessage,
    > {
        if self.sessions.contains_key(id) {
            self.sessions[id].cached(channel)
        } else {
            Seq::empty()
        }
    }

    pub open spec fn cache_message(
        self,
        id: Seq<char>,
        channel: Option<HttpRequestId>,
        m: ServerSessionMessage,
        now: u128,
    ) -> StoreState {
        if self.sessions.contains_key(id) {
            let s = self.sessions[id];
            self.with_session(
                id,
                SessionState {
                    message_cache: s.message_cache.insert(channel, s.cached(channel).push(m)),
                    last_activity: now,
                    ..s
                },
            )
        } else {
            self
        }
    }

    pub open spec fn trim_cache(
        self,
        id: Seq<char>,
        channel: Option<HttpRequestId>,
        max_size: nat,
        now: u128,
    ) -> StoreState {
        if self.sessions.contains_key(id) {
            let s = self.sessions[id];
            self.with_session(
                id,
                SessionState {
                    message_cache: if s.message_cache.contains_key(channel) {
                        s.message_cache.insert(channel, keep_newest(s.message_cache[channel], max_size))
                    } else {
                        s.message_cache
                    },
                    last_activity: now,
                    ..s
                },
            )
        } else {
            self
        }
    }

    pub open spec fn store_request_responder(
        self,
        service: Seq<char>,
        req: RequestIdView,
        data: ResponderData,
    ) -> StoreState {
        StoreState { request_responders: self.request_responders.insert((service, req), data), ..self }
    }

    pub open spec fn remove_request_responder(self, service: Seq<char>, req: RequestIdView) -> StoreState {
        StoreState { request_responders: self.request_responders.remove((service, req)), ..self }
    }

    pub open spec fn store_cancellation_token(
        self,
        service: Seq<char>,
        req: RequestIdView,
        data: CancellationTokenView,
    ) -> StoreState {
        StoreState {
            cancellation_tokens: self.cancellation_tokens.insert((service, req), data),
            ..self
        }
    }

    pub open spec fn remove_cancellation_token(self, service: Seq<char>, req: RequestIdView) -> StoreState {
        StoreState { cancellation_tokens: self.cancellation_tokens.remove((service, req)), ..self }
    }

    /// The server instance holding the session's SSE connection, if it has one.
    pub open spec fn session_instance(self, id: Seq<char>) -> Option<Seq<char>> {
        if self.sse_connections.contains_key(id) {
            Some(self.sse_connections[id].server_instance_id)
        } else {
            None
        }
    }

    /// Each session with an SSE connection, to the server instance holding it.
    pub open spec fn active_sessions(self) -> Map<Seq<char>, Seq<char>> {
        self.sse_connections.map_values(|c: SseConnectionView| c.server_instance_id)
    }

    /// The sessions whose SSE connection is held by the instance `instance`.
    pub open spec fn sessions_of_instance(self, instance: Seq<char>) -> Set<Seq<char>> {
        Set::new(
            |id: Seq<char>|
                self.sse_connections.contains_key(id) && self.sse_connections[id].server_instance_id
                    == instance,
        )
    }

    /// The session has an SSE connection pinged at most `max_idle` before `now`.
    pub open spec fn is_session_healthy(self, id: Seq<char>, max_idle: u128, now: u128) -> bool {
        self.sse_connections.contains_key(id) && idle_time(self.sse_connections[id].last_ping, now)
            <= max_idle
    }

    /// The sessions whose SSE connection was last pinged more than `max_idle` before `now`.
    pub open spec fn stale_sessions(self, max_idle: u128, now: u128) -> Set<Seq<char>> {
        Set::new(
            |id: Seq<char>|
                self.sse_connections.contains_key(id) && idle_time(self.sse_connections[id].last_ping, now)
                    > max_idle,
        )
    }

    /// Removes every stale session with its handle and SSE connection.
    pub open spec fn cleanup_stale_sessions(self, max_idle: u128, now: u128) -> StoreState {
        self.delete_sessions(self.stale_sessions(max_idle, now))
    }

    /// A heartbeat is accepted for a session that exists or has an SSE connection.
    pub open spec fn heartbeat_accepted(self, id: Seq<char>) -> bool {
        self.sessions.contains_key(id) || self.sse_connections.contains_key(id)
    }

    /// Marks the session's SSE connection as pinged at `now` and records activity on the
    /// session, for whichever of the two exists.
    pub open spec fn update_session_heartbeat(self, id: Seq<char>, now: u128) -> StoreState {
        let touched = self.touch(id, now);
        if self.sse_connections.contains_key(id) {
            StoreState {
                sse_connections: self.sse_connections.insert(
                    id,
                    SseConnectionView { last_ping: now, ..self.sse_connections[id] },
                ),
                ..touched
            }
        } else {
            touched
        }
    }

    /// Records the instance as unhealthy, counting one more failed health check.
    pub open spec fn mark_instance_unhealthy(self, instance: Seq<char>, now: u128) -> StoreState {
        let record = unhealthy_record(map_get(self.instance_health, instance), instance, now);
        StoreState { instance_health: self.instance_health.insert(instance, record), ..self }
    }

    /// Some SSE connection is held by the instance.
    pub open spec fn instance_holds_connection(self, instance: Seq<char>) -> bool {
        exists|id: Seq<char>|
            #[trigger] self.sse_connections.contains_key(id) && self.sse_connections[id].server_instance_id
                == instance
    }

    /// No health record says the instance is unhealthy.
    pub open spec fn not_reported_unhealthy(self, instance: Seq<char>) -> bool {
        self.instance_health.contains_key(instance) ==> self.instance_health[instance].is_healthy
    }

    /// An instance is healthy if a health record says so, or if it holds an SSE connection
    /// and no health record says otherwise.
    pub open spec fn healthy_instances(self) -> Set<Seq<char>> {
        Set::new(
            |instance: Seq<char>|
                (self.instance_health.contains_key(instance) && self.instance_health[instance].is_healthy)
                    || (self.instance_holds_connection(instance) && self.not_reported_unhealthy(instance)),
        )
    }
}

/// The stored state of one session.
#[derive(Debug)]
struct SessionData {
    created_at: u128,
    last_activity: u128,
    tx_routes: KeyedList<HttpRequestId, RouteData>,
    resource_routes: KeyedList<ResourceKey, HttpRequestId>,
    message_cache: KeyedList<Option<HttpRequestId>, VecDeque<ServerSessionMessage>>,
}

impl View for SessionData {
    type V = SessionState;

    closed spec fn view(&self) -> SessionState {
        SessionState {
            created_at: self.created_at,
            last_activity: self.last_activity,
            tx_routes: self.tx_routes.as_map(),
            resource_routes: self.resource_routes.as_map(),
            message_cache: self.message_cache.as_map(),
        }
    }
}

impl Record for SessionData {
    closed spec fn inv(&self) -> bool {
        &&& self.tx_routes.wf()
        &&& self.resource_routes.wf()
        &&& self.message_cache.wf()
    }
}

/// In-memory state store.
///
/// Each operation takes the store by reference; sharing one store between tasks is the
/// caller's concern.
#[derive(Debug)]
pub struct MemoryStateStore {
    sessions: KeyedList<SessionId, SessionData>,
    session_handles: KeyedList<SessionId, SessionHandleData>,
    sse_connections: KeyedList<SessionId, SseConnectionData>,
    request_responders: KeyedList<(String, RequestId), ResponderData>,
    cancellation_tokens: KeyedList<(String, RequestId), CancellationTokenData>,
    instance_health: KeyedList<String, InstanceHealthData>,
}

impl View for MemoryStateStore {
    type V = StoreState;

    closed spec fn view(&self) -> StoreState {
        StoreState {
            sessions: self.sessions.as_map(),
            session_handles: self.session_handles.as_map(),
            sse_connections: self.sse_connections.as_map(),
            request_responders: self.request_responders.as_map(),
            cancellation_tokens: self.cancellation_tokens.as_map(),
            instance_health: self.instance_health.as_map(),
        }
    }
}

impl MemoryStateStore {
    /// The store's tables are well formed.
    pub closed spec fn wf(&self) -> bool {
        &&& self.sessions.wf()
        &&& self.session_handles.wf()
        &&& self.sse_connections.wf()
        &&& self.request_responders.wf()
        &&& self.cancellation_tokens.wf()
        &&& self.instance_health.wf()
    }

    /// Creates an empty in-memory state store.
    pub fn new() -> (store: Self)
        ensures
            store.wf(),
            store@ == StoreState::empty(),
    {
        let store = MemoryStateStore {
            sessions: KeyedList::new(),
            session_handles: KeyedList::new(),
            sse_connections: KeyedList::new(),
            request_responders: KeyedList::new(),
            cancellation_tokens: KeyedList::new(),
            instance_health: KeyedList::new(),
        };
        assert(store@ =~= StoreState::empty());
        store
    }

    /// Creates (or resets) the session `session_id`, stamped with `now`.
    pub fn create_session_at(&mut self, session_id: &SessionId, now: u128)
        requires
            old(self).wf(),
        ensures
            final(self).wf(),
            final(self)@ == old(self)@.create_session(session_id@, now),
    {
        let data = SessionData {
            created_at: now,
            last_activity: now,
            tx_routes: KeyedList::new(),
            resource_routes: KeyedList::new(),
            message_cache: KeyedList::new(),
        };
        assert(data@ =~= SessionState::fresh(now));
        self.sessions.insert(session_id.clone(), data);
        assert(self@ =~= old(self)@.create_session(session_id@, now));
    }

    /// Creates (or resets) the session `session_id`, stamped with the current time.
    pub fn create_session(&mut self, session_id: &SessionId) -> (result: Result<
        (),
        MemoryStateStoreError,
    >)
        requires
            old(self).wf(),
        ensures
            final(self).wf(),
            result is Ok,
            exists|now: u128| final(self)@ == old(self)@.create_session(session_id@, now),
    {
        let now = now_nanos();
        self.create_session_at(session_id, now);
        Ok(())
    }

    /// Removes the session with its session handle and SSE connection.
    pub fn delete_session(&mut self, session_id: &SessionId) -> (result: Result<
        (),
        MemoryStateStoreError,
    >)
        requires
            old(self).wf(),
        ensures
            final(self).wf(),
            result is Ok,
            final(self)@ == old(self)@.delete_session(session_id@),
    {
        self.sessions.remove(session_id);
        self.session_handles.remove(session_id);
        self.sse_connections.remove(session_id);
        assert(self@ =~= old(self)@.delete_session(session_id@));
        Ok(())
    }

    pub fn session_exists(&self, session_id: &SessionId) -> (result: Result<bool, MemoryStateStoreError>)
        requires
            self.wf(),
        ensures
            result == Ok::<bool, MemoryStateStoreError>(self@.session_exists(session_id@)),
    {
        Ok(self.sessions.contains_key(session_id))
    }

    /// Records activity on the session at `now`; fails if it does not exist.
    /// The time-to-live is not used by this store.
    pub fn update_session_ttl_at(&mut self, session_id: &SessionId, _ttl_seconds: u64, now: u128) -> (result: Result<
        (),
        MemoryStateStoreError,
    >)
        requires
            old(self).wf(),
        ensures
            final(self).wf(),
            final(self)@ == old(self)@.touch(session_id@, now),
            result is Ok <==> old(self)@.session_exists(session_id@),
            result matches Err(e) ==> reports_missing_session(e, session_id@),
    {
        match self.sessions.remove(session_id) {
            Some(mut session) => {
                session.last_activity = now;
                assert(session@ =~= SessionState { last_activity: now, ..old(self)@.sessions[session_id@] });
                self.sessions.insert(session_id.clone(), session);
                assert(self@ =~= old(self)@.touch(session_id@, now));
                Ok(())
            },
            None => Err(MemoryStateStoreError::SessionNotFound(session_id.clone())),
        }
    }

    /// Records activity on the session at the current time; fails if it does not exist.
    pub fn update_session_ttl(&mut self, session_id: &SessionId, ttl_seconds: u64) -> (result: Result<
        (),
        MemoryStateStoreError,
    >)
        requires
            old(self).wf(),
        ensures
            final(self).wf(),
            exists|now: u128| final(self)@ == old(self)@.touch(session_id@, now),
            result is Ok <==> old(self)@.session_exists(session_id@),
            result matches Err(e) ==> reports_missing_session(e, session_id@),
    {
        let now = now_nanos();
        self.update_session_ttl_at(session_id, ttl_seconds, now)
    }

    pub fn register_session_handle(&mut self, session_id: &SessionId, handle_data: &SessionHandleData) -> (result: Result<
        (),
        MemoryStateStoreError,
    >)
        requires
            old(self).wf(),
        ensures
            final(self).wf(),
            result is Ok,
            final(self)@ == old(self)@.register_session_handle(session_id@, *handle_data),
    {
        self.session_handles.insert(session_id.clone(), *handle_data);
        assert(self@ =~= old(self)@.register_session_handle(session_id@, *handle_data));
        Ok(())
    }

    pub fn get_session_handle(&self, session_id: &SessionId) -> (result: Result<
        Option<SessionHandleData>,
        MemoryStateStoreError,
    >)
        requires
            self.wf(),
        ensures
            result == Ok::<Option<SessionHandleData>, MemoryStateStoreError>(
                map_get(self@.session_handles, session_id@),
            ),
    {
        match self.session_handles.get(session_id) {
            Some(h) => Ok(Some(*h)),
            None => Ok(None),
        }
    }

    pub fn remove_session_handle(&mut self, session_id: &SessionId) -> (result: Result<
        (),
        MemoryStateStoreError,
    >)
        requires
            old(self).wf(),
        ensures
            final(self).wf(),
            result is Ok,
            final(self)@ == old(self)@.remove_session_handle(session_id@),
    {
        self.session_handles.remove(session_id);
        assert(self@ =~= old(self)@.remove_session_handle(session_id@));
        Ok(())
    }

    pub fn register_sse_connection(&mut self, session_id: &SessionId, connection_data: &SseConnectionData) -> (result: Result<
        (),
        MemoryStateStoreError,
    >)
        requires
            old(self).wf(),
        ensures
            final(self).wf(),
            result is Ok,
            final(self)@ == old(self)@.register_sse_connection(session_id@, connection_data@),
    {
        self.sse_connections.insert(session_id.clone(), connection_data.clone());
        assert(self@ =~= old(self)@.register_sse_connection(session_id@, connection_data@));
        Ok(())
    }

    pub fn get_sse_connection(&self, session_id: &SessionId) -> (result: Result<
        Option<SseConnectionData>,
        MemoryStateStoreError,
    >)
        requires
            self.wf(),
        ensures
            result matches Ok(found) && view_opt(found) == map_get(self@.sse_connections, session_id@),
    {
        match self.sse_connections.get(session_id) {
            Some(c) => Ok(Some(c.clone())),
            None => Ok(None),
        }
    }

    pub fn remove_sse_connection(&mut self, session_id: &SessionId) -> (result: Result<
        (),
        MemoryStateStoreError,
    >)
        requires
            old(self).wf(),
        ensures
            final(self).wf(),
            result is Ok,
            final(self)@ == old(self)@.remove_sse_connection(session_id@),
    {
        self.sse_connections.remove(session_id);
        assert(self@ =~= old(self)@.remove_sse_connection(session_id@));
        Ok(())
    }

    /// Stores a transmit route in the session, stamped with `now`; fails if the session
    /// does not exist.
    pub fn store_tx_route_at(
        &mut self,
        session_id: &SessionId,
        http_request_id: HttpRequestId,
        route_data: &RouteData,
        now: u128,
    ) -> (result: Result<(), MemoryStateStoreError>)
        requires
            old(self).wf(),
            route_data.wf(),
        ensures
            final(self).wf(),
            final(self)@ == old(self)@.store_tx_route(session_id@, http_request_id, route_data@, now),
            result is Ok <==> old(self)@.session_exists(session_id@),
            result matches Err(e) ==> reports_missing_session(e, session_id@),
    {
        match self.sessions.remove(session_id) {
            Some(mut session) => {
                let ghost s0 = old(self)@.sessions[session_id@];
                session.tx_routes.insert(http_request_id, route_data.clone());
                session.last_activity = now;
                assert(session@ =~= SessionState {
                    tx_routes: s0.tx_routes.insert(http_request_id, route_data@),
                    last_activity: now,
                    ..s0
                });
                self.sessions.insert(session_id.clone(), session);
                assert(self@ =~= old(self)@.store_tx_route(session_id@, http_request_id, route_data@, now));
                Ok(())
            },
            None => Err(MemoryStateStoreError::SessionNotFound(session_id.clone())),
        }
    }

    /// Stores a transmit route in the session, stamped with the current time; fails if
    /// the session does not exist.
    pub fn store_tx_route(
        &mut self,
        session_id: &SessionId,
        http_request_id: HttpRequestId,
        route_data: &RouteData,
    ) -> (result: Result<(), MemoryStateStoreError>)
        requires
            old(self).wf(),
            route_data.wf(),
        ensures
            final(self).wf(),
            exists|now: u128| final(self)@ == old(self)@.store_tx_route(session_id@, http_request_id, route_data@, now),
            result is Ok <==> old(self)@.session_exists(session_id@),
            result matches Err(e) ==> reports_missing_session(e, session_id@),
    {
        let now = now_nanos();
        self.store_tx_route_at(session_id, http_request_id, route_data, now)
    }

    pub fn get_tx_route(&self, session_id: &SessionId, http_request_id: HttpRequestId) -> (result: Result<
        Option<RouteData>,
        MemoryStateStoreError,
    >)
        requires
            self.wf(),
        ensures
            result matches Ok(found) && view_opt(found) == self@.tx_route(session_id@, http_request_id),
            result matches Ok(Some(route)) ==> route.wf(),
    {
        match self.sessions.get(session_id) {
            Some(session) => match session.tx_routes.get(&http_request_id) {
                Some(route) => Ok(Some(route.clone())),
                None => Ok(None),
            },
            None => Ok(None),
        }
    }

    /// Removes a transmit route of the session, recording activity at `now`; does
    /// nothing if the session does not exist.
    pub fn remove_tx_route_at(&mut self, session_id: &SessionId, http_request_id: HttpRequestId, now: u128) -> (result: Result<
        (),
        MemoryStateStoreError,
    >)
        requires
            old(self).wf(),
        ensures
            final(self).wf(),
            result is Ok,
            final(self)@ == old(self)@.remove_tx_route(session_id@, http_request_id, now),
    {
        match self.sessions.remove(session_id) {
            Some(mut session) => {
                let ghost s0 = old(self)@.sessions[session_id@];
                session.tx_routes.remove(&http_request_id);
                session.last_activity = now;
                assert(session@ =~= SessionState {
                    tx_routes: s0.tx_routes.remove(http_request_id),
                    last_activity: now,
                    ..s0
                });
                self.sessions.insert(session_id.clone(), session);
                assert(self@ =~= old(self)@.remove_tx_route(session_id@, http_request_id, now));
            },
            None => {
                assert(self@ =~= old(self)@);
            },
        }
        Ok(())
    }

    /// Removes a transmit route of the session, recording activity at the current time.
    pub fn remove_tx_route(&mut self, session_id: &SessionId, http_request_id: HttpRequestId) -> (result: Result<
        (),
        MemoryStateStoreError,
    >)
        requires
            old(self).wf(),
        ensures
            final(self).wf(),
            result is Ok,
            exists|now: u128| final(self)@ == old(self)@.remove_tx_route(session_id@, http_request_id, now),
    {
        let now = now_nanos();
        self.remove_tx_route_at(session_id, http_request_id, now)
    }

    /// All transmit routes of the session, each once; none if the session does not exist.
    pub fn list_tx_routes(&self, session_id: &SessionId) -> (result: Result<
        Vec<(HttpRequestId, RouteData)>,
        MemoryStateStoreError,
    >)
        requires
            self.wf(),
        ensures
            result matches Ok(routes) && lists_map(
                routes@.map_values(|p: (HttpRequestId, RouteData)| (p.0, p.1@)),
                self@.tx_routes(session_id@),
            ),
            result matches Ok(routes) ==> forall|t: int| 0 <= t < routes@.len() ==> (#[trigger] routes@[t]).1.wf(),
    {
        let mut out: Vec<(HttpRequestId, RouteData)> = Vec::new();
        match self.sessions.get(session_id) {
            Some(session) => {
                let routes = &session.tx_routes;
                let n = routes.len();
                let mut i: usize = 0;
                while i < n
                    invariant
                        routes.wf(),
                        n == routes.spec_len(),
                        i <= n,
                        out@.len() == i,
                        forall|t: int| 0 <= t < i ==> #[trigger] out@[t].0 == routes.key_of(t) && out@[t].1@ == routes.val_of(t)@,
                        forall|t: int| 0 <= t < i ==> (#[trigger] out@[t]).1.wf(),
                    decreases n - i,
                {
                    out.push((*routes.key_at(i), routes.value_at(i).clone()));
                    i = i + 1;
                }
                proof {
                    let s = out@.map_values(|p: (HttpRequestId, RouteData)| (p.0, p.1@));
                    let f = |v: RouteDataView| v;
                    assert forall|t: int| 0 <= t < s.len() implies #[trigger] s[t] == (routes.key_of(t), f(routes.val_of(t)@)) by {}
                    routes.lemma_listing(s, f);
                    assert(routes.as_map().map_values(f) =~= routes.as_map());
                }
            },
            None => {
                proof {
                    let s = out@.map_values(|p: (HttpRequestId, RouteData)| (p.0, p.1@));
                    assert(s.len() == 0);
                }
            },
        }
        Ok(out)
    }

    /// Routes the resource to the request in the session, stamped with `now`; fails if
    /// the session does not exist.
    pub fn store_resource_route_at(
        &mut self,
        session_id: &SessionId,
        resource_key: &ResourceKey,
        http_request_id: HttpRequestId,
        now: u128,
    ) -> (result: Result<(), MemoryStateStoreError>)
        requires
            old(self).wf(),
        ensures
            final(self).wf(),
            final(self)@ == old(self)@.store_resource_route(session_id@, resource_key@, http_request_id, now),
            result is Ok <==> old(self)@.session_exists(session_id@),
            result matches Err(e) ==> reports_missing_session(e, session_id@),
    {
        match self.sessions.remove(session_id) {
            Some(mut session) => {
                let ghost s0 = old(self)@.sessions[session_id@];
                session.resource_routes.insert(resource_key.clone(), http_request_id);
                session.last_activity = now;
                assert(session@ =~= SessionState {
                    resource_routes: s0.resource_routes.insert(resource_key@, http_request_id),
                    last_activity: now,
                    ..s0
                });
                self.sessions.insert(session_id.clone(), session);
                assert(self@ =~= old(self)@.store_resource_route(session_id@, resource_key@, http_request_id, now));
                Ok(())
            },
            None => Err(MemoryStateStoreError::SessionNotFound(session_id.clone())),
        }
    }

    /// Routes the resource to the request in the session, stamped with the current time.
    pub fn store_resource_route(
        &mut self,
        session_id: &SessionId,
        resource_key: &ResourceKey,
        http_request_id: HttpRequestId,
    ) -> (result: Result<(), MemoryStateStoreError>)
        requires
            old(self).wf(),
        ensures
            final(self).wf(),
            exists|now: u128| final(self)@ == old(self)@.store_resource_route(session_id@, resource_key@, http_request_id, now),
            result is Ok <==> old(self)@.session_exists(session_id@),
            result matches Err(e) ==> reports_missing_session(e, session_id@),
    {
        let now = now_nanos();
        self.store_resource_route_at(session_id, resource_key, http_request_id, now)
    }

    pub fn get_resource_route(&self, session_id: &SessionId, resource_key: &ResourceKey) -> (result: Result<
        Option<HttpRequestId>,
        MemoryStateStoreError,
    >)
        requires
            self.wf(),
        ensures
            result == Ok::<Option<HttpRequestId>, MemoryStateStoreError>(
                self@.resource_route(session_id@, resource_key@),
            ),
    {
        match self.sessions.get(session_id) {
            Some(session) => match session.resource_routes.get(resource_key) {
                Some(id) => Ok(Some(*id)),
                None => Ok(None),
            },
            None => Ok(None),
        }
    }

    /// Removes the resource's route in the session, recording activity at `now`; does
    /// nothing if the session does not exist.
    pub fn remove_resource_route_at(&mut self, session_id: &SessionId, resource_key: &ResourceKey, now: u128) -> (result: Result<
        (),
        MemoryStateStoreError,
    >)
        requires
            old(self).wf(),
        ensures
            final(self).wf(),
            result is Ok,
            final(self)@ == old(self)@.remove_resource_route(session_id@, resource_key@, now),
    {
        match self.sessions.remove(session_id) {
            Some(mut session) => {
                let ghost s0 = old(self)@.sessions[session_id@];
                session.resource_routes.remove(resource_key);
                session.last_activity = now;
                assert(session@ =~= SessionState {
                    resource_routes: s0.resource_routes.remove(resource_key@),
                    last_activity: now,
                    ..s0
                });
                self.sessions.insert(session_id.clone(), session);
                assert(self@ =~= old(self)@.remove_resource_route(session_id@, resource_key@, now));
            },
            None => {
                assert(self@ =~= old(self)@);
            },
        }
        Ok(())
    }

    /// Removes the resource's route in the session, recording activity at the current time.
    pub fn remove_resource_route(&mut self, session_id: &SessionId, resource_key: &ResourceKey) -> (result: Result<
        (),
        MemoryStateStoreError,
    >)
        requires
            old(self).wf(),
        ensures
            final(self).wf(),
            result is Ok,
            exists|now: u128| final(self)@ == old(self)@.remove_resource_route(session_id@, resource_key@, now),
    {
        let now = now_nanos();
        self.remove_resource_route_at(session_id, resource_key, now)
    }

    /// All resource routes of the session, each once; none if the session does not exist.
    pub fn list_resource_routes(&self, session_id: &SessionId) -> (result: Result<
        Vec<(ResourceKey, HttpRequestId)>,
        MemoryStateStoreError,
    >)
        requires
            self.wf(),
        ensures
            result matches Ok(routes) && lists_map(
                routes@.map_values(|p: (ResourceKey, HttpRequestId)| (p.0@, p.1)),
                self@.resource_routes(session_id@),
            ),
    {
        let mut out: Vec<(ResourceKey, HttpRequestId)> = Vec::new();
        match self.sessions.get(session_id) {
            Some(session) => {
                let routes = &session.resource_routes;
                let n = routes.len();
                let mut i: usize = 0;
                while i < n
                    invariant
                        routes.wf(),
                        n == routes.spec_len(),
                        i <= n,
                        out@.len() == i,
                        forall|t: int| 0 <= t < i ==> #[trigger] out@[t].0@ == routes.key_of(t) && out@[t].1 == routes.val_of(t),
                    decreases n - i,
                {
                    out.push((routes.key_at(i).clone(), *routes.value_at(i)));
                    i = i + 1;
                }
                proof {
                    let s = out@.map_values(|p: (ResourceKey, HttpRequestId)| (p.0@, p.1));
                    let f = |v: HttpRequestId| v;
                    assert forall|t: int| 0 <= t < s.len() implies #[trigger] s[t] == (routes.key_of(t), f(routes.val_of(t)@)) by {}
                    routes.lemma_listing(s, f);
                    assert(routes.as_map().map_values(f) =~= routes.as_map());
                }
            },
            None => {
                proof {
                    let s = out@.map_values(|p: (ResourceKey, HttpRequestId)| (p.0@, p.1));
                    assert(s.len() == 0);
                }
            },
        }
        Ok(out)
    }

    /// Appends the message to the session's cache for `channel`, recording activity at
    /// `now`; fails if the session does not exist.
    pub fn cache_message_at(
        &mut self,
        session_id: &SessionId,
        http_request_id: Option<HttpRequestId>,
        message: &ServerSessionMessage,
        now: u128,
    ) -> (result: Result<(), MemoryStateStoreError>)
        requires
            old(self).wf(),
        ensures
            final(self).wf(),
            final(self)@ == old(self)@.cache_message(session_id@, http_request_id, *message, now),
            result is Ok <==> old(self)@.session_exists(session_id@),
            result matches Err(e) ==> reports_missing_session(e, session_id@),
    {
        match self.sessions.remove(session_id) {
            Some(mut session) => {
                let ghost s0 = old(self)@.sessions[session_id@];
                let mut cache = match session.message_cache.remove(&http_request_id) {
                    Some(c) => c,
                    None => VecDeque::new(),
                };
                assert(cache@ == s0.cached(http_request_id));
                cache.push_back(message.clone());
                session.message_cache.insert(http_request_id, cache);
                session.last_activity = now;
                assert(session@.message_cache =~= s0.message_cache.insert(
                    http_request_id,
                    s0.cached(http_request_id).push(*message),
                ));
                assert(session@ =~= SessionState {
                    message_cache: s0.message_cache.insert(
                        http_request_id,
                        s0.cached(http_request_id).push(*message),
                    ),
                    last_activity: now,
                    ..s0
                });
                self.sessions.insert(session_id.clone(), session);
                assert(self@ =~= old(self)@.cache_message(session_id@, http_request_id, *message, now));
                Ok(())
            },
            None => Err(MemoryStateStoreError::SessionNotFound(session_id.clone())),
        }
    }

    /// Appends the message to the session's cache for `channel`, recording activity at
    /// the current time; fails if the session does not exist.
    pub fn cache_message(
        &mut self,
        session_id: &SessionId,
        http_request_id: Option<HttpRequestId>,
        message: &ServerSessionMessage,
    ) -> (result: Result<(), MemoryStateStoreError>)
        requires
            old(self).wf(),
        ensures
            final(self).wf(),
            exists|now: u128| final(self)@ == old(self)@.cache_message(session_id@, http_request_id, *message, now),
            result is Ok <==> old(self)@.session_exists(session_id@),
            result matches Err(e) ==> reports_missing_session(e, session_id@),
    {
        let now = now_nanos();
        self.cache_message_at(session_id, http_request_id, message, now)
    }

    /// The messages cached for the session on `channel`, from position `from_index` on.
    pub fn get_cached_messages(
        &self,
        session_id: &SessionId,
        http_request_id: Option<HttpRequestId>,
        from_index: usize,
    ) -> (result: Result<Vec<ServerSessionMessage>, MemoryStateStoreError>)
        requires
            self.wf(),
        ensures
            result matches Ok(messages) && messages@ == messages_from(
                self@.cached(session_id@, http_request_id),
                from_index as nat,
            ),
    {
        let mut out: Vec<ServerSessionMessage> = Vec::new();
        match self.sessions.get(session_id) {
            Some(session) => match session.message_cache.get(&http_request_id) {
                Some(cache) => {
                    let n = cache.len();
                    let mut i = from_index;
                    while i < n
                        invariant
                            n == cache@.len(),
                            from_index <= i,
                            from_index < n ==> i <= n && out@ =~= cache@.subrange(from_index as int, i as int),
                            from_index >= n ==> out@.len() == 0,
                        decreases n - i,
                    {
                        out.push(cache[i].clone());
                        i = i + 1;
                    }
                },
                None => {},
            },
            None => {},
        }
        Ok(out)
    }

    /// Drops the oldest messages of the session's cache for `channel` until at most
    /// `max_size` remain, recording activity at `now`; does nothing if the session does
    /// not exist.
    pub fn trim_cache_at(
        &mut self,
        session_id: &SessionId,
        http_request_id: Option<HttpRequestId>,
        max_size: usize,
        now: u128,
    ) -> (result: Result<(), MemoryStateStoreError>)
        requires
            old(self).wf(),
        ensures
            final(self).wf(),
            result is Ok,
            final(self)@ == old(self)@.trim_cache(session_id@, http_request_id, max_size as nat, now),
    {
        match self.sessions.remove(session_id) {
            Some(mut session) => {
                let ghost s0 = old(self)@.sessions[session_id@];
                match session.message_cache.remove(&http_request_id) {
                    Some(mut cache) => {
                        let ghost c0 = cache@;
                        while cache.len() > max_size
                            invariant
                                cache@ == c0.subrange(c0.len() - cache@.len(), c0.len() as int),
                                cache@.len() <= c0.len(),
                                c0.len() <= max_size ==> cache@.len() == c0.len(),
                                c0.len() > max_size ==> cache@.len() >= max_size,
                            decreases cache@.len(),
                        {
                            cache.pop_front();
                        }
                        assert(cache@ =~= keep_newest(c0, max_size as nat));
                        session.message_cache.insert(http_request_id, cache);
                        assert(session@.message_cache =~= s0.message_cache.insert(
                            http_request_id,
                            keep_newest(s0.message_cache[http_request_id], max_size as nat),
                        ));
                    },
                    None => {
                        assert(session@.message_cache =~= s0.message_cache);
                    },
                }
                session.last_activity = now;
                self.sessions.insert(session_id.clone(), session);
                assert(self@ =~= old(self)@.trim_cache(session_id@, http_request_id, max_size as nat, now));
            },
            None => {
                assert(self@ =~= old(self)@);
            },
        }
        Ok(())
    }

    /// Drops the oldest cached messages until at most `max_size` remain, recording
    /// activity at the current time.
    pub fn trim_cache(
        &mut self,
        session_id: &SessionId,
        http_request_id: Option<HttpRequestId>,
        max_size: usize,
    ) -> (result: Result<(), MemoryStateStoreError>)
        requires
            old(self).wf(),
        ensures
            final(self).wf(),
            result is Ok,
            exists|now: u128| final(self)@ == old(self)@.trim_cache(session_id@, http_request_id, max_size as nat, now),
    {
        let now = now_nanos();
        self.trim_cache_at(session_id, http_request_id, max_size, now)
    }

    pub fn store_request_responder(
        &mut self,
        service_id: &str,
        request_id: &RequestId,
        responder_data: &ResponderData,
    ) -> (result: Result<(), MemoryStateStoreError>)
        requires
            old(self).wf(),
        ensures
            final(self).wf(),
            result is Ok,
            final(self)@ == old(self)@.store_request_responder(service_id@, request_id@, *responder_data),
    {
        self.request_responders.insert((String::from_str(service_id), request_id.clone()), *responder_data);
        assert(self@ =~= old(self)@.store_request_responder(service_id@, request_id@, *responder_data));
        Ok(())
    }

    pub fn get_request_responder(&self, service_id: &str, request_id: &RequestId) -> (result: Result<
        Option<ResponderData>,
        MemoryStateStoreError,
    >)
        requires
            self.wf(),
        ensures
            result == Ok::<Option<ResponderData>, MemoryStateStoreError>(
                map_get(self@.request_responders, (service_id@, request_id@)),
            ),
    {
        let key = (String::from_str(service_id), request_id.clone());
        match self.request_responders.get(&key) {
            Some(r) => Ok(Some(*r)),
            None => Ok(None),
        }
    }

    pub fn remove_request_responder(&mut self, service_id: &str, request_id: &RequestId) -> (result: Result<
        (),
        MemoryStateStoreError,
    >)
        requires
            old(self).wf(),
        ensures
            final(self).wf(),
            result is Ok,
            final(self)@ == old(self)@.remove_request_responder(service_id@, request_id@),
    {
        let key = (String::from_str(service_id), request_id.clone());
        self.request_responders.remove(&key);
        assert(self@ =~= old(self)@.remove_request_responder(service_id@, request_id@));
        Ok(())
    }

    pub fn store_cancellation_token(
        &mut self,
        service_id: &str,
        request_id: &RequestId,
        token_data: &CancellationTokenData,
    ) -> (result: Result<(), MemoryStateStoreError>)
        requires
            old(self).wf(),
        ensures
            final(self).wf(),
            result is Ok,
            final(self)@ == old(self)@.store_cancellation_token(service_id@, request_id@, token_data@),
    {
        self.cancellation_tokens.insert((String::from_str(service_id), request_id.clone()), token_data.clone());
        assert(self@ =~= old(self)@.store_cancellation_token(service_id@, request_id@, token_data@));
        Ok(())
    }

    pub fn get_cancellation_token(&self, service_id: &str, request_id: &RequestId) -> (result: Result<
        Option<CancellationTokenData>,
        MemoryStateStoreError,
    >)
        requires
            self.wf(),
        ensures
            result matches Ok(found) && view_opt(found) == map_get(
                self@.cancellation_tokens,
                (service_id@, request_id@),
            ),
    {
        let key = (String::from_str(service_id), request_id.clone());
        match self.cancellation_tokens.get(&key) {
            Some(t) => Ok(Some(t.clone())),
            None => Ok(None),
        }
    }

    pub fn remove_cancellation_token(&mut self, service_id: &str, request_id: &RequestId) -> (result: Result<
        (),
        MemoryStateStoreError,
    >)
        requires
            old(self).wf(),
        ensures
            final(self).wf(),
            result is Ok,
            final(self)@ == old(self)@.remove_cancellation_token(service_id@, request_id@),
    {
        let key = (String::from_str(service_id), request_id.clone());
        self.cancellation_tokens.remove(&key);
        assert(self@ =~= old(self)@.remove_cancellation_token(service_id@, request_id@));
        Ok(())
    }

    /// The server instance holding the session's SSE connection, if it has one.
    pub fn find_session_instance(&self, session_id: &SessionId) -> (result: Result<
        Option<String>,
        MemoryStateStoreError,
    >)
        requires
            self.wf(),
        ensures
            result matches Ok(found) && view_opt(found) == self@.session_instance(session_id@),
    {
        match self.sse_connections.get(session_id) {
            Some(c) => Ok(Some(c.server_instance_id.clone())),
            None => Ok(None),
        }
    }

    /// Every session with an SSE connection, with the server instance holding it, each once.
    pub fn list_active_sessions(&self) -> (result: Result<
        Vec<(SessionId, String)>,
        MemoryStateStoreError,
    >)
        requires
            self.wf(),
        ensures
            result matches Ok(sessions) && lists_map(
                sessions@.map_values(|p: (SessionId, String)| (p.0@, p.1@)),
                self@.active_sessions(),
            ),
    {
        let conns = &self.sse_connections;
        let mut out: Vec<(SessionId, String)> = Vec::new();
        let n = conns.len();
        let mut i: usize = 0;
        while i < n
            invariant
                conns.wf(),
                n == conns.spec_len(),
                i <= n,
                out@.len() == i,
                forall|t: int| 0 <= t < i ==> #[trigger] out@[t].0@ == conns.key_of(t) && out@[t].1@ == conns.val_of(t)@.server_instance_id,
            decreases n - i,
        {
            let session_id = conns.key_at(i).clone();
            let instance = conns.value_at(i).server_instance_id.clone();
            out.push((session_id, instance));
            assert(out@[i as int].0@ == conns.key_of(i as int));
            i = i + 1;
        }
        proof {
            let s = out@.map_values(|p: (SessionId, String)| (p.0@, p.1@));
            let f = |c: SseConnectionView| c.server_instance_id;
            assert forall|t: int| 0 <= t < s.len() implies #[trigger] s[t] == (conns.key_of(t), f(conns.val_of(t)@)) by {}
            conns.lemma_listing(s, f);
        }
        Ok(out)
    }

    /// The sessions whose SSE connection is held by the instance, each once.
    pub fn list_sessions_by_instance(&self, server_instance_id: &str) -> (result: Result<
        Vec<SessionId>,
        MemoryStateStoreError,
    >)
        requires
            self.wf(),
        ensures
            result matches Ok(sessions) && lists_set(
                string_views(sessions@),
                self@.sessions_of_instance(server_instance_id@),
            ),
    {
        let conns = &self.sse_connections;
        let instance = String::from_str(server_instance_id);
        let ghost p = |id: Seq<char>, c: SseConnectionView| c.server_instance_id == server_instance_id@;
        let ghost g = |id: Seq<char>, c: SseConnectionView| id;
        let ghost none = |id: Seq<char>| false;
        let mut out: Vec<SessionId> = Vec::new();
        let n = conns.len();
        let mut i: usize = 0;
        while i < n
            invariant
                conns.wf(),
                n == conns.spec_len(),
                i <= n,
                instance@ == server_instance_id@,
                p == (|id: Seq<char>, c: SseConnectionView| c.server_instance_id == server_instance_id@),
                g == (|id: Seq<char>, c: SseConnectionView| id),
                none == (|id: Seq<char>| false),
                string_views(out@).no_duplicates(),
                forall|x: Seq<char>|
                    #[trigger] string_views(out@).contains(x) <==> (none(x) || conns.listed_before(i as int, p, g, x)),
            decreases n - i,
        {
            let ghost before = string_views(out@);
            if conns.value_at(i).server_instance_id.eq(&instance) {
                let key = conns.key_at(i).clone();
                proof {
                    conns.lemma_next_key_unlisted(before, i as int, p, g);
                }
                out.push(key);
                assert(string_views(out@) =~= before.push(key@));
            }
            proof {
                conns.lemma_listing_step(before, string_views(out@), i as int, p, g, none);
            }
            i = i + 1;
        }
        proof {
            conns.lemma_filtered_keys(string_views(out@), p, g);
            assert forall|x: Seq<char>|
                #[trigger] self@.sessions_of_instance(server_instance_id@).contains(x) <==> string_views(out@).contains(x) by {}
        }
        Ok(out)
    }

    /// Whether the session's SSE connection was pinged at most `max_idle` nanoseconds
    /// before `now`; false if it has none.
    pub fn is_session_healthy_at(&self, session_id: &SessionId, max_idle: u128, now: u128) -> (result: Result<
        bool,
        MemoryStateStoreError,
    >)
        requires
            self.wf(),
        ensures
            result == Ok::<bool, MemoryStateStoreError>(self@.is_session_healthy(session_id@, max_idle, now)),
    {
        match self.sse_connections.get(session_id) {
            Some(c) => Ok(connection_is_healthy(c, max_idle, now)),
            None => Ok(false),
        }
    }

    /// Whether the session's SSE connection was pinged at most `max_idle` nanoseconds
    /// ago; false if it has none.
    pub fn is_session_healthy(&self, session_id: &SessionId, max_idle: u128) -> (result: Result<
        bool,
        MemoryStateStoreError,
    >)
        requires
            self.wf(),
        ensures
            exists|now: u128|
                result == Ok::<bool, MemoryStateStoreError>(self@.is_session_healthy(session_id@, max_idle, now)),
    {
        let now = now_nanos();
        self.is_session_healthy_at(session_id, max_idle, now)
    }

    /// Marks the session's SSE connection as pinged at `now` and records activity on the
    /// session; fails if neither exists.
    pub fn update_session_heartbeat_at(&mut self, session_id: &SessionId, now: u128) -> (result: Result<
        (),
        MemoryStateStoreError,
    >)
        requires
            old(self).wf(),
        ensures
            final(self).wf(),
            final(self)@ == old(self)@.update_session_heartbeat(session_id@, now),
            result is Ok <==> old(self)@.heartbeat_accepted(session_id@),
            result matches Err(e) ==> reports_missing_session(e, session_id@),
    {
        let has_session = self.sessions.contains_key(session_id);
        if has_session {
            let _ = self.update_session_ttl_at(session_id, 0, now);
        }
        let ghost touched = self@;
        assert(touched == old(self)@.touch(session_id@, now));
        match self.sse_connections.remove(session_id) {
            Some(mut c) => {
                c.last_ping = now;
                let ghost c0 = old(self)@.sse_connections[session_id@];
                assert(c@ == SseConnectionView { last_ping: now, ..c0 });
                self.sse_connections.insert(session_id.clone(), c);
                assert(self@ =~= old(self)@.update_session_heartbeat(session_id@, now));
                Ok(())
            },
            None => {
                assert(self@ =~= old(self)@.update_session_heartbeat(session_id@, now));
                if has_session {
                    Ok(())
                } else {
                    Err(MemoryStateStoreError::SessionNotFound(session_id.clone()))
                }
            },
        }
    }

    /// Marks the session's SSE connection as pinged now and records activity on the
    /// session; fails if neither exists.
    pub fn update_session_heartbeat(&mut self, session_id: &SessionId) -> (result: Result<
        (),
        MemoryStateStoreError,
    >)
        requires
            old(self).wf(),
        ensures
            final(self).wf(),
            exists|now: u128| final(self)@ == old(self)@.update_session_heartbeat(session_id@, now),
            result is Ok <==> old(self)@.heartbeat_accepted(session_id@),
            result matches Err(e) ==> reports_missing_session(e, session_id@),
    {
        let now = now_nanos();
        self.update_session_heartbeat_at(session_id, now)
    }

    /// The sessions whose SSE connection was last pinged more than `max_idle` before `now`.
    fn stale_session_ids(&self, max_idle: u128, now: u128) -> (stale: Vec<SessionId>)
        requires
            self.wf(),
        ensures
            lists_set(string_views(stale@), self@.stale_sessions(max_idle, now)),
    {
        let conns = &self.sse_connections;
        let ghost p = |id: Seq<char>, c: SseConnectionView| idle_time(c.last_ping, now) > max_idle;
        let ghost g = |id: Seq<char>, c: SseConnectionView| id;
        let ghost none = |id: Seq<char>| false;
        let mut out: Vec<SessionId> = Vec::new();
        let n = conns.len();
        let mut i: usize = 0;
        while i < n
            invariant
                conns.wf(),
                n == conns.spec_len(),
                i <= n,
                p == (|id: Seq<char>, c: SseConnectionView| idle_time(c.last_ping, now) > max_idle),
                g == (|id: Seq<char>, c: SseConnectionView| id),
                none == (|id: Seq<char>| false),
                string_views(out@).no_duplicates(),
                forall|x: Seq<char>|
                    #[trigger] string_views(out@).contains(x) <==> (none(x) || conns.listed_before(i as int, p, g, x)),
            decreases n - i,
        {
            let ghost before = string_views(out@);
            if !connection_is_healthy(conns.value_at(i), max_idle, now) {
                let key = conns.key_at(i).clone();
                proof {
                    conns.lemma_next_key_unlisted(before, i as int, p, g);
                }
                out.push(key);
                assert(string_views(out@) =~= before.push(key@));
            }
            proof {
                conns.lemma_listing_step(before, string_views(out@), i as int, p, g, none);
            }
            i = i + 1;
        }
        proof {
            conns.lemma_filtered_keys(string_views(out@), p, g);
            assert forall|x: Seq<char>|
                #[trigger] self@.stale_sessions(max_idle, now).contains(x) <==> string_views(out@).contains(x) by {}
        }
        out
    }

    /// Removes every session whose SSE connection was last pinged more than `max_idle`
    /// nanoseconds before `now`, with its handle and connection, and lists them.
    pub fn cleanup_stale_sessions_at(&mut self, max_idle: u128, now: u128) -> (result: Result<
        Vec<SessionId>,
        MemoryStateStoreError,
    >)
        requires
            old(self).wf(),
        ensures
            final(self).wf(),
            final(self)@ == old(self)@.cleanup_stale_sessions(max_idle, now),
            result matches Ok(removed) && lists_set(
                string_views(removed@),
                old(self)@.stale_sessions(max_idle, now),
            ),
    {
        let stale = self.stale_session_ids(max_idle, now);
        let ghost orig = self@;
        let ghost views = string_views(stale@);
        let n = stale.len();
        let mut k: usize = 0;
        while k < n
            invariant
                self.wf(),
                n == stale@.len(),
                k <= n,
                views == string_views(stale@),
                self@ == orig.delete_sessions(Set::new(|x: Seq<char>| exists|t: int| 0 <= t < k && views[t] == x)),
            decreases n - k,
        {
            let ghost done = Set::new(|x: Seq<char>| exists|t: int| 0 <= t < k && views[t] == x);
            let ghost next = Set::new(|x: Seq<char>| exists|t: int| 0 <= t < k + 1 && views[t] == x);
            let _ = self.delete_session(&stale[k]);
            proof {
                assert(views[k as int] == stale@[k as int]@);
                assert(next =~= done.insert(views[k as int]));
                assert(self@ =~= orig.delete_sessions(next));
            }
            k = k + 1;
        }
        proof {
            let done = Set::new(|x: Seq<char>| exists|t: int| 0 <= t < n && views[t] == x);
            assert forall|x: Seq<char>| #[trigger] done.contains(x) <==> orig.stale_sessions(max_idle, now).contains(x) by {
                if done.contains(x) {
                    let t = choose|t: int| 0 <= t < n && views[t] == x;
                    assert(views.contains(x));
                }
                if views.contains(x) {
                    let t = choose|t: int| 0 <= t < views.len() && views[t] == x;
                    assert(done.contains(x));
                }
            }
            assert(done =~= orig.stale_sessions(max_idle, now));
        }
        Ok(stale)
    }

    /// Removes every session whose SSE connection was last pinged more than `max_idle`
    /// nanoseconds ago, with its handle and connection, and lists them.
    pub fn cleanup_stale_sessions(&mut self, max_idle: u128) -> (result: Result<
        Vec<SessionId>,
        MemoryStateStoreError,
    >)
        requires
            old(self).wf(),
        ensures
            final(self).wf(),
            exists|now: u128|
                final(self)@ == old(self)@.cleanup_stale_sessions(max_idle, now) && (result matches Ok(
                    removed,
                ) && lists_set(string_views(removed@), old(self)@.stale_sessions(max_idle, now))),
    {
        let now = now_nanos();
        self.cleanup_stale_sessions_at(max_idle, now)
    }

    /// Records the instance as unhealthy at `now`, counting one more failed health check.
    pub fn mark_instance_unhealthy_at(&mut self, server_instance_id: &str, now: u128) -> (result: Result<
        (),
        MemoryStateStoreError,
    >)
        requires
            old(self).wf(),
        ensures
            final(self).wf(),
            result is Ok,
            final(self)@ == old(self)@.mark_instance_unhealthy(server_instance_id@, now),
    {
        let key = String::from_str(server_instance_id);
        let record = record_unhealthy(self.instance_health.get(&key), server_instance_id, now);
        self.instance_health.insert(key, record);
        assert(self@ =~= old(self)@.mark_instance_unhealthy(server_instance_id@, now));
        Ok(())
    }

    /// Records the instance as unhealthy, counting one more failed health check.
    pub fn mark_instance_unhealthy(&mut self, server_instance_id: &str) -> (result: Result<
        (),
        MemoryStateStoreError,
    >)
        requires
            old(self).wf(),
        ensures
            final(self).wf(),
            result is Ok,
            exists|now: u128| final(self)@ == old(self)@.mark_instance_unhealthy(server_instance_id@, now),
    {
        let now = now_nanos();
        self.mark_instance_unhealthy_at(server_instance_id, now)
    }

    /// Whether no health record says the instance is unhealthy.
    fn not_reported_unhealthy(&self, instance: &String) -> (ok: bool)
        requires
            self.wf(),
        ensures
            ok == self@.not_reported_unhealthy(instance@),
    {
        match self.instance_health.get(instance) {
            Some(h) => h.is_healthy,
            None => true,
        }
    }

    /// The healthy server instances, each once: those with a health record saying so,
    /// and those holding an SSE connection with no health record saying otherwise.
    pub fn get_healthy_instances(&self) -> (result: Result<Vec<String>, MemoryStateStoreError>)
        requires
            self.wf(),
        ensures
            result matches Ok(instances) && lists_set(string_views(instances@), self@.healthy_instances()),
    {
        let conns = &self.sse_connections;
        let health = &self.instance_health;
        let ghost st = self@;
        let ghost pc = |id: Seq<char>, c: SseConnectionView| st.not_reported_unhealthy(c.server_instance_id);
        let ghost gc = |id: Seq<char>, c: SseConnectionView| c.server_instance_id;
        let ghost ph = |i: Seq<char>, h: InstanceHealthView| h.is_healthy;
        let ghost gh = |i: Seq<char>, h: InstanceHealthView| i;
        let ghost none = |x: Seq<char>| false;
        let mut out: Vec<String> = Vec::new();
        let n = conns.len();
        let mut i: usize = 0;
        while i < n
            invariant
                self.wf(),
                st == self@,
                conns == &self.sse_connections,
                n == conns.spec_len(),
                i <= n,
                pc == (|id: Seq<char>, c: SseConnectionView| st.not_reported_unhealthy(c.server_instance_id)),
                gc == (|id: Seq<char>, c: SseConnectionView| c.server_instance_id),
                none == (|x: Seq<char>| false),
                string_views(out@).no_duplicates(),
                forall|x: Seq<char>|
                    #[trigger] string_views(out@).contains(x) <==> (none(x) || conns.listed_before(i as int, pc, gc, x)),
            decreases n - i,
        {
            let ghost before = string_views(out@);
            let instance = &conns.value_at(i).server_instance_id;
            if !strings_contain(&out, instance) && self.not_reported_unhealthy(instance) {
                out.push(instance.clone());
                assert(string_views(out@) =~= before.push(instance@));
            }
            proof {
                conns.lemma_listing_step(before, string_views(out@), i as int, pc, gc, none);
            }
            i = i + 1;
        }
        let ghost from_connections = |x: Seq<char>| conns.listed_before(n as int, pc, gc, x);
        let m = health.len();
        let mut i: usize = 0;
        while i < m
            invariant
                self.wf(),
                st == self@,
                health == &self.instance_health,
                m == health.spec_len(),
                i <= m,
                ph == (|i: Seq<char>, h: InstanceHealthView| h.is_healthy),
                gh == (|i: Seq<char>, h: InstanceHealthView| i),
                string_views(out@).no_duplicates(),
                forall|x: Seq<char>|
                    #[trigger] string_views(out@).contains(x) <==> (from_connections(x) || health.listed_before(
                        i as int,
                        ph,
                        gh,
                        x,
                    )),
            decreases m - i,
        {
            let ghost before = string_views(out@);
            let instance = health.key_at(i);
            if health.value_at(i).is_healthy && !strings_contain(&out, instance) {
                out.push(instance.clone());
                assert(string_views(out@) =~= before.push(instance@));
            }
            proof {
                health.lemma_listing_step(before, string_views(out@), i as int, ph, gh, from_connections);
            }
            i = i + 1;
        }
        proof {
            assert forall|x: Seq<char>| #[trigger] st.healthy_instances().contains(x) <==> string_views(out@).contains(x) by {
                if from_connections(x) {
                    let j = choose|j: int|
                        0 <= j < n && pc(#[trigger] conns.key_of(j), conns.val_of(j)@) && gc(conns.key_of(j), conns.val_of(j)@) == x;
                    conns.lemma_entry_in_map(j);
                    assert(st.sse_connections.contains_key(conns.key_of(j)));
                }
                if st.instance_holds_connection(x) && st.not_reported_unhealthy(x) {
                    let id = choose|id: Seq<char>|
                        #[trigger] st.sse_connections.contains_key(id) && st.sse_connections[id].server_instance_id == x;
                    let j = conns.lemma_map_key_has_entry(id);
                    assert(pc(conns.key_of(j), conns.val_of(j)@) && gc(conns.key_of(j), conns.val_of(j)@) == x);
                    assert(from_connections(x));
                }
                if health.listed_before(m as int, ph, gh, x) {
                    let j = choose|j: int|
                        0 <= j < m && ph(#[trigger] health.key_of(j), health.val_of(j)@) && gh(health.key_of(j), health.val_of(j)@) == x;
                    health.lemma_entry_in_map(j);
                }
                if st.instance_health.contains_key(x) && st.instance_health[x].is_healthy {
                    let j = health.lemma_map_key_has_entry(x);
                    assert(ph(health.key_of(j), health.val_of(j)@) && gh(health.key_of(j), health.val_of(j)@) == x);
                    assert(health.listed_before(m as int, ph, gh, x));
                }
            }
        }
        Ok(out)
    }
}

} // verus!
