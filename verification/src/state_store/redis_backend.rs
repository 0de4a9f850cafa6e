//! Redis state store: configuration, key naming and the arithmetic of its
//! commands. The commands themselves are sent by the caller.

use super::{HttpRequestId, SessionId};
use vstd::prelude::*;

verus! {

/// `redis::aio::ConnectionManager`, carried opaquely by the Redis state store.
#[verifier::external_type_specification]
#[verifier::external_body]
pub struct ExConnectionManager(redis::aio::ConnectionManager);

/// Another handle on the same managed connection.
///
/// Trusted: calls `ConnectionManager::clone`, whose `Clone` is derived: each field is
/// cloned, the shared connection by `Arc::clone` and the client, runtime and retry
/// settings by their own derived clones, so the copy equals the handle it was made from.
#[verifier::external_body]
fn share_connection(connection: &redis::aio::ConnectionManager) -> (shared: redis::aio::ConnectionManager)
    ensures
        shared == *connection,
{
    connection.clone()
}

/// `redis::Client`, a parsed Redis address that has not connected yet.
#[verifier::external_type_specification]
#[verifier::external_body]
pub struct ExRedisClient(redis::Client);

/// `redis::RedisError`, the error of the Redis client.
#[verifier::external_type_specification]
#[verifier::external_body]
pub struct ExRedisError(redis::RedisError);

/// Whether `redis::Client::open` accepts the URL `url`: a `redis`, `rediss`, `unix` or
/// `redis+unix` URL with what that scheme needs (a host; a socket path, on a build
/// target with Unix sockets; a numeric database).
pub uninterp spec fn redis_url_accepted(url: Seq<char>) -> bool;

/// A client for the Redis server at `url`; nothing is connected yet.
///
/// Trusted: calls `redis::Client::open`, which only parses the URL and fails exactly
/// when it does not accept it; its acceptance is a function of the URL alone.
#[verifier::external_body]
fn open_client(url: &str) -> (client: Result<redis::Client, redis::RedisError>)
    ensures
        client is Ok <==> redis_url_accepted(url@),
{
    redis::Client::open(url)
}

/// A client for the configured URL at position `i`, for trying the URLs one after
/// another; `None` once the list is exhausted.
pub fn client_at(config: &RedisConfig, i: usize) -> (client: Option<Result<redis::Client, redis::RedisError>>)
    ensures
        client is None <==> i >= config@.urls.len(),
        client matches Some(r) ==> (r is Ok <==> redis_url_accepted(config@.urls[i as int])),
{
    if i < config.urls.len() {
        Some(open_client(config.urls[i].as_str()))
    } else {
        None
    }
}

/// Redis state store configuration.
#[derive(Debug)]
pub struct RedisConfig {
    /// Redis connection URL(s); the first one is connected to.
    pub urls: Vec<String>,
    /// Key prefix for namespacing.
    pub key_prefix: String,
    /// Time-to-live of session data, in nanoseconds.
    pub session_ttl: u128,
    /// Maximum number of cached messages per channel.
    pub cache_capacity: usize,
}

/// The abstract value of a [`RedisConfig`].
pub struct RedisConfigView {
    pub urls: Seq<Seq<char>>,
    pub key_prefix: Seq<char>,
    pub session_ttl: u128,
    pub cache_capacity: usize,
}

/// Nanoseconds in a second.
pub const NANOS_PER_SEC: u128 = 1_000_000_000;

impl RedisConfigView {
    /// The default settings: a local Redis, prefix `rmcp`, one hour, a thousand messages.
    pub open spec fn default_settings() -> RedisConfigView {
        RedisConfigView {
            urls: seq!["redis://127.0.0.1:6379"@],
            key_prefix: "rmcp"@,
            session_ttl: 3_600_000_000_000,
            cache_capacity: 1000,
        }
    }
}

impl View for RedisConfig {
    type V = RedisConfigView;

    open spec fn view(&self) -> RedisConfigView {
        RedisConfigView {
            urls: self.urls@.map_values(|u: String| u@),
            key_prefix: self.key_prefix@,
            session_ttl: self.session_ttl,
            cache_capacity: self.cache_capacity,
        }
    }
}

impl Clone for RedisConfig {
    fn clone(&self) -> (copy: Self)
        ensures
            copy@ == self@,
    {
        let mut urls: Vec<String> = Vec::new();
        let n = self.urls.len();
        let mut i: usize = 0;
        while i < n
            invariant
                n == self.urls@.len(),
                i <= n,
                urls@.len() == i,
                forall|j: int| 0 <= j < i ==> #[trigger] urls@[j]@ == self.urls@[j]@,
            decreases n - i,
        {
            urls.push(self.urls[i].clone());
            i = i + 1;
        }
        let copy = RedisConfig {
            urls,
            key_prefix: self.key_prefix.clone(),
            session_ttl: self.session_ttl,
            cache_capacity: self.cache_capacity,
        };
        assert(copy@.urls =~= self@.urls);
        copy
    }
}

impl Default for RedisConfig {
    fn default() -> (config: Self)
        ensures
            config@ == RedisConfigView::default_settings(),
    {
        let config = RedisConfig {
            urls: vec![String::from_str("redis://127.0.0.1:6379")],
            key_prefix: String::from_str("rmcp"),
            session_ttl: 3_600_000_000_000,
            cache_capacity: 1000,
        };
        assert(config@.urls =~= seq!["redis://127.0.0.1:6379"@]);
        config
    }
}


/// The decimal digit `d` as a character.
pub open spec fn digit_char(d: nat) -> char {
    if d == 0 {
        '0'
    } else if d == 1 {
        '1'
    } else if d == 2 {
        '2'
    } else if d == 3 {
        '3'
    } else if d == 4 {
        '4'
    } else if d == 5 {
        '5'
    } else if d == 6 {
        '6'
    } else if d == 7 {
        '7'
    } else if d == 8 {
        '8'
    } else {
        '9'
    }
}

/// The decimal representation of `n`, without leading zeros.
pub open spec fn decimal(n: nat) -> Seq<char>
    decreases n,
{
    if n < 10 {
        seq![digit_char(n)]
    } else {
        decimal(n / 10).push(digit_char(n % 10))
    }
}

/// The digit `d` as a one-character string.
fn digit_str(d: u64) -> (s: &'static str)
    requires
        d < 10,
    ensures
        s@ == seq![digit_char(d as nat)],
{
    proof {
        reveal_strlit("0");
        reveal_strlit("1");
        reveal_strlit("2");
        reveal_strlit("3");
        reveal_strlit("4");
        reveal_strlit("5");
        reveal_strlit("6");
        reveal_strlit("7");
        reveal_strlit("8");
        reveal_strlit("9");
    }
    match d {
        0 => "0",
        1 => "1",
        2 => "2",
        3 => "3",
        4 => "4",
        5 => "5",
        6 => "6",
        7 => "7",
        8 => "8",
        _ => "9",
    }
}

/// Appends the decimal representation of `n` to `s`.
fn append_decimal(s: &mut String, n: u64)
    ensures
        final(s)@ == old(s)@ + decimal(n as nat),
    decreases n,
{
    if n >= 10 {
        append_decimal(s, n / 10);
    }
    s.append(digit_str(n % 10));
    proof {
        if n >= 10 {
            assert(decimal(n as nat) == decimal((n / 10) as nat).push(digit_char((n % 10) as nat)));
        }
    }
}

/// Whole seconds in `ttl` nanoseconds, at most `u64::MAX`.
pub open spec fn ttl_seconds_of(ttl: u128) -> u128 {
    if ttl / NANOS_PER_SEC <= u64::MAX {
        ttl / NANOS_PER_SEC
    } else {
        u64::MAX as u128
    }
}

/// The key of a session's metadata.
pub open spec fn session_key_of(prefix: Seq<char>, id: Seq<char>) -> Seq<char> {
    prefix + ":session:"@ + id + ":meta"@
}

/// The key of a session's handle.
pub open spec fn session_handle_key_of(prefix: Seq<char>, id: Seq<char>) -> Seq<char> {
    prefix + ":session:"@ + id + ":handle"@
}

/// The key of a session's SSE connection.
pub open spec fn sse_connection_key_of(prefix: Seq<char>, id: Seq<char>) -> Seq<char> {
    prefix + ":sse:"@ + id + ":connection"@
}

/// The key of a session's transmit routes.
pub open spec fn tx_routes_key_of(prefix: Seq<char>, id: Seq<char>) -> Seq<char> {
    prefix + ":session:"@ + id + ":tx_routes"@
}

/// The key of a session's resource routes.
pub open spec fn resource_routes_key_of(prefix: Seq<char>, id: Seq<char>) -> Seq<char> {
    prefix + ":session:"@ + id + ":resource_routes"@
}

/// The key of a session's message cache for a channel (`None` is the common channel).
pub open spec fn cache_key_of(prefix: Seq<char>, id: Seq<char>, channel: Option<HttpRequestId>) -> Seq<char> {
    match channel {
        Some(req) => prefix + ":session:"@ + id + ":cache:request:"@ + decimal(req as nat),
        None => prefix + ":session:"@ + id + ":cache:common"@,
    }
}

/// Whether a Redis glob pattern gives `c` a meaning of its own.
pub open spec fn is_glob_special(c: char) -> bool {
    c == '*' || c == '?' || c == '[' || c == ']' || c == '\\'
}

/// `s` with a backslash before each character that a glob pattern gives a meaning of its
/// own, so that in a pattern it stands for itself.
pub open spec fn glob_escaped(s: Seq<char>) -> Seq<char>
    decreases s.len(),
{
    if s.len() == 0 {
        Seq::empty()
    } else {
        let earlier = glob_escaped(s.drop_last());
        if is_glob_special(s.last()) {
            earlier.push('\\').push(s.last())
        } else {
            earlier.push(s.last())
        }
    }
}

/// Appends `s` to `out`, escaped for a glob pattern.
fn append_glob_escaped(out: &mut String, s: &str)
    ensures
        final(out)@ == old(out)@ + glob_escaped(s@),
{
    let n = s.unicode_len();
    let mut i: usize = 0;
    while i < n
        invariant
            n == s@.len(),
            i <= n,
            out@ == old(out)@ + glob_escaped(s@.take(i as int)),
        decreases n - i,
    {
        let ghost before = out@;
        let c = s.get_char(i);
        let piece = s.substring_char(i, i + 1);
        assert(piece@ =~= seq![c]);
        assert(s@.take(i + 1).drop_last() =~= s@.take(i as int));
        assert(s@.take(i + 1).last() == c);
        let ghost e = glob_escaped(s@.take(i as int));
        if c == '*' || c == '?' || c == '[' || c == ']' || c == '\\' {
            let backslash = "\\";
            proof {
                reveal_strlit("\\");
                assert(backslash@ =~= seq!['\\']);
            }
            out.append(backslash);
            out.append(piece);
            assert(glob_escaped(s@.take(i + 1)) == e.push('\\').push(c));
            assert(out@ =~= old(out)@ + e.push('\\').push(c));
        } else {
            out.append(piece);
            assert(glob_escaped(s@.take(i + 1)) == e.push(c));
            assert(out@ =~= old(out)@ + e.push(c));
        }
        i = i + 1;
    }
    assert(s@.take(n as int) =~= s@);
}

/// The pattern matching the keys of a session's request-specific message caches; the
/// prefix and the session's identifier are escaped, so they match themselves only.
pub open spec fn request_cache_pattern_of(prefix: Seq<char>, id: Seq<char>) -> Seq<char> {
    glob_escaped(prefix) + ":session:"@ + glob_escaped(id) + ":cache:request:*"@
}

/// The key of a service's request responders.
pub open spec fn responders_key_of(prefix: Seq<char>, service: Seq<char>) -> Seq<char> {
    prefix + ":service:"@ + service + ":responders"@
}

/// The key of a service's cancellation tokens.
pub open spec fn tokens_key_of(prefix: Seq<char>, service: Seq<char>) -> Seq<char> {
    prefix + ":service:"@ + service + ":cancellation_tokens"@
}

/// The pattern matching the SSE connection keys of all sessions.
pub open spec fn sse_connection_pattern_of(prefix: Seq<char>) -> Seq<char> {
    glob_escaped(prefix) + ":sse:*:connection"@
}

/// The key of a server instance's health record.
pub open spec fn instance_health_key_of(prefix: Seq<char>, instance: Seq<char>) -> Seq<char> {
    prefix + ":instance:"@ + instance + ":health"@
}

/// The pattern matching the health record keys of all server instances.
pub open spec fn instance_health_pattern_of(prefix: Seq<char>) -> Seq<char> {
    glob_escaped(prefix) + ":instance:*:health"@
}

/// `prefix`, `infix`, `id` and `suffix` joined, as a string.
fn join_key(prefix: &String, infix: &str, id: &str, suffix: &str) -> (key: String)
    ensures
        key@ == prefix@ + infix@ + id@ + suffix@,
{
    let mut key = prefix.clone();
    key.append(infix);
    key.append(id);
    key.append(suffix);
    key
}

impl RedisConfig {
    pub fn session_key(&self, session_id: &SessionId) -> (key: String)
        ensures
            key@ == session_key_of(self@.key_prefix, session_id@),
    {
        join_key(&self.key_prefix, ":session:", session_id.as_str(), ":meta")
    }

    pub fn session_handle_key(&self, session_id: &SessionId) -> (key: String)
        ensures
            key@ == session_handle_key_of(self@.key_prefix, session_id@),
    {
        join_key(&self.key_prefix, ":session:", session_id.as_str(), ":handle")
    }

    pub fn sse_connection_key(&self, session_id: &SessionId) -> (key: String)
        ensures
            key@ == sse_connection_key_of(self@.key_prefix, session_id@),
    {
        join_key(&self.key_prefix, ":sse:", session_id.as_str(), ":connection")
    }

    pub fn tx_routes_key(&self, session_id: &SessionId) -> (key: String)
        ensures
            key@ == tx_routes_key_of(self@.key_prefix, session_id@),
    {
        join_key(&self.key_prefix, ":session:", session_id.as_str(), ":tx_routes")
    }

    pub fn resource_routes_key(&self, session_id: &SessionId) -> (key: String)
        ensures
            key@ == resource_routes_key_of(self@.key_prefix, session_id@),
    {
        join_key(&self.key_prefix, ":session:", session_id.as_str(), ":resource_routes")
    }

    pub fn cache_key(&self, session_id: &SessionId, http_request_id: Option<HttpRequestId>) -> (key: String)
        ensures
            key@ == cache_key_of(self@.key_prefix, session_id@, http_request_id),
    {
        match http_request_id {
            Some(id) => {
                let mut key = join_key(&self.key_prefix, ":session:", session_id.as_str(), ":cache:request:");
                append_decimal(&mut key, id);
                key
            },
            None => join_key(&self.key_prefix, ":session:", session_id.as_str(), ":cache:common"),
        }
    }

    /// The pattern matching the keys of the session's request-specific message caches.
    pub fn request_cache_pattern(&self, session_id: &SessionId) -> (pattern: String)
        ensures
            pattern@ == request_cache_pattern_of(self@.key_prefix, session_id@),
    {
        let mut pattern = String::new();
        append_glob_escaped(&mut pattern, self.key_prefix.as_str());
        pattern.append(":session:");
        append_glob_escaped(&mut pattern, session_id.as_str());
        pattern.append(":cache:request:*");
        pattern
    }

    pub fn responders_key(&self, service_id: &str) -> (key: String)
        ensures
            key@ == responders_key_of(self@.key_prefix, service_id@),
    {
        join_key(&self.key_prefix, ":service:", service_id, ":responders")
    }

    pub fn tokens_key(&self, service_id: &str) -> (key: String)
        ensures
            key@ == tokens_key_of(self@.key_prefix, service_id@),
    {
        join_key(&self.key_prefix, ":service:", service_id, ":cancellation_tokens")
    }

    /// The pattern matching the SSE connection keys of all sessions.
    pub fn sse_connection_pattern(&self) -> (pattern: String)
        ensures
            pattern@ == sse_connection_pattern_of(self@.key_prefix),
    {
        let mut pattern = String::new();
        append_glob_escaped(&mut pattern, self.key_prefix.as_str());
        pattern.append(":sse:*:connection");
        pattern
    }

    /// The session whose SSE connection key is `key`, if `key` is one.
    pub fn session_of_sse_connection_key(&self, key: &str) -> (session_id: Option<SessionId>)
        ensures
            match session_id {
                Some(id) => key@ == sse_connection_key_of(self@.key_prefix, id@),
                None => forall|id: Seq<char>| key@ != #[trigger] sse_connection_key_of(self@.key_prefix, id),
            },
    {
        let mut head = self.key_prefix.clone();
        head.append(":sse:");
        let tail = ":connection";
        let head_len = head.as_str().unicode_len();
        let tail_len = tail.unicode_len();
        let key_len = key.unicode_len();
        let ghost k = key@;
        assert forall|id: Seq<char>| k == #[trigger] sse_connection_key_of(self@.key_prefix, id) implies
            k.len() >= head@.len() + tail@.len() && k.subrange(0, head@.len() as int) == head@
                && k.subrange(k.len() - tail@.len(), k.len() as int) == tail@ by {
            assert(k == head@ + id + tail@);
            assert(k.subrange(0, head@.len() as int) =~= head@);
            assert(k.subrange(k.len() - tail@.len(), k.len() as int) =~= tail@);
        }
        if key_len < tail_len || key_len - tail_len < head_len {
            return None;
        }
        let front = String::from_str(key.substring_char(0, head_len));
        if !front.eq(&head) {
            return None;
        }
        let back = String::from_str(key.substring_char(key_len - tail_len, key_len));
        let tail_owned = String::from_str(tail);
        if !back.eq(&tail_owned) {
            return None;
        }
        let id = String::from_str(key.substring_char(head_len, key_len - tail_len));
        assert(k =~= head@ + id@ + tail@);
        Some(id)
    }

    /// The key of a server instance's health record.
    pub fn instance_health_key(&self, server_instance_id: &str) -> (key: String)
        ensures
            key@ == instance_health_key_of(self@.key_prefix, server_instance_id@),
    {
        join_key(&self.key_prefix, ":instance:", server_instance_id, ":health")
    }

    /// The pattern matching the health record keys of all server instances.
    pub fn instance_health_pattern(&self) -> (pattern: String)
        ensures
            pattern@ == instance_health_pattern_of(self@.key_prefix),
    {
        let mut pattern = String::new();
        append_glob_escaped(&mut pattern, self.key_prefix.as_str());
        pattern.append(":instance:*:health");
        pattern
    }

    /// Every key to delete with a session: its metadata, handle, SSE connection, both
    /// route tables and common message cache, then the request-specific caches found.
    pub fn session_keys(&self, session_id: &SessionId, request_cache_keys: Vec<String>) -> (keys: Vec<String>)
        ensures
            keys@.map_values(|k: String| k@) == seq![
                session_key_of(self@.key_prefix, session_id@),
                session_handle_key_of(self@.key_prefix, session_id@),
                sse_connection_key_of(self@.key_prefix, session_id@),
                tx_routes_key_of(self@.key_prefix, session_id@),
                resource_routes_key_of(self@.key_prefix, session_id@),
                cache_key_of(self@.key_prefix, session_id@, None),
            ] + request_cache_keys@.map_values(|k: String| k@),
    {
        let mut keys = vec![
            self.session_key(session_id),
            self.session_handle_key(session_id),
            self.sse_connection_key(session_id),
            self.tx_routes_key(session_id),
            self.resource_routes_key(session_id),
            self.cache_key(session_id, None),
        ];
        let ghost first = keys@;
        let mut extra = request_cache_keys;
        let ghost extra0 = extra@;
        keys.append(&mut extra);
        proof {
            assert(keys@ == first + extra0);
            assert(keys@.map_values(|k: String| k@) =~= first.map_values(|k: String| k@) + extra0.map_values(
                |k: String| k@,
            ));
        }
        keys
    }

    /// Whole seconds of the session time-to-live, as given to `SET ... EX`.
    pub fn ttl_seconds(&self) -> (secs: u64)
        ensures
            secs == ttl_seconds_of(self@.session_ttl),
    {
        let secs = self.session_ttl / NANOS_PER_SEC;
        if secs <= u64::MAX as u128 {
            secs as u64
        } else {
            u64::MAX
        }
    }
}

/// Redis state store: a connection and its configuration.
pub struct RedisStateStore {
    connection: redis::aio::ConnectionManager,
    config: RedisConfig,
}

impl Clone for RedisStateStore {
    fn clone(&self) -> (copy: Self)
        ensures
            copy.spec_config() == self.spec_config(),
            copy.spec_connection() == self.spec_connection(),
    {
        RedisStateStore { connection: share_connection(&self.connection), config: self.config.clone() }
    }
}

impl RedisStateStore {
    pub closed spec fn spec_config(&self) -> RedisConfigView {
        self.config@
    }

    /// The connection the store sends its commands on.
    pub closed spec fn spec_connection(&self) -> redis::aio::ConnectionManager {
        self.connection
    }

    /// The key prefix in use.
    pub open spec fn prefix(&self) -> Seq<char> {
        self.spec_config().key_prefix
    }

    /// A store over an open connection.
    pub fn from_connection(connection: redis::aio::ConnectionManager, config: RedisConfig) -> (store: Self)
        ensures
            store.spec_config() == config@,
            store.spec_connection() == connection,
    {
        RedisStateStore { connection, config }
    }

    /// The connection the store was built with.
    pub fn connection(&self) -> (connection: &redis::aio::ConnectionManager)
        ensures
            *connection == self.spec_connection(),
    {
        &self.connection
    }

    /// The configuration.
    pub fn config(&self) -> (config: &RedisConfig)
        ensures
            config@ == self.spec_config(),
    {
        &self.config
    }

    pub fn session_key(&self, session_id: &SessionId) -> (key: String)
        ensures
            key@ == session_key_of(self.prefix(), session_id@),
    {
        self.config.session_key(session_id)
    }

    pub fn session_handle_key(&self, session_id: &SessionId) -> (key: String)
        ensures
            key@ == session_handle_key_of(self.prefix(), session_id@),
    {
        self.config.session_handle_key(session_id)
    }

    pub fn sse_connection_key(&self, session_id: &SessionId) -> (key: String)
        ensures
            key@ == sse_connection_key_of(self.prefix(), session_id@),
    {
        self.config.sse_connection_key(session_id)
    }

    pub fn tx_routes_key(&self, session_id: &SessionId) -> (key: String)
        ensures
            key@ == tx_routes_key_of(self.prefix(), session_id@),
    {
        self.config.tx_routes_key(session_id)
    }

    pub fn resource_routes_key(&self, session_id: &SessionId) -> (key: String)
        ensures
            key@ == resource_routes_key_of(self.prefix(), session_id@),
    {
        self.config.resource_routes_key(session_id)
    }

    pub fn cache_key(&self, session_id: &SessionId, http_request_id: Option<HttpRequestId>) -> (key: String)
        ensures
            key@ == cache_key_of(self.prefix(), session_id@, http_request_id),
    {
        self.config.cache_key(session_id, http_request_id)
    }

    pub fn request_cache_pattern(&self, session_id: &SessionId) -> (pattern: String)
        ensures
            pattern@ == request_cache_pattern_of(self.prefix(), session_id@),
    {
        self.config.request_cache_pattern(session_id)
    }

    pub fn responders_key(&self, service_id: &str) -> (key: String)
        ensures
            key@ == responders_key_of(self.prefix(), service_id@),
    {
        self.config.responders_key(service_id)
    }

    pub fn tokens_key(&self, service_id: &str) -> (key: String)
        ensures
            key@ == tokens_key_of(self.prefix(), service_id@),
    {
        self.config.tokens_key(service_id)
    }

    /// The pattern matching the SSE connection keys of all sessions.
    pub fn sse_connection_pattern(&self) -> (pattern: String)
        ensures
            pattern@ == sse_connection_pattern_of(self.prefix()),
    {
        self.config.sse_connection_pattern()
    }

    /// The session whose SSE connection key is `key`, if `key` is one.
    pub fn session_of_sse_connection_key(&self, key: &str) -> (session_id: Option<SessionId>)
        ensures
            match session_id {
                Some(id) => key@ == sse_connection_key_of(self.prefix(), id@),
                None => forall|id: Seq<char>| key@ != #[trigger] sse_connection_key_of(self.prefix(), id),
            },
    {
        self.config.session_of_sse_connection_key(key)
    }

    /// The key of a server instance's health record.
    pub fn instance_health_key(&self, server_instance_id: &str) -> (key: String)
        ensures
            key@ == instance_health_key_of(self.prefix(), server_instance_id@),
    {
        self.config.instance_health_key(server_instance_id)
    }

    /// The pattern matching the health record keys of all server instances.
    pub fn instance_health_pattern(&self) -> (pattern: String)
        ensures
            pattern@ == instance_health_pattern_of(self.prefix()),
    {
        self.config.instance_health_pattern()
    }

    /// Every key to delete with a session: its metadata, handle, SSE connection, both
    /// route tables and common message cache, then the request-specific caches found.
    pub fn session_keys(&self, session_id: &SessionId, request_cache_keys: Vec<String>) -> (keys: Vec<String>)
        ensures
            keys@.map_values(|k: String| k@) == seq![
                session_key_of(self.prefix(), session_id@),
                session_handle_key_of(self.prefix(), session_id@),
                sse_connection_key_of(self.prefix(), session_id@),
                tx_routes_key_of(self.prefix(), session_id@),
                resource_routes_key_of(self.prefix(), session_id@),
                cache_key_of(self.prefix(), session_id@, None),
            ] + request_cache_keys@.map_values(|k: String| k@),
    {
        self.config.session_keys(session_id, request_cache_keys)
    }

    /// Whole seconds of the session time-to-live, as given to `SET ... EX`.
    pub fn ttl_seconds(&self) -> (secs: u64)
        ensures
            secs == ttl_seconds_of(self.spec_config().session_ttl),
    {
        self.config.ttl_seconds()
    }

    /// The last index that `LTRIM` keeps for a list of at most `max_size` entries. A
    /// size of 0 gives -1, as `max_size - 1` wraps to, which keeps the whole list; a
    /// size past the range of `isize` keeps the whole list too.
    pub fn trim_stop(max_size: usize) -> (stop: isize)
        ensures
            stop == (if max_size == 0 {
                -1
            } else if max_size - 1 <= isize::MAX {
                max_size - 1
            } else {
                isize::MAX as int
            }),
    {
        if max_size == 0 {
            -1
        } else if max_size - 1 <= isize::MAX as usize {
            (max_size - 1) as isize
        } else {
            isize::MAX
        }
    }
}

} // verus!
