//! Properties of the state store that relate several operations.
//!
//! Each law is stated over [`StoreState`], the abstract value that the
//! operations of [`super::MemoryStateStore`] are specified against, or over the
//! Redis key names that [`super::RedisStateStore`] builds.

use super::memory::{idle_time, keep_newest, messages_from, StoreState};
use super::redis_backend::{
    glob_escaped, instance_health_key_of, is_glob_special, cache_key_of, decimal, digit_char, request_cache_pattern_of, resource_routes_key_of, responders_key_of, session_handle_key_of,
    session_key_of, sse_connection_key_of, tokens_key_of, tx_routes_key_of,
};
use super::{
    lists_map, map_get, InstanceHealthView, CancellationTokenView, HttpRequestId, ResourceKeyView, ResponderData, RouteDataView,
    ServerSessionMessage, SessionHandleData, SseConnectionView,
};
use super::redis_replies::{
    all_decimal_digits, digit_value, digits_value, healthy_instances_of, held_by, idle_longer_than,
    is_decimal_digit, lrange, parsed_u64, sessions_where,
};
use crate::model::RequestIdView;
use vstd::prelude::*;

verus! {

/// A created session exists; a deleted one does not, and neither does its handle or
/// SSE connection.
pub proof fn law_session_lifecycle(s: StoreState, id: Seq<char>, now: u128)
    ensures
        s.create_session(id, now).session_exists(id),
        !s.create_session(id, now).delete_session(id).session_exists(id),
        !s.delete_session(id).session_exists(id),
        map_get(s.delete_session(id).session_handles, id) == None::<SessionHandleData>,
        map_get(s.delete_session(id).sse_connections, id) == None::<SseConnectionView>,
{
}

/// Creating a session starts it empty, also over an existing session of that name.
pub proof fn law_create_session_starts_empty(
    s: StoreState,
    id: Seq<char>,
    now: u128,
    req: HttpRequestId,
    key: ResourceKeyView,
    channel: Option<HttpRequestId>,
)
    ensures
        s.create_session(id, now).tx_route(id, req) == None::<RouteDataView>,
        s.create_session(id, now).resource_route(id, key) == None::<HttpRequestId>,
        s.create_session(id, now).cached(id, channel) == Seq::<ServerSessionMessage>::empty(),
{
}

/// Deleting one session leaves every other session, handle and connection as it was.
pub proof fn law_delete_session_spares_others(s: StoreState, id: Seq<char>, other: Seq<char>)
    requires
        id != other,
    ensures
        s.delete_session(id).session_exists(other) == s.session_exists(other),
        map_get(s.delete_session(id).session_handles, other) == map_get(s.session_handles, other),
        map_get(s.delete_session(id).sse_connections, other) == map_get(s.sse_connections, other),
        s.delete_session(id).tx_routes(other) == s.tx_routes(other),
{
}

/// A registered session handle is read back until it is removed.
pub proof fn law_session_handle_read_after_write(s: StoreState, id: Seq<char>, h: SessionHandleData)
    ensures
        map_get(s.register_session_handle(id, h).session_handles, id) == Some(h),
        map_get(s.register_session_handle(id, h).remove_session_handle(id).session_handles, id) == None::<
            SessionHandleData,
        >,
{
}

/// A registered SSE connection is read back, and names the instance holding the
/// session, until it is removed.
pub proof fn law_sse_connection_read_after_write(s: StoreState, id: Seq<char>, c: SseConnectionView)
    ensures
        map_get(s.register_sse_connection(id, c).sse_connections, id) == Some(c),
        s.register_sse_connection(id, c).session_instance(id) == Some(c.server_instance_id),
        s.register_sse_connection(id, c).active_sessions()[id] == c.server_instance_id,
        s.register_sse_connection(id, c).sessions_of_instance(c.server_instance_id).contains(id),
        s.register_sse_connection(id, c).remove_sse_connection(id).session_instance(id) == None::<
            Seq<char>,
        >,
        !s.register_sse_connection(id, c).remove_sse_connection(id).active_sessions().contains_key(id),
{
}

/// A session's connection is listed under exactly one instance.
pub proof fn law_session_listed_under_one_instance(s: StoreState, id: Seq<char>, a: Seq<char>, b: Seq<char>)
    requires
        s.sessions_of_instance(a).contains(id),
        s.sessions_of_instance(b).contains(id),
    ensures
        a == b,
        s.session_instance(id) == Some(a),
{
}

/// In an existing session, a stored transmit route is read back until it is removed;
/// in a missing session, storing changes nothing.
pub proof fn law_tx_route_read_after_write(
    s: StoreState,
    id: Seq<char>,
    req: HttpRequestId,
    route: RouteDataView,
    now: u128,
    later: u128,
)
    ensures
        s.session_exists(id) ==> s.store_tx_route(id, req, route, now).tx_route(id, req) == Some(route),
        s.store_tx_route(id, req, route, now).remove_tx_route(id, req, later).tx_route(id, req) == None::<
            RouteDataView,
        >,
        !s.session_exists(id) ==> s.store_tx_route(id, req, route, now) == s,
{
    if s.session_exists(id) {
        let t = s.store_tx_route(id, req, route, now);
        assert(t.tx_routes(id) == s.sessions[id].tx_routes.insert(req, route));
    }
}

/// Storing a transmit route touches no other route and no other session.
pub proof fn law_tx_route_frame(
    s: StoreState,
    id: Seq<char>,
    req: HttpRequestId,
    route: RouteDataView,
    now: u128,
    other_id: Seq<char>,
    other_req: HttpRequestId,
)
    requires
        id != other_id || req != other_req,
    ensures
        s.store_tx_route(id, req, route, now).tx_route(other_id, other_req) == s.tx_route(other_id, other_req),
{
}

/// In an existing session, a stored resource route is read back until it is removed.
pub proof fn law_resource_route_read_after_write(
    s: StoreState,
    id: Seq<char>,
    key: ResourceKeyView,
    req: HttpRequestId,
    now: u128,
    later: u128,
)
    ensures
        s.session_exists(id) ==> s.store_resource_route(id, key, req, now).resource_route(id, key) == Some(req),
        s.store_resource_route(id, key, req, now).remove_resource_route(id, key, later).resource_route(id, key)
            == None::<HttpRequestId>,
        !s.session_exists(id) ==> s.store_resource_route(id, key, req, now) == s,
{
}

/// In an existing session, a cached message is appended to its channel's cache and is
/// read back last; other channels are untouched.
pub proof fn law_cache_appends(
    s: StoreState,
    id: Seq<char>,
    channel: Option<HttpRequestId>,
    m: ServerSessionMessage,
    now: u128,
    other: Option<HttpRequestId>,
)
    requires
        s.session_exists(id),
    ensures
        s.cache_message(id, channel, m, now).cached(id, channel) == s.cached(id, channel).push(m),
        messages_from(s.cache_message(id, channel, m, now).cached(id, channel), s.cached(id, channel).len())
            == seq![m],
        other != channel ==> s.cache_message(id, channel, m, now).cached(id, other) == s.cached(id, other),
{
    let c = s.cached(id, channel).push(m);
    assert(c.subrange(s.cached(id, channel).len() as int, c.len() as int) =~= seq![m]);
}

/// Trimming leaves at most `max_size` cached messages: the newest ones, in order.
pub proof fn law_trim_keeps_newest(
    s: StoreState,
    id: Seq<char>,
    channel: Option<HttpRequestId>,
    max_size: nat,
    now: u128,
)
    ensures
        s.trim_cache(id, channel, max_size, now).cached(id, channel).len() <= max_size,
        s.trim_cache(id, channel, max_size, now).cached(id, channel) == keep_newest(s.cached(id, channel), max_size),
        s.cached(id, channel).len() <= max_size ==> s.trim_cache(id, channel, max_size, now).cached(id, channel)
            == s.cached(id, channel),
{
    let c = s.cached(id, channel);
    if s.session_exists(id) {
        let sess = s.sessions[id];
        if !sess.message_cache.contains_key(channel) {
            assert(c == Seq::<ServerSessionMessage>::empty());
        }
    }
}

/// Reading from position 0 gives the whole cache; reading past its end gives nothing.
pub proof fn law_read_cache_from(s: StoreState, id: Seq<char>, channel: Option<HttpRequestId>, from: nat)
    ensures
        messages_from(s.cached(id, channel), 0) == s.cached(id, channel),
        from >= s.cached(id, channel).len() ==> messages_from(s.cached(id, channel), from) == Seq::<
            ServerSessionMessage,
        >::empty(),
        messages_from(s.cached(id, channel), from).len() == if from >= s.cached(id, channel).len() {
            0
        } else {
            s.cached(id, channel).len() - from
        },
{
    let c = s.cached(id, channel);
    if c.len() > 0 {
        assert(c.subrange(0, c.len() as int) =~= c);
    }
}

/// A stored responder or cancellation token is read back until it is removed.
pub proof fn law_service_state_read_after_write(
    s: StoreState,
    service: Seq<char>,
    req: RequestIdView,
    r: ResponderData,
    t: CancellationTokenView,
)
    ensures
        map_get(s.store_request_responder(service, req, r).request_responders, (service, req)) == Some(r),
        map_get(
            s.store_request_responder(service, req, r).remove_request_responder(service, req).request_responders,
            (service, req),
        ) == None::<ResponderData>,
        map_get(s.store_cancellation_token(service, req, t).cancellation_tokens, (service, req)) == Some(t),
        map_get(
            s.store_cancellation_token(service, req, t).remove_cancellation_token(service, req).cancellation_tokens,
            (service, req),
        ) == None::<CancellationTokenView>,
{
}

/// Right after a heartbeat, a session with an SSE connection is healthy for any idle limit.
pub proof fn law_heartbeat_makes_healthy(s: StoreState, id: Seq<char>, now: u128, max_idle: u128)
    requires
        s.sse_connections.contains_key(id),
    ensures
        s.update_session_heartbeat(id, now).is_session_healthy(id, max_idle, now),
{
}

/// After a cleanup, every remaining SSE connection is healthy; the healthy sessions are
/// kept, and the stale ones are gone.
pub proof fn law_cleanup_removes_exactly_stale(s: StoreState, max_idle: u128, now: u128, id: Seq<char>)
    ensures
        s.cleanup_stale_sessions(max_idle, now).sse_connections.contains_key(id) ==> s.cleanup_stale_sessions(
            max_idle,
            now,
        ).is_session_healthy(id, max_idle, now),
        s.is_session_healthy(id, max_idle, now) ==> s.cleanup_stale_sessions(max_idle, now).is_session_healthy(
            id,
            max_idle,
            now,
        ) && s.cleanup_stale_sessions(max_idle, now).session_exists(id) == s.session_exists(id),
        s.stale_sessions(max_idle, now).contains(id) ==> !s.cleanup_stale_sessions(max_idle, now).session_exists(id)
            && !s.cleanup_stale_sessions(max_idle, now).sse_connections.contains_key(id),
{
}

/// An instance marked unhealthy is not among the healthy instances, whatever connections
/// it holds.
pub proof fn law_unhealthy_instance_excluded(s: StoreState, instance: Seq<char>, now: u128)
    ensures
        !s.mark_instance_unhealthy(instance, now).healthy_instances().contains(instance),
{
}

/// An instance that holds a connection and was never reported is healthy.
pub proof fn law_connected_instance_healthy(s: StoreState, id: Seq<char>, c: SseConnectionView)
    requires
        !s.instance_health.contains_key(c.server_instance_id),
    ensures
        s.register_sse_connection(id, c).healthy_instances().contains(c.server_instance_id),
{
    let t = s.register_sse_connection(id, c);
    assert(t.sse_connections.contains_key(id) && t.sse_connections[id].server_instance_id == c.server_instance_id);
}

/// `p + infix + a + suffix` determines `a`, given `p`, `infix` and `suffix`.
proof fn lemma_key_determines_id(p: Seq<char>, infix: Seq<char>, suffix: Seq<char>, a: Seq<char>, b: Seq<char>)
    requires
        p + infix + a + suffix == p + infix + b + suffix,
    ensures
        a == b,
{
    let ka = p + infix + a + suffix;
    let kb = p + infix + b + suffix;
    assert(ka.len() == kb.len());
    assert(a.len() == b.len());
    let start = p.len() + infix.len();
    assert(a =~= ka.subrange(start as int, (start + a.len()) as int));
    assert(b =~= kb.subrange(start as int, (start + b.len()) as int));
}

/// Different sessions, or services, get different keys of each kind.
pub proof fn law_keys_name_one_session(p: Seq<char>, a: Seq<char>, b: Seq<char>)
    requires
        a != b,
    ensures
        session_key_of(p, a) != session_key_of(p, b),
        session_handle_key_of(p, a) != session_handle_key_of(p, b),
        sse_connection_key_of(p, a) != sse_connection_key_of(p, b),
        tx_routes_key_of(p, a) != tx_routes_key_of(p, b),
        resource_routes_key_of(p, a) != resource_routes_key_of(p, b),
        cache_key_of(p, a, None) != cache_key_of(p, b, None),
        responders_key_of(p, a) != responders_key_of(p, b),
        tokens_key_of(p, a) != tokens_key_of(p, b),
{
    if session_key_of(p, a) == session_key_of(p, b) {
        lemma_key_determines_id(p, ":session:"@, ":meta"@, a, b);
    }
    if session_handle_key_of(p, a) == session_handle_key_of(p, b) {
        lemma_key_determines_id(p, ":session:"@, ":handle"@, a, b);
    }
    if sse_connection_key_of(p, a) == sse_connection_key_of(p, b) {
        lemma_key_determines_id(p, ":sse:"@, ":connection"@, a, b);
    }
    if tx_routes_key_of(p, a) == tx_routes_key_of(p, b) {
        lemma_key_determines_id(p, ":session:"@, ":tx_routes"@, a, b);
    }
    if resource_routes_key_of(p, a) == resource_routes_key_of(p, b) {
        lemma_key_determines_id(p, ":session:"@, ":resource_routes"@, a, b);
    }
    if cache_key_of(p, a, None) == cache_key_of(p, b, None) {
        lemma_key_determines_id(p, ":session:"@, ":cache:common"@, a, b);
    }
    if responders_key_of(p, a) == responders_key_of(p, b) {
        lemma_key_determines_id(p, ":service:"@, ":responders"@, a, b);
    }
    if tokens_key_of(p, a) == tokens_key_of(p, b) {
        lemma_key_determines_id(p, ":service:"@, ":cancellation_tokens"@, a, b);
    }
}

/// A number's decimal representation is never empty.
proof fn lemma_decimal_nonempty(n: nat)
    ensures
        decimal(n).len() >= 1,
        n >= 10 ==> decimal(n).len() >= 2,
    decreases n,
{
    if n >= 10 {
        lemma_decimal_nonempty(n / 10);
    }
}

/// Different numbers have different decimal representations.
pub proof fn law_decimal_injective(a: nat, b: nat)
    requires
        a != b,
    ensures
        decimal(a) != decimal(b),
    decreases a,
{
    lemma_decimal_nonempty(a);
    lemma_decimal_nonempty(b);
    if a < 10 && b < 10 {
        assert(decimal(a)[0] == digit_char(a));
        assert(decimal(b)[0] == digit_char(b));
    } else if a >= 10 && b >= 10 {
        if a % 10 != b % 10 {
            assert(decimal(a).last() == digit_char(a % 10));
            assert(decimal(b).last() == digit_char(b % 10));
        } else {
            assert(a / 10 != b / 10);
            law_decimal_injective(a / 10, b / 10);
            if decimal(a) == decimal(b) {
                assert(decimal(a).drop_last() =~= decimal(a / 10));
                assert(decimal(b).drop_last() =~= decimal(b / 10));
            }
        }
    }
}

/// Different requests of a session get different cache keys, and none is the common
/// cache's key.
pub proof fn law_cache_keys_distinct(p: Seq<char>, id: Seq<char>, r1: HttpRequestId, r2: HttpRequestId)
    ensures
        r1 != r2 ==> cache_key_of(p, id, Some(r1)) != cache_key_of(p, id, Some(r2)),
        cache_key_of(p, id, Some(r1)) != cache_key_of(p, id, None),
{
    let base = p + ":session:"@ + id + ":cache:request:"@;
    if r1 != r2 && cache_key_of(p, id, Some(r1)) == cache_key_of(p, id, Some(r2)) {
        law_decimal_injective(r1 as nat, r2 as nat);
        let k1 = base + decimal(r1 as nat);
        let k2 = base + decimal(r2 as nat);
        assert(decimal(r1 as nat) =~= k1.subrange(base.len() as int, k1.len() as int));
        assert(decimal(r2 as nat) =~= k2.subrange(base.len() as int, k2.len() as int));
    }
    let k = cache_key_of(p, id, Some(r1));
    let c = cache_key_of(p, id, None);
    if k == c {
        reveal_strlit(":cache:request:");
        reveal_strlit(":cache:common");
        let at = (p.len() + ":session:"@.len() + id.len()) as int;
        assert(k[at + 7] == ":cache:request:"@[7]);
        assert(c[at + 7] == ":cache:common"@[7]);
    }
}

/// No character of a decimal representation is `:` or a letter `n`.
proof fn lemma_decimal_chars(n: nat)
    ensures
        forall|i: int| 0 <= i < decimal(n).len() ==> #[trigger] decimal(n)[i] != ':' && decimal(n)[i] != 'n',
    decreases n,
{
    if n >= 10 {
        lemma_decimal_chars(n / 10);
        let r = decimal(n / 10);
        assert forall|i: int| 0 <= i < decimal(n).len() implies #[trigger] decimal(n)[i] != ':' && decimal(n)[i] != 'n' by {
            if i < r.len() {
                assert(decimal(n)[i] == r[i]);
            }
        }
    }
}

/// The message caches of all sessions and channels have pairwise distinct keys: a cache
/// key names its session and its channel.
pub proof fn law_cache_key_names_session_and_channel(
    p: Seq<char>,
    s1: Seq<char>,
    h1: Option<HttpRequestId>,
    s2: Seq<char>,
    h2: Option<HttpRequestId>,
)
    requires
        cache_key_of(p, s1, h1) == cache_key_of(p, s2, h2),
    ensures
        s1 == s2,
        h1 == h2,
{
    reveal_strlit(":cache:request:");
    reveal_strlit(":cache:common");
    let k = cache_key_of(p, s1, h1);
    let len = k.len() as int;
    match (h1, h2) {
        (None, None) => {
            lemma_key_determines_id(p, ":session:"@, ":cache:common"@, s1, s2);
        },
        (Some(r1), Some(r2)) => {
            let b1 = p + ":session:"@ + s1 + ":cache:request:"@;
            let b2 = p + ":session:"@ + s2 + ":cache:request:"@;
            let d1 = decimal(r1 as nat);
            let d2 = decimal(r2 as nat);
            lemma_decimal_chars(r1 as nat);
            lemma_decimal_chars(r2 as nat);
            assert(k == b1 + d1);
            assert(k == b2 + d2);
            assert(b1[b1.len() - 1] == ':');
            assert(b2[b2.len() - 1] == ':');
            if d1.len() < d2.len() {
                let pos = b1.len() - 1;
                assert(k[pos] == b1[pos]);
                assert(k[pos] == d2[pos - b2.len()]);
                assert(false);
            }
            if d2.len() < d1.len() {
                let pos = b2.len() - 1;
                assert(k[pos] == b2[pos]);
                assert(k[pos] == d1[pos - b1.len()]);
                assert(false);
            }
            assert(d1 =~= k.subrange(b1.len() as int, len));
            assert(d2 =~= k.subrange(b2.len() as int, len));
            if r1 != r2 {
                law_decimal_injective(r1 as nat, r2 as nat);
            }
            assert(b1 =~= k.subrange(0, b1.len() as int));
            assert(b2 =~= k.subrange(0, b2.len() as int));
            assert(b1 + Seq::<char>::empty() =~= b1);
            assert(b2 + Seq::<char>::empty() =~= b2);
            lemma_key_determines_id(p, ":session:"@, ":cache:request:"@ + Seq::<char>::empty(), s1, s2);
        },
        (Some(r1), None) => {
            let d1 = decimal(r1 as nat);
            lemma_decimal_chars(r1 as nat);
            lemma_decimal_nonempty(r1 as nat);
            let c = cache_key_of(p, s2, None);
            assert(k[len - 1] == d1[d1.len() - 1]);
            assert(c[len - 1] == 'n');
        },
        (None, Some(r2)) => {
            let d2 = decimal(r2 as nat);
            lemma_decimal_chars(r2 as nat);
            lemma_decimal_nonempty(r2 as nat);
            let c = cache_key_of(p, s2, Some(r2));
            assert(c[len - 1] == d2[d2.len() - 1]);
            assert(k[len - 1] == 'n');
        },
    }
}

/// A string in which no character is special to a glob pattern is its own escape.
pub proof fn lemma_glob_escaped_plain(x: Seq<char>)
    requires
        forall|i: int| 0 <= i < x.len() ==> !is_glob_special(#[trigger] x[i]),
    ensures
        glob_escaped(x) == x,
    decreases x.len(),
{
    if x.len() > 0 {
        lemma_glob_escaped_plain(x.drop_last());
        assert(x.drop_last().push(x.last()) =~= x);
    }
}

/// For a prefix and session whose characters are not special to a glob pattern, a
/// request cache key of the session is the session's request cache pattern with its
/// final `*` replaced by the request's number, so the pattern finds it.
pub proof fn law_request_cache_key_fits_pattern(p: Seq<char>, s: Seq<char>, r: HttpRequestId)
    requires
        forall|i: int| 0 <= i < p.len() ==> !is_glob_special(#[trigger] p[i]),
        forall|i: int| 0 <= i < s.len() ==> !is_glob_special(#[trigger] s[i]),
    ensures
        request_cache_pattern_of(p, s).last() == '*',
        cache_key_of(p, s, Some(r)) == request_cache_pattern_of(p, s).drop_last() + decimal(r as nat),
{
    reveal_strlit(":cache:request:*");
    reveal_strlit(":cache:request:");
    lemma_glob_escaped_plain(p);
    lemma_glob_escaped_plain(s);
    let pat = request_cache_pattern_of(p, s);
    assert(":cache:request:*"@ =~= ":cache:request:"@.push('*'));
    assert(pat =~= (p + ":session:"@ + s + ":cache:request:"@).push('*'));
    assert(pat.drop_last() =~= p + ":session:"@ + s + ":cache:request:"@);
}

/// A call of `cache_message`: on which session and channel, which message, when.
pub struct CacheOp {
    pub session: Seq<char>,
    pub channel: Option<HttpRequestId>,
    pub message: ServerSessionMessage,
    pub at: u128,
}

/// The state after the calls `ops`, in order.
pub open spec fn apply_cache_ops(s: StoreState, ops: Seq<CacheOp>) -> StoreState
    decreases ops.len(),
{
    if ops.len() == 0 {
        s
    } else {
        let last = ops.last();
        apply_cache_ops(s, ops.drop_last()).cache_message(last.session, last.channel, last.message, last.at)
    }
}

/// The messages that the calls `ops` cache for the session `id` on `channel`, in order.
pub open spec fn messages_cached_by(ops: Seq<CacheOp>, id: Seq<char>, channel: Option<HttpRequestId>) -> Seq<
    ServerSessionMessage,
>
    decreases ops.len(),
{
    if ops.len() == 0 {
        Seq::empty()
    } else {
        let last = ops.last();
        let earlier = messages_cached_by(ops.drop_last(), id, channel);
        if last.session == id && last.channel == channel {
            earlier.push(last.message)
        } else {
            earlier
        }
    }
}

/// Caching messages, on any sessions and channels, appends to the cache of an existing
/// session and channel exactly the messages cached there, in order, and keeps the session;
/// for a session that does not exist, nothing is cached.
pub proof fn law_cache_replays_in_order(
    s: StoreState,
    ops: Seq<CacheOp>,
    id: Seq<char>,
    channel: Option<HttpRequestId>,
)
    ensures
        apply_cache_ops(s, ops).session_exists(id) == s.session_exists(id),
        s.session_exists(id) ==> apply_cache_ops(s, ops).cached(id, channel) == s.cached(id, channel)
            + messages_cached_by(ops, id, channel),
        !s.session_exists(id) ==> apply_cache_ops(s, ops).cached(id, channel) == Seq::<
            ServerSessionMessage,
        >::empty(),
    decreases ops.len(),
{
    if ops.len() > 0 {
        let last = ops.last();
        law_cache_replays_in_order(s, ops.drop_last(), id, channel);
        let t = apply_cache_ops(s, ops.drop_last());
        if t.session_exists(id) && last.session == id && last.channel == channel {
            assert(t.cache_message(id, channel, last.message, last.at).cached(id, channel) == t.cached(id, channel).push(
                last.message,
            ));
        }
        if s.session_exists(id) {
            assert(s.cached(id, channel) + messages_cached_by(ops, id, channel) =~= if last.session == id
                && last.channel == channel {
                (s.cached(id, channel) + messages_cached_by(ops.drop_last(), id, channel)).push(last.message)
            } else {
                s.cached(id, channel) + messages_cached_by(ops.drop_last(), id, channel)
            });
        }
    } else {
        if s.session_exists(id) {
            assert(s.cached(id, channel) + Seq::<ServerSessionMessage>::empty() =~= s.cached(id, channel));
        }
    }
}

/// After a session is created and messages are cached, reading its cache on a channel
/// from position `k` gives the messages cached there, in order, without the first `k`;
/// messages cached on other channels or sessions never appear.
pub proof fn law_replay_after_create(
    s: StoreState,
    id: Seq<char>,
    now: u128,
    ops: Seq<CacheOp>,
    channel: Option<HttpRequestId>,
    k: nat,
)
    ensures
        messages_from(apply_cache_ops(s.create_session(id, now), ops).cached(id, channel), k) == messages_from(
            messages_cached_by(ops, id, channel),
            k,
        ),
{
    let t = s.create_session(id, now);
    law_cache_replays_in_order(t, ops, id, channel);
    assert(t.cached(id, channel) == Seq::<ServerSessionMessage>::empty());
    assert(Seq::<ServerSessionMessage>::empty() + messages_cached_by(ops, id, channel) =~= messages_cached_by(
        ops,
        id,
        channel,
    ));
}

/// The decimal digits of `n` write `n`.
proof fn lemma_decimal_value(n: nat)
    ensures
        decimal(n).len() > 0,
        all_decimal_digits(decimal(n)),
        digits_value(decimal(n)) == n,
    decreases n,
{
    let d = digit_char(n % 10);
    assert(is_decimal_digit(d) && digit_value(d) == n % 10);
    if n >= 10 {
        lemma_decimal_value(n / 10);
        let r = decimal(n / 10);
        assert(decimal(n).drop_last() =~= r);
        assert(decimal(n).last() == d);
        assert(digits_value(decimal(n)) == digits_value(r) * 10 + digit_value(d));
        assert((n / 10) * 10 + n % 10 == n);
        assert forall|i: int| 0 <= i < decimal(n).len() implies is_decimal_digit(#[trigger] decimal(n)[i]) by {
            if i < r.len() {
                assert(decimal(n)[i] == r[i]);
            }
        }
    } else {
        assert(decimal(n).drop_last() =~= Seq::<char>::empty());
        assert(digits_value(Seq::<char>::empty()) == 0);
        assert(digits_value(decimal(n)) == digits_value(decimal(n).drop_last()) * 10 + digit_value(d));
    }
}

/// A request identifier written into a hash field in decimal reads back as itself.
pub proof fn law_request_id_round_trip(id: HttpRequestId)
    ensures
        parsed_u64(decimal(id as nat)) == Some(id),
{
    lemma_decimal_value(id as nat);
    assert(is_decimal_digit(decimal(id as nat)[0]));
}

/// Reading a channel that Redis keeps newest first with the bounds of
/// [`super::redis_replies::cache_read_range`], then putting the messages oldest first, gives
/// what the in-memory store gives: the messages from position `from` on, or none when
/// there are not that many.
pub proof fn law_redis_cache_read_matches_memory(cache: Seq<ServerSessionMessage>, from: nat)
    requires
        from <= isize::MAX,
    ensures
        lrange(cache.reverse(), 0, -1 - from).reverse() == messages_from(cache, from),
{
    let n = cache.len() as int;
    if from < n {
        let kept = cache.reverse().subrange(0, n - from);
        assert(kept.reverse() =~= cache.subrange(from as int, n));
    } else {
        assert(lrange(cache.reverse(), 0, -1 - from) =~= Seq::<ServerSessionMessage>::empty());
        assert(Seq::<ServerSessionMessage>::empty().reverse() =~= Seq::<ServerSessionMessage>::empty());
    }
}

/// Caching on Redis pushes the message at the head of the list kept newest first, and
/// trimming keeps its first `max_size` entries: read oldest first, the list then holds
/// the messages that the in-memory cache holds, the newest `max_size` of them.
pub proof fn law_redis_cache_write_matches_memory(
    cache: Seq<ServerSessionMessage>,
    m: ServerSessionMessage,
    max_size: nat,
)
    requires
        max_size > 0,
    ensures
        seq![m] + cache.reverse() == cache.push(m).reverse(),
        lrange(cache.reverse(), 0, max_size - 1).reverse() == keep_newest(cache, max_size),
{
    assert(seq![m] + cache.reverse() =~= cache.push(m).reverse());
    let n = cache.len() as int;
    if max_size < n {
        let kept = cache.reverse().subrange(0, max_size as int);
        assert(kept.reverse() =~= cache.subrange(n - max_size, n));
    } else if n > 0 {
        assert(cache.reverse().subrange(0, n) =~= cache.reverse());
        assert(cache.reverse().reverse() =~= cache);
    } else {
        assert(cache.reverse() =~= Seq::<ServerSessionMessage>::empty());
        assert(cache =~= Seq::<ServerSessionMessage>::empty());
    }
}

/// A session is among those kept from `connections` exactly when one of its entries
/// satisfies `keep`.
pub proof fn lemma_sessions_where_contains(
    connections: Seq<(Seq<char>, SseConnectionView)>,
    keep: spec_fn(SseConnectionView) -> bool,
    id: Seq<char>,
)
    ensures
        sessions_where(connections, keep).contains(id) <==> exists|j: int|
            0 <= j < connections.len() && #[trigger] connections[j].0 == id && keep(connections[j].1),
    decreases connections.len(),
{
    if connections.len() > 0 {
        let rest = connections.drop_last();
        lemma_sessions_where_contains(rest, keep, id);
        let last = connections.len() - 1;
        let listed = sessions_where(connections, keep);
        let before = sessions_where(rest, keep);
        if before.contains(id) {
            let j = choose|j: int| 0 <= j < rest.len() && #[trigger] rest[j].0 == id && keep(rest[j].1);
            assert(connections[j] == rest[j]);
            let t = choose|t: int| 0 <= t < before.len() && before[t] == id;
            assert(listed[t] == id);
        }
        if listed.contains(id) {
            let t = choose|t: int| 0 <= t < listed.len() && listed[t] == id;
            if t < before.len() {
                assert(before[t] == id);
            } else {
                assert(connections[last].0 == id && keep(connections[last].1));
            }
        }
        if exists|j: int| 0 <= j < connections.len() && #[trigger] connections[j].0 == id && keep(connections[j].1) {
            let j = choose|j: int| 0 <= j < connections.len() && #[trigger] connections[j].0 == id && keep(connections[j].1);
            if j < last {
                assert(rest[j] == connections[j]);
            } else {
                assert(listed[before.len() as int] == id);
            }
        }
    }
}

/// Read from SSE connection records that list the store's connections, the sessions of an
/// instance and the stale sessions are those the in-memory store gives.
pub proof fn law_redis_discovery_matches_memory(
    s: StoreState,
    connections: Seq<(Seq<char>, SseConnectionView)>,
    instance: Seq<char>,
    max_idle: u128,
    now: u128,
)
    requires
        lists_map(connections, s.sse_connections),
    ensures
        forall|id: Seq<char>|
            #[trigger] sessions_where(connections, held_by(instance)).contains(id)
                <==> s.sessions_of_instance(instance).contains(id),
        forall|id: Seq<char>|
            #[trigger] sessions_where(connections, idle_longer_than(max_idle, now)).contains(id)
                <==> s.stale_sessions(max_idle, now).contains(id),
{
    let held = held_by(instance);
    let stale = idle_longer_than(max_idle, now);
    assert forall|id: Seq<char>|
        #[trigger] sessions_where(connections, held).contains(id) <==> s.sessions_of_instance(instance).contains(id) by {
        lemma_sessions_where_contains(connections, held, id);
        if s.sse_connections.contains_key(id) {
            let j = choose|j: int| 0 <= j < connections.len() && #[trigger] connections[j].0 == id;
            assert(s.sse_connections[id] == connections[j].1);
        }
        if exists|j: int| 0 <= j < connections.len() && #[trigger] connections[j].0 == id && held(connections[j].1) {
            let j = choose|j: int| 0 <= j < connections.len() && #[trigger] connections[j].0 == id && held(connections[j].1);
            assert(s.sse_connections.contains_key(connections[j].0));
        }
    }
    assert forall|id: Seq<char>|
        #[trigger] sessions_where(connections, stale).contains(id) <==> s.stale_sessions(max_idle, now).contains(id) by {
        lemma_sessions_where_contains(connections, stale, id);
        if s.sse_connections.contains_key(id) {
            let j = choose|j: int| 0 <= j < connections.len() && #[trigger] connections[j].0 == id;
            assert(s.sse_connections[id] == connections[j].1);
        }
        if exists|j: int| 0 <= j < connections.len() && #[trigger] connections[j].0 == id && stale(connections[j].1) {
            let j = choose|j: int| 0 <= j < connections.len() && #[trigger] connections[j].0 == id && stale(connections[j].1);
            assert(s.sse_connections.contains_key(connections[j].0));
        }
    }
}

/// Read from SSE connection and health records that list the store's connections and
/// health records, the healthy instances are those the in-memory store gives.
pub proof fn law_redis_health_matches_memory(
    s: StoreState,
    connections: Seq<(Seq<char>, SseConnectionView)>,
    health: Seq<InstanceHealthView>,
)
    requires
        lists_map(connections, s.sse_connections),
        lists_map(health.map_values(|h: InstanceHealthView| (h.server_instance_id, h)), s.instance_health),
    ensures
        healthy_instances_of(connections.map_values(|p: (Seq<char>, SseConnectionView)| p.1), health)
            == s.healthy_instances(),
{
    let cs = connections.map_values(|p: (Seq<char>, SseConnectionView)| p.1);
    let hs = health.map_values(|h: InstanceHealthView| (h.server_instance_id, h));
    assert forall|x: Seq<char>| #[trigger] healthy_instances_of(cs, health).contains(x) <==> s.healthy_instances().contains(x) by {
        if s.instance_health.contains_key(x) {
            let j = choose|j: int| 0 <= j < hs.len() && #[trigger] hs[j].0 == x;
            assert(health[j].server_instance_id == x);
            assert(s.instance_health[x] == health[j]);
        }
        assert forall|j: int| 0 <= j < health.len() && #[trigger] health[j].server_instance_id == x implies s.instance_health.contains_key(x)
            && s.instance_health[x] == health[j] by {
            assert(hs[j] == (health[j].server_instance_id, health[j]));
            assert(s.instance_health.contains_key(hs[j].0));
        }
        if s.instance_holds_connection(x) {
            let id = choose|id: Seq<char>| #[trigger] s.sse_connections.contains_key(id) && s.sse_connections[id].server_instance_id == x;
            let j = choose|j: int| 0 <= j < connections.len() && #[trigger] connections[j].0 == id;
            assert(cs[j] == connections[j].1);
            assert(cs[j].server_instance_id == x);
        }
        if exists|j: int| 0 <= j < cs.len() && #[trigger] cs[j].server_instance_id == x {
            let j = choose|j: int| 0 <= j < cs.len() && #[trigger] cs[j].server_instance_id == x;
            assert(cs[j] == connections[j].1);
            assert(s.sse_connections.contains_key(connections[j].0));
            assert(s.sse_connections[connections[j].0] == connections[j].1);
        }
    }
    assert(healthy_instances_of(cs, health) =~= s.healthy_instances());
}

/// Every key that a Redis store with key prefix `p` reads or writes.
pub open spec fn keys_of_prefix(p: Seq<char>) -> Set<Seq<char>> {
    Set::new(
        |k: Seq<char>|
            exists|id: Seq<char>|
                {
                    ||| k == #[trigger] session_key_of(p, id)
                    ||| k == session_handle_key_of(p, id)
                    ||| k == sse_connection_key_of(p, id)
                    ||| k == tx_routes_key_of(p, id)
                    ||| k == resource_routes_key_of(p, id)
                    ||| k == responders_key_of(p, id)
                    ||| k == tokens_key_of(p, id)
                    ||| k == instance_health_key_of(p, id)
                    ||| k == cache_key_of(p, id, None)
                    ||| exists|r: HttpRequestId| k == #[trigger] cache_key_of(p, id, Some(r))
                },
    )
}

/// Each key of a store begins with its prefix and a `:`.
proof fn lemma_key_starts_with_prefix(p: Seq<char>, k: Seq<char>)
    requires
        keys_of_prefix(p).contains(k),
    ensures
        k.len() > p.len(),
        k.take(p.len() as int) == p,
        k[p.len() as int] == ':',
{
    reveal_strlit(":session:");
    reveal_strlit(":sse:");
    reveal_strlit(":service:");
    reveal_strlit(":instance:");
    let id = choose|id: Seq<char>|
        {
            ||| k == #[trigger] session_key_of(p, id)
            ||| k == session_handle_key_of(p, id)
            ||| k == sse_connection_key_of(p, id)
            ||| k == tx_routes_key_of(p, id)
            ||| k == resource_routes_key_of(p, id)
            ||| k == responders_key_of(p, id)
            ||| k == tokens_key_of(p, id)
            ||| k == instance_health_key_of(p, id)
            ||| k == cache_key_of(p, id, None)
            ||| exists|r: HttpRequestId| k == #[trigger] cache_key_of(p, id, Some(r))
        };
    if exists|r: HttpRequestId| k == #[trigger] cache_key_of(p, id, Some(r)) {
        let r = choose|r: HttpRequestId| k == #[trigger] cache_key_of(p, id, Some(r));
        assert(k =~= p + ":session:"@ + (id + ":cache:request:"@ + decimal(r as nat)));
        lemma_prefixed(p, ":session:"@, id + ":cache:request:"@ + decimal(r as nat));
    } else if k == cache_key_of(p, id, None) {
        assert(k =~= p + ":session:"@ + (id + ":cache:common"@));
        lemma_prefixed(p, ":session:"@, id + ":cache:common"@);
    } else if k == session_key_of(p, id) {
        assert(k =~= p + ":session:"@ + (id + ":meta"@));
        lemma_prefixed(p, ":session:"@, id + ":meta"@);
    } else if k == session_handle_key_of(p, id) {
        assert(k =~= p + ":session:"@ + (id + ":handle"@));
        lemma_prefixed(p, ":session:"@, id + ":handle"@);
    } else if k == sse_connection_key_of(p, id) {
        assert(k =~= p + ":sse:"@ + (id + ":connection"@));
        lemma_prefixed(p, ":sse:"@, id + ":connection"@);
    } else if k == tx_routes_key_of(p, id) {
        assert(k =~= p + ":session:"@ + (id + ":tx_routes"@));
        lemma_prefixed(p, ":session:"@, id + ":tx_routes"@);
    } else if k == resource_routes_key_of(p, id) {
        assert(k =~= p + ":session:"@ + (id + ":resource_routes"@));
        lemma_prefixed(p, ":session:"@, id + ":resource_routes"@);
    } else if k == responders_key_of(p, id) {
        assert(k =~= p + ":service:"@ + (id + ":responders"@));
        lemma_prefixed(p, ":service:"@, id + ":responders"@);
    } else if k == tokens_key_of(p, id) {
        assert(k =~= p + ":service:"@ + (id + ":cancellation_tokens"@));
        lemma_prefixed(p, ":service:"@, id + ":cancellation_tokens"@);
    } else {
        assert(k =~= p + ":instance:"@ + (id + ":health"@));
        lemma_prefixed(p, ":instance:"@, id + ":health"@);
    }
}

/// A sequence made of `p`, then something that begins with `:`, begins with `p` and a `:`.
proof fn lemma_prefixed(p: Seq<char>, infix: Seq<char>, rest: Seq<char>)
    requires
        infix.len() > 0,
        infix[0] == ':',
    ensures
        (p + infix + rest).len() > p.len(),
        (p + infix + rest).take(p.len() as int) == p,
        (p + infix + rest)[p.len() as int] == ':',
{
    assert((p + infix + rest).take(p.len() as int) =~= p);
}

/// Stores with the same key prefix read and write the same keys, so they share their
/// state; stores whose prefixes differ and hold no `:` have no key in common, so
/// neither sees the other's state.
pub proof fn law_prefixes_isolate_state(p1: Seq<char>, p2: Seq<char>)
    requires
        !p1.contains(':'),
        !p2.contains(':'),
    ensures
        p1 == p2 ==> keys_of_prefix(p1) == keys_of_prefix(p2),
        p1 != p2 ==> keys_of_prefix(p1).disjoint(keys_of_prefix(p2)),
{
    if p1 != p2 {
        assert forall|k: Seq<char>| keys_of_prefix(p1).contains(k) implies !keys_of_prefix(p2).contains(k) by {
            lemma_key_starts_with_prefix(p1, k);
            if keys_of_prefix(p2).contains(k) {
                lemma_key_starts_with_prefix(p2, k);
                if p1.len() == p2.len() {
                    assert(p1 =~= p2);
                } else if p1.len() < p2.len() {
                    assert(k[p1.len() as int] == k.take(p2.len() as int)[p1.len() as int]);
                    assert(p2[p1.len() as int] == ':');
                } else {
                    assert(k[p2.len() as int] == k.take(p1.len() as int)[p2.len() as int]);
                    assert(p1[p2.len() as int] == ':');
                }
            }
        }
    }
}

/// A Redis channel, kept newest first, after `LPUSH` of `m` and `LTRIM` to `max_size`
/// entries.
pub open spec fn redis_cache_push(list: Seq<ServerSessionMessage>, m: ServerSessionMessage, max_size: nat) -> Seq<
    ServerSessionMessage,
> {
    lrange(seq![m] + list, 0, max_size - 1)
}

/// A Redis channel after caching each of `ms` in order.
pub open spec fn redis_cache_pushes(
    list: Seq<ServerSessionMessage>,
    ms: Seq<ServerSessionMessage>,
    max_size: nat,
) -> Seq<ServerSessionMessage>
    decreases ms.len(),
{
    if ms.len() == 0 {
        list
    } else {
        redis_cache_push(redis_cache_pushes(list, ms.drop_last(), max_size), ms.last(), max_size)
    }
}

/// Keeping the newest entries, adding one and keeping the newest again keeps the newest
/// of all of them.
proof fn lemma_keep_newest_push(x: Seq<ServerSessionMessage>, m: ServerSessionMessage, c: nat)
    requires
        c > 0,
    ensures
        keep_newest(keep_newest(x, c).push(m), c) == keep_newest(x.push(m), c),
{
    let n = x.len() as int;
    if n > c {
        assert(keep_newest(x, c).push(m).subrange(1, c as int + 1) =~= x.push(m).subrange(n + 1 - c, n + 1));
    }
}

/// Over any number of messages cached on a Redis channel that holds at most `max_size`
/// entries, the channel read oldest first holds the newest `max_size` of the messages
/// it held and those cached, and never more than `max_size` entries.
pub proof fn law_redis_cache_keeps_newest(
    list: Seq<ServerSessionMessage>,
    ms: Seq<ServerSessionMessage>,
    max_size: nat,
)
    requires
        max_size > 0,
        list.len() <= max_size,
    ensures
        redis_cache_pushes(list, ms, max_size).len() <= max_size,
        redis_cache_pushes(list, ms, max_size).reverse() == keep_newest(list.reverse() + ms, max_size),
    decreases ms.len(),
{
    if ms.len() == 0 {
        assert(list.reverse() + ms =~= list.reverse());
    } else {
        let earlier = redis_cache_pushes(list, ms.drop_last(), max_size);
        let m = ms.last();
        law_redis_cache_keeps_newest(list, ms.drop_last(), max_size);
        let x = list.reverse() + ms.drop_last();
        law_redis_cache_write_matches_memory(earlier.reverse(), m, max_size);
        law_redis_cache_write_matches_memory(earlier.reverse().push(m), m, max_size);
        assert(earlier.reverse().reverse() =~= earlier);
        assert(seq![m] + earlier == earlier.reverse().push(m).reverse());
        lemma_keep_newest_push(x, m, max_size);
        assert(x.push(m) =~= list.reverse() + ms);
    }
}

/// `a` and `b` read the same for the session `x`: whether it exists, its handle, its SSE
/// connection, its transmit route for request `r`, its resource route for `k`, and its
/// cached messages on channel `ch`.
pub open spec fn session_reads_same(
    a: StoreState,
    b: StoreState,
    x: Seq<char>,
    r: HttpRequestId,
    k: ResourceKeyView,
    ch: Option<HttpRequestId>,
) -> bool {
    &&& a.session_exists(x) == b.session_exists(x)
    &&& map_get(a.session_handles, x) == map_get(b.session_handles, x)
    &&& map_get(a.sse_connections, x) == map_get(b.sse_connections, x)
    &&& a.tx_route(x, r) == b.tx_route(x, r)
    &&& a.resource_route(x, k) == b.resource_route(x, k)
    &&& a.cached(x, ch) == b.cached(x, ch)
}

/// `a` and `b` read the same for the request `q` of the service `svc`: its responder and
/// its cancellation token.
pub open spec fn service_reads_same(a: StoreState, b: StoreState, svc: Seq<char>, q: RequestIdView) -> bool {
    &&& map_get(a.request_responders, (svc, q)) == map_get(b.request_responders, (svc, q))
    &&& map_get(a.cancellation_tokens, (svc, q)) == map_get(b.cancellation_tokens, (svc, q))
}

/// `a` and `b` hold the same health record, or none, for the instance `inst`.
pub open spec fn health_reads_same(a: StoreState, b: StoreState, inst: Seq<char>) -> bool {
    map_get(a.instance_health, inst) == map_get(b.instance_health, inst)
}

/// Removing the transmit route of one request of a session removes that route only:
/// every other route of the session, and everything of every other session, service and
/// instance, reads as before.
pub proof fn law_remove_tx_route_frame(
    s: StoreState,
    id: Seq<char>,
    req: HttpRequestId,
    now: u128,
    x: Seq<char>,
    r: HttpRequestId,
    k: ResourceKeyView,
    ch: Option<HttpRequestId>,
    svc: Seq<char>,
    q: RequestIdView,
    inst: Seq<char>,
)
    ensures
        s.remove_tx_route(id, req, now).tx_route(id, req) == None::<RouteDataView>,
        (x != id || r != req) ==> session_reads_same(s.remove_tx_route(id, req, now), s, x, r, k, ch),
        service_reads_same(s.remove_tx_route(id, req, now), s, svc, q),
        health_reads_same(s.remove_tx_route(id, req, now), s, inst),
{
}

/// Storing a transmit route changes that route only.
pub proof fn law_store_tx_route_frame(
    s: StoreState,
    id: Seq<char>,
    req: HttpRequestId,
    route: RouteDataView,
    now: u128,
    x: Seq<char>,
    r: HttpRequestId,
    k: ResourceKeyView,
    ch: Option<HttpRequestId>,
    svc: Seq<char>,
    q: RequestIdView,
    inst: Seq<char>,
)
    ensures
        (x != id || r != req) ==> session_reads_same(s.store_tx_route(id, req, route, now), s, x, r, k, ch),
        service_reads_same(s.store_tx_route(id, req, route, now), s, svc, q),
        health_reads_same(s.store_tx_route(id, req, route, now), s, inst),
{
}

/// Storing or removing a resource route changes that route only.
pub proof fn law_resource_route_frame(
    s: StoreState,
    id: Seq<char>,
    key: ResourceKeyView,
    req: HttpRequestId,
    now: u128,
    x: Seq<char>,
    r: HttpRequestId,
    k: ResourceKeyView,
    ch: Option<HttpRequestId>,
    svc: Seq<char>,
    q: RequestIdView,
    inst: Seq<char>,
)
    ensures
        (x != id || k != key) ==> session_reads_same(s.store_resource_route(id, key, req, now), s, x, r, k, ch),
        (x != id || k != key) ==> session_reads_same(s.remove_resource_route(id, key, now), s, x, r, k, ch),
        s.remove_resource_route(id, key, now).resource_route(id, key) == None::<HttpRequestId>,
        service_reads_same(s.store_resource_route(id, key, req, now), s, svc, q),
        service_reads_same(s.remove_resource_route(id, key, now), s, svc, q),
        health_reads_same(s.store_resource_route(id, key, req, now), s, inst),
        health_reads_same(s.remove_resource_route(id, key, now), s, inst),
{
}

/// Caching a message or trimming a cache changes that session's cache on that channel only.
pub proof fn law_cache_frame(
    s: StoreState,
    id: Seq<char>,
    channel: Option<HttpRequestId>,
    m: ServerSessionMessage,
    max_size: nat,
    now: u128,
    x: Seq<char>,
    r: HttpRequestId,
    k: ResourceKeyView,
    ch: Option<HttpRequestId>,
    svc: Seq<char>,
    q: RequestIdView,
    inst: Seq<char>,
)
    ensures
        (x != id || ch != channel) ==> session_reads_same(s.cache_message(id, channel, m, now), s, x, r, k, ch),
        (x != id || ch != channel) ==> session_reads_same(s.trim_cache(id, channel, max_size, now), s, x, r, k, ch),
        service_reads_same(s.cache_message(id, channel, m, now), s, svc, q),
        service_reads_same(s.trim_cache(id, channel, max_size, now), s, svc, q),
        health_reads_same(s.cache_message(id, channel, m, now), s, inst),
        health_reads_same(s.trim_cache(id, channel, max_size, now), s, inst),
{
}

/// Registering or removing a session handle changes that session's handle only.
pub proof fn law_session_handle_frame(
    s: StoreState,
    id: Seq<char>,
    h: SessionHandleData,
    x: Seq<char>,
    r: HttpRequestId,
    k: ResourceKeyView,
    ch: Option<HttpRequestId>,
    svc: Seq<char>,
    q: RequestIdView,
    inst: Seq<char>,
)
    ensures
        x != id ==> session_reads_same(s.remove_session_handle(id), s, x, r, k, ch),
        x != id ==> session_reads_same(s.register_session_handle(id, h), s, x, r, k, ch),
        s.remove_session_handle(id).session_exists(id) == s.session_exists(id),
        map_get(s.remove_session_handle(id).sse_connections, id) == map_get(s.sse_connections, id),
        s.remove_session_handle(id).tx_route(id, r) == s.tx_route(id, r),
        s.remove_session_handle(id).resource_route(id, k) == s.resource_route(id, k),
        s.remove_session_handle(id).cached(id, ch) == s.cached(id, ch),
        service_reads_same(s.remove_session_handle(id), s, svc, q),
        service_reads_same(s.register_session_handle(id, h), s, svc, q),
        health_reads_same(s.remove_session_handle(id), s, inst),
        health_reads_same(s.register_session_handle(id, h), s, inst),
{
}

/// Registering or removing an SSE connection changes that session's connection only.
pub proof fn law_sse_connection_frame(
    s: StoreState,
    id: Seq<char>,
    c: SseConnectionView,
    x: Seq<char>,
    r: HttpRequestId,
    k: ResourceKeyView,
    ch: Option<HttpRequestId>,
    svc: Seq<char>,
    q: RequestIdView,
    inst: Seq<char>,
)
    ensures
        x != id ==> session_reads_same(s.remove_sse_connection(id), s, x, r, k, ch),
        x != id ==> session_reads_same(s.register_sse_connection(id, c), s, x, r, k, ch),
        x != id ==> s.remove_sse_connection(id).session_instance(x) == s.session_instance(x),
        s.remove_sse_connection(id).session_exists(id) == s.session_exists(id),
        map_get(s.remove_sse_connection(id).session_handles, id) == map_get(s.session_handles, id),
        s.remove_sse_connection(id).tx_route(id, r) == s.tx_route(id, r),
        s.remove_sse_connection(id).resource_route(id, k) == s.resource_route(id, k),
        s.remove_sse_connection(id).cached(id, ch) == s.cached(id, ch),
        service_reads_same(s.remove_sse_connection(id), s, svc, q),
        service_reads_same(s.register_sse_connection(id, c), s, svc, q),
        health_reads_same(s.remove_sse_connection(id), s, inst),
        health_reads_same(s.register_sse_connection(id, c), s, inst),
{
}

/// Storing or removing the responder or cancellation token of one service request
/// changes that entry only.
pub proof fn law_service_state_frame(
    s: StoreState,
    service: Seq<char>,
    req: RequestIdView,
    data: ResponderData,
    token: CancellationTokenView,
    x: Seq<char>,
    r: HttpRequestId,
    k: ResourceKeyView,
    ch: Option<HttpRequestId>,
    svc: Seq<char>,
    q: RequestIdView,
    inst: Seq<char>,
)
    ensures
        (svc, q) != (service, req) ==> service_reads_same(s.remove_request_responder(service, req), s, svc, q),
        (svc, q) != (service, req) ==> service_reads_same(s.store_request_responder(service, req, data), s, svc, q),
        (svc, q) != (service, req) ==> service_reads_same(s.remove_cancellation_token(service, req), s, svc, q),
        (svc, q) != (service, req) ==> service_reads_same(s.store_cancellation_token(service, req, token), s, svc, q),
        map_get(s.remove_request_responder(service, req).cancellation_tokens, (service, req)) == map_get(
            s.cancellation_tokens,
            (service, req),
        ),
        map_get(s.remove_cancellation_token(service, req).request_responders, (service, req)) == map_get(
            s.request_responders,
            (service, req),
        ),
        session_reads_same(s.remove_request_responder(service, req), s, x, r, k, ch),
        session_reads_same(s.store_request_responder(service, req, data), s, x, r, k, ch),
        session_reads_same(s.remove_cancellation_token(service, req), s, x, r, k, ch),
        session_reads_same(s.store_cancellation_token(service, req, token), s, x, r, k, ch),
        health_reads_same(s.remove_request_responder(service, req), s, inst),
        health_reads_same(s.store_request_responder(service, req, data), s, inst),
        health_reads_same(s.remove_cancellation_token(service, req), s, inst),
        health_reads_same(s.store_cancellation_token(service, req, token), s, inst),
{
}

/// Marking an instance unhealthy changes that instance's health record only; every session
/// and service reads as before.
pub proof fn law_mark_instance_unhealthy_frame(
    s: StoreState,
    instance: Seq<char>,
    now: u128,
    x: Seq<char>,
    r: HttpRequestId,
    k: ResourceKeyView,
    ch: Option<HttpRequestId>,
    svc: Seq<char>,
    q: RequestIdView,
    inst: Seq<char>,
)
    ensures
        inst != instance ==> health_reads_same(s.mark_instance_unhealthy(instance, now), s, inst),
        session_reads_same(s.mark_instance_unhealthy(instance, now), s, x, r, k, ch),
        service_reads_same(s.mark_instance_unhealthy(instance, now), s, svc, q),
{
}

/// An instance reported unhealthy stays out of the healthy instances whichever instances
/// are marked unhealthy after it, itself included.
pub proof fn law_unhealthy_instance_stays_excluded(s: StoreState, a: Seq<char>, b: Seq<char>, now: u128)
    requires
        s.instance_health.contains_key(a),
        !s.instance_health[a].is_healthy,
    ensures
        !s.healthy_instances().contains(a),
        !s.mark_instance_unhealthy(b, now).healthy_instances().contains(a),
        s.mark_instance_unhealthy(b, now).instance_health.contains_key(a),
        !s.mark_instance_unhealthy(b, now).instance_health[a].is_healthy,
{
}

/// Creating a session, recording activity on it, or a heartbeat of it, changes nothing of
/// any other session, service or instance; recording activity changes nothing that is
/// read of the session itself either.
pub proof fn law_session_activity_frame(
    s: StoreState,
    id: Seq<char>,
    now: u128,
    x: Seq<char>,
    r: HttpRequestId,
    k: ResourceKeyView,
    ch: Option<HttpRequestId>,
    svc: Seq<char>,
    q: RequestIdView,
    inst: Seq<char>,
)
    ensures
        x != id ==> session_reads_same(s.create_session(id, now), s, x, r, k, ch),
        x != id ==> session_reads_same(s.update_session_heartbeat(id, now), s, x, r, k, ch),
        x != id ==> session_reads_same(s.delete_session(id), s, x, r, k, ch),
        session_reads_same(s.touch(id, now), s, x, r, k, ch),
        service_reads_same(s.create_session(id, now), s, svc, q),
        service_reads_same(s.update_session_heartbeat(id, now), s, svc, q),
        service_reads_same(s.delete_session(id), s, svc, q),
        service_reads_same(s.touch(id, now), s, svc, q),
        health_reads_same(s.create_session(id, now), s, inst),
        health_reads_same(s.update_session_heartbeat(id, now), s, inst),
        health_reads_same(s.delete_session(id), s, inst),
        health_reads_same(s.touch(id, now), s, inst),
{
}

/// A cleanup keeps every session that is not stale as it was, and every service and
/// instance.
pub proof fn law_cleanup_frame(
    s: StoreState,
    max_idle: u128,
    now: u128,
    x: Seq<char>,
    r: HttpRequestId,
    k: ResourceKeyView,
    ch: Option<HttpRequestId>,
    svc: Seq<char>,
    q: RequestIdView,
    inst: Seq<char>,
)
    ensures
        !s.stale_sessions(max_idle, now).contains(x) ==> session_reads_same(
            s.cleanup_stale_sessions(max_idle, now),
            s,
            x,
            r,
            k,
            ch,
        ),
        service_reads_same(s.cleanup_stale_sessions(max_idle, now), s, svc, q),
        health_reads_same(s.cleanup_stale_sessions(max_idle, now), s, inst),
{
}

} // verus!
