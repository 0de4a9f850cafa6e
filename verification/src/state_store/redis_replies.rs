//! What the Redis state store makes of the replies to its commands: hash fields
//! read back as request identifiers, the bounds and order in which a cached
//! channel is read from a Redis list, and the session discovery and health
//! answers drawn from the SSE connection and instance health records read back.

use super::memory::{idle_time, string_views, strings_contain};
use super::{
    lists_set, pinged_at, view_opt, HttpRequestId, InstanceHealthData, InstanceHealthView, RouteData, RouteDataView,
    SessionId, SseConnectionData, SseConnectionView,
};
use vstd::prelude::*;

verus! {

/// `c` is an ASCII decimal digit.
pub open spec fn is_decimal_digit(c: char) -> bool {
    48 <= (c as int) <= 57
}

/// The value of the decimal digit `c`.
pub open spec fn digit_value(c: char) -> nat {
    (c as int - 48) as nat
}

/// Every character of `s` is a decimal digit.
pub open spec fn all_decimal_digits(s: Seq<char>) -> bool {
    forall|i: int| 0 <= i < s.len() ==> is_decimal_digit(#[trigger] s[i])
}

/// The number that the decimal digits `s` write, most significant first.
pub open spec fn digits_value(s: Seq<char>) -> nat
    decreases s.len(),
{
    if s.len() == 0 {
        0
    } else {
        digits_value(s.drop_last()) * 10 + digit_value(s.last())
    }
}

/// The digits of `s` once an optional leading `+` is dropped.
pub open spec fn unsigned_digits(s: Seq<char>) -> Seq<char> {
    if s.len() > 0 && s[0] == '+' {
        s.drop_first()
    } else {
        s
    }
}

/// What `str::parse::<u64>` gives for `s`: an optional `+` followed by one or more
/// decimal digits whose value fits in 64 bits; anything else is refused.
pub open spec fn parsed_u64(s: Seq<char>) -> Option<u64> {
    let digits = unsigned_digits(s);
    if digits.len() > 0 && all_decimal_digits(digits) && digits_value(digits) <= u64::MAX {
        Some(digits_value(digits) as u64)
    } else {
        None
    }
}

/// A prefix of a run of digits writes a number no larger than the whole run.
pub proof fn lemma_digits_prefix_le(s: Seq<char>, k: int)
    requires
        0 <= k <= s.len(),
    ensures
        digits_value(s.take(k)) <= digits_value(s),
    decreases s.len(),
{
    if k < s.len() {
        lemma_digits_prefix_le(s.drop_last(), k);
        assert(s.drop_last().take(k) =~= s.take(k));
    } else {
        assert(s.take(k) =~= s);
    }
}

/// Reads a transmit-route hash field back as the request identifier it was written
/// from, as `str::parse::<u64>` does.
pub fn parse_request_id(field: &str) -> (id: Option<HttpRequestId>)
    ensures
        id == parsed_u64(field@),
{
    let ghost s = field@;
    let n = field.unicode_len();
    let mut start: usize = 0;
    if n > 0 && field.get_char(0) == '+' {
        start = 1;
    }
    let ghost digits = s.subrange(start as int, n as int);
    assert(digits =~= unsigned_digits(s));
    if start == n {
        return None;
    }
    let mut value: u64 = 0;
    let mut i: usize = start;
    while i < n
        invariant
            s == field@,
            n == s.len(),
            start < n,
            start <= i <= n,
            digits == s.subrange(start as int, n as int),
            digits == unsigned_digits(s),
            all_decimal_digits(digits.take(i - start)),
            value == digits_value(digits.take(i - start)),
        decreases n - i,
    {
        let c = field.get_char(i);
        let code = c as u32;
        let ghost k: int = i - start;
        assert(digits[k] == c);
        if code < 48 || code > 57 {
            assert(!is_decimal_digit(digits[k]));
            return None;
        }
        let d = (code - 48) as u64;
        assert(digits.take(k + 1).drop_last() =~= digits.take(k));
        assert(digits_value(digits.take(k + 1)) == value * 10 + d);
        if value > (u64::MAX - d) / 10 {
            proof {
                assert(value * 10 + d > u64::MAX) by (nonlinear_arith)
                    requires
                        value > (u64::MAX - d) / 10,
                        d <= 9,
                ;
                lemma_digits_prefix_le(digits, k + 1);
            }
            return None;
        }
        assert(value * 10 + d <= u64::MAX) by (nonlinear_arith)
            requires
                value <= (u64::MAX - d) / 10,
                d <= 9,
        ;
        value = value * 10 + d;
        i = i + 1;
        assert forall|t: int| 0 <= t < k + 1 implies is_decimal_digit(#[trigger] digits.take(k + 1)[t]) by {
            if t < k {
                assert(digits.take(k + 1)[t] == digits.take(k)[t]);
            }
        }
    }
    assert(digits.take(n - start) =~= digits);
    Some(value)
}

/// What `LRANGE list start stop` returns: negative indexes count from the end of the
/// list, a start before the head is the head, a stop past the tail is the tail, and a
/// range that holds no element gives nothing.
pub open spec fn lrange<T>(list: Seq<T>, start: int, stop: int) -> Seq<T> {
    let len = list.len() as int;
    let first = if start < 0 {
        if start + len < 0 {
            0
        } else {
            start + len
        }
    } else {
        start
    };
    let last = if stop < 0 {
        stop + len
    } else if stop >= len {
        len - 1
    } else {
        stop
    };
    if first > last || first >= len {
        Seq::empty()
    } else {
        list.subrange(first, last + 1)
    }
}

/// The `LRANGE` bounds that read a cached channel, kept newest first, from position
/// `from_index` (counted from the oldest message) on: from the head to `from_index`
/// entries before the tail. `None` when `from_index` does not fit in an `isize`; no
/// list is that long, so nothing is read.
pub fn cache_read_range(from_index: usize) -> (range: Option<(isize, isize)>)
    ensures
        match range {
            Some((start, stop)) => from_index <= isize::MAX && start == 0 && stop == -1 - from_index,
            None => from_index > isize::MAX,
        },
{
    if from_index <= isize::MAX as usize {
        let skipped = from_index as isize;
        Some((0, -1 - skipped))
    } else {
        None
    }
}

/// The messages of a list kept newest first, oldest first.
pub fn oldest_first<T>(newest_first: Vec<T>) -> (oldest: Vec<T>)
    ensures
        oldest@ == newest_first@.reverse(),
{
    let ghost given = newest_first@;
    let mut rest = newest_first;
    let mut oldest: Vec<T> = Vec::new();
    while rest.len() > 0
        invariant
            rest@ == given.take(given.len() - oldest@.len()),
            oldest@ == given.reverse().take(oldest@.len() as int),
            oldest@.len() <= given.len(),
        decreases rest@.len(),
    {
        let ghost k = oldest@.len() as int;
        let last = rest.pop().unwrap();
        assert(last == given.reverse()[k]);
        oldest.push(last);
        assert(oldest@ =~= given.reverse().take(k + 1));
        assert(rest@ =~= given.take(given.len() - (k + 1)));
    }
    assert(oldest@ =~= given.reverse());
    oldest
}

/// The abstract values of SSE connection records read back with their sessions.
pub open spec fn connection_views(connections: Seq<(SessionId, SseConnectionData)>) -> Seq<
    (Seq<char>, SseConnectionView),
> {
    connections.map_values(|p: (SessionId, SseConnectionData)| (p.0@, p.1@))
}

/// The sessions among `connections` whose connection satisfies `keep`, in order.
pub open spec fn sessions_where(
    connections: Seq<(Seq<char>, SseConnectionView)>,
    keep: spec_fn(SseConnectionView) -> bool,
) -> Seq<Seq<char>>
    decreases connections.len(),
{
    if connections.len() == 0 {
        Seq::empty()
    } else {
        let rest = sessions_where(connections.drop_last(), keep);
        if keep(connections.last().1) {
            rest.push(connections.last().0)
        } else {
            rest
        }
    }
}

/// The connections held by the server instance `instance`.
pub open spec fn held_by(instance: Seq<char>) -> spec_fn(SseConnectionView) -> bool {
    |c: SseConnectionView| c.server_instance_id == instance
}

/// The connections last pinged more than `max_idle` before `now`.
pub open spec fn idle_longer_than(max_idle: u128, now: u128) -> spec_fn(SseConnectionView) -> bool {
    |c: SseConnectionView| idle_time(c.last_ping, now) > max_idle
}

/// Of the SSE connections read back, each session with the server instance that holds
/// its connection.
pub fn active_sessions_among(connections: &Vec<(SessionId, SseConnectionData)>) -> (sessions: Vec<
    (SessionId, String),
>)
    ensures
        sessions@.map_values(|p: (SessionId, String)| (p.0@, p.1@)) == connection_views(
            connections@,
        ).map_values(|p: (Seq<char>, SseConnectionView)| (p.0, p.1.server_instance_id)),
{
    let mut sessions: Vec<(SessionId, String)> = Vec::new();
    let n = connections.len();
    let mut i: usize = 0;
    while i < n
        invariant
            n == connections@.len(),
            i <= n,
            sessions@.len() == i,
            forall|t: int|
                0 <= t < i ==> #[trigger] sessions@[t].0@ == connections@[t].0@ && sessions@[t].1@
                    == connections@[t].1.server_instance_id@,
        decreases n - i,
    {
        let id = connections[i].0.clone();
        let instance = connections[i].1.server_instance_id.clone();
        sessions.push((id, instance));
        i = i + 1;
    }
    assert(sessions@.map_values(|p: (SessionId, String)| (p.0@, p.1@)) =~= connection_views(
        connections@,
    ).map_values(|p: (Seq<char>, SseConnectionView)| (p.0, p.1.server_instance_id)));
    sessions
}

/// Of the SSE connections read back, the sessions held by the server instance, in the
/// order read.
pub fn sessions_held_by(connections: &Vec<(SessionId, SseConnectionData)>, server_instance_id: &str) -> (sessions:
    Vec<SessionId>)
    ensures
        string_views(sessions@) == sessions_where(connection_views(connections@), held_by(server_instance_id@)),
{
    let ghost keep = held_by(server_instance_id@);
    let ghost all = connection_views(connections@);
    let instance = String::from_str(server_instance_id);
    let mut sessions: Vec<SessionId> = Vec::new();
    let n = connections.len();
    let mut i: usize = 0;
    while i < n
        invariant
            n == connections@.len(),
            i <= n,
            all == connection_views(connections@),
            instance@ == server_instance_id@,
            keep == held_by(server_instance_id@),
            string_views(sessions@) == sessions_where(all.take(i as int), keep),
        decreases n - i,
    {
        assert(all.take(i + 1).drop_last() =~= all.take(i as int));
        assert(all.take(i + 1).last() == all[i as int]);
        if connections[i].1.server_instance_id.eq(&instance) {
            sessions.push(connections[i].0.clone());
        }
        assert(string_views(sessions@) =~= sessions_where(all.take(i + 1), keep));
        i = i + 1;
    }
    assert(all.take(n as int) =~= all);
    sessions
}

/// Of the SSE connections read back, the sessions whose connection was last pinged more
/// than `max_idle` before `now`, in the order read.
pub fn stale_sessions_among(
    connections: &Vec<(SessionId, SseConnectionData)>,
    max_idle: u128,
    now: u128,
) -> (sessions: Vec<SessionId>)
    ensures
        string_views(sessions@) == sessions_where(connection_views(connections@), idle_longer_than(max_idle, now)),
{
    let ghost keep = idle_longer_than(max_idle, now);
    let ghost all = connection_views(connections@);
    let mut sessions: Vec<SessionId> = Vec::new();
    let n = connections.len();
    let mut i: usize = 0;
    while i < n
        invariant
            n == connections@.len(),
            i <= n,
            all == connection_views(connections@),
            keep == idle_longer_than(max_idle, now),
            string_views(sessions@) == sessions_where(all.take(i as int), keep),
        decreases n - i,
    {
        assert(all.take(i + 1).drop_last() =~= all.take(i as int));
        assert(all.take(i + 1).last() == all[i as int]);
        let last_ping = connections[i].1.last_ping;
        let stale = now >= last_ping && now - last_ping > max_idle;
        if stale {
            sessions.push(connections[i].0.clone());
        }
        assert(string_views(sessions@) =~= sessions_where(all.take(i + 1), keep));
        i = i + 1;
    }
    assert(all.take(n as int) =~= all);
    sessions
}

/// The instances shown healthy by the records read back: those whose health record says
/// so, and those holding an SSE connection with no health record saying otherwise.
pub open spec fn healthy_instances_of(
    connections: Seq<SseConnectionView>,
    health: Seq<InstanceHealthView>,
) -> Set<Seq<char>> {
    Set::new(
        |x: Seq<char>|
            (exists|j: int| 0 <= j < health.len() && #[trigger] health[j].server_instance_id == x && health[j].is_healthy)
                || ((exists|j: int| 0 <= j < connections.len() && #[trigger] connections[j].server_instance_id == x)
                && forall|j: int|
                0 <= j < health.len() && #[trigger] health[j].server_instance_id == x ==> health[j].is_healthy),
    )
}

/// Adding `y` to a list without duplicates when `add` holds and `y` is not in it yet.
proof fn lemma_list_grows<T>(before: Seq<T>, after: Seq<T>, y: T, add: bool)
    requires
        before.no_duplicates(),
        (add && !before.contains(y) && after == before.push(y)) || (after == before && (add ==> before.contains(y))),
    ensures
        after.no_duplicates(),
        forall|x: T| #[trigger] after.contains(x) <==> (before.contains(x) || (add && x == y)),
{
    if after != before {
        assert forall|a: int, b: int| 0 <= a < after.len() && 0 <= b < after.len() && a != b implies after[a]
            != after[b] by {
            if a == before.len() {
                assert(before[b] == after[b]);
            } else if b == before.len() {
                assert(before[a] == after[a]);
            } else {
                assert(before[a] == after[a] && before[b] == after[b]);
            }
        }
        assert forall|x: T| #[trigger] after.contains(x) <==> (before.contains(x) || (add && x == y)) by {
            if before.contains(x) {
                let t = choose|t: int| 0 <= t < before.len() && before[t] == x;
                assert(after[t] == x);
            }
            if after.contains(x) && x != y {
                let t = choose|t: int| 0 <= t < after.len() && after[t] == x;
                assert(before[t] == x);
            }
            if add && x == y {
                assert(after[before.len() as int] == x);
            }
        }
    } else {
        assert forall|x: T| #[trigger] after.contains(x) <==> (before.contains(x) || (add && x == y)) by {
            if add && x == y {
                assert(before.push(y).len() != before.len());
                assert(before.contains(y));
            }
        }
    }
}

/// Whether a health record among `health` reports the instance unhealthy.
fn reported_unhealthy(health: &Vec<InstanceHealthData>, instance: &String) -> (reported: bool)
    ensures
        reported == exists|j: int|
            0 <= j < health@.len() && #[trigger] health@[j]@.server_instance_id == instance@ && !health@[j].is_healthy,
{
    let n = health.len();
    let mut i: usize = 0;
    while i < n
        invariant
            n == health@.len(),
            i <= n,
            forall|j: int|
                0 <= j < i && #[trigger] health@[j]@.server_instance_id == instance@ ==> health@[j].is_healthy,
        decreases n - i,
    {
        if !health[i].is_healthy && health[i].server_instance_id.eq(instance) {
            assert(health@[i as int]@.server_instance_id == instance@);
            return true;
        }
        i = i + 1;
    }
    false
}

/// From the SSE connection and instance health records read back, the healthy
/// instances, each once.
pub fn healthy_instances_among(connections: &Vec<SseConnectionData>, health: &Vec<InstanceHealthData>) -> (instances:
    Vec<String>)
    ensures
        lists_set(
            string_views(instances@),
            healthy_instances_of(
                connections@.map_values(|c: SseConnectionData| c@),
                health@.map_values(|h: InstanceHealthData| h@),
            ),
        ),
{
    let ghost cs = connections@.map_values(|c: SseConnectionData| c@);
    let ghost hs = health@.map_values(|h: InstanceHealthData| h@);
    let mut out: Vec<String> = Vec::new();
    let m = health.len();
    let mut i: usize = 0;
    while i < m
        invariant
            m == health@.len(),
            i <= m,
            hs == health@.map_values(|h: InstanceHealthData| h@),
            string_views(out@).no_duplicates(),
            forall|x: Seq<char>|
                #[trigger] string_views(out@).contains(x) <==> exists|j: int|
                    0 <= j < i && #[trigger] hs[j].server_instance_id == x && hs[j].is_healthy,
        decreases m - i,
    {
        let ghost before = string_views(out@);
        let instance = &health[i].server_instance_id;
        let add = health[i].is_healthy;
        if add && !strings_contain(&out, instance) {
            out.push(instance.clone());
            assert(string_views(out@) =~= before.push(instance@));
        }
        proof {
            lemma_list_grows(before, string_views(out@), instance@, add);
            assert(hs[i as int] == health@[i as int]@);
            assert forall|x: Seq<char>|
                #[trigger] string_views(out@).contains(x) <==> exists|j: int|
                    0 <= j < i + 1 && #[trigger] hs[j].server_instance_id == x && hs[j].is_healthy by {
                if exists|j: int| 0 <= j < i + 1 && #[trigger] hs[j].server_instance_id == x && hs[j].is_healthy {
                    let j = choose|j: int| 0 <= j < i + 1 && #[trigger] hs[j].server_instance_id == x && hs[j].is_healthy;
                    if j < i {
                        assert(before.contains(x));
                    } else {
                        assert(add && x == instance@);
                    }
                }
                if before.contains(x) {
                    let j = choose|j: int| 0 <= j < i && #[trigger] hs[j].server_instance_id == x && hs[j].is_healthy;
                    assert(0 <= j < i + 1 && hs[j].server_instance_id == x && hs[j].is_healthy);
                }
                if add && x == instance@ {
                    assert(0 <= i < i + 1 && hs[i as int].server_instance_id == x && hs[i as int].is_healthy);
                }
            }
        }
        i = i + 1;
    }
    let n = connections.len();
    let mut i: usize = 0;
    while i < n
        invariant
            n == connections@.len(),
            m == health@.len(),
            i <= n,
            cs == connections@.map_values(|c: SseConnectionData| c@),
            hs == health@.map_values(|h: InstanceHealthData| h@),
            string_views(out@).no_duplicates(),
            forall|x: Seq<char>|
                #[trigger] string_views(out@).contains(x) <==> ((exists|j: int|
                    0 <= j < m && #[trigger] hs[j].server_instance_id == x && hs[j].is_healthy) || ((exists|j: int|
                    0 <= j < i && #[trigger] cs[j].server_instance_id == x) && forall|j: int|
                    0 <= j < m && #[trigger] hs[j].server_instance_id == x ==> hs[j].is_healthy)),
        decreases n - i,
    {
        let ghost before = string_views(out@);
        let instance = &connections[i].server_instance_id;
        let unhealthy = reported_unhealthy(health, instance);
        let add = !unhealthy;
        if add && !strings_contain(&out, instance) {
            out.push(instance.clone());
            assert(string_views(out@) =~= before.push(instance@));
        }
        proof {
            lemma_list_grows(before, string_views(out@), instance@, add);
            assert(cs[i as int] == connections@[i as int]@);
            assert(unhealthy == exists|j: int| 0 <= j < m && #[trigger] hs[j].server_instance_id == instance@ && !hs[j].is_healthy) by {
                if unhealthy {
                    let j = choose|j: int|
                        0 <= j < health@.len() && #[trigger] health@[j]@.server_instance_id == instance@ && !health@[j].is_healthy;
                    assert(hs[j] == health@[j]@);
                }
                if exists|j: int| 0 <= j < m && #[trigger] hs[j].server_instance_id == instance@ && !hs[j].is_healthy {
                    let j = choose|j: int| 0 <= j < m && #[trigger] hs[j].server_instance_id == instance@ && !hs[j].is_healthy;
                    assert(hs[j] == health@[j]@);
                    assert(health@[j]@.server_instance_id == instance@);
                }
            }
            assert forall|x: Seq<char>|
                #[trigger] string_views(out@).contains(x) <==> ((exists|j: int|
                    0 <= j < m && #[trigger] hs[j].server_instance_id == x && hs[j].is_healthy) || ((exists|j: int|
                    0 <= j < i + 1 && #[trigger] cs[j].server_instance_id == x) && forall|j: int|
                    0 <= j < m && #[trigger] hs[j].server_instance_id == x ==> hs[j].is_healthy)) by {
                if exists|j: int| 0 <= j < i + 1 && #[trigger] cs[j].server_instance_id == x {
                    let j = choose|j: int| 0 <= j < i + 1 && #[trigger] cs[j].server_instance_id == x;
                    if j < i {
                        assert(exists|j: int| 0 <= j < i && #[trigger] cs[j].server_instance_id == x);
                    }
                }
                if exists|j: int| 0 <= j < i && #[trigger] cs[j].server_instance_id == x {
                    let j = choose|j: int| 0 <= j < i && #[trigger] cs[j].server_instance_id == x;
                    assert(0 <= j < i + 1 && cs[j].server_instance_id == x);
                }
                if x == instance@ && add {
                    assert(0 <= i < i + 1 && cs[i as int].server_instance_id == x);
                }
            }
        }
        i = i + 1;
    }
    proof {
        let set = healthy_instances_of(cs, hs);
        assert forall|x: Seq<char>| #[trigger] set.contains(x) <==> string_views(out@).contains(x) by {}
    }
    out
}

/// The abstract values of transmit-route hash fields read back, each with its route if
/// the route decoded.
pub open spec fn field_views(fields: Seq<(String, Option<RouteData>)>) -> Seq<(Seq<char>, Option<RouteDataView>)> {
    fields.map_values(|f: (String, Option<RouteData>)| (f.0@, view_opt(f.1)))
}

/// The routes among `fields` whose field reads as a request identifier and whose route
/// decoded, in order.
pub open spec fn routes_of_fields(fields: Seq<(Seq<char>, Option<RouteDataView>)>) -> Seq<(HttpRequestId, RouteDataView)>
    decreases fields.len(),
{
    if fields.len() == 0 {
        Seq::empty()
    } else {
        let earlier = routes_of_fields(fields.drop_last());
        let last = fields.last();
        match (parsed_u64(last.0), last.1) {
            (Some(id), Some(route)) => earlier.push((id, route)),
            _ => earlier,
        }
    }
}

/// The transmit routes of a session from the fields of its route hash: each field that
/// reads as a request identifier, with its route if that decoded; other fields are
/// skipped.
pub fn routes_from_fields(fields: Vec<(String, Option<RouteData>)>) -> (routes: Vec<(HttpRequestId, RouteData)>)
    ensures
        routes@.map_values(|r: (HttpRequestId, RouteData)| (r.0, r.1@)) == routes_of_fields(field_views(fields@)),
{
    let ghost all = field_views(fields@);
    let mut routes: Vec<(HttpRequestId, RouteData)> = Vec::new();
    let n = fields.len();
    let mut i: usize = 0;
    while i < n
        invariant
            n == fields@.len(),
            i <= n,
            all == field_views(fields@),
            routes@.map_values(|r: (HttpRequestId, RouteData)| (r.0, r.1@)) == routes_of_fields(all.take(i as int)),
        decreases n - i,
    {
        let ghost before = routes@.map_values(|r: (HttpRequestId, RouteData)| (r.0, r.1@));
        assert(all.take(i + 1).drop_last() =~= all.take(i as int));
        assert(all.take(i + 1).last() == all[i as int]);
        assert(all[i as int] == (fields@[i as int].0@, view_opt(fields@[i as int].1)));
        let id = parse_request_id(fields[i].0.as_str());
        match (id, &fields[i].1) {
            (Some(id), Some(route)) => {
                routes.push((id, route.clone()));
                assert(routes@.map_values(|r: (HttpRequestId, RouteData)| (r.0, r.1@)) =~= before.push((id, route@)));
            },
            _ => {},
        }
        i = i + 1;
    }
    assert(all.take(n as int) =~= all);
    routes
}

/// A session's metadata record.
#[derive(Debug, Clone, Copy, PartialEq, Eq)]
pub struct SessionMeta {
    /// Nanoseconds since the UNIX epoch.
    pub created_at: u128,
    /// Nanoseconds since the UNIX epoch.
    pub last_activity: u128,
}

impl SessionMeta {
    /// The metadata of a session created at `now`.
    pub fn created(now: u128) -> (meta: SessionMeta)
        ensures
            meta == (SessionMeta { created_at: now, last_activity: now }),
    {
        SessionMeta { created_at: now, last_activity: now }
    }

    /// The metadata read back, with activity recorded at `now`; nothing for a session
    /// whose metadata is absent.
    pub fn refreshed(meta: Option<SessionMeta>, now: u128) -> (refreshed: Option<SessionMeta>)
        ensures
            refreshed == (match meta {
                Some(m) => Some(SessionMeta { last_activity: now, ..m }),
                None => None,
            }),
    {
        match meta {
            Some(m) => Some(SessionMeta { created_at: m.created_at, last_activity: now }),
            None => None,
        }
    }
}

/// What a heartbeat does on Redis: refresh the session's metadata if it exists, write
/// back the connection record pinged now if there is one, and whether it succeeds.
pub struct HeartbeatPlan {
    pub refresh_session: bool,
    pub connection: Option<SseConnectionData>,
    pub accepted: bool,
}

/// The heartbeat of a session at `now`, from whether its metadata exists and its SSE
/// connection record, if any: accepted exactly when one of the two exists.
pub fn heartbeat_plan(has_session: bool, connection: Option<&SseConnectionData>, now: u128) -> (plan: HeartbeatPlan)
    ensures
        plan.refresh_session == has_session,
        plan.accepted == (has_session || connection is Some),
        match connection {
            Some(c) => plan.connection matches Some(p) && p@ == (SseConnectionView { last_ping: now, ..c@ }),
            None => plan.connection is None,
        },
{
    let accepted = has_session || connection.is_some();
    let pinged = match connection {
        Some(c) => Some(pinged_at(c, now)),
        None => None,
    };
    HeartbeatPlan { refresh_session: has_session, connection: pinged, accepted }
}

} // verus!
