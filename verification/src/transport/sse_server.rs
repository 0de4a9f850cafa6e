//! The decisions of the SSE server transport: the values it sends and registers,
//! and how it answers a posted message. The network side is the caller's.

use crate::state_store::SseConnectionData;
use vstd::prelude::*;

verus! {

/// Interval between keep-alive pings when none is configured: 15 seconds, in nanoseconds.
pub const DEFAULT_AUTO_PING_INTERVAL: u128 = 15_000_000_000;

/// The keep-alive interval to use (nanoseconds): the configured one, else the default.
pub fn ping_interval(sse_keep_alive: Option<u128>) -> (interval: u128)
    ensures
        interval == match sse_keep_alive {
            Some(k) => k,
            None => DEFAULT_AUTO_PING_INTERVAL,
        },
{
    match sse_keep_alive {
        Some(k) => k,
        None => DEFAULT_AUTO_PING_INTERVAL,
    }
}

/// The identifier of a server instance, from a unique suffix.
pub fn server_instance_id(unique: &str) -> (id: String)
    ensures
        id@ == "sse-server-"@ + unique@,
{
    let mut id = String::from_str("sse-server-");
    id.append(unique);
    id
}

/// The data of the `endpoint` event that opens an SSE stream: where to post, and
/// for which session.
pub fn endpoint_event_data(post_path: &str, session_id: &str) -> (data: String)
    ensures
        data@ == post_path@ + "?sessionId="@ + session_id@,
{
    let mut data = String::from_str(post_path);
    data.append("?sessionId=");
    data.append(session_id);
    data
}

/// The SSE connection record that a server instance registers for a new session.
pub fn connection_record(now: u128, ping_interval: u128, server_instance_id: &String) -> (record: SseConnectionData)
    ensures
        record.created_at == now,
        record.last_ping == now,
        record.ping_interval == ping_interval,
        record.server_instance_id@ == server_instance_id@,
{
    SseConnectionData {
        created_at: now,
        last_ping: now,
        ping_interval,
        server_instance_id: server_instance_id.clone(),
    }
}

/// The query of a posted client message: the session it is for.
#[derive(Debug)]
pub struct PostEventQuery {
    pub session_id: String,
}

/// How a posted client message is answered.
#[derive(Debug, Clone, Copy, PartialEq, Eq)]
pub enum PostEventOutcome {
    /// The message was handed to the session.
    Accepted,
    /// No session has the given identifier.
    NotFound,
    /// The session's receiver is gone.
    Gone,
}

impl PostEventOutcome {
    /// The HTTP status code of the answer.
    pub fn status_code(&self) -> (code: u16)
        ensures
            code == match self {
                PostEventOutcome::Accepted => 202u16,
                PostEventOutcome::NotFound => 404u16,
                PostEventOutcome::Gone => 410u16,
            },
    {
        match self {
            PostEventOutcome::Accepted => 202,
            PostEventOutcome::NotFound => 404,
            PostEventOutcome::Gone => 410,
        }
    }
}

/// The answer to a posted message: not found without a session, gone if the session
/// could not take it, accepted otherwise.
pub fn post_event_outcome(session_found: bool, delivered: bool) -> (outcome: PostEventOutcome)
    ensures
        !session_found ==> outcome == PostEventOutcome::NotFound,
        session_found && !delivered ==> outcome == PostEventOutcome::Gone,
        session_found && delivered ==> outcome == PostEventOutcome::Accepted,
{
    if !session_found {
        PostEventOutcome::NotFound
    } else if !delivered {
        PostEventOutcome::Gone
    } else {
        PostEventOutcome::Accepted
    }
}

} // verus!
