//! The endpoint at which sessions report their events, and the status of the
//! hooks that make them report.

use vstd::prelude::*;
use crate::session_monitor::{
    outcome_after, table_after, HookEventPayload, HookOutcome, SessionMonitor,
};
use crate::text::{has_substring, str_contains, str_eq};

verus! {

/// The port of the endpoint on the loopback address.
pub const HOOK_PORT: u16 = 19823;

/// The text by which a hook of this program is told from others in the
/// assistant's settings.
pub open spec fn hook_identifier() -> Seq<char> {
    "localhost:19823/sessionly"@
}

/// The path of the endpoint.
pub open spec fn hook_path() -> Seq<char> {
    "/sessionly"@
}

/// The state of the hook machinery, as it is shown.
#[derive(Debug, Clone, Copy, PartialEq, Eq, Structural)]
pub struct HookStatus {
    pub server_running: bool,
    pub port: u16,
    pub hooks_installed: bool,
}

/// The hooks are installed when the settings name the endpoint. Settings
/// that are absent or cannot be read hold no hooks.
pub open spec fn hooks_installed_in(settings: Option<Seq<char>>) -> bool {
    match settings {
        Some(text) => has_substring(text, hook_identifier()),
        None => false,
    }
}

/// Whether the hooks are installed, given the text of the assistant's
/// settings file, or `None` where there is no such file or it cannot be read.
pub fn is_hooks_installed(settings: Option<&str>) -> (r: bool)
    ensures
        r == hooks_installed_in(
            match settings {
                Some(text) => Some(text@),
                None => None,
            },
        ),
{
    match settings {
        Some(text) => str_contains(text, "localhost:19823/sessionly"),
        None => false,
    }
}

/// The status to show, given whether the listener runs and the text of the
/// assistant's settings file.
pub fn get_status(server_running: bool, settings: Option<&str>) -> (r: HookStatus)
    ensures
        r == (HookStatus {
            server_running,
            port: HOOK_PORT,
            hooks_installed: hooks_installed_in(
                match settings {
                    Some(text) => Some(text@),
                    None => None,
                },
            ),
        }),
{
    HookStatus { server_running, port: HOOK_PORT, hooks_installed: is_hooks_installed(settings) }
}

/// The answer to a request.
#[derive(Debug, Clone, Copy, PartialEq, Eq, Structural)]
pub enum HookReply {
    /// The event was taken.
    Accepted,
    /// The request was for another path or with another method.
    NotFound,
    /// The body could not be read as an event.
    BadRequest,
}

impl HookReply {
    pub open spec fn spec_status(self) -> u16 {
        match self {
            HookReply::Accepted => 200,
            HookReply::NotFound => 404,
            HookReply::BadRequest => 400,
        }
    }

    pub open spec fn spec_body(self) -> Seq<char> {
        match self {
            HookReply::Accepted => "OK"@,
            HookReply::NotFound => "Not Found"@,
            HookReply::BadRequest => "Bad Request"@,
        }
    }

    /// The status code of the answer.
    pub fn status(self) -> (r: u16)
        ensures
            r == self.spec_status(),
    {
        match self {
            HookReply::Accepted => 200,
            HookReply::NotFound => 404,
            HookReply::BadRequest => 400,
        }
    }

    /// The text of the answer.
    pub fn body(self) -> (r: &'static str)
        ensures
            r@ == self.spec_body(),
    {
        match self {
            HookReply::Accepted => "OK",
            HookReply::NotFound => "Not Found",
            HookReply::BadRequest => "Bad Request",
        }
    }
}

/// Events are taken by `POST` at the endpoint's path and nowhere else.
pub open spec fn is_hook_endpoint(method: Seq<char>, url: Seq<char>) -> bool {
    method == "POST"@ && url == hook_path()
}

/// The answer to a request: not found for anything but a `POST` at the
/// endpoint's path, else a bad request where the body gave no event, else
/// accepted.
pub open spec fn reply_for(method: Seq<char>, url: Seq<char>, has_payload: bool) -> HookReply {
    if !is_hook_endpoint(method, url) {
        HookReply::NotFound
    } else if !has_payload {
        HookReply::BadRequest
    } else {
        HookReply::Accepted
    }
}

/// Whether a request is one for the endpoint.
pub fn accepts_request(method: &str, url: &str) -> (r: bool)
    ensures
        r == is_hook_endpoint(method@, url@),
{
    str_eq(method, "POST") && str_eq(url, "/sessionly")
}

/// Serves one request that arrived at time `now`. `payload` is the event
/// read from the body, or `None` where the body could not be read as one.
///
/// Only a request that is accepted reaches the monitor; an accepted event of
/// a kind that the monitor ignores is still answered as accepted.
pub fn handle_hook_request(
    monitor: &mut SessionMonitor,
    method: &str,
    url: &str,
    payload: Option<HookEventPayload>,
    now: u64,
) -> (r: (HookReply, Option<HookOutcome>))
    ensures
        r.0 == reply_for(method@, url@, payload is Some),
        final(monitor).notifying() == old(monitor).notifying(),
        r.0 != HookReply::Accepted ==> r.1 is None && final(monitor).table() == old(monitor).table(),
        r.0 == HookReply::Accepted ==> final(monitor).table() == table_after(
            old(monitor).table(),
            payload->0.session_id@,
            payload->0.hook_event_name@,
            now,
        ) && r.1.deep_view() == outcome_after(
            old(monitor).table(),
            old(monitor).notifying(),
            payload->0.session_id@,
            payload->0.hook_event_name@,
            now,
        ),
{
    if !accepts_request(method, url) {
        return (HookReply::NotFound, None);
    }
    match payload {
        Some(event) => {
            let outcome = monitor.handle_hook_event(event, now);
            (HookReply::Accepted, outcome)
        },
        None => (HookReply::BadRequest, None),
    }
}

} // verus!
