//! Live tracking of sessions from the events that they emit.
//!
//! Each event moves the session that emitted it to a state; the monitor keeps
//! the state and the time of the last event of every session, and answers
//! with the state of all sessions taken together. Time is a parameter: a
//! count of milliseconds that never runs backwards.

use vstd::prelude::*;
use crate::string_map::StringMap;
use crate::text::str_eq;

verus! {

/// The state of a session. A session that was never seen, or that was
/// forgotten, is `Idle`.
#[derive(Debug, Clone, Copy, PartialEq, Eq, Structural)]
pub enum SessionState {
    Idle,
    Working,
    Completed,
    Error,
}

/// What the monitor remembers of a session.
#[derive(Debug, Clone, Copy, PartialEq, Eq, Structural)]
pub struct TrackedSession {
    pub state: SessionState,
    /// The time of the session's last event, in milliseconds.
    pub last_update: u64,
}

impl View for TrackedSession {
    type V = TrackedSession;

    open spec fn view(&self) -> TrackedSession {
        *self
    }
}

/// The record of a state change, as it is handed on for display.
#[derive(Debug, Clone, PartialEq, Eq)]
pub struct SessionStateInfo {
    pub session_id: String,
    pub state: SessionState,
    pub aggregate_state: SessionState,
}

/// An event as a session reports it.
#[derive(Debug, Clone, PartialEq, Eq)]
pub struct HookEventPayload {
    pub session_id: String,
    pub hook_event_name: String,
    pub tool_name: Option<String>,
    pub cwd: Option<String>,
}

/// A notification that a state change asks for.
#[derive(Debug, Clone, Copy, PartialEq, Eq, Structural)]
pub enum Notice {
    /// A working session has completed and waits for input.
    ReadyForInput,
    /// A session has run into an error.
    ErrorOccurred,
}

/// What an accepted event leads to: the record of the state change, and a
/// notification where one is due.
#[derive(Debug, Clone, PartialEq, Eq)]
pub struct HookOutcome {
    pub info: SessionStateInfo,
    pub notice: Option<Notice>,
}

pub struct HookOutcomeView {
    pub session_id: Seq<char>,
    pub state: SessionState,
    pub aggregate_state: SessionState,
    pub notice: Option<Notice>,
}

impl View for HookOutcome {
    type V = HookOutcomeView;

    open spec fn view(&self) -> HookOutcomeView {
        HookOutcomeView {
            session_id: self.info.session_id@,
            state: self.info.state,
            aggregate_state: self.info.aggregate_state,
            notice: self.notice,
        }
    }
}

impl DeepView for HookOutcome {
    type V = HookOutcomeView;

    open spec fn deep_view(&self) -> HookOutcomeView {
        self@
    }
}

/// The time without an event, in milliseconds, after which a session is
/// forgotten.
pub const STALE_AFTER_MS: u64 = 60_000;

// ---------------------------------------------------------------------------
// The rules
// ---------------------------------------------------------------------------

/// The state that an event of the given kind moves a session to; `None` for
/// a kind that is ignored.
pub open spec fn event_state(kind: Seq<char>) -> Option<SessionState> {
    if kind == "PreToolUse"@ || kind == "PostToolUse"@ {
        Some(SessionState::Working)
    } else if kind == "PostToolUseFailure"@ {
        Some(SessionState::Error)
    } else if kind == "Stop"@ || kind == "Notification"@ {
        Some(SessionState::Completed)
    } else {
        None
    }
}

/// Some tracked session is in `state`.
pub open spec fn any_in_state(sessions: Map<Seq<char>, TrackedSession>, state: SessionState) -> bool {
    exists|id: Seq<char>| sessions.contains_key(id) && (#[trigger] sessions[id]).state == state
}

/// The state of all tracked sessions taken together: `Error` if any is in
/// error, else `Working` if any is working, else `Completed` if any has
/// completed, else `Idle`.
pub open spec fn aggregate(sessions: Map<Seq<char>, TrackedSession>) -> SessionState {
    if any_in_state(sessions, SessionState::Error) {
        SessionState::Error
    } else if any_in_state(sessions, SessionState::Working) {
        SessionState::Working
    } else if any_in_state(sessions, SessionState::Completed) {
        SessionState::Completed
    } else {
        SessionState::Idle
    }
}

/// The state of a session as the table has it: `Idle` for one that it lacks.
pub open spec fn state_of(sessions: Map<Seq<char>, TrackedSession>, id: Seq<char>) -> SessionState {
    if sessions.contains_key(id) {
        sessions[id].state
    } else {
        SessionState::Idle
    }
}

/// A session is stale when its last event is at least the staleness window
/// in the past.
pub open spec fn is_stale(session: TrackedSession, now: u64) -> bool {
    now >= session.last_update && now - session.last_update >= STALE_AFTER_MS
}

/// The table without its stale sessions.
pub open spec fn pruned(sessions: Map<Seq<char>, TrackedSession>, now: u64) -> Map<
    Seq<char>,
    TrackedSession,
> {
    Map::new(
        |id: Seq<char>| sessions.contains_key(id) && !is_stale(sessions[id], now),
        |id: Seq<char>| sessions[id],
    )
}

/// The notification due on a change from `previous` to `next`: none while
/// notifications are off; else one when a working session completes, and
/// one when a session that was not in error runs into one.
pub open spec fn notice_for(enabled: bool, previous: SessionState, next: SessionState) -> Option<
    Notice,
> {
    if !enabled {
        None
    } else if previous == SessionState::Working && next == SessionState::Completed {
        Some(Notice::ReadyForInput)
    } else if next == SessionState::Error && previous != SessionState::Error {
        Some(Notice::ErrorOccurred)
    } else {
        None
    }
}

/// The table after an event of kind `kind` from session `id` at time `now`:
/// unchanged for a kind that is ignored, else with the session's state and
/// time set.
pub open spec fn table_after(
    sessions: Map<Seq<char>, TrackedSession>,
    id: Seq<char>,
    kind: Seq<char>,
    now: u64,
) -> Map<Seq<char>, TrackedSession> {
    match event_state(kind) {
        Some(state) => sessions.insert(id, TrackedSession { state, last_update: now }),
        None => sessions,
    }
}

/// What an event leads to: nothing for a kind that is ignored; else the
/// session's new state, the aggregate after the change, and the notification
/// that the change from the session's previous state asks for.
pub open spec fn outcome_after(
    sessions: Map<Seq<char>, TrackedSession>,
    enabled: bool,
    id: Seq<char>,
    kind: Seq<char>,
    now: u64,
) -> Option<HookOutcomeView> {
    match event_state(kind) {
        Some(state) => Some(
            HookOutcomeView {
                session_id: id,
                state,
                aggregate_state: aggregate(table_after(sessions, id, kind, now)),
                notice: notice_for(enabled, state_of(sessions, id), state),
            },
        ),
        None => None,
    }
}

// ---------------------------------------------------------------------------
// Laws
// ---------------------------------------------------------------------------

/// The aggregate is the worst state present: an error outranks work, work
/// outranks completion, and a table without sessions is idle.
pub proof fn lemma_aggregate_precedence(sessions: Map<Seq<char>, TrackedSession>)
    ensures
        aggregate(sessions) == SessionState::Error <==> any_in_state(sessions, SessionState::Error),
        aggregate(sessions) == SessionState::Working <==> !any_in_state(
            sessions,
            SessionState::Error,
        ) && any_in_state(sessions, SessionState::Working),
        aggregate(sessions) == SessionState::Completed <==> !any_in_state(
            sessions,
            SessionState::Error,
        ) && !any_in_state(sessions, SessionState::Working) && any_in_state(
            sessions,
            SessionState::Completed,
        ),
        aggregate(Map::empty()) == SessionState::Idle,
{
}

/// After a sweep no stale session is left, every other session is as it
/// was, and the aggregate is that of the sessions left: a table whose
/// sessions are all stale is idle after the sweep.
pub proof fn lemma_pruned(sessions: Map<Seq<char>, TrackedSession>, now: u64)
    ensures
        forall|id: Seq<char>|
            sessions.contains_key(id) && is_stale(sessions[id], now) ==> !(#[trigger] pruned(
                sessions,
                now,
            ).contains_key(id)),
        forall|id: Seq<char>|
            sessions.contains_key(id) && !is_stale(sessions[id], now) ==> (#[trigger] pruned(
                sessions,
                now,
            ).contains_key(id)) && pruned(sessions, now)[id] == sessions[id],
        forall|id: Seq<char>| #[trigger]
            pruned(sessions, now).contains_key(id) ==> sessions.contains_key(id),
        (forall|id: Seq<char>| sessions.contains_key(id) ==> is_stale(#[trigger] sessions[id], now))
            ==> aggregate(pruned(sessions, now)) == SessionState::Idle,
{
    if forall|id: Seq<char>| sessions.contains_key(id) ==> is_stale(#[trigger] sessions[id], now) {
        assert(pruned(sessions, now) =~= Map::empty());
    }
}

/// A stale session counts as idle: after a sweep its state is `Idle`.
pub proof fn lemma_stale_is_idle(sessions: Map<Seq<char>, TrackedSession>, now: u64, id: Seq<char>)
    requires
        sessions.contains_key(id),
        is_stale(sessions[id], now),
    ensures
        state_of(pruned(sessions, now), id) == SessionState::Idle,
{
}

// ---------------------------------------------------------------------------
// The monitor
// ---------------------------------------------------------------------------

/// Classifies an event by its kind.
pub fn classify_event(kind: &str) -> (r: Option<SessionState>)
    ensures
        r == event_state(kind@),
{
    if str_eq(kind, "PreToolUse") || str_eq(kind, "PostToolUse") {
        Some(SessionState::Working)
    } else if str_eq(kind, "PostToolUseFailure") {
        Some(SessionState::Error)
    } else if str_eq(kind, "Stop") || str_eq(kind, "Notification") {
        Some(SessionState::Completed)
    } else {
        None
    }
}

/// Decides on the notification for a change of state.
pub fn decide_notice(enabled: bool, previous: SessionState, next: SessionState) -> (r: Option<
    Notice,
>)
    ensures
        r == notice_for(enabled, previous, next),
{
    if !enabled {
        return None;
    }
    match (previous, next) {
        (SessionState::Working, SessionState::Completed) => Some(Notice::ReadyForInput),
        (SessionState::Error, SessionState::Error) => None,
        (_, SessionState::Error) => Some(Notice::ErrorOccurred),
        _ => None,
    }
}

impl Notice {
    pub open spec fn spec_title(self) -> Seq<char> {
        match self {
            Notice::ReadyForInput => "Ready for Input"@,
            Notice::ErrorOccurred => "Error Occurred"@,
        }
    }

    pub open spec fn spec_body(self) -> Seq<char> {
        match self {
            Notice::ReadyForInput => "The session completed."@,
            Notice::ErrorOccurred => "A tool error occurred in the session."@,
        }
    }

    /// The title under which the notification is shown.
    pub fn title(self) -> (r: &'static str)
        ensures
            r@ == self.spec_title(),
    {
        match self {
            Notice::ReadyForInput => "Ready for Input",
            Notice::ErrorOccurred => "Error Occurred",
        }
    }

    /// The text of the notification.
    pub fn body(self) -> (r: &'static str)
        ensures
            r@ == self.spec_body(),
    {
        match self {
            Notice::ReadyForInput => "The session completed.",
            Notice::ErrorOccurred => "A tool error occurred in the session.",
        }
    }
}

/// The table of live sessions and the notification switch.
#[derive(Debug)]
pub struct SessionMonitor {
    sessions: StringMap<TrackedSession>,
    notifications_enabled: bool,
}

impl SessionMonitor {
    /// The sessions that the monitor tracks, by session id.
    pub closed spec fn table(&self) -> Map<Seq<char>, TrackedSession> {
        self.sessions@
    }

    /// Whether state changes ask for notifications.
    pub closed spec fn notifying(&self) -> bool {
        self.notifications_enabled
    }

    /// A monitor that tracks no session yet.
    pub fn new(notifications_enabled: bool) -> (r: SessionMonitor)
        ensures
            r.table() == Map::<Seq<char>, TrackedSession>::empty(),
            r.notifying() == notifications_enabled,
    {
        SessionMonitor { sessions: StringMap::new(), notifications_enabled }
    }

    /// Whether state changes ask for notifications.
    pub fn notifications_enabled(&self) -> (r: bool)
        ensures
            r == self.notifying(),
    {
        self.notifications_enabled
    }

    /// Switches notifications on or off. The sessions stay as they are.
    pub fn set_notifications_enabled(&mut self, enabled: bool)
        ensures
            final(self).notifying() == enabled,
            final(self).table() == old(self).table(),
    {
        self.notifications_enabled = enabled;
    }

    /// The number of sessions tracked.
    pub fn tracked_count(&self) -> (r: usize)
        ensures
            r == self.table().len(),
    {
        self.sessions.len()
    }

    /// The state of a session: `Idle` for one that is not tracked.
    pub fn session_state(&self, session_id: &str) -> (r: SessionState)
        ensures
            r == state_of(self.table(), session_id@),
    {
        match self.sessions.get(session_id) {
            Some(session) => session.state,
            None => SessionState::Idle,
        }
    }

    /// The state of all tracked sessions taken together.
    pub fn compute_aggregate(&self) -> (r: SessionState)
        ensures
            r == aggregate(self.table()),
    {
        let n = self.sessions.len();
        let ghost keys = self.sessions.keys();
        let ghost map = self.sessions@;
        let mut has_error = false;
        let mut has_working = false;
        let mut has_completed = false;
        let mut i: usize = 0;
        while i < n
            invariant
                0 <= i <= n,
                n == keys.len(),
                keys == self.sessions.keys(),
                map == self.sessions@,
                forall|k: int| 0 <= k < i ==> map.contains_key(#[trigger] keys[k]),
                has_error == (exists|k: int| 0 <= k < i && (#[trigger] map[keys[k]]).state
                    == SessionState::Error),
                has_working == (exists|k: int| 0 <= k < i && (#[trigger] map[keys[k]]).state
                    == SessionState::Working),
                has_completed == (exists|k: int| 0 <= k < i && (#[trigger] map[keys[k]]).state
                    == SessionState::Completed),
            decreases n - i,
        {
            let session = self.sessions.value_at(i);
            assert(map[keys[i as int]] == *session);
            match session.state {
                SessionState::Error => {
                    has_error = true;
                },
                SessionState::Working => {
                    has_working = true;
                },
                SessionState::Completed => {
                    has_completed = true;
                },
                SessionState::Idle => {},
            }
            i = i + 1;
        }
        proof {
            self.sessions.lemma_entries();
            assert forall|state: SessionState| any_in_state(map, state) <==> (exists|k: int|
                0 <= k < n && (#[trigger] map[keys[k]]).state == state) by {
                if any_in_state(map, state) {
                    let id = choose|id: Seq<char>|
                        map.contains_key(id) && (#[trigger] map[id]).state == state;
                    assert(keys.contains(id));
                    let k = choose|k: int| 0 <= k < keys.len() && keys[k] == id;
                    assert(map[keys[k]].state == state);
                }
                if exists|k: int| 0 <= k < n && (#[trigger] map[keys[k]]).state == state {
                    let k = choose|k: int| 0 <= k < n && (#[trigger] map[keys[k]]).state == state;
                    assert(map.contains_key(keys[k]));
                }
            }
        }
        if has_error {
            SessionState::Error
        } else if has_working {
            SessionState::Working
        } else if has_completed {
            SessionState::Completed
        } else {
            SessionState::Idle
        }
    }

    /// Takes an event that arrived at time `now`.
    ///
    /// An event of a kind that is not known is ignored: nothing changes and
    /// nothing is returned. Any other event sets the state and the time of
    /// its session, and the outcome holds the session's new state, the
    /// aggregate over all sessions after the change, and the notification
    /// that the change from the session's previous state asks for.
    pub fn handle_hook_event(&mut self, payload: HookEventPayload, now: u64) -> (r: Option<
        HookOutcome,
    >)
        ensures
            final(self).notifying() == old(self).notifying(),
            final(self).table() == table_after(
                old(self).table(),
                payload.session_id@,
                payload.hook_event_name@,
                now,
            ),
            r.deep_view() == outcome_after(
                old(self).table(),
                old(self).notifying(),
                payload.session_id@,
                payload.hook_event_name@,
                now,
            ),
    {
        let state = match classify_event(payload.hook_event_name.as_str()) {
            Some(state) => state,
            None => {
                return None;
            },
        };
        let previous = self.session_state(payload.session_id.as_str());
        self.sessions.insert(payload.session_id.clone(), TrackedSession { state, last_update: now });
        let aggregate_state = self.compute_aggregate();
        let notice = decide_notice(self.notifications_enabled, previous, state);
        Some(
            HookOutcome {
                info: SessionStateInfo { session_id: payload.session_id, state, aggregate_state },
                notice,
            },
        )
    }

    /// Forgets every session whose last event is at least the staleness
    /// window before `now`.
    pub fn prune_stale(&mut self, now: u64)
        ensures
            final(self).table() == pruned(old(self).table(), now),
            final(self).notifying() == old(self).notifying(),
    {
        let n = self.sessions.len();
        let ghost keys = self.sessions.keys();
        let mut fresh: StringMap<TrackedSession> = StringMap::new();
        let mut i: usize = 0;
        proof {
            self.sessions.lemma_entries();
            assert(fresh@ =~= pruned(self.sessions.prefix(0), now));
        }
        while i < n
            invariant
                0 <= i <= n,
                n == keys.len(),
                keys == self.sessions.keys(),
                keys.no_duplicates(),
                fresh@ == pruned(self.sessions.prefix(i as int), now),
            decreases n - i,
        {
            let key = self.sessions.key_at(i);
            let session = *self.sessions.value_at(i);
            let ghost before = self.sessions.prefix(i as int);
            proof {
                if keys.take(i as int).contains(keys[i as int]) {
                    let k = choose|k: int|
                        0 <= k < keys.take(i as int).len() && keys.take(i as int)[k] == keys[i as int];
                    assert(keys[k] == keys[i as int]);
                }
                assert(!before.contains_key(keys[i as int]));
            }
            if now < session.last_update || now - session.last_update < STALE_AFTER_MS {
                fresh.insert(key.clone(), session);
            }
            assert(fresh@ =~= pruned(before.insert(keys[i as int], session), now));
            i = i + 1;
        }
        proof {
            self.sessions.lemma_entries();
        }
        self.sessions = fresh;
    }
}

} // verus!
