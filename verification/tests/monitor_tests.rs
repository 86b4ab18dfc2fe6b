use sessionly::hooks::{
    accepts_request, get_status, handle_hook_request, is_hooks_installed, HookReply, HookStatus,
    HOOK_PORT,
};
use sessionly::session_monitor::{
    classify_event, decide_notice, HookEventPayload, HookOutcome, Notice, SessionMonitor,
    SessionState, SessionStateInfo, STALE_AFTER_MS,
};

fn event(session: &str, kind: &str) -> HookEventPayload {
    HookEventPayload {
        session_id: session.to_string(),
        hook_event_name: kind.to_string(),
        tool_name: None,
        cwd: None,
    }
}

fn info(session: &str, state: SessionState, aggregate: SessionState) -> SessionStateInfo {
    SessionStateInfo { session_id: session.to_string(), state, aggregate_state: aggregate }
}

#[test]
fn events_are_classified_by_kind() {
    assert_eq!(classify_event("PreToolUse"), Some(SessionState::Working));
    assert_eq!(classify_event("PostToolUse"), Some(SessionState::Working));
    assert_eq!(classify_event("PostToolUseFailure"), Some(SessionState::Error));
    assert_eq!(classify_event("Stop"), Some(SessionState::Completed));
    assert_eq!(classify_event("Notification"), Some(SessionState::Completed));
    assert_eq!(classify_event("SessionStart"), None);
    assert_eq!(classify_event("UserPromptSubmit"), None);
    assert_eq!(classify_event("stop"), None);
    assert_eq!(classify_event(""), None);
}

#[test]
fn aggregate_of_completed_and_working_is_working() {
    let mut monitor = SessionMonitor::new(false);
    monitor.handle_hook_event(event("a", "Stop"), 0);
    monitor.handle_hook_event(event("b", "PreToolUse"), 0);
    assert_eq!(monitor.compute_aggregate(), SessionState::Working);
}

#[test]
fn aggregate_of_completed_and_error_is_error() {
    let mut monitor = SessionMonitor::new(false);
    monitor.handle_hook_event(event("a", "Stop"), 0);
    monitor.handle_hook_event(event("b", "PostToolUseFailure"), 0);
    assert_eq!(monitor.compute_aggregate(), SessionState::Error);
    monitor.handle_hook_event(event("c", "PreToolUse"), 0);
    assert_eq!(monitor.compute_aggregate(), SessionState::Error);
}

#[test]
fn aggregate_of_no_session_is_idle() {
    let mut monitor = SessionMonitor::new(true);
    assert_eq!(monitor.compute_aggregate(), SessionState::Idle);
    monitor.handle_hook_event(event("a", "PostToolUseFailure"), 0);
    monitor.handle_hook_event(event("b", "PreToolUse"), 10);
    monitor.prune_stale(10 + STALE_AFTER_MS);
    assert_eq!(monitor.tracked_count(), 0);
    assert_eq!(monitor.compute_aggregate(), SessionState::Idle);
}

#[test]
fn aggregate_of_completed_only_is_completed() {
    let mut monitor = SessionMonitor::new(false);
    monitor.handle_hook_event(event("a", "Stop"), 0);
    monitor.handle_hook_event(event("b", "Notification"), 0);
    assert_eq!(monitor.compute_aggregate(), SessionState::Completed);
}

#[test]
fn a_session_is_forgotten_after_sixty_seconds() {
    let mut monitor = SessionMonitor::new(false);
    monitor.handle_hook_event(event("old", "PostToolUseFailure"), 1_000);
    monitor.handle_hook_event(event("new", "Stop"), 31_000);
    monitor.prune_stale(60_999);
    assert_eq!(monitor.tracked_count(), 2);
    assert_eq!(monitor.session_state("old"), SessionState::Error);
    monitor.prune_stale(61_000);
    assert_eq!(monitor.tracked_count(), 1);
    assert_eq!(monitor.session_state("old"), SessionState::Idle);
    assert_eq!(monitor.session_state("new"), SessionState::Completed);
    assert_eq!(monitor.compute_aggregate(), SessionState::Completed);
    monitor.prune_stale(90_999);
    assert_eq!(monitor.tracked_count(), 1);
    monitor.prune_stale(91_000);
    assert_eq!(monitor.tracked_count(), 0);
    assert_eq!(monitor.compute_aggregate(), SessionState::Idle);
}

#[test]
fn an_event_renews_a_session() {
    let mut monitor = SessionMonitor::new(false);
    monitor.handle_hook_event(event("a", "PreToolUse"), 0);
    monitor.handle_hook_event(event("a", "PostToolUse"), 59_000);
    monitor.prune_stale(60_000);
    assert_eq!(monitor.session_state("a"), SessionState::Working);
    monitor.prune_stale(119_000);
    assert_eq!(monitor.session_state("a"), SessionState::Idle);
}

#[test]
fn a_clock_that_ran_backwards_forgets_nothing() {
    let mut monitor = SessionMonitor::new(false);
    monitor.handle_hook_event(event("a", "PreToolUse"), 100_000);
    monitor.prune_stale(5);
    assert_eq!(monitor.tracked_count(), 1);
    monitor.prune_stale(u64::MAX);
    assert_eq!(monitor.tracked_count(), 0);
}

#[test]
fn an_unknown_event_changes_nothing() {
    let mut monitor = SessionMonitor::new(true);
    assert_eq!(monitor.handle_hook_event(event("a", "SessionStart"), 0), None);
    assert_eq!(monitor.tracked_count(), 0);
    monitor.handle_hook_event(event("a", "PreToolUse"), 0);
    assert_eq!(monitor.handle_hook_event(event("a", "SessionEnd"), 70_000), None);
    assert_eq!(monitor.session_state("a"), SessionState::Working);
    monitor.prune_stale(70_000);
    assert_eq!(monitor.tracked_count(), 0);
}

#[test]
fn an_accepted_event_reports_the_change() {
    let mut monitor = SessionMonitor::new(true);
    assert_eq!(
        monitor.handle_hook_event(event("a", "PreToolUse"), 0),
        Some(HookOutcome {
            info: info("a", SessionState::Working, SessionState::Working),
            notice: None
        })
    );
    assert_eq!(
        monitor.handle_hook_event(event("b", "Stop"), 1),
        Some(HookOutcome {
            info: info("b", SessionState::Completed, SessionState::Working),
            notice: None
        })
    );
    assert_eq!(
        monitor.handle_hook_event(event("a", "Stop"), 2),
        Some(HookOutcome {
            info: info("a", SessionState::Completed, SessionState::Completed),
            notice: Some(Notice::ReadyForInput)
        })
    );
    assert_eq!(
        monitor.handle_hook_event(event("b", "PostToolUseFailure"), 3),
        Some(HookOutcome {
            info: info("b", SessionState::Error, SessionState::Error),
            notice: Some(Notice::ErrorOccurred)
        })
    );
    assert_eq!(
        monitor.handle_hook_event(event("b", "PostToolUseFailure"), 4),
        Some(HookOutcome { info: info("b", SessionState::Error, SessionState::Error), notice: None })
    );
    assert_eq!(monitor.tracked_count(), 2);
}

#[test]
fn notices_follow_the_transition() {
    let states =
        [SessionState::Idle, SessionState::Working, SessionState::Completed, SessionState::Error];
    for previous in states {
        for next in states {
            assert_eq!(decide_notice(false, previous, next), None);
            let expected = if previous == SessionState::Working && next == SessionState::Completed {
                Some(Notice::ReadyForInput)
            } else if next == SessionState::Error && previous != SessionState::Error {
                Some(Notice::ErrorOccurred)
            } else {
                None
            };
            assert_eq!(decide_notice(true, previous, next), expected);
        }
    }
}

#[test]
fn notices_are_off_while_notifications_are_disabled() {
    let mut monitor = SessionMonitor::new(false);
    assert!(!monitor.notifications_enabled());
    monitor.handle_hook_event(event("a", "PreToolUse"), 0);
    let outcome = monitor.handle_hook_event(event("a", "Stop"), 1).unwrap();
    assert_eq!(outcome.notice, None);
    monitor.set_notifications_enabled(true);
    assert!(monitor.notifications_enabled());
    assert_eq!(monitor.session_state("a"), SessionState::Completed);
    monitor.handle_hook_event(event("a", "PreToolUse"), 2);
    let outcome = monitor.handle_hook_event(event("a", "Stop"), 3).unwrap();
    assert_eq!(outcome.notice, Some(Notice::ReadyForInput));
}

#[test]
fn notices_have_a_title_and_a_body() {
    assert_eq!(Notice::ReadyForInput.title(), "Ready for Input");
    assert_eq!(Notice::ErrorOccurred.title(), "Error Occurred");
    assert!(!Notice::ReadyForInput.body().is_empty());
    assert!(!Notice::ErrorOccurred.body().is_empty());
    assert_ne!(Notice::ReadyForInput.body(), Notice::ErrorOccurred.body());
}

#[test]
fn only_a_post_at_the_endpoint_is_accepted() {
    assert!(accepts_request("POST", "/sessionly"));
    assert!(!accepts_request("GET", "/sessionly"));
    assert!(!accepts_request("POST", "/"));
    assert!(!accepts_request("POST", "/sessionly/"));
    assert!(!accepts_request("post", "/sessionly"));
}

#[test]
fn requests_are_answered_by_what_they_are() {
    let mut monitor = SessionMonitor::new(true);
    let (reply, outcome) =
        handle_hook_request(&mut monitor, "GET", "/sessionly", Some(event("a", "Stop")), 0);
    assert_eq!(reply, HookReply::NotFound);
    assert_eq!(outcome, None);
    let (reply, outcome) =
        handle_hook_request(&mut monitor, "POST", "/other", Some(event("a", "Stop")), 0);
    assert_eq!(reply, HookReply::NotFound);
    assert_eq!(outcome, None);
    let (reply, outcome) = handle_hook_request(&mut monitor, "GET", "/other", None, 0);
    assert_eq!(reply, HookReply::NotFound);
    assert_eq!(outcome, None);
    let (reply, outcome) = handle_hook_request(&mut monitor, "POST", "/sessionly", None, 0);
    assert_eq!(reply, HookReply::BadRequest);
    assert_eq!(outcome, None);
    assert_eq!(monitor.tracked_count(), 0);
    let (reply, outcome) =
        handle_hook_request(&mut monitor, "POST", "/sessionly", Some(event("a", "Stop")), 5);
    assert_eq!(reply, HookReply::Accepted);
    assert_eq!(
        outcome,
        Some(HookOutcome {
            info: info("a", SessionState::Completed, SessionState::Completed),
            notice: None
        })
    );
    assert_eq!(monitor.tracked_count(), 1);
    let (reply, outcome) =
        handle_hook_request(&mut monitor, "POST", "/sessionly", Some(event("a", "Unknown")), 6);
    assert_eq!(reply, HookReply::Accepted);
    assert_eq!(outcome, None);
    assert_eq!(monitor.session_state("a"), SessionState::Completed);
}

#[test]
fn replies_have_a_status_and_a_body() {
    assert_eq!(HookReply::Accepted.status(), 200);
    assert_eq!(HookReply::Accepted.body(), "OK");
    assert_eq!(HookReply::NotFound.status(), 404);
    assert_eq!(HookReply::NotFound.body(), "Not Found");
    assert_eq!(HookReply::BadRequest.status(), 400);
    assert_eq!(HookReply::BadRequest.body(), "Bad Request");
}

#[test]
fn hooks_are_installed_when_the_settings_name_the_endpoint() {
    let settings = "{\"hooks\":{\"Stop\":[{\"command\":\"curl -s -X POST http://localhost:19823/sessionly -d @- || true\"}]}}";
    assert!(is_hooks_installed(Some(settings)));
    assert!(!is_hooks_installed(Some("{\"hooks\":{}}")));
    assert!(!is_hooks_installed(Some("")));
    assert!(!is_hooks_installed(Some("localhost:19823/session")));
    assert!(!is_hooks_installed(None));
}

#[test]
fn the_status_shows_port_and_installation() {
    assert_eq!(HOOK_PORT, 19823);
    assert_eq!(
        get_status(true, Some("x localhost:19823/sessionly y")),
        HookStatus { server_running: true, port: 19823, hooks_installed: true }
    );
    assert_eq!(
        get_status(false, None),
        HookStatus { server_running: false, port: 19823, hooks_installed: false }
    );
    assert_eq!(
        get_status(true, Some("{}")),
        HookStatus { server_running: true, port: 19823, hooks_installed: false }
    );
}
