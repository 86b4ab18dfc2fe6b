use sessionly::catalog::{get_all_sessions, sort_sessions};
use sessionly::recency::{is_older, place};
use sessionly::session_types::{ProjectGroup, SessionSummary};

fn summary(id: &str, start: Option<i64>) -> SessionSummary {
    SessionSummary {
        id: id.to_string(),
        project: "/p".to_string(),
        project_encoded: "-p".to_string(),
        first_message: String::new(),
        message_count: 1,
        start_time: start,
        end_time: start,
        git_branch: None,
        model: None,
        file_path: format!("/logs/-p/{}.jsonl", id),
    }
}

fn group(name: &str, sessions: Vec<SessionSummary>) -> ProjectGroup {
    ProjectGroup {
        project: format!("/{}", name),
        project_encoded: format!("-{}", name),
        sessions,
    }
}

fn ids(sessions: &Vec<SessionSummary>) -> Vec<String> {
    sessions.iter().map(|s| s.id.clone()).collect()
}

fn names(groups: &Vec<ProjectGroup>) -> Vec<String> {
    groups.iter().map(|g| g.project_encoded.clone()).collect()
}

#[test]
fn the_newer_session_stands_first() {
    let groups = vec![group("p", vec![summary("old", Some(100)), summary("new", Some(200))])];
    let catalog = get_all_sessions(groups);
    assert_eq!(catalog.len(), 1);
    assert_eq!(ids(&catalog[0].sessions), vec!["new", "old"]);
}

#[test]
fn a_project_without_a_timed_session_stands_last() {
    let groups = vec![
        group("untimed", vec![summary("u", None)]),
        group("timed", vec![summary("t", Some(100))]),
    ];
    assert_eq!(names(&get_all_sessions(groups)), vec!["-timed", "-untimed"]);
    let groups = vec![
        group("untimed", vec![summary("u", None)]),
        group("past", vec![summary("t", Some(-100))]),
        group("epoch", vec![summary("e", Some(0))]),
    ];
    assert_eq!(names(&get_all_sessions(groups)), vec!["-epoch", "-past", "-untimed"]);
}

#[test]
fn projects_stand_by_their_newest_session() {
    let groups = vec![
        group("a", vec![summary("a1", Some(100)), summary("a2", Some(900))]),
        group("b", vec![summary("b1", Some(500))]),
        group("c", vec![summary("c1", None), summary("c2", Some(700)), summary("c3", Some(600))]),
    ];
    let catalog = get_all_sessions(groups);
    assert_eq!(names(&catalog), vec!["-a", "-c", "-b"]);
    assert_eq!(ids(&catalog[0].sessions), vec!["a2", "a1"]);
    assert_eq!(ids(&catalog[1].sessions), vec!["c2", "c3", "c1"]);
    assert_eq!(catalog[1].project, "/c");
}

#[test]
fn projects_without_sessions_are_left_out() {
    let groups = vec![
        group("empty", vec![]),
        group("full", vec![summary("s", Some(1))]),
        group("void", vec![]),
    ];
    assert_eq!(names(&get_all_sessions(groups)), vec!["-full"]);
    assert!(get_all_sessions(vec![group("empty", vec![])]).is_empty());
    assert!(get_all_sessions(vec![]).is_empty());
}

#[test]
fn equally_old_items_keep_their_order() {
    let sessions = vec![
        summary("a", Some(5)),
        summary("b", None),
        summary("c", Some(5)),
        summary("d", None),
        summary("e", Some(9)),
        summary("f", Some(5)),
    ];
    assert_eq!(ids(&sort_sessions(sessions)), vec!["e", "a", "c", "f", "b", "d"]);
    let groups = vec![
        group("x", vec![summary("x", Some(5))]),
        group("y", vec![summary("y", Some(5))]),
        group("z", vec![summary("z", Some(5))]),
    ];
    assert_eq!(names(&get_all_sessions(groups)), vec!["-x", "-y", "-z"]);
}

#[test]
fn sorting_agrees_with_a_stable_sort() {
    let starts = [Some(3), None, Some(-7), Some(3), Some(i64::MAX), None, Some(i64::MIN), Some(0)];
    let sessions: Vec<SessionSummary> =
        starts.iter().enumerate().map(|(i, s)| summary(&i.to_string(), *s)).collect();
    let mut expected = sessions.clone();
    expected.sort_by(|a, b| b.start_time.cmp(&a.start_time));
    assert_eq!(sort_sessions(sessions), expected);
}

#[test]
fn older_puts_a_missing_date_below_every_instant() {
    assert!(is_older(None, Some(i64::MIN)));
    assert!(is_older(Some(1), Some(2)));
    assert!(!is_older(Some(2), Some(2)));
    assert!(!is_older(Some(3), Some(2)));
    assert!(!is_older(Some(0), None));
    assert!(!is_older(None, None));
}

#[test]
fn place_puts_an_item_behind_its_equals() {
    let mut items = vec!["a", "b", "c"];
    let mut dates = vec![Some(9), Some(5), None];
    place(&mut items, &mut dates, "d", Some(5));
    assert_eq!(items, vec!["a", "b", "d", "c"]);
    assert_eq!(dates, vec![Some(9), Some(5), Some(5), None]);
    place(&mut items, &mut dates, "e", Some(10));
    assert_eq!(items, vec!["e", "a", "b", "d", "c"]);
    place(&mut items, &mut dates, "f", None);
    assert_eq!(items, vec!["e", "a", "b", "d", "c", "f"]);
    assert_eq!(dates, vec![Some(10), Some(9), Some(5), Some(5), None, None]);
}
