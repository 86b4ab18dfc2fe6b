use sessionly::app_settings::{settings_or_default, AppSettings};
use sessionly::locations::{
    claude_dir_in, get_claude_dir, get_projects_dir, projects_dir_in, session_file_path,
    subagents_dir,
};

#[test]
fn notifications_are_on_by_default() {
    assert_eq!(AppSettings::default(), AppSettings { notifications_enabled: true });
}

#[test]
fn stored_settings_stand_over_the_defaults() {
    let off = AppSettings { notifications_enabled: false };
    assert_eq!(settings_or_default(Some(off)), off);
    assert_eq!(settings_or_default(None), AppSettings { notifications_enabled: true });
}

#[test]
fn directories_stand_below_the_home_directory() {
    assert_eq!(claude_dir_in("/home/alice", ".assistant"), "/home/alice/.assistant");
    assert_eq!(projects_dir_in("/home/alice", ".assistant"), "/home/alice/.assistant/projects");
    assert_eq!(projects_dir_in("/", ".assistant"), "/.assistant/projects");
    assert_eq!(projects_dir_in("", ".assistant"), ".assistant/projects");
}

#[test]
fn the_directories_of_the_current_user_end_as_expected() {
    let dir = get_claude_dir(".assistant");
    assert!(dir.ends_with(".assistant"));
    let projects = get_projects_dir(".assistant");
    assert_eq!(projects, format!("{}/projects", dir));
}

#[test]
fn log_paths_follow_the_layout() {
    assert_eq!(
        session_file_path("/home/alice/.assistant/projects", "-Users-alice-x", "abc"),
        "/home/alice/.assistant/projects/-Users-alice-x/abc.jsonl"
    );
    assert_eq!(
        subagents_dir("/home/alice/.assistant/projects", "-Users-alice-x", "abc"),
        "/home/alice/.assistant/projects/-Users-alice-x/abc/subagents"
    );
}
