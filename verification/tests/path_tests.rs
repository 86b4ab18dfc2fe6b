use sessionly::project_path::{
    decode_project_path, find_valid_path, join_component, path_exists, PathSearch,
};

fn paths(list: &[&str]) -> Vec<String> {
    list.iter().map(|p| p.to_string()).collect()
}

fn segments(list: &[&str]) -> Vec<String> {
    list.iter().map(|p| p.to_string()).collect()
}

fn decode_by_questions(encoded: &str, existing: &Vec<String>) -> (String, Vec<String>) {
    let mut search = PathSearch::new(encoded);
    let mut asked = Vec::new();
    while let Some(path) = search.next_probe() {
        assert!(search.result().is_none());
        let exists = path_exists(existing, &path);
        asked.push(path);
        search.answer(exists);
        assert!(asked.len() < 10_000);
    }
    (search.result().unwrap(), asked)
}

#[test]
fn decode_merges_segments_of_a_hyphenated_directory() {
    let existing = paths(&["/", "/Users", "/Users/alice", "/Users/alice/my-project"]);
    assert_eq!(decode_project_path("-Users-alice-my-project", &existing), "/Users/alice/my-project");
}

#[test]
fn decode_leaves_a_name_that_is_not_encoded_unchanged() {
    let existing = paths(&["/", "already/a/path", "/already/a/path"]);
    assert_eq!(decode_project_path("already/a/path", &existing), "already/a/path");
    assert_eq!(decode_project_path("already/a/path", &Vec::new()), "already/a/path");
    assert_eq!(decode_project_path("", &existing), "");
    assert_eq!(decode_project_path("plain-name", &existing), "plain-name");
}

#[test]
fn decode_takes_the_naive_reading_when_it_exists() {
    let existing = paths(&[
        "/Users",
        "/Users/alice",
        "/Users/alice/my",
        "/Users/alice/my/project",
        "/Users/alice/my-project",
    ]);
    assert_eq!(decode_project_path("-Users-alice-my-project", &existing), "/Users/alice/my/project");
}

#[test]
fn decode_falls_back_to_the_naive_reading_when_nothing_exists() {
    assert_eq!(decode_project_path("-Users-alice-gone", &Vec::new()), "/Users/alice/gone");
    let existing = paths(&["/Users", "/Users/alice"]);
    assert_eq!(decode_project_path("-Users-alice-gone-too", &existing), "/Users/alice/gone/too");
}

#[test]
fn decode_backtracks_out_of_a_dead_end() {
    let existing = paths(&["/a", "/a/b", "/a-b", "/a-b/c"]);
    assert_eq!(decode_project_path("-a-b-c", &existing), "/a-b/c");
}

#[test]
fn decode_prefers_a_separator_to_a_hyphen() {
    let existing = paths(&["/a", "/a/b-c", "/a-b", "/a-b/c"]);
    assert_eq!(decode_project_path("-a-b-c", &existing), "/a/b-c");
}

#[test]
fn decode_merges_more_than_two_segments() {
    let existing = paths(&["/srv", "/srv/my-big-project"]);
    assert_eq!(decode_project_path("-srv-my-big-project", &existing), "/srv/my-big-project");
}

#[test]
fn decode_needs_every_directory_on_the_way() {
    let existing = paths(&["/Users/alice/my-project"]);
    assert_eq!(decode_project_path("-Users-alice-my-project", &existing), "/Users/alice/my/project");
}

#[test]
fn decode_of_the_bare_marker() {
    assert_eq!(decode_project_path("-", &paths(&["/"])), "/");
    assert_eq!(decode_project_path("-", &Vec::new()), "/");
}

#[test]
fn find_valid_path_with_no_segments_is_the_base() {
    let existing = paths(&["/a"]);
    assert_eq!(find_valid_path("/a", &Vec::new(), &existing), Some("/a".to_string()));
    assert_eq!(find_valid_path("/b", &Vec::new(), &existing), None);
}

#[test]
fn find_valid_path_reads_all_segments() {
    let existing = paths(&["/x", "/x/my-dir", "/x/my-dir/leaf"]);
    assert_eq!(
        find_valid_path("/x", &segments(&["my", "dir", "leaf"]), &existing),
        Some("/x/my-dir/leaf".to_string())
    );
    assert_eq!(find_valid_path("/x", &segments(&["my", "dir", "other"]), &existing), None);
}

#[test]
fn join_component_puts_one_separator_between() {
    assert_eq!(join_component("/", "Users"), "/Users");
    assert_eq!(join_component("/Users", "alice"), "/Users/alice");
    assert_eq!(join_component("/Users/", "alice"), "/Users/alice");
    assert_eq!(join_component("", "alice"), "alice");
    assert_eq!(join_component("/Users", ""), "/Users/");
    assert_eq!(join_component("/Users", "/etc"), "/etc");
}

#[test]
fn join_component_agrees_with_the_standard_library() {
    let bases = ["/", "/a", "/a/", "", "a/b", "/a/b-c"];
    let names = ["x", "", "x-y", "/abs", ".hidden", "x/y"];
    for base in bases {
        for name in names {
            let expected = std::path::Path::new(base).join(name);
            assert_eq!(join_component(base, name), expected.to_str().unwrap());
        }
    }
}

#[test]
fn path_exists_looks_for_the_exact_path() {
    let existing = paths(&["/a", "/a/b"]);
    assert!(path_exists(&existing, "/a"));
    assert!(path_exists(&existing, "/a/b"));
    assert!(!path_exists(&existing, "/a/"));
    assert!(!path_exists(&existing, "/b"));
    assert!(!path_exists(&Vec::new(), "/a"));
}

#[test]
fn questions_lead_to_the_same_path() {
    let cases: Vec<(&str, Vec<String>)> = vec![
        ("-Users-alice-my-project", paths(&["/", "/Users", "/Users/alice", "/Users/alice/my-project"])),
        ("-Users-alice-my-project", paths(&["/Users", "/Users/alice", "/Users/alice/my", "/Users/alice/my/project"])),
        ("-a-b-c", paths(&["/a", "/a/b", "/a-b", "/a-b/c"])),
        ("-a-b-c", paths(&["/a", "/a/b-c", "/a-b", "/a-b/c"])),
        ("-a-b-c", Vec::new()),
        ("-srv-my-big-project", paths(&["/srv", "/srv/my-big-project"])),
        ("already/a/path", paths(&["already/a/path"])),
        ("-", paths(&["/"])),
        ("-a--b", paths(&["/a", "/a/", "/a/b"])),
    ];
    for (encoded, existing) in cases {
        let (decoded, _) = decode_by_questions(encoded, &existing);
        assert_eq!(decoded, decode_project_path(encoded, &existing), "for {}", encoded);
    }
}

#[test]
fn no_question_is_asked_of_a_name_that_is_not_encoded() {
    let (decoded, asked) = decode_by_questions("already/a/path", &Vec::new());
    assert_eq!(decoded, "already/a/path");
    assert!(asked.is_empty());
}

#[test]
fn the_first_question_is_the_naive_reading() {
    let search = PathSearch::new("-Users-alice-my-project");
    assert_eq!(search.next_probe(), Some("/Users/alice/my/project".to_string()));
    assert_eq!(search.result(), None);
}

#[test]
fn the_search_stops_when_the_naive_reading_exists() {
    let mut search = PathSearch::new("-Users-alice");
    search.answer(true);
    assert_eq!(search.next_probe(), None);
    assert_eq!(search.result(), Some("/Users/alice".to_string()));
    search.answer(false);
    assert_eq!(search.result(), Some("/Users/alice".to_string()));
}

#[test]
fn the_questions_follow_the_search() {
    let existing = paths(&["/Users", "/Users/alice", "/Users/alice/my-project"]);
    let (decoded, asked) = decode_by_questions("-Users-alice-my-project", &existing);
    assert_eq!(decoded, "/Users/alice/my-project");
    assert_eq!(
        asked,
        vec![
            "/Users/alice/my/project",
            "/Users",
            "/Users/alice",
            "/Users/alice/my",
            "/Users/alice/my-project",
            "/Users/alice/my-project",
        ]
    );
}

#[test]
fn decoding_undoes_encoding() {
    let worlds: Vec<Vec<String>> = vec![
        Vec::new(),
        paths(&["/a", "/a/b", "/a/b/c"]),
        paths(&["/a", "/a/b-c"]),
        paths(&["/a-b", "/a-b/c"]),
        paths(&["/a-b-c"]),
        paths(&["/a", "/a/b", "/a-b", "/a-b/c", "/a/b-c", "/a-b-c"]),
    ];
    for existing in &worlds {
        for name in ["-a-b-c", "-a", "-Users-alice-my-project"] {
            let decoded = decode_project_path(name, existing);
            assert_eq!(decoded.replace('/', "-"), name);
        }
    }
}

#[test]
fn an_empty_segment_can_break_the_round_trip() {
    let existing = paths(&["/a", "/a/", "/a/b"]);
    assert_eq!(decode_project_path("-a--b", &existing), "/a/b");
}
