use sessionly::json::{Json, JsonMember};
use sessionly::session_store::{
    agent_id_from_stem, get_session, get_session_summary, is_session_file_name,
    is_subagent_file_name, link_subagents, merge_tool_results, message_is_material,
    parse_session_file, parse_subagent_file, process_message, SessionLog, SubagentLog,
};
use sessionly::session_types::{
    ProcessedMessage, ProgressData, RawEntry, RawMessageContent, SessionSummary, ToolResultBlock,
};
use sessionly::string_map::StringMap;

fn text(value: &str) -> Json {
    Json::Str(value.to_string())
}

fn object(members: Vec<(&str, Json)>) -> Json {
    Json::Object(
        members
            .into_iter()
            .map(|(key, value)| JsonMember { key: key.to_string(), value })
            .collect(),
    )
}

fn text_block(value: &str) -> Json {
    object(vec![("type", text("text")), ("text", text(value))])
}

fn tool_use(id: &str, name: &str) -> Json {
    object(vec![("type", text("tool_use")), ("id", text(id)), ("name", text(name))])
}

fn tool_result(id: &str, content: &str) -> Json {
    object(vec![("type", text("tool_result")), ("tool_use_id", text(id)), ("content", text(content))])
}

fn thinking(value: &str) -> Json {
    object(vec![("type", text("thinking")), ("thinking", text(value))])
}

fn blank_entry(kind: Option<&str>) -> RawEntry {
    RawEntry {
        entry_type: kind.map(|k| k.to_string()),
        uuid: None,
        parent_uuid: None,
        timestamp: None,
        cwd: None,
        version: None,
        git_branch: None,
        message: None,
        data: None,
        parent_tool_use_id: None,
    }
}

fn message_entry(kind: &str, content: Json) -> RawEntry {
    let mut entry = blank_entry(Some(kind));
    entry.message = Some(RawMessageContent { role: kind.to_string(), content, model: None });
    entry
}

fn user(content: Json) -> RawEntry {
    message_entry("user", content)
}

fn assistant(content: Json) -> RawEntry {
    let mut entry = message_entry("assistant", content);
    entry.message.as_mut().unwrap().model = Some("model-a".to_string());
    entry
}

fn progress(agent: Option<&str>, parent: Option<&str>) -> RawEntry {
    let mut entry = blank_entry(Some("progress"));
    entry.data = Some(ProgressData { agent_id: agent.map(|a| a.to_string()) });
    entry.parent_tool_use_id = parent.map(|p| p.to_string());
    entry
}

fn at(mut entry: RawEntry, timestamp: &str) -> RawEntry {
    entry.timestamp = Some(timestamp.to_string());
    entry
}

fn log(entries: Vec<RawEntry>) -> SessionLog {
    SessionLog {
        session_id: "abc".to_string(),
        project_encoded: "-Users-alice-my-project".to_string(),
        file_path: "/logs/-Users-alice-my-project/abc.jsonl".to_string(),
        entries,
    }
}

fn existing() -> Vec<String> {
    vec!["/Users".to_string(), "/Users/alice".to_string(), "/Users/alice/my-project".to_string()]
}

fn is_empty_message(message: &ProcessedMessage) -> bool {
    message.text_content.trim().is_empty()
        && message.thinking_blocks.is_empty()
        && message.tool_use_blocks.is_empty()
}

// ---------------------------------------------------------------------------
// Messages
// ---------------------------------------------------------------------------

#[test]
fn a_record_without_payload_gives_no_message() {
    assert!(process_message(&blank_entry(Some("user"))).is_none());
}

#[test]
fn a_message_takes_its_fields_from_the_record() {
    let mut entry = assistant(Json::Array(vec![
        text_block("hello"),
        thinking("hm"),
        tool_use("t1", "Read"),
        tool_result("t0", "earlier"),
    ]));
    entry.uuid = Some("u-2".to_string());
    entry.parent_uuid = Some(text("u-1"));
    entry.timestamp = Some("2024-01-15T10:30:00Z".to_string());
    let message = process_message(&entry).unwrap();
    assert_eq!(message.uuid, "u-2");
    assert_eq!(message.parent_uuid, Some("u-1".to_string()));
    assert_eq!(message.timestamp, "2024-01-15T10:30:00Z");
    assert_eq!(message.role, "assistant");
    assert_eq!(message.text_content, "hello");
    assert_eq!(message.thinking_blocks.len(), 1);
    assert_eq!(message.thinking_blocks[0].thinking, "hm");
    assert_eq!(message.tool_use_blocks.len(), 1);
    assert_eq!(message.tool_use_blocks[0].id, "t1");
    assert_eq!(message.tool_results.len(), 1);
    assert_eq!(message.tool_results.get("t0").unwrap().content, text("earlier"));
    assert_eq!(message.model, Some("model-a".to_string()));
}

#[test]
fn missing_fields_of_a_message_are_empty() {
    let mut entry = user(text("hi"));
    entry.parent_uuid = Some(Json::Number("12".to_string()));
    let message = process_message(&entry).unwrap();
    assert_eq!(message.uuid, "");
    assert_eq!(message.parent_uuid, None);
    assert_eq!(message.timestamp, "");
    assert_eq!(message.model, None);
}

#[test]
fn material_messages_have_text_thinking_or_tools() {
    let with_text = process_message(&user(text("hi"))).unwrap();
    assert!(message_is_material(&with_text));
    let blank = process_message(&user(text(" \n\t "))).unwrap();
    assert!(!message_is_material(&blank));
    let only_thinking = process_message(&assistant(Json::Array(vec![thinking("hm")]))).unwrap();
    assert!(message_is_material(&only_thinking));
    let only_tool = process_message(&assistant(Json::Array(vec![tool_use("t1", "Read")]))).unwrap();
    assert!(message_is_material(&only_tool));
    let only_result = process_message(&user(Json::Array(vec![tool_result("t1", "ok")]))).unwrap();
    assert!(!message_is_material(&only_result));
}

#[test]
fn merging_attaches_pending_results_of_own_invocations_only() {
    let message =
        process_message(&assistant(Json::Array(vec![tool_use("t1", "Read"), tool_use("t2", "Bash")])))
            .unwrap();
    let mut pending: StringMap<ToolResultBlock> = StringMap::new();
    pending.insert(
        "t1".to_string(),
        ToolResultBlock { tool_use_id: "t1".to_string(), content: text("one"), is_error: None },
    );
    pending.insert(
        "t9".to_string(),
        ToolResultBlock { tool_use_id: "t9".to_string(), content: text("nine"), is_error: None },
    );
    let merged = merge_tool_results(message, &pending);
    assert_eq!(merged.tool_results.len(), 1);
    assert_eq!(merged.tool_results.get("t1").unwrap().content, text("one"));
    assert!(merged.tool_results.get("t2").is_none());
    assert!(merged.tool_results.get("t9").is_none());
}

// ---------------------------------------------------------------------------
// Reconstruction
// ---------------------------------------------------------------------------

#[test]
fn end_to_end_scenario_attaches_the_result_to_the_invocation() {
    let entries = vec![
        user(text("hi")),
        assistant(Json::Array(vec![tool_use("t1", "Read")])),
        user(Json::Array(vec![tool_result("t1", "file contents")])),
    ];
    let (session, links) = parse_session_file(&log(entries), &existing()).unwrap();
    assert_eq!(session.messages.len(), 2);
    assert_eq!(session.messages[0].role, "user");
    assert_eq!(session.messages[0].text_content, "hi");
    assert_eq!(session.messages[1].role, "assistant");
    assert_eq!(session.messages[1].tool_use_blocks.len(), 1);
    assert_eq!(session.messages[1].tool_use_blocks[0].id, "t1");
    assert_eq!(session.messages[1].tool_use_blocks[0].name, "Read");
    assert_eq!(
        session.messages[1].tool_results.get("t1"),
        Some(&ToolResultBlock {
            tool_use_id: "t1".to_string(),
            content: text("file contents"),
            is_error: None
        })
    );
    assert!(links.is_empty());
    assert!(session.subagents.is_empty());
}

#[test]
fn a_result_is_attached_wherever_it_stands() {
    let entries = vec![
        user(Json::Array(vec![tool_result("t2", "early")])),
        assistant(Json::Array(vec![tool_use("t1", "Read"), tool_use("t2", "Bash")])),
        assistant(Json::Array(vec![text_block("working")])),
        user(Json::Array(vec![tool_result("t1", "late")])),
    ];
    let messages = parse_subagent_file(&entries);
    assert_eq!(messages.len(), 2);
    assert_eq!(messages[0].tool_results.get("t1").unwrap().content, text("late"));
    assert_eq!(messages[0].tool_results.get("t2").unwrap().content, text("early"));
    assert!(messages[1].tool_results.is_empty());
}

#[test]
fn results_in_assistant_records_are_not_pending() {
    let entries = vec![
        assistant(Json::Array(vec![tool_use("t1", "Read")])),
        assistant(Json::Array(vec![text_block("x"), tool_result("t1", "from assistant")])),
    ];
    let messages = parse_subagent_file(&entries);
    assert_eq!(messages.len(), 2);
    assert!(messages[0].tool_results.get("t1").is_none());
    assert_eq!(messages[1].tool_results.get("t1").unwrap().content, text("from assistant"));
}

#[test]
fn the_later_of_two_results_for_one_invocation_stands() {
    let entries = vec![
        assistant(Json::Array(vec![tool_use("t1", "Read")])),
        user(Json::Array(vec![tool_result("t1", "first")])),
        user(Json::Array(vec![tool_result("t1", "second")])),
    ];
    let messages = parse_subagent_file(&entries);
    assert_eq!(messages.len(), 1);
    assert_eq!(messages[0].tool_results.get("t1").unwrap().content, text("second"));
}

#[test]
fn no_empty_message_is_materialized() {
    let entries = vec![
        user(text("")),
        user(text("   ")),
        user(Json::Array(vec![tool_result("t1", "ok")])),
        user(Json::Null),
        assistant(Json::Array(vec![])),
        blank_entry(Some("user")),
        assistant(Json::Array(vec![thinking("hm")])),
        assistant(Json::Array(vec![tool_use("t1", "Read")])),
        user(text("real")),
        message_entry("system", text("not a message record")),
        message_entry("file-history-snapshot", text("ignored")),
        message_entry("progress", text("ignored")),
        blank_entry(None),
    ];
    let messages = parse_subagent_file(&entries);
    assert_eq!(messages.len(), 3);
    for message in &messages {
        assert!(!is_empty_message(message));
        assert!(message_is_material(message));
    }
    assert_eq!(messages[0].thinking_blocks.len(), 1);
    assert_eq!(messages[1].tool_use_blocks[0].id, "t1");
    assert_eq!(messages[1].tool_results.get("t1").unwrap().content, text("ok"));
    assert_eq!(messages[2].text_content, "real");
}

#[test]
fn a_log_without_messages_gives_no_session() {
    assert!(parse_session_file(&log(vec![]), &existing()).is_none());
    let entries = vec![
        user(text("  ")),
        progress(Some("a1"), Some("t1")),
        message_entry("file-history-snapshot", text("x")),
    ];
    assert!(parse_session_file(&log(entries.clone()), &existing()).is_none());
    assert!(get_session(&log(entries), &existing(), &vec![]).is_none());
    assert!(parse_subagent_file(&vec![]).is_empty());
}

#[test]
fn session_metadata_comes_from_the_first_message_record() {
    let mut snapshot = blank_entry(Some("file-history-snapshot"));
    snapshot.cwd = Some("/snapshot".to_string());
    let mut first = user(text("  "));
    first.cwd = Some("/work".to_string());
    first.version = Some("1.2.3".to_string());
    first.git_branch = Some("main".to_string());
    let mut second = assistant(Json::Array(vec![text_block("answer")]));
    second.cwd = Some("/elsewhere".to_string());
    second.version = Some("9.9.9".to_string());
    second.git_branch = Some("other".to_string());
    let (session, _) = parse_session_file(&log(vec![snapshot, first, second]), &existing()).unwrap();
    assert_eq!(session.id, "abc");
    assert_eq!(session.project, "/Users/alice/my-project");
    assert_eq!(session.project_encoded, "-Users-alice-my-project");
    assert_eq!(session.file_path, "/logs/-Users-alice-my-project/abc.jsonl");
    assert_eq!(session.cwd, "/work");
    assert_eq!(session.version, "1.2.3");
    assert_eq!(session.git_branch, Some("main".to_string()));
    assert_eq!(session.messages.len(), 1);
}

#[test]
fn session_metadata_defaults_to_empty() {
    let (session, _) = parse_session_file(&log(vec![user(text("hi"))]), &existing()).unwrap();
    assert_eq!(session.cwd, "");
    assert_eq!(session.version, "");
    assert_eq!(session.git_branch, None);
    assert_eq!(session.start_time, None);
    assert_eq!(session.end_time, None);
}

#[test]
fn session_times_are_the_extremes_of_the_readable_timestamps() {
    let entries = vec![
        at(user(text("b")), "2024-01-15T10:30:00.250Z"),
        at(assistant(Json::Array(vec![text_block("c")])), "not a time"),
        at(user(text("   ")), "2024-01-15T10:30:00+02:00"),
        at(user(text("a")), "2024-01-15T10:30:00.123"),
        at(blank_entry(Some("progress")), "2030-01-01T00:00:00Z"),
        at(blank_entry(Some("file-history-snapshot")), "1999-01-01T00:00:00Z"),
        user(text("no timestamp")),
    ];
    let (session, _) = parse_session_file(&log(entries.clone()), &existing()).unwrap();
    assert_eq!(session.start_time, Some(1705307400000));
    assert_eq!(session.end_time, Some(1705314600250));
    let summary = get_session_summary(&log(entries), &existing()).unwrap();
    assert_eq!(summary.start_time, Some(1705307400000));
    assert_eq!(summary.end_time, Some(1705314600250));
}

#[test]
fn progress_records_link_agents_to_invocations() {
    let entries = vec![
        user(text("go")),
        progress(Some("a1"), Some("t1")),
        progress(Some("a2"), Some("t2")),
        progress(None, Some("t3")),
        progress(Some("a4"), None),
        blank_entry(Some("progress")),
        progress(Some("a1"), Some("t9")),
        {
            let mut not_progress = progress(Some("a5"), Some("t5"));
            not_progress.entry_type = Some("user".to_string());
            not_progress
        },
    ];
    let (_, links) = parse_session_file(&log(entries), &existing()).unwrap();
    assert_eq!(links.len(), 2);
    assert_eq!(links.get("a1"), Some(&"t9".to_string()));
    assert_eq!(links.get("a2"), Some(&"t2".to_string()));
    assert_eq!(links.get("a4"), None);
    assert_eq!(links.get("a5"), None);
}

// ---------------------------------------------------------------------------
// Summaries
// ---------------------------------------------------------------------------

#[test]
fn a_summary_describes_the_log() {
    let mut first = at(assistant(Json::Array(vec![text_block("welcome")])), "2024-01-15T10:30:00Z");
    first.git_branch = Some("main".to_string());
    first.message.as_mut().unwrap().model = None;
    let mut second = at(user(text("")), "2024-01-15T10:30:00.250Z");
    second.git_branch = Some("other".to_string());
    let third = user(Json::Array(vec![text_block("fix the"), text_block("bug")]));
    let fourth = user(text("later"));
    let mut fifth = assistant(Json::Array(vec![text_block("ok")]));
    fifth.message.as_mut().unwrap().model = Some("model-b".to_string());
    let mut sixth = assistant(Json::Array(vec![text_block("ok")]));
    sixth.message.as_mut().unwrap().model = Some("model-c".to_string());
    let entries = vec![
        blank_entry(Some("file-history-snapshot")),
        progress(Some("a1"), Some("t1")),
        first,
        second,
        third,
        fourth,
        fifth,
        sixth,
        blank_entry(None),
    ];
    assert_eq!(
        get_session_summary(&log(entries), &existing()),
        Some(SessionSummary {
            id: "abc".to_string(),
            project: "/Users/alice/my-project".to_string(),
            project_encoded: "-Users-alice-my-project".to_string(),
            first_message: "fix the\nbug".to_string(),
            message_count: 6,
            start_time: Some(1705314600000),
            end_time: Some(1705314600250),
            git_branch: Some("main".to_string()),
            model: Some("model-b".to_string()),
            file_path: "/logs/-Users-alice-my-project/abc.jsonl".to_string(),
        })
    );
}

#[test]
fn a_summary_cuts_the_first_message_at_200_characters() {
    let long: String = "é".repeat(250);
    let summary = get_session_summary(&log(vec![user(text(&long))]), &existing()).unwrap();
    assert_eq!(summary.first_message.chars().count(), 200);
    assert_eq!(summary.first_message, "é".repeat(200));
    let exact: String = "x".repeat(200);
    let summary = get_session_summary(&log(vec![user(text(&exact))]), &existing()).unwrap();
    assert_eq!(summary.first_message, exact);
}

#[test]
fn a_summary_counts_records_even_without_messages() {
    let entries = vec![blank_entry(Some("user")), user(text("  ")), blank_entry(Some("assistant"))];
    let summary = get_session_summary(&log(entries.clone()), &existing()).unwrap();
    assert_eq!(summary.message_count, 3);
    assert_eq!(summary.first_message, "  ");
    assert_eq!(summary.model, None);
    assert!(parse_session_file(&log(entries), &existing()).is_none());
}

#[test]
fn a_log_without_message_records_has_no_summary() {
    assert_eq!(get_session_summary(&log(vec![]), &existing()), None);
    let entries = vec![
        progress(Some("a1"), Some("t1")),
        blank_entry(Some("file-history-snapshot")),
        blank_entry(Some("summary")),
        blank_entry(None),
    ];
    assert_eq!(get_session_summary(&log(entries), &existing()), None);
}

#[test]
fn a_summary_decodes_the_project_over_what_exists() {
    let summary = get_session_summary(&log(vec![user(text("hi"))]), &vec![]).unwrap();
    assert_eq!(summary.project, "/Users/alice/my/project");
}

// ---------------------------------------------------------------------------
// Subagents
// ---------------------------------------------------------------------------

#[test]
fn log_file_names_are_told_apart() {
    assert!(is_session_file_name("abc.jsonl"));
    assert!(!is_session_file_name("agent-7.jsonl"));
    assert!(!is_session_file_name("abc.json"));
    assert!(!is_session_file_name("abc"));
    assert!(is_subagent_file_name("agent-7.jsonl"));
    assert!(!is_subagent_file_name("abc.jsonl"));
    assert!(!is_subagent_file_name("agent-7.txt"));
    assert!(is_subagent_file_name("agent-.jsonl"));
}

#[test]
fn the_agent_id_follows_the_prefix() {
    assert_eq!(agent_id_from_stem("agent-7f3"), "7f3");
    assert_eq!(agent_id_from_stem("agent-"), "");
    assert_eq!(agent_id_from_stem("7f3"), "7f3");
    assert_eq!(agent_id_from_stem("agent-agent-x"), "agent-x");
}

fn parent_entries() -> Vec<RawEntry> {
    vec![
        user(text("delegate")),
        assistant(Json::Array(vec![tool_use("t1", "Task"), tool_use("t2", "Read")])),
        progress(Some("a1"), Some("t1")),
        progress(Some("a2"), Some("t3")),
        progress(Some("a3"), Some("t1")),
        progress(Some("a4"), Some("t2")),
        assistant(Json::Array(vec![tool_use("t3", "Task")])),
    ]
}

fn subagent_log(stem: &str, entries: Vec<RawEntry>) -> SubagentLog {
    SubagentLog { file_stem: stem.to_string(), entries }
}

#[test]
fn subagents_are_attached_and_invocations_marked() {
    let logs = vec![
        subagent_log(
            "agent-a1",
            vec![
                user(text("sub task")),
                assistant(Json::Array(vec![tool_use("s1", "Read")])),
                user(Json::Array(vec![tool_result("s1", "sub result")])),
            ],
        ),
        subagent_log("agent-a2", vec![user(text("other"))]),
    ];
    let session = get_session(&log(parent_entries()), &existing(), &logs).unwrap();
    assert_eq!(session.subagents.len(), 2);
    let first = session.subagents.get("a1").unwrap();
    assert_eq!(first.agent_id, "a1");
    assert_eq!(first.parent_tool_use_id, "t1");
    assert_eq!(first.message_count, 2);
    assert_eq!(first.messages.len(), 2);
    assert_eq!(first.messages[1].tool_results.get("s1").unwrap().content, text("sub result"));
    assert_eq!(first.messages[1].tool_use_blocks[0].agent_id, None);
    let second = session.subagents.get("a2").unwrap();
    assert_eq!(second.parent_tool_use_id, "t3");
    assert_eq!(second.message_count, 1);
    assert_eq!(session.messages.len(), 3);
    assert_eq!(session.messages[1].tool_use_blocks[0].agent_id, Some("a1".to_string()));
    assert_eq!(session.messages[1].tool_use_blocks[1].agent_id, None);
    assert_eq!(session.messages[2].tool_use_blocks[0].agent_id, Some("a2".to_string()));
}

#[test]
fn orphans_and_empty_subagent_logs_are_passed_over() {
    let logs = vec![
        subagent_log("agent-unknown", vec![user(text("orphan"))]),
        subagent_log("agent-a1", vec![user(text("   "))]),
        subagent_log("agent-a2", vec![]),
    ];
    let session = get_session(&log(parent_entries()), &existing(), &logs).unwrap();
    assert!(session.subagents.is_empty());
    assert_eq!(session.messages[1].tool_use_blocks[0].agent_id, None);
    assert_eq!(session.messages[2].tool_use_blocks[0].agent_id, None);
}

#[test]
fn the_first_subagent_that_claims_an_invocation_wins() {
    let logs = vec![
        subagent_log("agent-a3", vec![user(text("third agent"))]),
        subagent_log("agent-a1", vec![user(text("first agent"))]),
    ];
    let session = get_session(&log(parent_entries()), &existing(), &logs).unwrap();
    assert_eq!(session.subagents.len(), 2);
    assert_eq!(session.subagents.key_at(0), "a3");
    assert_eq!(session.subagents.key_at(1), "a1");
    assert_eq!(session.messages[1].tool_use_blocks[0].agent_id, Some("a3".to_string()));
}

#[test]
fn any_invocation_that_spawned_a_subagent_is_marked() {
    let logs = vec![subagent_log("agent-a4", vec![user(text("spawned by a Read"))])];
    let session = get_session(&log(parent_entries()), &existing(), &logs).unwrap();
    assert_eq!(session.messages[1].tool_use_blocks[1].name, "Read");
    assert_eq!(session.messages[1].tool_use_blocks[1].agent_id, Some("a4".to_string()));
}

#[test]
fn a_subagent_log_without_the_prefix_is_named_by_its_stem() {
    let logs = vec![subagent_log("a1", vec![user(text("bare stem"))])];
    let session = get_session(&log(parent_entries()), &existing(), &logs).unwrap();
    assert_eq!(session.subagents.len(), 1);
    assert_eq!(session.subagents.get("a1").unwrap().parent_tool_use_id, "t1");
}

#[test]
fn linking_keeps_the_session_itself() {
    let (session, links) = parse_session_file(&log(parent_entries()), &existing()).unwrap();
    let linked = link_subagents(session.clone(), &links, &vec![]);
    assert_eq!(linked.id, session.id);
    assert_eq!(linked.project, session.project);
    assert_eq!(linked.messages.len(), session.messages.len());
    assert_eq!(linked.messages[0].text_content, "delegate");
    assert!(linked.subagents.is_empty());
}
