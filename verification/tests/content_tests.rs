use sessionly::content::{
    extract_text_content, extract_thinking_blocks, extract_tool_results, extract_tool_use_blocks,
};
use sessionly::json::{Json, JsonMember};
use sessionly::session_types::{ThinkingBlock, ToolResultBlock, ToolUseBlock};

fn text(value: &str) -> Json {
    Json::Str(value.to_string())
}

fn object(members: Vec<(&str, Json)>) -> Json {
    Json::Object(
        members
            .into_iter()
            .map(|(key, value)| JsonMember { key: key.to_string(), value })
            .collect(),
    )
}

fn text_block(value: &str) -> Json {
    object(vec![("type", text("text")), ("text", text(value))])
}

#[test]
fn text_of_a_plain_string_is_the_string() {
    assert_eq!(extract_text_content(&text("hello")), "hello");
    assert_eq!(extract_text_content(&text("")), "");
}

#[test]
fn text_of_blocks_is_joined_by_line_feeds() {
    let content = Json::Array(vec![
        text_block("first"),
        object(vec![("type", text("thinking")), ("thinking", text("hidden"))]),
        text_block("second"),
        text_block(""),
        text_block("fourth"),
    ]);
    assert_eq!(extract_text_content(&content), "first\nsecond\n\nfourth");
}

#[test]
fn text_of_a_single_block_has_no_line_feed() {
    assert_eq!(extract_text_content(&Json::Array(vec![text_block("only")])), "only");
    assert_eq!(extract_text_content(&Json::Array(vec![])), "");
}

#[test]
fn text_of_any_other_shape_is_empty() {
    assert_eq!(extract_text_content(&Json::Null), "");
    assert_eq!(extract_text_content(&Json::Bool(true)), "");
    assert_eq!(extract_text_content(&Json::Number("3".to_string())), "");
    assert_eq!(extract_text_content(&text_block("inside an object")), "");
}

#[test]
fn text_blocks_of_the_wrong_shape_are_passed_over() {
    let content = Json::Array(vec![
        object(vec![("type", text("text"))]),
        object(vec![("type", text("text")), ("text", Json::Number("1".to_string()))]),
        object(vec![("text", text("no type"))]),
        object(vec![("type", Json::Null), ("text", text("null type"))]),
        text("a bare string"),
        Json::Null,
        text_block("kept"),
    ]);
    assert_eq!(extract_text_content(&content), "kept");
}

#[test]
fn thinking_blocks_are_extracted_in_order() {
    let content = Json::Array(vec![
        object(vec![
            ("type", text("thinking")),
            ("thinking", text("one")),
            ("signature", text("sig")),
        ]),
        text_block("between"),
        object(vec![("type", text("thinking")), ("thinking", text("two"))]),
        object(vec![
            ("type", text("thinking")),
            ("thinking", text("three")),
            ("signature", Json::Number("7".to_string())),
        ]),
        object(vec![("type", text("thinking"))]),
    ]);
    assert_eq!(
        extract_thinking_blocks(&content),
        vec![
            ThinkingBlock { thinking: "one".to_string(), signature: Some("sig".to_string()) },
            ThinkingBlock { thinking: "two".to_string(), signature: None },
            ThinkingBlock { thinking: "three".to_string(), signature: None },
        ]
    );
}

#[test]
fn thinking_blocks_of_a_string_are_none() {
    assert_eq!(extract_thinking_blocks(&text("thinking")), vec![]);
    assert_eq!(extract_thinking_blocks(&Json::Null), vec![]);
}

#[test]
fn tool_invocations_are_extracted_in_order() {
    let input = object(vec![("file_path", text("/tmp/a")), ("limit", Json::Number("10".to_string()))]);
    let content = Json::Array(vec![
        object(vec![
            ("type", text("tool_use")),
            ("id", text("t1")),
            ("name", text("Read")),
            ("input", input.clone()),
        ]),
        object(vec![("type", text("tool_use")), ("id", text("t2")), ("name", text("Bash"))]),
        object(vec![
            ("type", text("tool_use")),
            ("id", text("t3")),
            ("name", text("Task")),
            ("input", Json::Null),
        ]),
        object(vec![("type", text("tool_use")), ("id", text("t4"))]),
        object(vec![("type", text("tool_use")), ("name", text("Read"))]),
        object(vec![("type", text("tool_use")), ("id", Json::Null), ("name", text("Read"))]),
    ]);
    assert_eq!(
        extract_tool_use_blocks(&content),
        vec![
            ToolUseBlock {
                id: "t1".to_string(),
                name: "Read".to_string(),
                input,
                agent_id: None
            },
            ToolUseBlock {
                id: "t2".to_string(),
                name: "Bash".to_string(),
                input: Json::Object(vec![]),
                agent_id: None
            },
            ToolUseBlock {
                id: "t3".to_string(),
                name: "Task".to_string(),
                input: Json::Null,
                agent_id: None
            },
        ]
    );
}

#[test]
fn tool_invocations_of_a_string_are_none() {
    assert_eq!(extract_tool_use_blocks(&text("tool_use")), vec![]);
}

#[test]
fn tool_results_are_keyed_by_invocation() {
    let content = Json::Array(vec![
        object(vec![
            ("type", text("tool_result")),
            ("tool_use_id", text("t1")),
            ("content", text("done")),
        ]),
        object(vec![
            ("type", text("tool_result")),
            ("tool_use_id", text("t2")),
            ("content", Json::Array(vec![text_block("listed")])),
            ("is_error", Json::Bool(true)),
        ]),
        object(vec![("type", text("tool_result")), ("tool_use_id", text("t3"))]),
        object(vec![("type", text("tool_result")), ("content", text("no id"))]),
        text_block("not a result"),
    ]);
    let results = extract_tool_results(&content);
    assert_eq!(results.len(), 3);
    assert_eq!(
        results.get("t1"),
        Some(&ToolResultBlock {
            tool_use_id: "t1".to_string(),
            content: text("done"),
            is_error: None
        })
    );
    assert_eq!(
        results.get("t2"),
        Some(&ToolResultBlock {
            tool_use_id: "t2".to_string(),
            content: Json::Array(vec![text_block("listed")]),
            is_error: Some(true)
        })
    );
    assert_eq!(
        results.get("t3"),
        Some(&ToolResultBlock { tool_use_id: "t3".to_string(), content: text(""), is_error: None })
    );
}

#[test]
fn a_later_tool_result_replaces_an_earlier_one() {
    let content = Json::Array(vec![
        object(vec![
            ("type", text("tool_result")),
            ("tool_use_id", text("t1")),
            ("content", text("first")),
        ]),
        object(vec![
            ("type", text("tool_result")),
            ("tool_use_id", text("t1")),
            ("content", text("second")),
        ]),
    ]);
    let results = extract_tool_results(&content);
    assert_eq!(results.len(), 1);
    assert_eq!(results.get("t1").unwrap().content, text("second"));
}

#[test]
fn tool_results_of_a_string_are_none() {
    assert!(extract_tool_results(&text("tool_result")).is_empty());
}
