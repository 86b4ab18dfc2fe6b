use sessionly::hook_settings::{
    entry_contains_identifier, install_hooks, uninstall_hooks, HookInstallError,
};
use sessionly::json::{Json, JsonMember};

const COMMAND: &str = "curl -s -X POST http://localhost:19823/sessionly -d @- || true";

fn text(value: &str) -> Json {
    Json::Str(value.to_string())
}

fn object(members: Vec<(&str, Json)>) -> Json {
    Json::Object(
        members
            .into_iter()
            .map(|(key, value)| JsonMember { key: key.to_string(), value })
            .collect(),
    )
}

fn entry(has_matcher: bool) -> Json {
    let mut members = vec![
        ("type", text("command")),
        ("command", text(COMMAND)),
        ("async", Json::Bool(true)),
        ("timeout", Json::Number("5".to_string())),
    ];
    if has_matcher {
        members.push(("matcher", text("*")));
    }
    object(members)
}

fn foreign_entry() -> Json {
    object(vec![("type", text("command")), ("command", text("echo done"))])
}

fn all_events() -> Vec<(&'static str, bool)> {
    vec![
        ("PreToolUse", true),
        ("PostToolUse", true),
        ("PostToolUseFailure", true),
        ("Stop", false),
        ("Notification", true),
        ("SessionStart", false),
        ("SessionEnd", false),
        ("UserPromptSubmit", false),
    ]
}

fn fresh_hooks() -> Json {
    object(
        all_events()
            .into_iter()
            .map(|(name, matcher)| (name, Json::Array(vec![entry(matcher)])))
            .collect(),
    )
}

#[test]
fn flat_and_nested_entries_are_recognised() {
    assert!(entry_contains_identifier(&entry(true)));
    assert!(entry_contains_identifier(&entry(false)));
    assert!(!entry_contains_identifier(&foreign_entry()));
    let nested = object(vec![
        ("matcher", text("*")),
        ("hooks", Json::Array(vec![foreign_entry(), entry(false)])),
    ]);
    assert!(entry_contains_identifier(&nested));
    let nested_foreign =
        object(vec![("matcher", text("*")), ("hooks", Json::Array(vec![foreign_entry()]))]);
    assert!(!entry_contains_identifier(&nested_foreign));
    assert!(!entry_contains_identifier(&text(COMMAND)));
    assert!(!entry_contains_identifier(&Json::Array(vec![entry(true)])));
    assert!(!entry_contains_identifier(&object(vec![("command", Json::Null)])));
    assert!(!entry_contains_identifier(&object(vec![("hooks", entry(true))])));
    assert!(!entry_contains_identifier(&object(vec![])));
}

#[test]
fn installing_into_nothing_gives_all_hooks() {
    assert_eq!(install_hooks(None), Ok(object(vec![("hooks", fresh_hooks())])));
    assert_eq!(install_hooks(Some(object(vec![]))), Ok(object(vec![("hooks", fresh_hooks())])));
}

#[test]
fn installing_twice_changes_nothing() {
    let once = install_hooks(None).unwrap();
    assert_eq!(install_hooks(Some(once.clone())), Ok(once));
}

#[test]
fn installing_keeps_what_is_there() {
    let settings = object(vec![
        ("theme", text("dark")),
        (
            "hooks",
            object(vec![
                ("Stop", Json::Array(vec![foreign_entry()])),
                ("Custom", Json::Array(vec![foreign_entry()])),
                (
                    "PreToolUse",
                    Json::Array(vec![object(vec![
                        ("matcher", text("Bash")),
                        ("hooks", Json::Array(vec![entry(false)])),
                    ])]),
                ),
            ]),
        ),
        ("model", text("m")),
    ]);
    let installed = install_hooks(Some(settings)).unwrap();
    assert_eq!(installed.get("theme"), Some(&text("dark")));
    assert_eq!(installed.get("model"), Some(&text("m")));
    let hooks = installed.get("hooks").unwrap();
    assert_eq!(hooks.get("Stop"), Some(&Json::Array(vec![foreign_entry(), entry(false)])));
    assert_eq!(hooks.get("Custom"), Some(&Json::Array(vec![foreign_entry()])));
    assert_eq!(
        hooks.get("PreToolUse"),
        Some(&Json::Array(vec![object(vec![
            ("matcher", text("Bash")),
            ("hooks", Json::Array(vec![entry(false)])),
        ])]))
    );
    assert_eq!(hooks.get("PostToolUse"), Some(&Json::Array(vec![entry(true)])));
    assert_eq!(hooks.get("UserPromptSubmit"), Some(&Json::Array(vec![entry(false)])));
}

#[test]
fn installing_fails_on_settings_of_the_wrong_shape() {
    assert_eq!(install_hooks(Some(Json::Array(vec![]))), Err(HookInstallError::SettingsNotObject));
    assert_eq!(install_hooks(Some(Json::Null)), Err(HookInstallError::SettingsNotObject));
    assert_eq!(
        install_hooks(Some(object(vec![("hooks", Json::Array(vec![]))]))),
        Err(HookInstallError::HooksNotObject)
    );
    assert_eq!(
        install_hooks(Some(object(vec![("hooks", Json::Null)]))),
        Err(HookInstallError::HooksNotObject)
    );
    assert_eq!(
        install_hooks(Some(object(vec![("hooks", object(vec![("Stop", text("x"))]))]))),
        Err(HookInstallError::EventHooksNotArray)
    );
    assert_eq!(
        install_hooks(Some(object(vec![("hooks", object(vec![("Other", text("x"))]))]))).is_ok(),
        true
    );
}

#[test]
fn install_errors_say_what_is_wrong() {
    assert_eq!(HookInstallError::SettingsNotObject.message(), "Settings is not an object");
    assert_eq!(HookInstallError::HooksNotObject.message(), "hooks is not an object");
    assert_eq!(HookInstallError::EventHooksNotArray.message(), "event hooks is not an array");
}

#[test]
fn uninstalling_undoes_installing() {
    let installed = install_hooks(None).unwrap();
    assert_eq!(uninstall_hooks(installed), object(vec![]));
    let settings = object(vec![("theme", text("dark"))]);
    let installed = install_hooks(Some(settings.clone())).unwrap();
    assert_eq!(uninstall_hooks(installed), settings);
}

#[test]
fn uninstalling_leaves_the_hooks_of_others() {
    let settings = object(vec![
        (
            "hooks",
            object(vec![
                ("Stop", Json::Array(vec![foreign_entry(), entry(false), foreign_entry()])),
                ("PreToolUse", Json::Array(vec![entry(true)])),
                ("Odd", text("not an array")),
                ("Empty", Json::Array(vec![])),
            ]),
        ),
        ("theme", text("dark")),
    ]);
    assert_eq!(
        uninstall_hooks(settings),
        object(vec![
            (
                "hooks",
                object(vec![
                    ("Stop", Json::Array(vec![foreign_entry(), foreign_entry()])),
                    ("Odd", text("not an array")),
                ])
            ),
            ("theme", text("dark")),
        ])
    );
}

#[test]
fn uninstalling_drops_hooks_when_nothing_is_left() {
    let settings = object(vec![
        ("theme", text("dark")),
        ("hooks", object(vec![("Stop", Json::Array(vec![entry(false)]))])),
    ]);
    assert_eq!(uninstall_hooks(settings), object(vec![("theme", text("dark"))]));
    let settings = object(vec![("hooks", object(vec![]))]);
    assert_eq!(uninstall_hooks(settings), object(vec![]));
}

#[test]
fn uninstalling_leaves_other_shapes_alone() {
    assert_eq!(uninstall_hooks(Json::Null), Json::Null);
    assert_eq!(uninstall_hooks(Json::Array(vec![entry(true)])), Json::Array(vec![entry(true)]));
    let settings = object(vec![("hooks", Json::Array(vec![entry(true)]))]);
    assert_eq!(uninstall_hooks(settings.clone()), settings);
    let settings = object(vec![("theme", text("dark"))]);
    assert_eq!(uninstall_hooks(settings.clone()), settings);
}
