//! Installation of the hooks in the assistant's settings.
//!
//! The settings are a JSON object. Under `hooks` it holds, for each kind of
//! event, an array of hook entries. Installing adds to the array of each kind
//! of event an entry that posts the event to the endpoint, unless the array
//! already has an entry that names the endpoint; uninstalling takes every
//! such entry out again and leaves the entries of others alone.

use vstd::prelude::*;
use crate::hooks::hook_identifier;
use crate::json::{member_from, Json, JsonMember, JsonMemberValue, JsonValue};
use crate::text::{has_substring, str_contains, str_eq};

verus! {

/// The command that a hook entry runs: it posts the event to the endpoint and
/// never fails.
pub open spec fn hook_command() -> Seq<char> {
    "curl -s -X POST http://localhost:19823/sessionly -d @- || true"@
}

/// Why the hooks could not be installed.
#[derive(Debug, Clone, Copy, PartialEq, Eq, Structural)]
pub enum HookInstallError {
    /// The settings are not a JSON object.
    SettingsNotObject,
    /// The settings hold something under `hooks` that is not an object.
    HooksNotObject,
    /// The hooks of some kind of event are not an array.
    EventHooksNotArray,
}

impl HookInstallError {
    /// The error in words.
    pub fn message(self) -> (r: &'static str)
        ensures
            r@ == match self {
                HookInstallError::SettingsNotObject => "Settings is not an object"@,
                HookInstallError::HooksNotObject => "hooks is not an object"@,
                HookInstallError::EventHooksNotArray => "event hooks is not an array"@,
            },
    {
        match self {
            HookInstallError::SettingsNotObject => "Settings is not an object",
            HookInstallError::HooksNotObject => "hooks is not an object",
            HookInstallError::EventHooksNotArray => "event hooks is not an array",
        }
    }
}

// ---------------------------------------------------------------------------
// Members of an object
// ---------------------------------------------------------------------------

/// The first position at or after `from` of a member with the key `key`, or
/// the length where there is none.
pub open spec fn member_position(members: Seq<JsonMemberValue>, key: Seq<char>, from: int) -> int
    decreases members.len() - from,
{
    if from < 0 || from >= members.len() {
        members.len() as int
    } else if members[from].key == key {
        from
    } else {
        member_position(members, key, from + 1)
    }
}

/// `members` with `value` under `key`: in the place of the first member with
/// that key, or at the end where there is none.
pub open spec fn with_member(members: Seq<JsonMemberValue>, key: Seq<char>, value: JsonValue) -> Seq<
    JsonMemberValue,
> {
    let at = member_position(members, key, 0);
    if at < members.len() {
        members.update(at, JsonMemberValue { key, value })
    } else {
        members.push(JsonMemberValue { key, value })
    }
}

/// `members` without the first member with the key `key`.
pub open spec fn without_member(members: Seq<JsonMemberValue>, key: Seq<char>) -> Seq<
    JsonMemberValue,
> {
    let at = member_position(members, key, 0);
    if at < members.len() {
        members.remove(at)
    } else {
        members
    }
}

proof fn lemma_member_position(members: Seq<JsonMemberValue>, key: Seq<char>, from: int)
    requires
        0 <= from <= members.len(),
    ensures
        from <= member_position(members, key, from) <= members.len(),
        member_position(members, key, from) < members.len() ==> members[member_position(
            members,
            key,
            from,
        )].key == key && member_from(members, key, from) == Some(
            members[member_position(members, key, from)].value,
        ),
        member_position(members, key, from) == members.len() ==> member_from(members, key, from)
            is None,
    decreases members.len() - from,
{
    if from < members.len() && members[from].key != key {
        lemma_member_position(members, key, from + 1);
    }
}

fn members_view_of(members: &Vec<JsonMember>) -> (r: Ghost<Seq<JsonMemberValue>>)
    ensures
        r@.len() == members.len(),
        forall|i: int|
            0 <= i < members.len() ==> #[trigger] r@[i] == (JsonMemberValue {
                key: members@[i].key@,
                value: members@[i].value@,
            }),
        r@ == (Json::Object(*members))@->Object_0,
{
    let ghost whole = (Json::Object(*members))@->Object_0;
    assert(whole.len() == members.len());
    Ghost(whole)
}

fn find_member(members: &Vec<JsonMember>, key: &str) -> (r: usize)
    ensures
        r == member_position((Json::Object(*members))@->Object_0, key@, 0),
        r <= members.len(),
{
    let model = members_view_of(members);
    let mut i: usize = 0;
    while i < members.len()
        invariant
            0 <= i <= members.len(),
            model@.len() == members.len(),
            model@ == (Json::Object(*members))@->Object_0,
            forall|k: int|
                0 <= k < members.len() ==> #[trigger] model@[k] == (JsonMemberValue {
                    key: members@[k].key@,
                    value: members@[k].value@,
                }),
            member_position(model@, key@, 0) == member_position(model@, key@, i as int),
        decreases members.len() - i,
    {
        if str_eq(members[i].key.as_str(), key) {
            assert(model@[i as int].key == key@);
            return i;
        }
        assert(model@[i as int].key != key@);
        i = i + 1;
    }
    i
}

/// Puts `value` under `key`.
fn set_member(members: Vec<JsonMember>, key: &str, value: Json) -> (r: Vec<JsonMember>)
    ensures
        (Json::Object(r))@->Object_0 == with_member(
            (Json::Object(members))@->Object_0,
            key@,
            value@,
        ),
{
    let before = members_view_of(&members);
    let at = find_member(&members, key);
    let mut members = members;
    let member = JsonMember { key: key.to_owned(), value };
    if at < members.len() {
        members.set(at, member);
    } else {
        members.push(member);
    }
    let after = members_view_of(&members);
    assert(after@ =~= with_member(before@, key@, value@));
    members
}

// ---------------------------------------------------------------------------
// Entries that name the endpoint
// ---------------------------------------------------------------------------

/// The value has a `command` string that names the endpoint.
pub open spec fn command_names_endpoint(item: JsonValue) -> bool {
    match item.str_field("command"@) {
        Some(command) => has_substring(command, hook_identifier()),
        None => false,
    }
}

pub open spec fn any_command_names_endpoint(items: Seq<JsonValue>) -> bool {
    exists|i: int| 0 <= i < items.len() && command_names_endpoint(#[trigger] items[i])
}

/// A hook entry names the endpoint when it is an object whose own command
/// does, or that holds under `hooks` an array with a hook whose command does.
pub open spec fn entry_names_endpoint(item: JsonValue) -> bool {
    item is Object && (command_names_endpoint(item) || match item.get("hooks"@) {
        Some(JsonValue::Array(hooks)) => any_command_names_endpoint(hooks),
        _ => false,
    })
}

pub open spec fn any_entry_names_endpoint(items: Seq<JsonValue>) -> bool {
    exists|i: int| 0 <= i < items.len() && entry_names_endpoint(#[trigger] items[i])
}

fn command_contains_identifier(item: &Json) -> (r: bool)
    ensures
        r == command_names_endpoint(item@),
{
    match item.str_field("command") {
        Some(command) => str_contains(command.as_str(), "localhost:19823/sessionly"),
        None => false,
    }
}

/// Whether a hook entry names the endpoint.
pub fn entry_contains_identifier(item: &Json) -> (r: bool)
    ensures
        r == entry_names_endpoint(item@),
{
    match item {
        Json::Object(_) => {},
        _ => {
            return false;
        },
    }
    if command_contains_identifier(item) {
        return true;
    }
    match item.get("hooks") {
        Some(nested) => match nested.as_array() {
            Some(hooks) => {
                let ghost model = hooks.deep_view();
                let mut i: usize = 0;
                assert(entry_names_endpoint(item@) == any_command_names_endpoint(model));
                while i < hooks.len()
                    invariant
                        0 <= i <= hooks.len(),
                        model == hooks.deep_view(),
                        entry_names_endpoint(item@) == any_command_names_endpoint(model),
                        forall|k: int| 0 <= k < i ==> !command_names_endpoint(#[trigger] model[k]),
                    decreases hooks.len() - i,
                {
                    if command_contains_identifier(&hooks[i]) {
                        assert(command_names_endpoint(model[i as int]));
                        return true;
                    }
                    i = i + 1;
                }
                false
            },
            None => false,
        },
        None => false,
    }
}

fn any_entry_contains_identifier(items: &Vec<Json>) -> (r: bool)
    ensures
        r == any_entry_names_endpoint(items.deep_view()),
{
    let ghost model = items.deep_view();
    let mut i: usize = 0;
    while i < items.len()
        invariant
            0 <= i <= items.len(),
            model == items.deep_view(),
            forall|k: int| 0 <= k < i ==> !entry_names_endpoint(#[trigger] model[k]),
        decreases items.len() - i,
    {
        if entry_contains_identifier(&items[i]) {
            assert(entry_names_endpoint(model[i as int]));
            return true;
        }
        i = i + 1;
    }
    false
}

// ---------------------------------------------------------------------------
// Installing
// ---------------------------------------------------------------------------

/// A kind of event and whether its hook entry carries a matcher.
pub struct HookEvent {
    pub name: Seq<char>,
    pub has_matcher: bool,
}

/// The kinds of events for which a hook is installed. Events about tools and
/// notifications match every tool; the others carry no matcher.
pub open spec fn hook_events() -> Seq<HookEvent> {
    seq![
        HookEvent { name: "PreToolUse"@, has_matcher: true },
        HookEvent { name: "PostToolUse"@, has_matcher: true },
        HookEvent { name: "PostToolUseFailure"@, has_matcher: true },
        HookEvent { name: "Stop"@, has_matcher: false },
        HookEvent { name: "Notification"@, has_matcher: true },
        HookEvent { name: "SessionStart"@, has_matcher: false },
        HookEvent { name: "SessionEnd"@, has_matcher: false },
        HookEvent { name: "UserPromptSubmit"@, has_matcher: false },
    ]
}

pub open spec fn member(key: Seq<char>, value: JsonValue) -> JsonMemberValue {
    JsonMemberValue { key, value }
}

/// The hook entry that is installed: a command that runs in the background
/// with a timeout of five seconds and, with a matcher, for every tool.
pub open spec fn hook_entry(has_matcher: bool) -> JsonValue {
    let plain = seq![
        member("type"@, JsonValue::Str("command"@)),
        member("command"@, JsonValue::Str(hook_command())),
        member("async"@, JsonValue::Bool(true)),
        member("timeout"@, JsonValue::Number("5"@)),
    ];
    if has_matcher {
        JsonValue::Object(plain.push(member("matcher"@, JsonValue::Str("*"@))))
    } else {
        JsonValue::Object(plain)
    }
}

/// The hooks of one kind of event with the entry installed: the array as it
/// was where an entry of it names the endpoint, else with the entry at its
/// end. No array to start with counts as an empty one.
pub open spec fn event_hooks_installed(existing: Option<JsonValue>, has_matcher: bool) -> Result<
    JsonValue,
    HookInstallError,
> {
    match existing {
        Some(JsonValue::Array(items)) => Ok(
            if any_entry_names_endpoint(items) {
                JsonValue::Array(items)
            } else {
                JsonValue::Array(items.push(hook_entry(has_matcher)))
            },
        ),
        Some(_) => Err(HookInstallError::EventHooksNotArray),
        None => Ok(JsonValue::Array(seq![hook_entry(has_matcher)])),
    }
}

/// The members of `hooks` with the entry installed for each of `events` in
/// turn, or the first error on the way.
pub open spec fn hooks_installed(members: Seq<JsonMemberValue>, events: Seq<HookEvent>) -> Result<
    Seq<JsonMemberValue>,
    HookInstallError,
>
    decreases events.len(),
{
    if events.len() == 0 {
        Ok(members)
    } else {
        match hooks_installed(members, events.drop_last()) {
            Ok(before) => {
                let event = events.last();
                match event_hooks_installed(member_from(before, event.name, 0), event.has_matcher) {
                    Ok(value) => Ok(with_member(before, event.name, value)),
                    Err(error) => Err(error),
                }
            },
            Err(error) => Err(error),
        }
    }
}

/// The settings with the hooks installed. Settings that hold nothing under
/// `hooks` get an object there.
pub open spec fn settings_installed(settings: JsonValue) -> Result<JsonValue, HookInstallError> {
    match settings {
        JsonValue::Object(members) => {
            let hooks = match member_from(members, "hooks"@, 0) {
                Some(hooks) => hooks,
                None => JsonValue::Object(Seq::empty()),
            };
            match hooks {
                JsonValue::Object(hook_members) => match hooks_installed(hook_members, hook_events()) {
                    Ok(installed) => Ok(
                        JsonValue::Object(with_member(members, "hooks"@, JsonValue::Object(installed))),
                    ),
                    Err(error) => Err(error),
                },
                _ => Err(HookInstallError::HooksNotObject),
            }
        },
        _ => Err(HookInstallError::SettingsNotObject),
    }
}

fn make_member(key: &str, value: Json) -> (r: JsonMember)
    ensures
        r.key@ == key@,
        r.value == value,
{
    JsonMember { key: key.to_owned(), value }
}

fn make_hook_entry(has_matcher: bool) -> (r: Json)
    ensures
        r@ == hook_entry(has_matcher),
{
    let mut members: Vec<JsonMember> = Vec::new();
    members.push(make_member("type", Json::Str("command".to_owned())));
    members.push(
        make_member(
            "command",
            Json::Str("curl -s -X POST http://localhost:19823/sessionly -d @- || true".to_owned()),
        ),
    );
    members.push(make_member("async", Json::Bool(true)));
    members.push(make_member("timeout", Json::Number("5".to_owned())));
    if has_matcher {
        members.push(make_member("matcher", Json::Str("*".to_owned())));
    }
    let model = members_view_of(&members);
    let r = Json::Object(members);
    proof {
        let expected = hook_entry(has_matcher)->Object_0;
        assert(model@.len() == expected.len());
        assert(model@[0] == expected[0]);
        assert(model@[1] == expected[1]);
        assert(model@[2] == expected[2]);
        assert(model@[3] == expected[3]);
        if has_matcher {
            assert(model@[4] == expected[4]);
        }
        assert(model@ =~= expected);
    }
    r
}

fn install_event(members: Vec<JsonMember>, name: &str, has_matcher: bool) -> (r: Result<
    Vec<JsonMember>,
    HookInstallError,
>)
    ensures
        match event_hooks_installed(
            member_from((Json::Object(members))@->Object_0, name@, 0),
            has_matcher,
        ) {
            Ok(value) => r is Ok && (Json::Object(r->Ok_0))@->Object_0 == with_member(
                (Json::Object(members))@->Object_0,
                name@,
                value,
            ),
            Err(error) => r == Err::<Vec<JsonMember>, HookInstallError>(error),
        },
{
    let model = members_view_of(&members);
    let at = find_member(&members, name);
    proof {
        lemma_member_position(model@, name@, 0);
    }
    let items: Vec<Json> = if at < members.len() {
        match &members[at].value {
            Json::Array(existing) => {
                assert(members@[at as int].value@->Array_0 =~= existing.deep_view());
                if any_entry_contains_identifier(existing) {
                    let kept = members[at].value.clone();
                    return Ok(set_member(members, name, kept));
                }
                let mut items: Vec<Json> = Vec::new();
                let mut i: usize = 0;
                while i < existing.len()
                    invariant
                        0 <= i <= existing.len(),
                        items.len() == i,
                        forall|k: int| 0 <= k < i ==> (#[trigger] items@[k])@ == existing@[k]@,
                    decreases existing.len() - i,
                {
                    items.push(existing[i].clone());
                    i = i + 1;
                }
                assert(items.deep_view() =~= existing.deep_view());
                items
            },
            _ => {
                return Err(HookInstallError::EventHooksNotArray);
            },
        }
    } else {
        let items: Vec<Json> = Vec::new();
        assert(items.deep_view() =~= Seq::<JsonValue>::empty());
        items
    };
    let mut items = items;
    let ghost before = items.deep_view();
    let entry = make_hook_entry(has_matcher);
    items.push(entry);
    assert(items.deep_view() =~= before.push(hook_entry(has_matcher)));
    let value = Json::Array(items);
    assert(value@->Array_0 =~= before.push(hook_entry(has_matcher)));
    Ok(set_member(members, name, value))
}

/// The settings to start from: those given, or an empty object where there
/// are none.
pub open spec fn given_settings(settings: Option<Json>) -> JsonValue {
    match settings {
        Some(given) => given@,
        None => JsonValue::Object(Seq::empty()),
    }
}

/// Installs the hooks in the settings. `None` stands for settings that do
/// not exist yet or cannot be read as JSON: they count as an empty object.
pub fn install_hooks(settings: Option<Json>) -> (r: Result<Json, HookInstallError>)
    ensures
        match settings_installed(given_settings(settings)) {
            Ok(installed) => r is Ok && r->Ok_0@ == installed,
            Err(error) => r == Err::<Json, HookInstallError>(error),
        },
{
    let ghost target = settings_installed(given_settings(settings));
    let given = match settings {
        Some(given) => given,
        None => {
            let empty = Json::Object(Vec::new());
            assert(empty@->Object_0 =~= Seq::empty());
            empty
        },
    };
    let members = match given {
        Json::Object(members) => members,
        _ => {
            return Err(HookInstallError::SettingsNotObject);
        },
    };
    let model = members_view_of(&members);
    let at = find_member(&members, "hooks");
    proof {
        lemma_member_position(model@, "hooks"@, 0);
    }
    let hook_members: Vec<JsonMember> = if at < members.len() {
        match members[at].value.clone() {
            Json::Object(hook_members) => hook_members,
            _ => {
                return Err(HookInstallError::HooksNotObject);
            },
        }
    } else {
        let none: Vec<JsonMember> = Vec::new();
        assert((Json::Object(none))@->Object_0 =~= Seq::empty());
        none
    };
    let ghost start = (Json::Object(hook_members))@->Object_0;
    let ghost events = hook_events();
    let mut hook_members = hook_members;
    let mut i: usize = 0;
    assert(events.take(0) =~= Seq::<HookEvent>::empty());
    assert(target == match hooks_installed(start, events) {
        Ok(installed) => Ok::<JsonValue, HookInstallError>(
            JsonValue::Object(with_member(model@, "hooks"@, JsonValue::Object(installed))),
        ),
        Err(error) => Err(error),
    });
    while i < 8
        invariant
            0 <= i <= 8,
            events == hook_events(),
            target == settings_installed(given_settings(settings)),
            hooks_installed(start, events) is Err ==> target == Err::<JsonValue, HookInstallError>(
                hooks_installed(start, events)->Err_0,
            ),
            hooks_installed(start, events.take(i as int)) == Ok::<
                Seq<JsonMemberValue>,
                HookInstallError,
            >((Json::Object(hook_members))@->Object_0),
        decreases 8 - i,
    {
        let (name, has_matcher) = hook_event_at(i);
        proof {
            lemma_install_step(start, events, i + 1);
        }
        match install_event(hook_members, name, has_matcher) {
            Ok(next) => {
                hook_members = next;
            },
            Err(error) => {
                proof {
                    lemma_install_stops(start, events, i + 1);
                }
                return Err(error);
            },
        }
        i = i + 1;
    }
    assert(events.take(8) =~= events);
    let members = set_member(members, "hooks", Json::Object(hook_members));
    Ok(Json::Object(members))
}

/// The `i`th kind of event for which a hook is installed.
fn hook_event_at(i: usize) -> (r: (&'static str, bool))
    requires
        i < 8,
    ensures
        r.0@ == hook_events()[i as int].name,
        r.1 == hook_events()[i as int].has_matcher,
{
    if i == 0 {
        ("PreToolUse", true)
    } else if i == 1 {
        ("PostToolUse", true)
    } else if i == 2 {
        ("PostToolUseFailure", true)
    } else if i == 3 {
        ("Stop", false)
    } else if i == 4 {
        ("Notification", true)
    } else if i == 5 {
        ("SessionStart", false)
    } else if i == 6 {
        ("SessionEnd", false)
    } else {
        ("UserPromptSubmit", false)
    }
}

/// Installing for the first `n` events and then for the next is installing
/// for the first `n + 1`.
proof fn lemma_install_step(start: Seq<JsonMemberValue>, events: Seq<HookEvent>, n: int)
    requires
        1 <= n <= events.len(),
    ensures
        hooks_installed(start, events.take(n)) == match hooks_installed(start, events.take(n - 1)) {
            Ok(before) => match event_hooks_installed(
                member_from(before, events[n - 1].name, 0),
                events[n - 1].has_matcher,
            ) {
                Ok(value) => Ok(with_member(before, events[n - 1].name, value)),
                Err(error) => Err(error),
            },
            Err(error) => Err(error),
        },
{
    assert(events.take(n).drop_last() =~= events.take(n - 1));
}

/// An error at the `n`th event is the error of the whole.
proof fn lemma_install_stops(start: Seq<JsonMemberValue>, events: Seq<HookEvent>, n: int)
    requires
        1 <= n <= events.len(),
        hooks_installed(start, events.take(n)) is Err,
    ensures
        hooks_installed(start, events) == hooks_installed(start, events.take(n)),
    decreases events.len() - n,
{
    if n < events.len() {
        lemma_install_step(start, events, n + 1);
        lemma_install_stops(start, events, n + 1);
    } else {
        assert(events.take(n) =~= events);
    }
}

// ---------------------------------------------------------------------------
// Uninstalling
// ---------------------------------------------------------------------------

/// The entries that do not name the endpoint, in order.
pub open spec fn entries_kept(items: Seq<JsonValue>) -> Seq<JsonValue>
    decreases items.len(),
{
    if items.len() == 0 {
        Seq::empty()
    } else {
        let rest = entries_kept(items.drop_last());
        if entry_names_endpoint(items.last()) {
            rest
        } else {
            rest.push(items.last())
        }
    }
}

/// The hooks of one kind of event without the entries that name the
/// endpoint. A value that is not an array is left as it is.
pub open spec fn event_hooks_cleaned(value: JsonValue) -> JsonValue {
    match value {
        JsonValue::Array(items) => JsonValue::Array(entries_kept(items)),
        _ => value,
    }
}

/// A kind of event stays unless its hooks are an empty array.
pub open spec fn event_stays(value: JsonValue) -> bool {
    match value {
        JsonValue::Array(items) => items.len() > 0,
        _ => true,
    }
}

/// The members of `hooks` with every kind of event cleaned, and without the
/// kinds that have no entry left.
pub open spec fn hooks_cleaned(members: Seq<JsonMemberValue>) -> Seq<JsonMemberValue>
    decreases members.len(),
{
    if members.len() == 0 {
        Seq::empty()
    } else {
        let rest = hooks_cleaned(members.drop_last());
        let cleaned = event_hooks_cleaned(members.last().value);
        if event_stays(cleaned) {
            rest.push(JsonMemberValue { key: members.last().key, value: cleaned })
        } else {
            rest
        }
    }
}

/// The settings with the hooks taken out: every entry that names the
/// endpoint is gone, a kind of event left without entries is gone, and
/// `hooks` itself is gone when nothing is left in it. Settings that are not
/// an object, or hold no object under `hooks`, are left as they are.
pub open spec fn settings_uninstalled(settings: JsonValue) -> JsonValue {
    match settings {
        JsonValue::Object(members) => match member_from(members, "hooks"@, 0) {
            Some(JsonValue::Object(hook_members)) => {
                let cleaned = hooks_cleaned(hook_members);
                if cleaned.len() == 0 {
                    JsonValue::Object(without_member(members, "hooks"@))
                } else {
                    JsonValue::Object(with_member(members, "hooks"@, JsonValue::Object(cleaned)))
                }
            },
            _ => settings,
        },
        _ => settings,
    }
}

fn clean_event_hooks(value: &Json) -> (r: Json)
    ensures
        r@ == event_hooks_cleaned(value@),
{
    match value {
        Json::Array(items) => {
            let ghost model = items.deep_view();
            assert(value@->Array_0 =~= model);
            let mut kept: Vec<Json> = Vec::new();
            let mut i: usize = 0;
            assert(model.take(0) =~= Seq::<JsonValue>::empty());
            assert(kept.deep_view() =~= Seq::<JsonValue>::empty());
            while i < items.len()
                invariant
                    0 <= i <= items.len(),
                    model == items.deep_view(),
                    kept.deep_view() == entries_kept(model.take(i as int)),
                decreases items.len() - i,
            {
                proof {
                    assert(model.take(i + 1).drop_last() =~= model.take(i as int));
                    assert(model.take(i + 1).last() == items@[i as int]@);
                }
                if !entry_contains_identifier(&items[i]) {
                    let ghost before = kept.deep_view();
                    kept.push(items[i].clone());
                    assert(kept.deep_view() =~= before.push(items@[i as int]@));
                }
                i = i + 1;
            }
            assert(model.take(items.len() as int) =~= model);
            let r = Json::Array(kept);
            assert(r@->Array_0 =~= kept.deep_view());
            r
        },
        _ => value.clone(),
    }
}

fn event_has_hooks(value: &Json) -> (r: bool)
    ensures
        r == event_stays(value@),
{
    match value {
        Json::Array(items) => {
            assert(value@->Array_0.len() == items.len());
            items.len() > 0
        },
        _ => true,
    }
}

fn clean_hooks(members: &Vec<JsonMember>) -> (r: Vec<JsonMember>)
    ensures
        (Json::Object(r))@->Object_0 == hooks_cleaned((Json::Object(*members))@->Object_0),
{
    let model = members_view_of(members);
    let mut kept: Vec<JsonMember> = Vec::new();
    let mut i: usize = 0;
    assert(model@.take(0) =~= Seq::<JsonMemberValue>::empty());
    assert((Json::Object(kept))@->Object_0 =~= Seq::<JsonMemberValue>::empty());
    while i < members.len()
        invariant
            0 <= i <= members.len(),
            model@ == (Json::Object(*members))@->Object_0,
            model@.len() == members.len(),
            forall|k: int|
                0 <= k < members.len() ==> #[trigger] model@[k] == (JsonMemberValue {
                    key: members@[k].key@,
                    value: members@[k].value@,
                }),
            (Json::Object(kept))@->Object_0 == hooks_cleaned(model@.take(i as int)),
        decreases members.len() - i,
    {
        proof {
            assert(model@.take(i + 1).drop_last() =~= model@.take(i as int));
            assert(model@.take(i + 1).last() == model@[i as int]);
        }
        let cleaned = clean_event_hooks(&members[i].value);
        if event_has_hooks(&cleaned) {
            let before = members_view_of(&kept);
            let key = members[i].key.clone();
            let ghost added = JsonMemberValue { key: key@, value: cleaned@ };
            kept.push(JsonMember { key, value: cleaned });
            let after = members_view_of(&kept);
            assert(after@ =~= before@.push(added));
        }
        i = i + 1;
    }
    assert(model@.take(members.len() as int) =~= model@);
    kept
}

/// Takes the hooks out of the settings.
pub fn uninstall_hooks(settings: Json) -> (r: Json)
    ensures
        r@ == settings_uninstalled(settings@),
{
    let members = match settings {
        Json::Object(members) => members,
        other => {
            return other;
        },
    };
    let model = members_view_of(&members);
    let at = find_member(&members, "hooks");
    proof {
        lemma_member_position(model@, "hooks"@, 0);
    }
    if at >= members.len() {
        return Json::Object(members);
    }
    let cleaned = match &members[at].value {
        Json::Object(hook_members) => {
            assert(members@[at as int].value@->Object_0 == (Json::Object(*hook_members))@->Object_0);
            clean_hooks(hook_members)
        },
        _ => {
            return Json::Object(members);
        },
    };
    let cleaned_model = members_view_of(&cleaned);
    let mut members = members;
    if cleaned.len() == 0 {
        members.remove(at);
        let after = members_view_of(&members);
        assert(after@ =~= without_member(model@, "hooks"@));
        Json::Object(members)
    } else {
        let members = set_member(members, "hooks", Json::Object(cleaned));
        Json::Object(members)
    }
}

// ---------------------------------------------------------------------------
// Laws
// ---------------------------------------------------------------------------

proof fn lemma_member_after_update(
    members: Seq<JsonMemberValue>,
    key: Seq<char>,
    value: JsonValue,
    other: Seq<char>,
    from: int,
)
    requires
        0 <= from <= members.len(),
        from <= member_position(members, key, 0),
    ensures
        member_from(with_member(members, key, value), other, from) == if other == key {
            Some(value)
        } else {
            member_from(members, other, from)
        },
    decreases members.len() - from,
{
    let at = member_position(members, key, 0);
    lemma_member_position(members, key, 0);
    let after = with_member(members, key, value);
    if from < members.len() {
        if from < at {
            assert(after[from] == members[from]);
            lemma_member_position(members, key, from);
            if members[from].key == key {
                lemma_first_position(members, key, from);
            }
            lemma_member_after_update(members, key, value, other, from + 1);
        } else {
            assert(from == at);
            assert(after[from] == JsonMemberValue { key, value });
            if other != key {
                lemma_member_unchanged_behind(members, after, other, from + 1);
            }
        }
    } else {
        assert(at == members.len());
        assert(after[from] == JsonMemberValue { key, value });
    }
}

proof fn lemma_first_position(members: Seq<JsonMemberValue>, key: Seq<char>, at: int)
    requires
        0 <= at < members.len(),
        members[at].key == key,
    ensures
        member_position(members, key, 0) <= at,
{
    lemma_position_before(members, key, 0, at);
}

proof fn lemma_position_before(members: Seq<JsonMemberValue>, key: Seq<char>, from: int, at: int)
    requires
        0 <= from <= at < members.len(),
        members[at].key == key,
    ensures
        member_position(members, key, from) <= at,
    decreases at - from,
{
    if from < at && members[from].key != key {
        lemma_position_before(members, key, from + 1, at);
    }
}

proof fn lemma_member_unchanged_behind(
    before: Seq<JsonMemberValue>,
    after: Seq<JsonMemberValue>,
    key: Seq<char>,
    from: int,
)
    requires
        0 <= from,
        before.len() == after.len(),
        forall|i: int| from <= i < before.len() ==> before[i] == after[i],
    ensures
        member_from(before, key, from) == member_from(after, key, from),
    decreases before.len() - from,
{
    if from < before.len() && before[from].key != key {
        lemma_member_unchanged_behind(before, after, key, from + 1);
    }
}

/// After a value was put under a key, it is found under that key, and what
/// is found under any other key is what was found before.
pub proof fn lemma_with_member(
    members: Seq<JsonMemberValue>,
    key: Seq<char>,
    value: JsonValue,
    other: Seq<char>,
)
    ensures
        member_from(with_member(members, key, value), other, 0) == if other == key {
            Some(value)
        } else {
            member_from(members, other, 0)
        },
{
    lemma_member_position(members, key, 0);
    lemma_member_after_update(members, key, value, other, 0);
}

/// The hooks of the kind of event `name` have an entry that names the
/// endpoint.
pub open spec fn event_is_hooked(hooks: Seq<JsonMemberValue>, name: Seq<char>) -> bool {
    match member_from(hooks, name, 0) {
        Some(JsonValue::Array(items)) => any_entry_names_endpoint(items),
        _ => false,
    }
}

/// The entry that is installed names the endpoint.
pub proof fn lemma_hook_entry_names_endpoint(has_matcher: bool)
    ensures
        entry_names_endpoint(hook_entry(has_matcher)),
{
    reveal_strlit("curl -s -X POST http://localhost:19823/sessionly -d @- || true");
    reveal_strlit("localhost:19823/sessionly");
    let command = hook_command();
    let at = 23int;
    assert(command.subrange(at, at + hook_identifier().len()) =~= hook_identifier());
    let entry = hook_entry(has_matcher);
    let members = entry->Object_0;
    reveal_strlit("type");
    reveal_strlit("command");
    assert(members[0].key != "command"@) by {
        assert("type"@.len() != "command"@.len());
    }
    assert(members[1].key == "command"@);
    assert(member_from(members, "command"@, 1) == Some(JsonValue::Str(command)));
    assert(member_from(members, "command"@, 0) == Some(JsonValue::Str(command)));
    assert(entry.str_field("command"@) == Some(command));
}

/// Installing leaves every kind of event with an entry that names the
/// endpoint.
pub proof fn lemma_installed_events_are_hooked(
    members: Seq<JsonMemberValue>,
    events: Seq<HookEvent>,
    k: int,
)
    requires
        hooks_installed(members, events) is Ok,
        0 <= k < events.len(),
    ensures
        event_is_hooked(hooks_installed(members, events)->Ok_0, events[k].name),
    decreases events.len(),
{
    let before = hooks_installed(members, events.drop_last())->Ok_0;
    let event = events.last();
    let existing = member_from(before, event.name, 0);
    let value = event_hooks_installed(existing, event.has_matcher)->Ok_0;
    lemma_with_member(before, event.name, value, events[k].name);
    lemma_hook_entry_names_endpoint(event.has_matcher);
    if events[k].name == event.name {
        match existing {
            Some(JsonValue::Array(items)) => {
                if !any_entry_names_endpoint(items) {
                    let more = items.push(hook_entry(event.has_matcher));
                    assert(entry_names_endpoint(more[items.len() as int]));
                }
            },
            Some(_) => {},
            None => {
                let one = seq![hook_entry(event.has_matcher)];
                assert(entry_names_endpoint(one[0]));
            },
        }
    } else {
        assert(events.drop_last()[k] == events[k]);
        lemma_installed_events_are_hooked(members, events.drop_last(), k);
    }
}

/// No entry that is kept names the endpoint, and every entry that does not
/// name it is kept.
pub proof fn lemma_entries_kept(items: Seq<JsonValue>)
    ensures
        !any_entry_names_endpoint(entries_kept(items)),
        forall|i: int|
            0 <= i < items.len() && !entry_names_endpoint(#[trigger] items[i]) ==> entries_kept(
                items,
            ).contains(items[i]),
    decreases items.len(),
{
    if items.len() > 0 {
        let rest = entries_kept(items.drop_last());
        lemma_entries_kept(items.drop_last());
        let kept = entries_kept(items);
        if any_entry_names_endpoint(kept) {
            let i = choose|i: int| 0 <= i < kept.len() && entry_names_endpoint(#[trigger] kept[i]);
            if i < rest.len() {
                assert(entry_names_endpoint(rest[i]));
            }
        }
        assert forall|i: int|
            0 <= i < items.len() && !entry_names_endpoint(#[trigger] items[i]) implies kept.contains(
            items[i],
        ) by {
            if i < items.len() - 1 {
                assert(items.drop_last()[i] == items[i]);
                let at = choose|at: int| 0 <= at < rest.len() && rest[at] == items[i];
                assert(kept[at] == items[i]);
            } else {
                assert(kept[kept.len() - 1] == items[i]);
            }
        }
    }
}

/// After uninstalling, no kind of event has an entry that names the
/// endpoint, and none is left with an empty array.
pub proof fn lemma_cleaned_hooks_name_no_endpoint(members: Seq<JsonMemberValue>)
    ensures
        forall|i: int|
            0 <= i < hooks_cleaned(members).len() ==> match (#[trigger] hooks_cleaned(
                members,
            )[i]).value {
                JsonValue::Array(items) => items.len() > 0 && !any_entry_names_endpoint(items),
                _ => true,
            },
    decreases members.len(),
{
    if members.len() > 0 {
        lemma_cleaned_hooks_name_no_endpoint(members.drop_last());
        let rest = hooks_cleaned(members.drop_last());
        match members.last().value {
            JsonValue::Array(items) => {
                lemma_entries_kept(items);
            },
            _ => {},
        }
        assert forall|i: int| 0 <= i < hooks_cleaned(members).len() implies match (
        #[trigger] hooks_cleaned(members)[i]).value {
            JsonValue::Array(items) => items.len() > 0 && !any_entry_names_endpoint(items),
            _ => true,
        } by {
            if i < rest.len() {
                assert(hooks_cleaned(members)[i] == rest[i]);
            }
        }
    }
}

} // verus!
