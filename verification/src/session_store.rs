//! Reconstruction of sessions and summaries from the records of a log.

use vstd::prelude::*;
use crate::content::{
    extract_text_content, extract_thinking_blocks, extract_tool_results, extract_tool_use_blocks,
    text_content, thinking_blocks, tool_results, tool_use_blocks,
};
use crate::project_path::{decode_project_path, decoded_path, path_set};
use crate::session_laws::{
    lemma_linked_session_is_sound, lemma_messages_are_material, lemma_session_of_is_sound,
    session_is_sound,
};
use crate::session_types::{
    ProcessedMessage, ProcessedMessageView, RawEntry, RawEntryView, Session, SessionSummary,
    SessionSummaryView, SessionView, SubagentSession, SubagentSessionView, ToolResultBlock,
    ToolResultBlockView, ToolUseBlock, ToolUseBlockView,
};
use crate::string_map::StringMap;
use crate::text::{
    is_blank, lemma_trimmed, prefix_chars, str_ends_with, str_eq, str_is_blank, str_starts_with,
    str_trim, take_chars, trimmed,
};
use crate::timestamps::{parse_timestamp, timestamp_millis, TimeSpan};

verus! {

// ---------------------------------------------------------------------------
// Lines and records
// ---------------------------------------------------------------------------

/// The text of the record on a line of a log: the line without the
/// whitespace around it, or `None` for a blank line, which holds no record.
pub open spec fn record_text_of(line: Seq<char>) -> Option<Seq<char>> {
    if is_blank(line) {
        None
    } else {
        Some(trimmed(line))
    }
}

/// Frames the record on a line of a log.
pub fn record_text(line: &str) -> (r: Option<String>)
    ensures
        r.deep_view() == record_text_of(line@),
{
    let text = str_trim(line);
    proof {
        lemma_trimmed(line@);
    }
    if text.as_str().is_empty() {
        None
    } else {
        Some(text)
    }
}

// ---------------------------------------------------------------------------
// Records and messages
// ---------------------------------------------------------------------------

pub open spec fn is_user_record(entry: RawEntryView) -> bool {
    entry.entry_type == Some("user"@)
}

pub open spec fn is_assistant_record(entry: RawEntryView) -> bool {
    entry.entry_type == Some("assistant"@)
}

/// Only `user` and `assistant` records carry messages and metadata.
pub open spec fn is_message_record(entry: RawEntryView) -> bool {
    is_user_record(entry) || is_assistant_record(entry)
}

pub open spec fn text_or_empty(text: Option<Seq<char>>) -> Seq<char> {
    match text {
        Some(t) => t,
        None => Seq::empty(),
    }
}

/// The message that a record's payload decodes to; `None` for a record
/// without a payload.
pub open spec fn processed(entry: RawEntryView) -> Option<ProcessedMessageView> {
    match entry.message {
        Some(message) => Some(
            ProcessedMessageView {
                uuid: text_or_empty(entry.uuid),
                parent_uuid: match entry.parent_uuid {
                    Some(parent) => parent.as_str(),
                    None => None,
                },
                timestamp: text_or_empty(entry.timestamp),
                role: message.role,
                text_content: text_content(message.content),
                thinking_blocks: thinking_blocks(message.content),
                tool_use_blocks: tool_use_blocks(message.content),
                tool_results: tool_results(message.content),
                model: message.model,
            },
        ),
        None => None,
    }
}

/// A message is worth keeping when it has text that is not blank, or a
/// thinking block, or a tool invocation.
pub open spec fn is_material(message: ProcessedMessageView) -> bool {
    !is_blank(message.text_content) || message.tool_use_blocks.len() > 0
        || message.thinking_blocks.len() > 0
}

/// The message that a record contributes to a session, before tool results
/// are merged in.
pub open spec fn contributed(entry: RawEntryView) -> Option<ProcessedMessageView> {
    if is_message_record(entry) {
        match processed(entry) {
            Some(message) => if is_material(message) {
                Some(message)
            } else {
                None
            },
            None => None,
        }
    } else {
        None
    }
}

/// The messages that the records contribute, in order.
pub open spec fn materialized(entries: Seq<RawEntryView>) -> Seq<ProcessedMessageView>
    decreases entries.len(),
{
    if entries.len() == 0 {
        Seq::empty()
    } else {
        let rest = materialized(entries.drop_last());
        match contributed(entries.last()) {
            Some(message) => rest.push(message),
            None => rest,
        }
    }
}

/// The tool results that `user` records carry, by invocation id. Of two
/// results for one id the later stands.
pub open spec fn pending_results(entries: Seq<RawEntryView>) -> Map<Seq<char>, ToolResultBlockView>
    decreases entries.len(),
{
    if entries.len() == 0 {
        Map::empty()
    } else {
        let rest = pending_results(entries.drop_last());
        let entry = entries.last();
        if is_user_record(entry) && entry.message is Some {
            rest.union_prefer_right(tool_results(entry.message->0.content))
        } else {
            rest
        }
    }
}

/// The ids of the given tool invocations.
pub open spec fn tool_use_ids(uses: Seq<ToolUseBlockView>) -> Set<Seq<char>> {
    Set::new(|id: Seq<char>| exists|i: int| 0 <= i < uses.len() && #[trigger] uses[i].id == id)
}

/// `message` with the pending results of its own tool invocations merged
/// in. A pending result replaces a result that the message already had
/// under the same id.
pub open spec fn merged(
    message: ProcessedMessageView,
    pending: Map<Seq<char>, ToolResultBlockView>,
) -> ProcessedMessageView {
    ProcessedMessageView {
        tool_results: message.tool_results.union_prefer_right(
            pending.restrict(tool_use_ids(message.tool_use_blocks)),
        ),
        ..message
    }
}

/// The messages of a log: those that its records contribute, each with the
/// results of its tool invocations, wherever in the log those results stand.
pub open spec fn reconstructed(entries: Seq<RawEntryView>) -> Seq<ProcessedMessageView> {
    let messages = materialized(entries);
    let pending = pending_results(entries);
    Seq::new(messages.len(), |i: int| merged(messages[i], pending))
}

// ---------------------------------------------------------------------------
// Executable reconstruction
// ---------------------------------------------------------------------------

fn opt_text_is(text: &Option<String>, expected: &str) -> (r: bool)
    ensures
        r == (text.deep_view() == Some(expected@)),
{
    match text {
        Some(t) => str_eq(t.as_str(), expected),
        None => false,
    }
}

fn clone_or_empty(text: &Option<String>) -> (r: String)
    ensures
        r@ == text_or_empty(text.deep_view()),
{
    match text {
        Some(t) => t.clone(),
        None => String::new(),
    }
}

fn clone_opt(text: &Option<String>) -> (r: Option<String>)
    ensures
        r.deep_view() == text.deep_view(),
{
    match text {
        Some(t) => Some(t.clone()),
        None => None,
    }
}

/// Decodes the payload of a record into a message.
pub fn process_message(entry: &RawEntry) -> (r: Option<ProcessedMessage>)
    ensures
        r.deep_view() == processed(entry@),
{
    match &entry.message {
        Some(message) => {
            let content = &message.content;
            let parent_uuid = match &entry.parent_uuid {
                Some(parent) => match parent.as_str() {
                    Some(s) => Some(s.clone()),
                    None => None,
                },
                None => None,
            };
            Some(
                ProcessedMessage {
                    uuid: clone_or_empty(&entry.uuid),
                    parent_uuid,
                    timestamp: clone_or_empty(&entry.timestamp),
                    role: message.role.clone(),
                    text_content: extract_text_content(content),
                    thinking_blocks: extract_thinking_blocks(content),
                    tool_use_blocks: extract_tool_use_blocks(content),
                    tool_results: extract_tool_results(content),
                    model: clone_opt(&message.model),
                },
            )
        },
        None => None,
    }
}

/// Whether a message is worth keeping.
pub fn message_is_material(message: &ProcessedMessage) -> (r: bool)
    ensures
        r == is_material(message@),
{
    !str_is_blank(message.text_content.as_str()) || message.tool_use_blocks.len() > 0
        || message.thinking_blocks.len() > 0
}

/// Merges into `message` the pending results of its own tool invocations.
pub fn merge_tool_results(message: ProcessedMessage, pending: &StringMap<ToolResultBlock>) -> (r:
    ProcessedMessage)
    ensures
        r@ == merged(message@, pending@),
{
    let ghost before = message@;
    let ProcessedMessage {
        uuid,
        parent_uuid,
        timestamp,
        role,
        text_content,
        thinking_blocks,
        tool_use_blocks,
        tool_results,
        model,
    } = message;
    let mut results = tool_results;
    let ghost uses = tool_use_blocks.deep_view();
    let mut j: usize = 0;
    assert(results@ =~= before.tool_results.union_prefer_right(
        pending@.restrict(tool_use_ids(uses.take(0))),
    ));
    while j < tool_use_blocks.len()
        invariant
            0 <= j <= tool_use_blocks.len(),
            uses == tool_use_blocks.deep_view(),
            results@ == before.tool_results.union_prefer_right(
                pending@.restrict(tool_use_ids(uses.take(j as int))),
            ),
        decreases tool_use_blocks.len() - j,
    {
        let id = &tool_use_blocks[j].id;
        let ghost seen = tool_use_ids(uses.take(j as int));
        let ghost more = tool_use_ids(uses.take(j + 1));
        proof {
            assert(uses[j as int].id == id@);
            assert forall|k: Seq<char>| more.contains(k) <==> (seen.contains(k) || k == id@) by {
                if more.contains(k) {
                    let i = choose|i: int|
                        0 <= i < uses.take(j + 1).len() && #[trigger] uses.take(j + 1)[i].id == k;
                    if i < j {
                        assert(uses.take(j as int)[i].id == k);
                    }
                }
                if seen.contains(k) {
                    let i = choose|i: int|
                        0 <= i < uses.take(j as int).len() && #[trigger] uses.take(j as int)[i].id
                            == k;
                    assert(uses.take(j + 1)[i].id == k);
                }
                if k == id@ {
                    assert(uses.take(j + 1)[j as int].id == k);
                }
            }
        }
        match pending.get(id.as_str()) {
            Some(result) => {
                results.insert(id.clone(), result.clone());
            },
            None => {},
        }
        assert(results@ =~= before.tool_results.union_prefer_right(pending@.restrict(more)));
        j = j + 1;
    }
    assert(uses.take(tool_use_blocks.len() as int) =~= uses);
    ProcessedMessage {
        uuid,
        parent_uuid,
        timestamp,
        role,
        text_content,
        thinking_blocks,
        tool_use_blocks,
        tool_results: results,
        model,
    }
}

/// Adds the entries of `from` to `into`; an entry of `from` replaces one of
/// `into` with the same key.
fn add_results(into: &mut StringMap<ToolResultBlock>, from: &StringMap<ToolResultBlock>)
    ensures
        final(into)@ == old(into)@.union_prefer_right(from@),
{
    let n = from.len();
    let ghost start = into@;
    let mut i: usize = 0;
    proof {
        from.lemma_entries();
        assert(into@ =~= start.union_prefer_right(from.prefix(0)));
    }
    while i < n
        invariant
            0 <= i <= n,
            n == from.keys().len(),
            into@ == start.union_prefer_right(from.prefix(i as int)),
        decreases n - i,
    {
        let key = from.key_at(i);
        let value = from.value_at(i);
        into.insert(key.clone(), value.clone());
        assert(into@ =~= start.union_prefer_right(from.prefix(i + 1)));
        i = i + 1;
    }
    proof {
        from.lemma_entries();
    }
}

/// Reconstructs the messages of a subagent's log. The same rules hold as
/// for a session's own log, tool results included; subagents of the subagent
/// are not followed.
pub fn parse_subagent_file(entries: &Vec<RawEntry>) -> (r: Vec<ProcessedMessage>)
    ensures
        r.deep_view() == reconstructed(entries.deep_view()),
        forall|i: int| 0 <= i < r.len() ==> is_material(#[trigger] r.deep_view()[i]),
{
    proof {
        lemma_messages_are_material(entries.deep_view());
    }
    let ghost model = entries.deep_view();
    let mut messages: Vec<ProcessedMessage> = Vec::new();
    let mut pending: StringMap<ToolResultBlock> = StringMap::new();
    let mut i: usize = 0;
    proof {
        assert(model.take(0) =~= Seq::<RawEntryView>::empty());
        assert(messages.deep_view() =~= Seq::<ProcessedMessageView>::empty());
    }
    while i < entries.len()
        invariant
            0 <= i <= entries.len(),
            model == entries.deep_view(),
            messages.deep_view() == materialized(model.take(i as int)),
            pending@ == pending_results(model.take(i as int)),
        decreases entries.len() - i,
    {
        let entry = &entries[i];
        proof {
            assert(model.take(i + 1).drop_last() =~= model.take(i as int));
            assert(model.take(i + 1).last() == entry@);
        }
        let user = opt_text_is(&entry.entry_type, "user");
        if user || opt_text_is(&entry.entry_type, "assistant") {
            match process_message(entry) {
                Some(message) => {
                    if user {
                        add_results(&mut pending, &message.tool_results);
                    }
                    if message_is_material(&message) {
                        let ghost before = messages.deep_view();
                        let ghost added = message@;
                        messages.push(message);
                        assert(messages.deep_view() =~= before.push(added));
                    }
                },
                None => {},
            }
        }
        i = i + 1;
    }
    assert(model.take(entries.len() as int) =~= model);
    let ghost unmerged = messages.deep_view();
    let mut out: Vec<ProcessedMessage> = Vec::new();
    assert(out.deep_view() =~= Seq::<ProcessedMessageView>::empty());
    for message in it: messages
        invariant
            it.seq().len() == unmerged.len(),
            forall|k: int| 0 <= k < unmerged.len() ==> (#[trigger] it.seq()[k])@ == unmerged[k],
            out.len() == it.index(),
            forall|k: int| 0 <= k < out.len() ==> (#[trigger] out@[k])@ == merged(unmerged[k], pending@),
    {
        let one = merge_tool_results(message, &pending);
        out.push(one);
    }
    assert(out.deep_view() =~= reconstructed(model));
    out
}

// ---------------------------------------------------------------------------
// A log and what it says of its session
// ---------------------------------------------------------------------------

/// The records of one session log, with the names under which it was found.
#[derive(Debug, Clone)]
pub struct SessionLog {
    /// The session id: the log's file name without its extension.
    pub session_id: String,
    /// The name of the project directory that holds the log.
    pub project_encoded: String,
    pub file_path: String,
    /// The records that could be read from the log, in order.
    pub entries: Vec<RawEntry>,
}

pub struct SessionLogView {
    pub session_id: Seq<char>,
    pub project_encoded: Seq<char>,
    pub file_path: Seq<char>,
    pub entries: Seq<RawEntryView>,
}

impl View for SessionLog {
    type V = SessionLogView;

    open spec fn view(&self) -> SessionLogView {
        SessionLogView {
            session_id: self.session_id@,
            project_encoded: self.project_encoded@,
            file_path: self.file_path@,
            entries: self.entries.deep_view(),
        }
    }
}

/// The first `user` or `assistant` record. Session metadata is taken from it
/// alone.
pub open spec fn first_message_record(entries: Seq<RawEntryView>) -> Option<RawEntryView>
    decreases entries.len(),
{
    if entries.len() == 0 {
        None
    } else {
        match first_message_record(entries.drop_last()) {
            Some(entry) => Some(entry),
            None => if is_message_record(entries.last()) {
                Some(entries.last())
            } else {
                None
            },
        }
    }
}

/// The number of `user` and `assistant` records.
pub open spec fn message_record_count(entries: Seq<RawEntryView>) -> nat
    decreases entries.len(),
{
    if entries.len() == 0 {
        0
    } else {
        message_record_count(entries.drop_last()) + if is_message_record(entries.last()) {
            1nat
        } else {
            0nat
        }
    }
}

/// The instant of a record, where it is a `user` or `assistant` record with
/// a timestamp that can be read.
pub open spec fn record_stamp(entry: RawEntryView) -> Option<i64> {
    if is_message_record(entry) {
        match entry.timestamp {
            Some(text) => timestamp_millis(text),
            None => None,
        }
    } else {
        None
    }
}

/// The earliest and latest instant among the records.
pub open spec fn session_span(entries: Seq<RawEntryView>) -> TimeSpan
    decreases entries.len(),
{
    if entries.len() == 0 {
        TimeSpan::spec_empty()
    } else {
        session_span(entries.drop_last()).spec_observe(record_stamp(entries.last()))
    }
}

/// The length to which a summary cuts the first message.
pub open spec fn snippet_length() -> nat {
    200
}

/// What a record offers as a summary's first message: the start of its
/// text, for a `user` record with a payload.
pub open spec fn snippet_of(entry: RawEntryView) -> Seq<char> {
    if is_user_record(entry) && entry.message is Some {
        prefix_chars(text_content(entry.message->0.content), snippet_length())
    } else {
        Seq::empty()
    }
}

/// The first snippet that is not empty, or the empty text where there is none.
pub open spec fn first_snippet(entries: Seq<RawEntryView>) -> Seq<char>
    decreases entries.len(),
{
    if entries.len() == 0 {
        Seq::empty()
    } else {
        let earlier = first_snippet(entries.drop_last());
        if earlier.len() > 0 {
            earlier
        } else {
            snippet_of(entries.last())
        }
    }
}

/// The model that a record names: that of an `assistant` record's payload.
pub open spec fn model_of(entry: RawEntryView) -> Option<Seq<char>> {
    if is_assistant_record(entry) && entry.message is Some {
        entry.message->0.model
    } else {
        None
    }
}

/// The first model named by any record.
pub open spec fn first_model(entries: Seq<RawEntryView>) -> Option<Seq<char>>
    decreases entries.len(),
{
    if entries.len() == 0 {
        None
    } else {
        match first_model(entries.drop_last()) {
            Some(model) => Some(model),
            None => model_of(entries.last()),
        }
    }
}

pub open spec fn branch_of(first: Option<RawEntryView>) -> Option<Seq<char>> {
    match first {
        Some(entry) => entry.git_branch,
        None => None,
    }
}

/// The summary of a log whose project decodes to `project`; `None` for a
/// log without a `user` or `assistant` record.
pub open spec fn summary_of(log: SessionLogView, project: Seq<char>) -> Option<SessionSummaryView> {
    if message_record_count(log.entries) == 0 {
        None
    } else {
        Some(
            SessionSummaryView {
                id: log.session_id,
                project,
                project_encoded: log.project_encoded,
                first_message: first_snippet(log.entries),
                message_count: message_record_count(log.entries),
                start_time: session_span(log.entries).start,
                end_time: session_span(log.entries).end,
                git_branch: branch_of(first_message_record(log.entries)),
                model: first_model(log.entries),
                file_path: log.file_path,
            },
        )
    }
}

/// The subagent and the invocation that a `progress` record links.
pub open spec fn agent_link_of(entry: RawEntryView) -> Option<(Seq<char>, Seq<char>)> {
    if entry.entry_type == Some("progress"@) && entry.data is Some && entry.parent_tool_use_id
        is Some && entry.data->0.agent_id is Some {
        Some((entry.data->0.agent_id->0, entry.parent_tool_use_id->0))
    } else {
        None
    }
}

/// For each subagent that a `progress` record names, the id of the tool
/// invocation that spawned it. Of two records for one subagent the later
/// stands.
pub open spec fn agent_links(entries: Seq<RawEntryView>) -> Map<Seq<char>, Seq<char>>
    decreases entries.len(),
{
    if entries.len() == 0 {
        Map::empty()
    } else {
        let rest = agent_links(entries.drop_last());
        match agent_link_of(entries.last()) {
            Some(link) => rest.insert(link.0, link.1),
            None => rest,
        }
    }
}

/// The session of a log whose project decodes to `project`, without
/// subagents; `None` for a log that yields no message.
pub open spec fn session_of(log: SessionLogView, project: Seq<char>) -> Option<SessionView> {
    if reconstructed(log.entries).len() == 0 {
        None
    } else {
        let first = first_message_record(log.entries);
        Some(
            SessionView {
                id: log.session_id,
                project,
                project_encoded: log.project_encoded,
                git_branch: branch_of(first),
                cwd: match first {
                    Some(entry) => text_or_empty(entry.cwd),
                    None => Seq::empty(),
                },
                version: match first {
                    Some(entry) => text_or_empty(entry.version),
                    None => Seq::empty(),
                },
                start_time: session_span(log.entries).start,
                end_time: session_span(log.entries).end,
                messages: reconstructed(log.entries),
                file_path: log.file_path,
                subagents: Map::empty(),
                subagent_ids: Seq::empty(),
            },
        )
    }
}

// ---------------------------------------------------------------------------
// The two passes over a log
// ---------------------------------------------------------------------------

fn entry_is_message(entry: &RawEntry) -> (r: bool)
    ensures
        r == is_message_record(entry@),
{
    opt_text_is(&entry.entry_type, "user") || opt_text_is(&entry.entry_type, "assistant")
}

fn entry_stamp(entry: &RawEntry) -> (r: Option<i64>)
    ensures
        r == record_stamp(entry@),
{
    if entry_is_message(entry) {
        match &entry.timestamp {
            Some(text) => parse_timestamp(text.as_str()),
            None => None,
        }
    } else {
        None
    }
}

/// Builds the summary of a session from its log: the cheap pass, which reads
/// metadata and the first message only. `existing` lists the paths that
/// exist, for the decoding of the project name.
pub fn get_session_summary(log: &SessionLog, existing: &Vec<String>) -> (r: Option<SessionSummary>)
    ensures
        r.deep_view() == summary_of(
            log@,
            decoded_path(path_set(existing.deep_view()), log.project_encoded@),
        ),
{
    let entries = &log.entries;
    let ghost model = entries.deep_view();
    let mut first_message = String::new();
    let mut message_count: usize = 0;
    let mut span = TimeSpan::empty();
    let mut git_branch: Option<String> = None;
    let mut model_name: Option<String> = None;
    let mut i: usize = 0;
    proof {
        assert(model.take(0) =~= Seq::<RawEntryView>::empty());
    }
    while i < entries.len()
        invariant
            0 <= i <= entries.len(),
            model == entries.deep_view(),
            message_count == message_record_count(model.take(i as int)),
            message_count <= i,
            first_message@ == first_snippet(model.take(i as int)),
            span == session_span(model.take(i as int)),
            git_branch.deep_view() == branch_of(first_message_record(model.take(i as int))),
            (message_count == 0) == (first_message_record(model.take(i as int)) is None),
            model_name.deep_view() == first_model(model.take(i as int)),
        decreases entries.len() - i,
    {
        let entry = &entries[i];
        proof {
            assert(model.take(i + 1).drop_last() =~= model.take(i as int));
            assert(model.take(i + 1).last() == entry@);
        }
        let user = opt_text_is(&entry.entry_type, "user");
        let assistant = opt_text_is(&entry.entry_type, "assistant");
        if user || assistant {
            if message_count == 0 {
                git_branch = clone_opt(&entry.git_branch);
            }
            message_count = message_count + 1;
            if first_message.as_str().is_empty() && user {
                match &entry.message {
                    Some(message) => {
                        let text = extract_text_content(&message.content);
                        first_message = take_chars(text.as_str(), 200);
                    },
                    None => {},
                }
            }
            if model_name.is_none() && assistant {
                match &entry.message {
                    Some(message) => {
                        model_name = clone_opt(&message.model);
                    },
                    None => {},
                }
            }
        }
        span = span.observe(entry_stamp(entry));
        i = i + 1;
    }
    assert(model.take(entries.len() as int) =~= model);
    if message_count == 0 {
        return None;
    }
    let project = decode_project_path(log.project_encoded.as_str(), existing);
    Some(
        SessionSummary {
            id: log.session_id.clone(),
            project,
            project_encoded: log.project_encoded.clone(),
            first_message,
            message_count,
            start_time: span.start,
            end_time: span.end,
            git_branch,
            model: model_name,
            file_path: log.file_path.clone(),
        },
    )
}

fn entry_link(entry: &RawEntry) -> (r: Option<(String, String)>)
    ensures
        match r {
            Some(link) => agent_link_of(entry@) == Some((link.0@, link.1@)),
            None => agent_link_of(entry@) is None,
        },
{
    if !opt_text_is(&entry.entry_type, "progress") {
        return None;
    }
    match (&entry.data, &entry.parent_tool_use_id) {
        (Some(data), Some(parent)) => match &data.agent_id {
            Some(agent) => Some((agent.clone(), parent.clone())),
            None => None,
        },
        _ => None,
    }
}

/// Reconstructs a session from its log: the full pass. Beside the session
/// it returns, for each subagent that the log names, the id of the tool
/// invocation that spawned it. `existing` lists the paths that exist, for the
/// decoding of the project name.
pub fn parse_session_file(log: &SessionLog, existing: &Vec<String>) -> (r: Option<
    (Session, StringMap<String>),
>)
    ensures
        match r {
            Some(pair) => session_of(
                log@,
                decoded_path(path_set(existing.deep_view()), log.project_encoded@),
            ) == Some(pair.0@) && pair.1@ == agent_links(log.entries.deep_view()),
            None => session_of(
                log@,
                decoded_path(path_set(existing.deep_view()), log.project_encoded@),
            ) is None,
        },
        r matches Some(pair) ==> session_is_sound(pair.0@),
{
    proof {
        lemma_session_of_is_sound(
            log@,
            decoded_path(path_set(existing.deep_view()), log.project_encoded@),
        );
    }
    let entries = &log.entries;
    let ghost model = entries.deep_view();
    let mut cwd = String::new();
    let mut version = String::new();
    let mut git_branch: Option<String> = None;
    let mut seen_message = false;
    let mut span = TimeSpan::empty();
    let mut links: StringMap<String> = StringMap::new();
    let mut i: usize = 0;
    proof {
        assert(model.take(0) =~= Seq::<RawEntryView>::empty());
    }
    while i < entries.len()
        invariant
            0 <= i <= entries.len(),
            model == entries.deep_view(),
            seen_message == (first_message_record(model.take(i as int)) is Some),
            git_branch.deep_view() == branch_of(first_message_record(model.take(i as int))),
            cwd@ == match first_message_record(model.take(i as int)) {
                Some(entry) => text_or_empty(entry.cwd),
                None => Seq::empty(),
            },
            version@ == match first_message_record(model.take(i as int)) {
                Some(entry) => text_or_empty(entry.version),
                None => Seq::empty(),
            },
            span == session_span(model.take(i as int)),
            links@ == agent_links(model.take(i as int)),
        decreases entries.len() - i,
    {
        let entry = &entries[i];
        proof {
            assert(model.take(i + 1).drop_last() =~= model.take(i as int));
            assert(model.take(i + 1).last() == entry@);
        }
        match entry_link(entry) {
            Some(link) => {
                links.insert(link.0, link.1);
            },
            None => {},
        }
        if entry_is_message(entry) && !seen_message {
            seen_message = true;
            cwd = clone_or_empty(&entry.cwd);
            version = clone_or_empty(&entry.version);
            git_branch = clone_opt(&entry.git_branch);
        }
        span = span.observe(entry_stamp(entry));
        i = i + 1;
    }
    assert(model.take(entries.len() as int) =~= model);
    let messages = parse_subagent_file(entries);
    if messages.len() == 0 {
        return None;
    }
    let project = decode_project_path(log.project_encoded.as_str(), existing);
    let session = Session {
        id: log.session_id.clone(),
        project,
        project_encoded: log.project_encoded.clone(),
        git_branch,
        cwd,
        version,
        start_time: span.start,
        end_time: span.end,
        messages,
        file_path: log.file_path.clone(),
        subagents: StringMap::new(),
    };
    Some((session, links))
}

// ---------------------------------------------------------------------------
// Log files and their names
// ---------------------------------------------------------------------------

/// The file of a session's own log has the log extension and is not named
/// like a subagent's.
pub open spec fn is_session_log_name(name: Seq<char>) -> bool {
    ".jsonl"@.is_suffix_of(name) && !"agent-"@.is_prefix_of(name)
}

/// The file of a subagent's log is named `agent-`, the agent id, and the log
/// extension.
pub open spec fn is_subagent_log_name(name: Seq<char>) -> bool {
    "agent-"@.is_prefix_of(name) && ".jsonl"@.is_suffix_of(name)
}

/// The agent id in the name of a subagent's log, the extension taken off:
/// what follows `agent-`, or the whole name where it does not start so.
pub open spec fn agent_id_of_stem(stem: Seq<char>) -> Seq<char> {
    if "agent-"@.is_prefix_of(stem) {
        stem.skip("agent-"@.len() as int)
    } else {
        stem
    }
}

pub fn is_session_file_name(name: &str) -> (r: bool)
    ensures
        r == is_session_log_name(name@),
{
    str_ends_with(name, ".jsonl") && !str_starts_with(name, "agent-")
}

pub fn is_subagent_file_name(name: &str) -> (r: bool)
    ensures
        r == is_subagent_log_name(name@),
{
    str_starts_with(name, "agent-") && str_ends_with(name, ".jsonl")
}

pub fn agent_id_from_stem(stem: &str) -> (r: String)
    ensures
        r@ == agent_id_of_stem(stem@),
{
    if str_starts_with(stem, "agent-") {
        let prefix_len = "agent-".unicode_len();
        let len = stem.unicode_len();
        stem.substring_char(prefix_len, len).to_owned()
    } else {
        stem.to_owned()
    }
}

// ---------------------------------------------------------------------------
// Subagents
// ---------------------------------------------------------------------------

/// The records of one subagent log, with the name under which it was found.
#[derive(Debug, Clone)]
pub struct SubagentLog {
    /// The log's file name without its extension.
    pub file_stem: String,
    /// The records that could be read from the log, in order.
    pub entries: Vec<RawEntry>,
}

pub struct SubagentLogView {
    pub file_stem: Seq<char>,
    pub entries: Seq<RawEntryView>,
}

impl View for SubagentLog {
    type V = SubagentLogView;

    open spec fn view(&self) -> SubagentLogView {
        SubagentLogView { file_stem: self.file_stem@, entries: self.entries.deep_view() }
    }
}

impl DeepView for SubagentLog {
    type V = SubagentLogView;

    open spec fn deep_view(&self) -> SubagentLogView {
        self@
    }
}

/// The subagent session that a log gives: `None` for a log whose agent no
/// `progress` record linked to a tool invocation, and for a log that yields
/// no message.
pub open spec fn subagent_of(links: Map<Seq<char>, Seq<char>>, log: SubagentLogView) -> Option<
    SubagentSessionView,
> {
    let agent_id = agent_id_of_stem(log.file_stem);
    let messages = reconstructed(log.entries);
    if links.contains_key(agent_id) && messages.len() > 0 {
        Some(
            SubagentSessionView {
                agent_id,
                parent_tool_use_id: links[agent_id],
                messages,
                message_count: messages.len(),
            },
        )
    } else {
        None
    }
}

/// The subagent sessions that the logs give, by agent id. Of two logs for
/// one agent the later stands.
pub open spec fn attached(links: Map<Seq<char>, Seq<char>>, logs: Seq<SubagentLogView>) -> Map<
    Seq<char>,
    SubagentSessionView,
>
    decreases logs.len(),
{
    if logs.len() == 0 {
        Map::empty()
    } else {
        let rest = attached(links, logs.drop_last());
        match subagent_of(links, logs.last()) {
            Some(subagent) => rest.insert(subagent.agent_id, subagent),
            None => rest,
        }
    }
}

/// The agent ids of `attached`, each at the place of its first log.
pub open spec fn attached_ids(links: Map<Seq<char>, Seq<char>>, logs: Seq<SubagentLogView>) -> Seq<
    Seq<char>,
>
    decreases logs.len(),
{
    if logs.len() == 0 {
        Seq::empty()
    } else {
        let rest = attached_ids(links, logs.drop_last());
        match subagent_of(links, logs.last()) {
            Some(subagent) => if attached(links, logs.drop_last()).contains_key(subagent.agent_id) {
                rest
            } else {
                rest.push(subagent.agent_id)
            },
            None => rest,
        }
    }
}

/// The first agent at or after position `from` that the tool invocation
/// `tool_id` spawned.
pub open spec fn spawned_agent(
    ids: Seq<Seq<char>>,
    subagents: Map<Seq<char>, SubagentSessionView>,
    tool_id: Seq<char>,
    from: int,
) -> Option<Seq<char>>
    decreases ids.len() - from,
{
    if from < 0 || from >= ids.len() {
        None
    } else if subagents[ids[from]].parent_tool_use_id == tool_id {
        Some(ids[from])
    } else {
        spawned_agent(ids, subagents, tool_id, from + 1)
    }
}

/// A tool invocation, marked with the agent it spawned where there is one.
pub open spec fn annotated_use(
    tool_use: ToolUseBlockView,
    ids: Seq<Seq<char>>,
    subagents: Map<Seq<char>, SubagentSessionView>,
) -> ToolUseBlockView {
    match spawned_agent(ids, subagents, tool_use.id, 0) {
        Some(agent_id) => ToolUseBlockView { agent_id: Some(agent_id), ..tool_use },
        None => tool_use,
    }
}

pub open spec fn annotated_message(
    message: ProcessedMessageView,
    ids: Seq<Seq<char>>,
    subagents: Map<Seq<char>, SubagentSessionView>,
) -> ProcessedMessageView {
    ProcessedMessageView {
        tool_use_blocks: Seq::new(
            message.tool_use_blocks.len(),
            |i: int| annotated_use(message.tool_use_blocks[i], ids, subagents),
        ),
        ..message
    }
}

/// `session` with the subagents that `logs` give attached, and with each
/// tool invocation of its own messages marked with the agent it spawned.
/// The messages of the subagents are not marked.
pub open spec fn linked_session(
    session: SessionView,
    links: Map<Seq<char>, Seq<char>>,
    logs: Seq<SubagentLogView>,
) -> SessionView {
    let subagents = attached(links, logs);
    let ids = attached_ids(links, logs);
    SessionView {
        messages: Seq::new(
            session.messages.len(),
            |i: int| annotated_message(session.messages[i], ids, subagents),
        ),
        subagents,
        subagent_ids: ids,
        ..session
    }
}

fn find_spawned(subagents: &StringMap<SubagentSession>, tool_id: &str) -> (r: Option<String>)
    ensures
        r.deep_view() == spawned_agent(subagents.keys(), subagents@, tool_id@, 0),
{
    let n = subagents.len();
    let mut k: usize = 0;
    while k < n
        invariant
            0 <= k <= n,
            n == subagents.keys().len(),
            spawned_agent(subagents.keys(), subagents@, tool_id@, 0) == spawned_agent(
                subagents.keys(),
                subagents@,
                tool_id@,
                k as int,
            ),
        decreases n - k,
    {
        let subagent = subagents.value_at(k);
        if str_eq(subagent.parent_tool_use_id.as_str(), tool_id) {
            return Some(subagents.key_at(k).clone());
        }
        k = k + 1;
    }
    None
}

fn annotate_message(message: ProcessedMessage, subagents: &StringMap<SubagentSession>) -> (r:
    ProcessedMessage)
    ensures
        r@ == annotated_message(message@, subagents.keys(), subagents@),
{
    let ProcessedMessage {
        uuid,
        parent_uuid,
        timestamp,
        role,
        text_content,
        thinking_blocks,
        tool_use_blocks,
        tool_results,
        model,
    } = message;
    let ghost uses = tool_use_blocks.deep_view();
    let mut marked: Vec<ToolUseBlock> = Vec::new();
    for tool_use in it: tool_use_blocks
        invariant
            it.seq().len() == uses.len(),
            forall|k: int| 0 <= k < uses.len() ==> (#[trigger] it.seq()[k])@ == uses[k],
            marked.len() == it.index(),
            forall|k: int|
                0 <= k < marked.len() ==> (#[trigger] marked@[k])@ == annotated_use(
                    uses[k],
                    subagents.keys(),
                    subagents@,
                ),
    {
        let ToolUseBlock { id, name, input, agent_id } = tool_use;
        let agent_id = match find_spawned(subagents, id.as_str()) {
            Some(agent) => Some(agent),
            None => agent_id,
        };
        marked.push(ToolUseBlock { id, name, input, agent_id });
    }
    let r = ProcessedMessage {
        uuid,
        parent_uuid,
        timestamp,
        role,
        text_content,
        thinking_blocks,
        tool_use_blocks: marked,
        tool_results,
        model,
    };
    assert(r@.tool_use_blocks =~= Seq::new(
        uses.len(),
        |i: int| annotated_use(uses[i], subagents.keys(), subagents@),
    ));
    r
}

/// Attaches to `session` the subagents whose logs are given, and marks the
/// tool invocations of its messages with the agents they spawned. `links`
/// tells for each agent the invocation that spawned it; a log whose agent it
/// lacks is passed over.
pub fn link_subagents(session: Session, links: &StringMap<String>, logs: &Vec<SubagentLog>) -> (r:
    Session)
    ensures
        r@ == linked_session(session@, links@, logs.deep_view()),
        session_is_sound(session@) ==> session_is_sound(r@),
{
    proof {
        if session_is_sound(session@) {
            lemma_linked_session_is_sound(session@, links@, logs.deep_view());
        }
    }
    let ghost before = session@;
    let ghost model = logs.deep_view();
    let mut subagents: StringMap<SubagentSession> = StringMap::new();
    let mut i: usize = 0;
    proof {
        assert(model.take(0) =~= Seq::<SubagentLogView>::empty());
    }
    while i < logs.len()
        invariant
            0 <= i <= logs.len(),
            model == logs.deep_view(),
            subagents@ == attached(links@, model.take(i as int)),
            subagents.keys() == attached_ids(links@, model.take(i as int)),
        decreases logs.len() - i,
    {
        let log = &logs[i];
        proof {
            assert(model.take(i + 1).drop_last() =~= model.take(i as int));
            assert(model.take(i + 1).last() == log@);
        }
        let agent_id = agent_id_from_stem(log.file_stem.as_str());
        match links.get(agent_id.as_str()) {
            Some(parent) => {
                let messages = parse_subagent_file(&log.entries);
                if messages.len() > 0 {
                    let message_count = messages.len();
                    let subagent = SubagentSession {
                        agent_id: agent_id.clone(),
                        parent_tool_use_id: parent.clone(),
                        messages,
                        message_count,
                    };
                    subagents.insert(agent_id, subagent);
                }
            },
            None => {},
        }
        i = i + 1;
    }
    assert(model.take(logs.len() as int) =~= model);
    let Session {
        id,
        project,
        project_encoded,
        git_branch,
        cwd,
        version,
        start_time,
        end_time,
        messages,
        file_path,
        subagents: _,
    } = session;
    let ghost unmarked = messages.deep_view();
    let mut marked: Vec<ProcessedMessage> = Vec::new();
    for message in it: messages
        invariant
            it.seq().len() == unmarked.len(),
            forall|k: int| 0 <= k < unmarked.len() ==> (#[trigger] it.seq()[k])@ == unmarked[k],
            marked.len() == it.index(),
            forall|k: int|
                0 <= k < marked.len() ==> (#[trigger] marked@[k])@ == annotated_message(
                    unmarked[k],
                    subagents.keys(),
                    subagents@,
                ),
    {
        let one = annotate_message(message, &subagents);
        marked.push(one);
    }
    let r = Session {
        id,
        project,
        project_encoded,
        git_branch,
        cwd,
        version,
        start_time,
        end_time,
        messages: marked,
        file_path,
        subagents,
    };
    assert(r@.messages =~= linked_session(before, links@, model).messages);
    r
}

/// Reconstructs a session in full: its own log, and the logs of the
/// subagents that it spawned. `None` for a log that yields no message.
pub fn get_session(log: &SessionLog, existing: &Vec<String>, subagent_logs: &Vec<SubagentLog>) -> (r:
    Option<Session>)
    ensures
        r.deep_view() == match session_of(
            log@,
            decoded_path(path_set(existing.deep_view()), log.project_encoded@),
        ) {
            Some(session) => Some(
                linked_session(session, agent_links(log.entries.deep_view()), subagent_logs.deep_view()),
            ),
            None => None,
        },
        r matches Some(session) ==> session_is_sound(session@),
{
    match parse_session_file(log, existing) {
        Some(pair) => {
            let (session, links) = pair;
            Some(link_subagents(session, &links, subagent_logs))
        },
        None => None,
    }
}

} // verus!
