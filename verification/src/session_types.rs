//! The records read from a session log and the values reconstructed from them.
//!
//! Every type has a view made of sequences, maps and plain values; the
//! contracts of the crate are stated over those views.

use vstd::prelude::*;
use crate::json::{Json, JsonValue};
use crate::string_map::StringMap;

verus! {

// ---------------------------------------------------------------------------
// Log records
// ---------------------------------------------------------------------------

/// The message payload of a log record.
#[derive(Debug, Clone, PartialEq, Eq)]
pub struct RawMessageContent {
    pub role: String,
    /// Either a plain string or an array of content blocks.
    pub content: Json,
    pub model: Option<String>,
}

pub struct RawMessageContentView {
    pub role: Seq<char>,
    pub content: JsonValue,
    pub model: Option<Seq<char>>,
}

impl View for RawMessageContent {
    type V = RawMessageContentView;

    open spec fn view(&self) -> RawMessageContentView {
        RawMessageContentView {
            role: self.role@,
            content: self.content@,
            model: self.model.deep_view(),
        }
    }
}

impl DeepView for RawMessageContent {
    type V = RawMessageContentView;

    open spec fn deep_view(&self) -> RawMessageContentView {
        self@
    }
}

/// The payload of a progress record.
#[derive(Debug, Clone, PartialEq, Eq)]
pub struct ProgressData {
    pub agent_id: Option<String>,
}

pub struct ProgressDataView {
    pub agent_id: Option<Seq<char>>,
}

impl View for ProgressData {
    type V = ProgressDataView;

    open spec fn view(&self) -> ProgressDataView {
        ProgressDataView { agent_id: self.agent_id.deep_view() }
    }
}

impl DeepView for ProgressData {
    type V = ProgressDataView;

    open spec fn deep_view(&self) -> ProgressDataView {
        self@
    }
}

/// One record of a session log.
#[derive(Debug, Clone, PartialEq, Eq)]
pub struct RawEntry {
    pub entry_type: Option<String>,
    pub uuid: Option<String>,
    pub parent_uuid: Option<Json>,
    pub timestamp: Option<String>,
    pub cwd: Option<String>,
    pub version: Option<String>,
    pub git_branch: Option<String>,
    pub message: Option<RawMessageContent>,
    pub data: Option<ProgressData>,
    pub parent_tool_use_id: Option<String>,
}

pub struct RawEntryView {
    pub entry_type: Option<Seq<char>>,
    pub uuid: Option<Seq<char>>,
    pub parent_uuid: Option<JsonValue>,
    pub timestamp: Option<Seq<char>>,
    pub cwd: Option<Seq<char>>,
    pub version: Option<Seq<char>>,
    pub git_branch: Option<Seq<char>>,
    pub message: Option<RawMessageContentView>,
    pub data: Option<ProgressDataView>,
    pub parent_tool_use_id: Option<Seq<char>>,
}

impl View for RawEntry {
    type V = RawEntryView;

    open spec fn view(&self) -> RawEntryView {
        RawEntryView {
            entry_type: self.entry_type.deep_view(),
            uuid: self.uuid.deep_view(),
            parent_uuid: self.parent_uuid.deep_view(),
            timestamp: self.timestamp.deep_view(),
            cwd: self.cwd.deep_view(),
            version: self.version.deep_view(),
            git_branch: self.git_branch.deep_view(),
            message: self.message.deep_view(),
            data: self.data.deep_view(),
            parent_tool_use_id: self.parent_tool_use_id.deep_view(),
        }
    }
}

impl DeepView for RawEntry {
    type V = RawEntryView;

    open spec fn deep_view(&self) -> RawEntryView {
        self@
    }
}

// ---------------------------------------------------------------------------
// Content blocks
// ---------------------------------------------------------------------------

#[derive(Debug, Clone, PartialEq, Eq)]
pub struct ThinkingBlock {
    pub thinking: String,
    pub signature: Option<String>,
}

pub struct ThinkingBlockView {
    pub thinking: Seq<char>,
    pub signature: Option<Seq<char>>,
}

impl View for ThinkingBlock {
    type V = ThinkingBlockView;

    open spec fn view(&self) -> ThinkingBlockView {
        ThinkingBlockView { thinking: self.thinking@, signature: self.signature.deep_view() }
    }
}

impl DeepView for ThinkingBlock {
    type V = ThinkingBlockView;

    open spec fn deep_view(&self) -> ThinkingBlockView {
        self@
    }
}

#[derive(Debug, Clone, PartialEq, Eq)]
pub struct ToolUseBlock {
    pub id: String,
    pub name: String,
    pub input: Json,
    /// The subagent that this invocation spawned, once it is known.
    pub agent_id: Option<String>,
}

pub struct ToolUseBlockView {
    pub id: Seq<char>,
    pub name: Seq<char>,
    pub input: JsonValue,
    pub agent_id: Option<Seq<char>>,
}

impl View for ToolUseBlock {
    type V = ToolUseBlockView;

    open spec fn view(&self) -> ToolUseBlockView {
        ToolUseBlockView {
            id: self.id@,
            name: self.name@,
            input: self.input@,
            agent_id: self.agent_id.deep_view(),
        }
    }
}

impl DeepView for ToolUseBlock {
    type V = ToolUseBlockView;

    open spec fn deep_view(&self) -> ToolUseBlockView {
        self@
    }
}

#[derive(Debug, PartialEq, Eq)]
pub struct ToolResultBlock {
    pub tool_use_id: String,
    pub content: Json,
    pub is_error: Option<bool>,
}

pub struct ToolResultBlockView {
    pub tool_use_id: Seq<char>,
    pub content: JsonValue,
    pub is_error: Option<bool>,
}

impl View for ToolResultBlock {
    type V = ToolResultBlockView;

    open spec fn view(&self) -> ToolResultBlockView {
        ToolResultBlockView {
            tool_use_id: self.tool_use_id@,
            content: self.content@,
            is_error: self.is_error,
        }
    }
}

impl DeepView for ToolResultBlock {
    type V = ToolResultBlockView;

    open spec fn deep_view(&self) -> ToolResultBlockView {
        self@
    }
}

impl Clone for ToolResultBlock {
    fn clone(&self) -> (r: Self)
        ensures
            r@ == self@,
    {
        ToolResultBlock {
            tool_use_id: self.tool_use_id.clone(),
            content: self.content.clone(),
            is_error: self.is_error,
        }
    }
}

// ---------------------------------------------------------------------------
// Reconstructed messages and sessions
// ---------------------------------------------------------------------------

/// A message reconstructed from one `user` or `assistant` record.
#[derive(Debug, Clone)]
pub struct ProcessedMessage {
    pub uuid: String,
    pub parent_uuid: Option<String>,
    pub timestamp: String,
    pub role: String,
    pub text_content: String,
    pub thinking_blocks: Vec<ThinkingBlock>,
    pub tool_use_blocks: Vec<ToolUseBlock>,
    /// Tool results by the id of the invocation that they answer.
    pub tool_results: StringMap<ToolResultBlock>,
    pub model: Option<String>,
}

pub struct ProcessedMessageView {
    pub uuid: Seq<char>,
    pub parent_uuid: Option<Seq<char>>,
    pub timestamp: Seq<char>,
    pub role: Seq<char>,
    pub text_content: Seq<char>,
    pub thinking_blocks: Seq<ThinkingBlockView>,
    pub tool_use_blocks: Seq<ToolUseBlockView>,
    pub tool_results: Map<Seq<char>, ToolResultBlockView>,
    pub model: Option<Seq<char>>,
}

impl View for ProcessedMessage {
    type V = ProcessedMessageView;

    open spec fn view(&self) -> ProcessedMessageView {
        ProcessedMessageView {
            uuid: self.uuid@,
            parent_uuid: self.parent_uuid.deep_view(),
            timestamp: self.timestamp@,
            role: self.role@,
            text_content: self.text_content@,
            thinking_blocks: self.thinking_blocks.deep_view(),
            tool_use_blocks: self.tool_use_blocks.deep_view(),
            tool_results: self.tool_results@,
            model: self.model.deep_view(),
        }
    }
}

impl DeepView for ProcessedMessage {
    type V = ProcessedMessageView;

    open spec fn deep_view(&self) -> ProcessedMessageView {
        self@
    }
}

/// The log of a subagent, attached to the session whose tool invocation
/// spawned it.
#[derive(Debug, Clone)]
pub struct SubagentSession {
    pub agent_id: String,
    pub parent_tool_use_id: String,
    pub messages: Vec<ProcessedMessage>,
    /// Always the length of `messages`.
    pub message_count: usize,
}

pub struct SubagentSessionView {
    pub agent_id: Seq<char>,
    pub parent_tool_use_id: Seq<char>,
    pub messages: Seq<ProcessedMessageView>,
    pub message_count: nat,
}

impl View for SubagentSession {
    type V = SubagentSessionView;

    open spec fn view(&self) -> SubagentSessionView {
        SubagentSessionView {
            agent_id: self.agent_id@,
            parent_tool_use_id: self.parent_tool_use_id@,
            messages: self.messages.deep_view(),
            message_count: self.message_count as nat,
        }
    }
}

impl DeepView for SubagentSession {
    type V = SubagentSessionView;

    open spec fn deep_view(&self) -> SubagentSessionView {
        self@
    }
}

/// What a listing shows of a session.
#[derive(Debug, Clone, PartialEq, Eq)]
pub struct SessionSummary {
    pub id: String,
    pub project: String,
    pub project_encoded: String,
    pub first_message: String,
    pub message_count: usize,
    pub start_time: Option<i64>,
    pub end_time: Option<i64>,
    pub git_branch: Option<String>,
    pub model: Option<String>,
    pub file_path: String,
}

pub struct SessionSummaryView {
    pub id: Seq<char>,
    pub project: Seq<char>,
    pub project_encoded: Seq<char>,
    pub first_message: Seq<char>,
    pub message_count: nat,
    pub start_time: Option<i64>,
    pub end_time: Option<i64>,
    pub git_branch: Option<Seq<char>>,
    pub model: Option<Seq<char>>,
    pub file_path: Seq<char>,
}

impl View for SessionSummary {
    type V = SessionSummaryView;

    open spec fn view(&self) -> SessionSummaryView {
        SessionSummaryView {
            id: self.id@,
            project: self.project@,
            project_encoded: self.project_encoded@,
            first_message: self.first_message@,
            message_count: self.message_count as nat,
            start_time: self.start_time,
            end_time: self.end_time,
            git_branch: self.git_branch.deep_view(),
            model: self.model.deep_view(),
            file_path: self.file_path@,
        }
    }
}

impl DeepView for SessionSummary {
    type V = SessionSummaryView;

    open spec fn deep_view(&self) -> SessionSummaryView {
        self@
    }
}

/// A session reconstructed in full.
#[derive(Debug, Clone)]
pub struct Session {
    pub id: String,
    pub project: String,
    pub project_encoded: String,
    pub git_branch: Option<String>,
    pub cwd: String,
    pub version: String,
    pub start_time: Option<i64>,
    pub end_time: Option<i64>,
    pub messages: Vec<ProcessedMessage>,
    pub file_path: String,
    /// Subagent sessions by agent id.
    pub subagents: StringMap<SubagentSession>,
}

pub struct SessionView {
    pub id: Seq<char>,
    pub project: Seq<char>,
    pub project_encoded: Seq<char>,
    pub git_branch: Option<Seq<char>>,
    pub cwd: Seq<char>,
    pub version: Seq<char>,
    pub start_time: Option<i64>,
    pub end_time: Option<i64>,
    pub messages: Seq<ProcessedMessageView>,
    pub file_path: Seq<char>,
    pub subagents: Map<Seq<char>, SubagentSessionView>,
    /// The agent ids of `subagents` in the order in which they were attached.
    pub subagent_ids: Seq<Seq<char>>,
}

impl View for Session {
    type V = SessionView;

    open spec fn view(&self) -> SessionView {
        SessionView {
            id: self.id@,
            project: self.project@,
            project_encoded: self.project_encoded@,
            git_branch: self.git_branch.deep_view(),
            cwd: self.cwd@,
            version: self.version@,
            start_time: self.start_time,
            end_time: self.end_time,
            messages: self.messages.deep_view(),
            file_path: self.file_path@,
            subagents: self.subagents@,
            subagent_ids: self.subagents.keys(),
        }
    }
}

impl DeepView for Session {
    type V = SessionView;

    open spec fn deep_view(&self) -> SessionView {
        self@
    }
}

/// The sessions of one project, newest first.
#[derive(Debug, Clone, PartialEq, Eq)]
pub struct ProjectGroup {
    pub project: String,
    pub project_encoded: String,
    pub sessions: Vec<SessionSummary>,
}

pub struct ProjectGroupView {
    pub project: Seq<char>,
    pub project_encoded: Seq<char>,
    pub sessions: Seq<SessionSummaryView>,
}

impl View for ProjectGroup {
    type V = ProjectGroupView;

    open spec fn view(&self) -> ProjectGroupView {
        ProjectGroupView {
            project: self.project@,
            project_encoded: self.project_encoded@,
            sessions: self.sessions.deep_view(),
        }
    }
}

impl DeepView for ProjectGroup {
    type V = ProjectGroupView;

    open spec fn deep_view(&self) -> ProjectGroupView {
        self@
    }
}

} // verus!
