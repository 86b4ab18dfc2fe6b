//! What holds of every reconstructed session.

use vstd::prelude::*;
use crate::content::{tool_result_of_block, tool_result_parts, tool_results};
use crate::json::JsonValue;
use crate::session_store::{
    annotated_use, attached, attached_ids, contributed, first_message_record, first_model,
    first_snippet, is_material, is_message_record, is_user_record, linked_session, materialized,
    message_record_count, model_of, pending_results, reconstructed, record_stamp, session_of,
    session_span, snippet_length, snippet_of, spawned_agent, subagent_of, summary_of,
    tool_use_ids, SessionLogView, SubagentLogView,
};
use crate::session_types::{RawEntryView, SessionView, SubagentSessionView, ToolUseBlockView};

verus! {

// ---------------------------------------------------------------------------
// No message is empty
// ---------------------------------------------------------------------------

proof fn lemma_materialized(entries: Seq<RawEntryView>)
    ensures
        forall|i: int|
            0 <= i < materialized(entries).len() ==> is_material(#[trigger] materialized(entries)[i]),
    decreases entries.len(),
{
    if entries.len() > 0 {
        lemma_materialized(entries.drop_last());
        let rest = materialized(entries.drop_last());
        assert forall|i: int| 0 <= i < materialized(entries).len() implies is_material(
            #[trigger] materialized(entries)[i],
        ) by {
            if i < rest.len() {
                assert(materialized(entries)[i] == rest[i]);
            } else {
                assert(contributed(entries.last()) == Some(materialized(entries)[i]));
            }
        }
    }
}

/// Every reconstructed message has text that is not blank, or a thinking
/// block, or a tool invocation.
pub proof fn lemma_messages_are_material(entries: Seq<RawEntryView>)
    ensures
        forall|i: int|
            0 <= i < reconstructed(entries).len() ==> is_material(
                #[trigger] reconstructed(entries)[i],
            ),
{
    lemma_materialized(entries);
    assert forall|i: int| 0 <= i < reconstructed(entries).len() implies is_material(
        #[trigger] reconstructed(entries)[i],
    ) by {
        assert(is_material(materialized(entries)[i]));
    }
}

/// A subagent session is sound when it is filed under its own id, has a
/// message, counts its messages rightly, and holds no empty message.
pub open spec fn subagent_is_sound(id: Seq<char>, subagent: SubagentSessionView) -> bool {
    &&& subagent.agent_id == id
    &&& subagent.messages.len() > 0
    &&& subagent.message_count == subagent.messages.len()
    &&& forall|i: int| 0 <= i < subagent.messages.len() ==> is_material(#[trigger] subagent.messages[i])
}

/// A session is sound when it has a message, holds no empty message, and
/// every one of its subagents is sound.
pub open spec fn session_is_sound(session: SessionView) -> bool {
    &&& session.messages.len() > 0
    &&& forall|i: int| 0 <= i < session.messages.len() ==> is_material(#[trigger] session.messages[i])
    &&& forall|id: Seq<char>| #[trigger]
        session.subagents.contains_key(id) ==> subagent_is_sound(id, session.subagents[id])
}

/// The session reconstructed from a log is sound.
pub proof fn lemma_session_of_is_sound(log: SessionLogView, project: Seq<char>)
    ensures
        session_of(log, project) matches Some(session) ==> session_is_sound(session),
{
    lemma_messages_are_material(log.entries);
}

proof fn lemma_attached_is_sound(links: Map<Seq<char>, Seq<char>>, logs: Seq<SubagentLogView>)
    ensures
        forall|id: Seq<char>| #[trigger]
            attached(links, logs).contains_key(id) ==> subagent_is_sound(
                id,
                attached(links, logs)[id],
            ),
    decreases logs.len(),
{
    if logs.len() > 0 {
        lemma_attached_is_sound(links, logs.drop_last());
        lemma_messages_are_material(logs.last().entries);
        let rest = attached(links, logs.drop_last());
        assert forall|id: Seq<char>| #[trigger]
            attached(links, logs).contains_key(id) implies subagent_is_sound(
            id,
            attached(links, logs)[id],
        ) by {
            match subagent_of(links, logs.last()) {
                Some(subagent) => {
                    if id != subagent.agent_id {
                        assert(rest.contains_key(id));
                    }
                },
                None => {
                    assert(rest.contains_key(id));
                },
            }
        }
    }
}

/// Attaching subagents to a sound session gives a sound session: marking a
/// tool invocation takes nothing from a message.
pub proof fn lemma_linked_session_is_sound(
    session: SessionView,
    links: Map<Seq<char>, Seq<char>>,
    logs: Seq<SubagentLogView>,
)
    requires
        session_is_sound(session),
    ensures
        session_is_sound(linked_session(session, links, logs)),
{
    lemma_attached_is_sound(links, logs);
    let linked = linked_session(session, links, logs);
    assert forall|i: int| 0 <= i < linked.messages.len() implies is_material(
        #[trigger] linked.messages[i],
    ) by {
        assert(is_material(session.messages[i]));
    }
}

// ---------------------------------------------------------------------------
// The span of a session
// ---------------------------------------------------------------------------

/// A session starts at the earliest and ends at the latest of the instants
/// that could be read from its records, and has neither where none could.
pub proof fn lemma_session_span(entries: Seq<RawEntryView>)
    ensures
        session_span(entries).start is None <==> forall|i: int|
            0 <= i < entries.len() ==> record_stamp(#[trigger] entries[i]) is None,
        session_span(entries).end is None <==> session_span(entries).start is None,
        session_span(entries).start matches Some(start) ==> (exists|i: int|
            0 <= i < entries.len() && record_stamp(#[trigger] entries[i]) == Some(start))
            && forall|i: int|
            0 <= i < entries.len() && record_stamp(#[trigger] entries[i]) is Some ==> start
                <= record_stamp(entries[i])->0,
        session_span(entries).end matches Some(end) ==> (exists|i: int|
            0 <= i < entries.len() && record_stamp(#[trigger] entries[i]) == Some(end))
            && forall|i: int|
            0 <= i < entries.len() && record_stamp(#[trigger] entries[i]) is Some ==> end
                >= record_stamp(entries[i])->0,
    decreases entries.len(),
{
    if entries.len() > 0 {
        let rest = entries.drop_last();
        lemma_session_span(rest);
        let before = session_span(rest);
        let stamp = record_stamp(entries.last());
        assert forall|i: int| 0 <= i < rest.len() implies rest[i] == entries[i] by {}
        if before.start is Some {
            let i = choose|i: int|
                0 <= i < rest.len() && record_stamp(#[trigger] rest[i]) == Some(before.start->0);
            assert(record_stamp(entries[i]) == Some(before.start->0));
            let j = choose|j: int|
                0 <= j < rest.len() && record_stamp(#[trigger] rest[j]) == Some(before.end->0);
            assert(record_stamp(entries[j]) == Some(before.end->0));
        }
        if stamp is Some {
            assert(record_stamp(entries[entries.len() - 1]) == stamp);
        }
        assert forall|i: int|
            0 <= i < entries.len() && record_stamp(#[trigger] entries[i]) is Some implies (
            session_span(entries).start is Some && session_span(entries).start->0 <= record_stamp(
                entries[i],
            )->0 && session_span(entries).end->0 >= record_stamp(entries[i])->0) by {
            if i < rest.len() {
                assert(record_stamp(rest[i]) is Some);
            }
        }
    }
}

/// A session does not end before it starts.
pub proof fn lemma_session_span_is_ordered(entries: Seq<RawEntryView>)
    ensures
        session_span(entries).start matches Some(start) ==> session_span(entries).end is Some
            && start <= session_span(entries).end->0,
{
    lemma_session_span(entries);
    if session_span(entries).start is Some {
        let start = session_span(entries).start->0;
        let i = choose|i: int|
            0 <= i < entries.len() && record_stamp(#[trigger] entries[i]) == Some(start);
        assert(record_stamp(entries[i]) is Some);
    }
}

// ---------------------------------------------------------------------------
// Summaries
// ---------------------------------------------------------------------------

/// Metadata comes from the first `user` or `assistant` record and from no
/// other: there is none exactly when the log has no such record.
pub proof fn lemma_first_message_record(entries: Seq<RawEntryView>)
    ensures
        match first_message_record(entries) {
            Some(entry) => exists|i: int|
                0 <= i < entries.len() && #[trigger] entries[i] == entry && is_message_record(entry)
                    && forall|j: int| 0 <= j < i ==> !is_message_record(#[trigger] entries[j]),
            None => forall|j: int| 0 <= j < entries.len() ==> !is_message_record(#[trigger] entries[j]),
        },
        first_message_record(entries) is Some <==> message_record_count(entries) > 0,
    decreases entries.len(),
{
    if entries.len() > 0 {
        let rest = entries.drop_last();
        lemma_first_message_record(rest);
        assert forall|j: int| 0 <= j < rest.len() implies rest[j] == entries[j] by {}
        match first_message_record(rest) {
            Some(entry) => {
                let i = choose|i: int|
                    0 <= i < rest.len() && #[trigger] rest[i] == entry && is_message_record(entry)
                        && forall|j: int| 0 <= j < i ==> !is_message_record(#[trigger] rest[j]);
                assert(entries[i] == entry);
                assert forall|j: int| 0 <= j < i implies !is_message_record(
                    #[trigger] entries[j],
                ) by {
                    assert(!is_message_record(rest[j]));
                }
            },
            None => {
                if is_message_record(entries.last()) {
                    let i = entries.len() - 1;
                    assert(entries[i] == entries.last());
                    assert forall|j: int| 0 <= j < i implies !is_message_record(
                        #[trigger] entries[j],
                    ) by {
                        assert(!is_message_record(rest[j]));
                    }
                } else {
                    assert forall|j: int| 0 <= j < entries.len() implies !is_message_record(
                        #[trigger] entries[j],
                    ) by {
                        if j < rest.len() {
                            assert(!is_message_record(rest[j]));
                        }
                    }
                }
            },
        }
    }
}

/// The first message of a summary is the snippet of the first record that
/// offers one, and empty where no record does.
pub proof fn lemma_first_snippet(entries: Seq<RawEntryView>)
    ensures
        first_snippet(entries).len() > 0 ==> exists|i: int|
            0 <= i < entries.len() && snippet_of(#[trigger] entries[i]) == first_snippet(entries)
                && forall|j: int| 0 <= j < i ==> snippet_of(#[trigger] entries[j]).len() == 0,
        first_snippet(entries).len() == 0 ==> forall|j: int|
            0 <= j < entries.len() ==> snippet_of(#[trigger] entries[j]).len() == 0,
    decreases entries.len(),
{
    if entries.len() > 0 {
        let rest = entries.drop_last();
        lemma_first_snippet(rest);
        assert forall|j: int| 0 <= j < rest.len() implies rest[j] == entries[j] by {}
        if first_snippet(rest).len() > 0 {
            let i = choose|i: int|
                0 <= i < rest.len() && snippet_of(#[trigger] rest[i]) == first_snippet(rest)
                    && forall|j: int| 0 <= j < i ==> snippet_of(#[trigger] rest[j]).len() == 0;
            assert(snippet_of(entries[i]) == first_snippet(entries));
            assert forall|j: int| 0 <= j < i implies snippet_of(#[trigger] entries[j]).len()
                == 0 by {
                assert(snippet_of(rest[j]).len() == 0);
            }
        } else {
            let i = entries.len() - 1;
            assert(entries[i] == entries.last());
            assert forall|j: int| 0 <= j < i implies snippet_of(#[trigger] entries[j]).len()
                == 0 by {
                assert(snippet_of(rest[j]).len() == 0);
            }
            if first_snippet(entries).len() == 0 {
                assert forall|j: int| 0 <= j < entries.len() implies snippet_of(
                    #[trigger] entries[j],
                ).len() == 0 by {
                    if j < i {
                        assert(snippet_of(rest[j]).len() == 0);
                    }
                }
            }
        }
    }
}

/// The model of a summary is the model of the first record that names one,
/// and none where no record does.
pub proof fn lemma_first_model(entries: Seq<RawEntryView>)
    ensures
        match first_model(entries) {
            Some(model) => exists|i: int|
                0 <= i < entries.len() && model_of(#[trigger] entries[i]) == Some(model)
                    && forall|j: int| 0 <= j < i ==> model_of(#[trigger] entries[j]) is None,
            None => forall|j: int| 0 <= j < entries.len() ==> model_of(#[trigger] entries[j]) is None,
        },
    decreases entries.len(),
{
    if entries.len() > 0 {
        let rest = entries.drop_last();
        lemma_first_model(rest);
        assert forall|j: int| 0 <= j < rest.len() implies rest[j] == entries[j] by {}
        match first_model(rest) {
            Some(model) => {
                let i = choose|i: int|
                    0 <= i < rest.len() && model_of(#[trigger] rest[i]) == Some(model)
                        && forall|j: int| 0 <= j < i ==> model_of(#[trigger] rest[j]) is None;
                assert(model_of(entries[i]) == Some(model));
                assert forall|j: int| 0 <= j < i implies model_of(#[trigger] entries[j]) is None by {
                    assert(model_of(rest[j]) is None);
                }
            },
            None => {
                let i = entries.len() - 1;
                assert(entries[i] == entries.last());
                assert forall|j: int| 0 <= j < i implies model_of(#[trigger] entries[j]) is None by {
                    assert(model_of(rest[j]) is None);
                }
                if model_of(entries.last()) is None {
                    assert forall|j: int| 0 <= j < entries.len() implies model_of(
                        #[trigger] entries[j],
                    ) is None by {
                        if j < i {
                            assert(model_of(rest[j]) is None);
                        }
                    }
                }
            },
        }
    }
}

proof fn lemma_summary_parts(entries: Seq<RawEntryView>)
    ensures
        first_snippet(entries).len() <= snippet_length(),
        message_record_count(entries) <= entries.len(),
    decreases entries.len(),
{
    if entries.len() > 0 {
        lemma_summary_parts(entries.drop_last());
    }
}

/// A summary counts at least one record and no more than the log has, cuts
/// the first message at the snippet length, and does not end before it
/// starts.
pub proof fn lemma_summary_is_sound(log: SessionLogView, project: Seq<char>)
    ensures
        summary_of(log, project) matches Some(summary) ==> {
            &&& 0 < summary.message_count <= log.entries.len()
            &&& summary.first_message.len() <= snippet_length()
            &&& summary.start_time matches Some(start) ==> summary.end_time is Some && start
                <= summary.end_time->0
        },
{
    lemma_summary_parts(log.entries);
    lemma_session_span_is_ordered(log.entries);
}

// ---------------------------------------------------------------------------
// Tool results reach their invocations
// ---------------------------------------------------------------------------

/// A result among the blocks of a payload is among the payload's results,
/// under its invocation id; and it is the one that stands unless a later
/// block answers the same invocation.
pub proof fn lemma_block_result_is_held(blocks: Seq<JsonValue>, b: int)
    requires
        0 <= b < blocks.len(),
        tool_result_of_block(blocks[b]) is Some,
    ensures
        tool_result_parts(blocks).contains_key(tool_result_of_block(blocks[b])->0.tool_use_id),
        (forall|later: int|
            b < later < blocks.len() && tool_result_of_block(blocks[later]) is Some
                ==> tool_result_of_block(blocks[later])->0.tool_use_id != tool_result_of_block(
                blocks[b],
            )->0.tool_use_id) ==> tool_result_parts(blocks)[tool_result_of_block(
            blocks[b],
        )->0.tool_use_id] == tool_result_of_block(blocks[b])->0,
    decreases blocks.len(),
{
    if b < blocks.len() - 1 {
        lemma_block_result_is_held(blocks.drop_last(), b);
    }
}

/// A result that a `user` record carries is among the pending results; and
/// it is the one that stands unless a later `user` record answers the same
/// invocation.
pub proof fn lemma_record_result_is_pending(entries: Seq<RawEntryView>, j: int, id: Seq<char>)
    requires
        0 <= j < entries.len(),
        is_user_record(entries[j]),
        entries[j].message is Some,
        tool_results(entries[j].message->0.content).contains_key(id),
    ensures
        pending_results(entries).contains_key(id),
        (forall|later: int|
            j < later < entries.len() && is_user_record(entries[later]) && entries[later].message
                is Some ==> !tool_results(entries[later].message->0.content).contains_key(id))
            ==> pending_results(entries)[id] == tool_results(entries[j].message->0.content)[id],
    decreases entries.len(),
{
    if j < entries.len() - 1 {
        lemma_record_result_is_pending(entries.drop_last(), j, id);
    }
}

/// Where a message invokes a tool and a result for that invocation is
/// pending, the message holds that result, wherever in the log the result
/// stands.
pub proof fn lemma_pending_result_is_attached(entries: Seq<RawEntryView>, k: int, id: Seq<char>)
    requires
        0 <= k < reconstructed(entries).len(),
        tool_use_ids(reconstructed(entries)[k].tool_use_blocks).contains(id),
        pending_results(entries).contains_key(id),
    ensures
        reconstructed(entries)[k].tool_results.contains_key(id),
        reconstructed(entries)[k].tool_results[id] == pending_results(entries)[id],
{
}

/// The result that a `user` record carries for a tool invocation ends up
/// with the message that holds the invocation, whether the record stands
/// before or after it in the log; and where no later `user` record answers
/// the same invocation, the message holds exactly that result.
pub proof fn lemma_result_reaches_invocation(
    entries: Seq<RawEntryView>,
    j: int,
    k: int,
    u: int,
)
    requires
        0 <= j < entries.len(),
        is_user_record(entries[j]),
        entries[j].message is Some,
        0 <= k < reconstructed(entries).len(),
        0 <= u < reconstructed(entries)[k].tool_use_blocks.len(),
        tool_results(entries[j].message->0.content).contains_key(
            reconstructed(entries)[k].tool_use_blocks[u].id,
        ),
    ensures
        reconstructed(entries)[k].tool_results.contains_key(
            reconstructed(entries)[k].tool_use_blocks[u].id,
        ),
        (forall|later: int|
            j < later < entries.len() && is_user_record(entries[later]) && entries[later].message
                is Some ==> !tool_results(entries[later].message->0.content).contains_key(
                reconstructed(entries)[k].tool_use_blocks[u].id,
            )) ==> reconstructed(entries)[k].tool_results[reconstructed(
            entries,
        )[k].tool_use_blocks[u].id] == tool_results(entries[j].message->0.content)[reconstructed(
            entries,
        )[k].tool_use_blocks[u].id],
{
    let id = reconstructed(entries)[k].tool_use_blocks[u].id;
    lemma_record_result_is_pending(entries, j, id);
    assert(tool_use_ids(reconstructed(entries)[k].tool_use_blocks).contains(id));
    lemma_pending_result_is_attached(entries, k, id);
}

// ---------------------------------------------------------------------------
// Subagents and the invocations that spawned them
// ---------------------------------------------------------------------------

/// The attached subagents are those whose ids are listed, and every one of
/// them was linked: it answers the invocation that `links` gives for it.
pub proof fn lemma_attached(links: Map<Seq<char>, Seq<char>>, logs: Seq<SubagentLogView>)
    ensures
        forall|id: Seq<char>|
            attached(links, logs).contains_key(id) <==> attached_ids(links, logs).contains(id),
        attached_ids(links, logs).no_duplicates(),
        forall|id: Seq<char>| #[trigger]
            attached(links, logs).contains_key(id) ==> links.contains_key(id) && attached(
                links,
                logs,
            )[id].parent_tool_use_id == links[id],
    decreases logs.len(),
{
    if logs.len() > 0 {
        let rest = logs.drop_last();
        lemma_attached(links, rest);
        let ids = attached_ids(links, rest);
        let more = attached_ids(links, logs);
        match subagent_of(links, logs.last()) {
            Some(subagent) => {
                if !attached(links, rest).contains_key(subagent.agent_id) {
                    assert(more[ids.len() as int] == subagent.agent_id);
                    assert forall|id: Seq<char>| ids.contains(id) implies more.contains(id) by {
                        let k = choose|k: int| 0 <= k < ids.len() && ids[k] == id;
                        assert(more[k] == id);
                    }
                    assert forall|id: Seq<char>| more.contains(id) implies ids.contains(id) || id
                        == subagent.agent_id by {
                        let k = choose|k: int| 0 <= k < more.len() && more[k] == id;
                        if k < ids.len() {
                            assert(ids[k] == id);
                        }
                    }
                    assert forall|i: int, j: int|
                        0 <= i < more.len() && 0 <= j < more.len() && i != j implies more[i]
                        != more[j] by {
                        if i < ids.len() {
                            assert(ids.contains(more[i]));
                        }
                        if j < ids.len() {
                            assert(ids.contains(more[j]));
                        }
                    }
                }
            },
            None => {},
        }
    }
}

/// The agent found for an invocation is attached under a listed id and was
/// spawned by that invocation; where none is found, no listed agent was.
pub proof fn lemma_spawned_agent(
    ids: Seq<Seq<char>>,
    subagents: Map<Seq<char>, SubagentSessionView>,
    tool_id: Seq<char>,
    from: int,
)
    requires
        0 <= from <= ids.len(),
    ensures
        match spawned_agent(ids, subagents, tool_id, from) {
            Some(agent_id) => ids.contains(agent_id) && subagents[agent_id].parent_tool_use_id
                == tool_id,
            None => forall|i: int|
                from <= i < ids.len() ==> subagents[#[trigger] ids[i]].parent_tool_use_id != tool_id,
        },
    decreases ids.len() - from,
{
    if from < ids.len() {
        if subagents[ids[from]].parent_tool_use_id == tool_id {
            assert(ids[from] == ids[from]);
        } else {
            lemma_spawned_agent(ids, subagents, tool_id, from + 1);
        }
    }
}

/// Marking changes nothing of a tool invocation but the agent it names, and
/// the agent it comes to name was spawned by it.
pub proof fn lemma_annotated_use(
    tool_use: ToolUseBlockView,
    ids: Seq<Seq<char>>,
    subagents: Map<Seq<char>, SubagentSessionView>,
)
    ensures
        annotated_use(tool_use, ids, subagents).id == tool_use.id,
        annotated_use(tool_use, ids, subagents).name == tool_use.name,
        annotated_use(tool_use, ids, subagents).input == tool_use.input,
        annotated_use(tool_use, ids, subagents).agent_id != tool_use.agent_id ==> {
            let agent_id = annotated_use(tool_use, ids, subagents).agent_id->0;
            &&& annotated_use(tool_use, ids, subagents).agent_id is Some
            &&& ids.contains(agent_id)
            &&& subagents[agent_id].parent_tool_use_id == tool_use.id
        },
{
    lemma_spawned_agent(ids, subagents, tool_use.id, 0);
}

} // verus!
