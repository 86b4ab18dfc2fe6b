//! Decoding of a message payload into text, thinking blocks, tool
//! invocations and tool results.
//!
//! A payload is either a plain string or an array of blocks. A block is an
//! object whose `type` member tells its kind; a block of an unknown kind, or
//! one that lacks a member its kind requires, is passed over.

use vstd::prelude::*;
use crate::json::{Json, JsonValue};
use crate::session_types::{
    ThinkingBlock, ThinkingBlockView, ToolResultBlock, ToolResultBlockView, ToolUseBlock,
    ToolUseBlockView,
};
use crate::string_map::StringMap;
use crate::text::str_eq;

verus! {

// ---------------------------------------------------------------------------
// What a single block holds
// ---------------------------------------------------------------------------

/// The text of a `text` block.
pub open spec fn text_of_block(block: JsonValue) -> Option<Seq<char>> {
    if block.str_field("type"@) == Some("text"@) {
        block.str_field("text"@)
    } else {
        None
    }
}

/// The thinking block that a `thinking` block with a `thinking` string holds.
pub open spec fn thinking_of_block(block: JsonValue) -> Option<ThinkingBlockView> {
    if block.str_field("type"@) == Some("thinking"@) {
        match block.str_field("thinking"@) {
            Some(thinking) => Some(
                ThinkingBlockView { thinking, signature: block.str_field("signature"@) },
            ),
            None => None,
        }
    } else {
        None
    }
}

/// The invocation that a `tool_use` block with an `id` and a `name` holds.
/// Its input is the block's `input`, or an empty object where it has none;
/// it names no subagent yet.
pub open spec fn tool_use_of_block(block: JsonValue) -> Option<ToolUseBlockView> {
    if block.str_field("type"@) == Some("tool_use"@) {
        match (block.str_field("id"@), block.str_field("name"@)) {
            (Some(id), Some(name)) => Some(
                ToolUseBlockView {
                    id,
                    name,
                    input: match block.get("input"@) {
                        Some(input) => input,
                        None => JsonValue::Object(Seq::empty()),
                    },
                    agent_id: None,
                },
            ),
            _ => None,
        }
    } else {
        None
    }
}

/// The result that a `tool_result` block with a `tool_use_id` holds. Its
/// content is the block's `content`, or an empty string where it has none.
pub open spec fn tool_result_of_block(block: JsonValue) -> Option<ToolResultBlockView> {
    if block.str_field("type"@) == Some("tool_result"@) {
        match block.str_field("tool_use_id"@) {
            Some(tool_use_id) => Some(
                ToolResultBlockView {
                    tool_use_id,
                    content: match block.get("content"@) {
                        Some(content) => content,
                        None => JsonValue::Str(Seq::empty()),
                    },
                    is_error: block.bool_field("is_error"@),
                },
            ),
            None => None,
        }
    } else {
        None
    }
}

// ---------------------------------------------------------------------------
// What an array of blocks holds
// ---------------------------------------------------------------------------

/// The texts of the `text` blocks, in order.
pub open spec fn text_parts(blocks: Seq<JsonValue>) -> Seq<Seq<char>>
    decreases blocks.len(),
{
    if blocks.len() == 0 {
        Seq::empty()
    } else {
        let rest = text_parts(blocks.drop_last());
        match text_of_block(blocks.last()) {
            Some(text) => rest.push(text),
            None => rest,
        }
    }
}

/// `parts` with a line feed between each two neighbours.
pub open spec fn join_lines(parts: Seq<Seq<char>>) -> Seq<char>
    decreases parts.len(),
{
    if parts.len() == 0 {
        Seq::empty()
    } else if parts.len() == 1 {
        parts[0]
    } else {
        join_lines(parts.drop_last()) + seq!['\n'] + parts.last()
    }
}

/// The thinking blocks, in order.
pub open spec fn thinking_parts(blocks: Seq<JsonValue>) -> Seq<ThinkingBlockView>
    decreases blocks.len(),
{
    if blocks.len() == 0 {
        Seq::empty()
    } else {
        let rest = thinking_parts(blocks.drop_last());
        match thinking_of_block(blocks.last()) {
            Some(block) => rest.push(block),
            None => rest,
        }
    }
}

/// The tool invocations, in order.
pub open spec fn tool_use_parts(blocks: Seq<JsonValue>) -> Seq<ToolUseBlockView>
    decreases blocks.len(),
{
    if blocks.len() == 0 {
        Seq::empty()
    } else {
        let rest = tool_use_parts(blocks.drop_last());
        match tool_use_of_block(blocks.last()) {
            Some(block) => rest.push(block),
            None => rest,
        }
    }
}

/// The tool results by invocation id. Of two results for one id the later
/// stands.
pub open spec fn tool_result_parts(blocks: Seq<JsonValue>) -> Map<Seq<char>, ToolResultBlockView>
    decreases blocks.len(),
{
    if blocks.len() == 0 {
        Map::empty()
    } else {
        let rest = tool_result_parts(blocks.drop_last());
        match tool_result_of_block(blocks.last()) {
            Some(block) => rest.insert(block.tool_use_id, block),
            None => rest,
        }
    }
}

// ---------------------------------------------------------------------------
// What a payload holds
// ---------------------------------------------------------------------------

/// The text of a payload: the string itself, or the texts of an array's
/// `text` blocks joined by line feeds, or nothing for any other shape.
pub open spec fn text_content(content: JsonValue) -> Seq<char> {
    match content {
        JsonValue::Str(s) => s,
        JsonValue::Array(blocks) => join_lines(text_parts(blocks)),
        _ => Seq::empty(),
    }
}

pub open spec fn thinking_blocks(content: JsonValue) -> Seq<ThinkingBlockView> {
    match content {
        JsonValue::Array(blocks) => thinking_parts(blocks),
        _ => Seq::empty(),
    }
}

pub open spec fn tool_use_blocks(content: JsonValue) -> Seq<ToolUseBlockView> {
    match content {
        JsonValue::Array(blocks) => tool_use_parts(blocks),
        _ => Seq::empty(),
    }
}

pub open spec fn tool_results(content: JsonValue) -> Map<Seq<char>, ToolResultBlockView> {
    match content {
        JsonValue::Array(blocks) => tool_result_parts(blocks),
        _ => Map::empty(),
    }
}

// ---------------------------------------------------------------------------
// Executable decoding
// ---------------------------------------------------------------------------

fn copy_text(text: Option<&String>) -> (r: Option<String>)
    ensures
        match text {
            Some(s) => r.deep_view() == Some(s@),
            None => r is None,
        },
{
    match text {
        Some(s) => Some(s.clone()),
        None => None,
    }
}

fn block_has_type(block: &Json, kind: &str) -> (r: bool)
    ensures
        r == (block@.str_field("type"@) == Some(kind@)),
{
    match block.str_field("type") {
        Some(found) => str_eq(found.as_str(), kind),
        None => false,
    }
}

/// Extracts the text of a message payload.
pub fn extract_text_content(content: &Json) -> (r: String)
    ensures
        r@ == text_content(content@),
{
    match content.as_str() {
        Some(s) => {
            return s.clone();
        },
        None => {},
    }
    match content.as_array() {
        Some(blocks) => {
            let ghost model = blocks.deep_view();
            let mut out = String::new();
            let mut any = false;
            let mut i: usize = 0;
            assert(model.take(0) =~= Seq::<JsonValue>::empty());
            while i < blocks.len()
                invariant
                    0 <= i <= blocks.len(),
                    model == blocks.deep_view(),
                    out@ == join_lines(text_parts(model.take(i as int))),
                    any == (text_parts(model.take(i as int)).len() > 0),
                decreases blocks.len() - i,
            {
                let block = &blocks[i];
                proof {
                    assert(model.take(i + 1).drop_last() =~= model.take(i as int));
                    assert(model.take(i + 1).last() == block@);
                    reveal_strlit("\n");
                    assert("\n"@ =~= seq!['\n']);
                }
                if block_has_type(block, "text") {
                    match block.str_field("text") {
                        Some(text) => {
                            let ghost before = text_parts(model.take(i as int));
                            if any {
                                out.append("\n");
                            }
                            out.append(text.as_str());
                            any = true;
                            proof {
                                let after = before.push(text@);
                                assert(text_parts(model.take(i + 1)) == after);
                                assert(after.drop_last() =~= before);
                                if before.len() == 0 {
                                    assert(out@ =~= text@);
                                }
                            }
                        },
                        None => {},
                    }
                }
                i = i + 1;
            }
            assert(model.take(blocks.len() as int) =~= model);
            out
        },
        None => String::new(),
    }
}

/// Extracts the thinking blocks of a message payload.
pub fn extract_thinking_blocks(content: &Json) -> (r: Vec<ThinkingBlock>)
    ensures
        r.deep_view() == thinking_blocks(content@),
{
    let mut out: Vec<ThinkingBlock> = Vec::new();
    match content.as_array() {
        Some(blocks) => {
            let ghost model = blocks.deep_view();
            let mut i: usize = 0;
            assert(model.take(0) =~= Seq::<JsonValue>::empty());
            assert(out.deep_view() =~= Seq::<ThinkingBlockView>::empty());
            while i < blocks.len()
                invariant
                    0 <= i <= blocks.len(),
                    model == blocks.deep_view(),
                    out.deep_view() == thinking_parts(model.take(i as int)),
                decreases blocks.len() - i,
            {
                let block = &blocks[i];
                proof {
                    assert(model.take(i + 1).drop_last() =~= model.take(i as int));
                    assert(model.take(i + 1).last() == block@);
                }
                if block_has_type(block, "thinking") {
                    match block.str_field("thinking") {
                        Some(thinking) => {
                            let ghost before = out.deep_view();
                            let item = ThinkingBlock {
                                thinking: thinking.clone(),
                                signature: copy_text(block.str_field("signature")),
                            };
                            let ghost added = item@;
                            out.push(item);
                            assert(out.deep_view() =~= before.push(added));
                        },
                        None => {},
                    }
                }
                i = i + 1;
            }
            assert(model.take(blocks.len() as int) =~= model);
        },
        None => {
            assert(out.deep_view() =~= Seq::<ThinkingBlockView>::empty());
        },
    }
    out
}

/// Extracts the tool invocations of a message payload.
pub fn extract_tool_use_blocks(content: &Json) -> (r: Vec<ToolUseBlock>)
    ensures
        r.deep_view() == tool_use_blocks(content@),
{
    let mut out: Vec<ToolUseBlock> = Vec::new();
    match content.as_array() {
        Some(blocks) => {
            let ghost model = blocks.deep_view();
            let mut i: usize = 0;
            assert(model.take(0) =~= Seq::<JsonValue>::empty());
            assert(out.deep_view() =~= Seq::<ToolUseBlockView>::empty());
            while i < blocks.len()
                invariant
                    0 <= i <= blocks.len(),
                    model == blocks.deep_view(),
                    out.deep_view() == tool_use_parts(model.take(i as int)),
                decreases blocks.len() - i,
            {
                let block = &blocks[i];
                proof {
                    assert(model.take(i + 1).drop_last() =~= model.take(i as int));
                    assert(model.take(i + 1).last() == block@);
                }
                if block_has_type(block, "tool_use") {
                    match (block.str_field("id"), block.str_field("name")) {
                        (Some(id), Some(name)) => {
                            let ghost before = out.deep_view();
                            let input = match block.get("input") {
                                Some(input) => input.clone(),
                                None => {
                                    let empty = Json::Object(Vec::new());
                                    assert(empty@->Object_0 =~= Seq::empty());
                                    empty
                                },
                            };
                            let item = ToolUseBlock {
                                id: id.clone(),
                                name: name.clone(),
                                input,
                                agent_id: None,
                            };
                            let ghost added = item@;
                            out.push(item);
                            assert(out.deep_view() =~= before.push(added));
                        },
                        _ => {},
                    }
                }
                i = i + 1;
            }
            assert(model.take(blocks.len() as int) =~= model);
        },
        None => {
            assert(out.deep_view() =~= Seq::<ToolUseBlockView>::empty());
        },
    }
    out
}

/// Extracts the tool results of a message payload, by invocation id.
pub fn extract_tool_results(content: &Json) -> (r: StringMap<ToolResultBlock>)
    ensures
        r@ == tool_results(content@),
{
    let mut out: StringMap<ToolResultBlock> = StringMap::new();
    match content.as_array() {
        Some(blocks) => {
            let ghost model = blocks.deep_view();
            let mut i: usize = 0;
            assert(model.take(0) =~= Seq::<JsonValue>::empty());
            while i < blocks.len()
                invariant
                    0 <= i <= blocks.len(),
                    model == blocks.deep_view(),
                    out@ == tool_result_parts(model.take(i as int)),
                decreases blocks.len() - i,
            {
                let block = &blocks[i];
                proof {
                    assert(model.take(i + 1).drop_last() =~= model.take(i as int));
                    assert(model.take(i + 1).last() == block@);
                }
                if block_has_type(block, "tool_result") {
                    match block.str_field("tool_use_id") {
                        Some(tool_use_id) => {
                            let content = match block.get("content") {
                                Some(content) => content.clone(),
                                None => Json::Str(String::new()),
                            };
                            let item = ToolResultBlock {
                                tool_use_id: tool_use_id.clone(),
                                content,
                                is_error: block.bool_field("is_error"),
                            };
                            out.insert(tool_use_id.clone(), item);
                        },
                        None => {},
                    }
                }
                i = i + 1;
            }
            assert(model.take(blocks.len() as int) =~= model);
        },
        None => {},
    }
    out
}

} // verus!
