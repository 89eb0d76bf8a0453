//! What the gateway does with each event a pi instance prints: which
//! handlers see it, how it is wrapped for clients, and which follow-ups
//! (session list, artifacts, write checks, end-of-run work) it triggers.

use vstd::prelude::*;
use crate::paths::{join, strip_verbatim, strip_verbatim_prefix};
use crate::lan_auth::{is_lower_hex, random_uuid_hex};
use crate::text::{chars_of, concat_chars, replace_char, replace_chars, same_text, slice_chars, string_of};

verus! {

/// The event types of pi's own lifecycle (forwarded to clients as
/// `event` envelopes).
pub open spec fn lifecycle_types() -> Seq<Seq<char>> {
    seq![
        "agent_start"@, "agent_end"@, "agent_settled"@, "turn_start"@, "turn_end"@, "message_start"@,
        "message_update"@, "message_end"@, "bash_execution_update"@, "tool_execution_start"@,
        "tool_execution_update"@, "tool_execution_end"@, "queue_update"@, "compaction_start"@,
        "compaction_end"@, "auto_retry_start"@, "auto_retry_end"@, "summarization_retry_scheduled"@,
        "summarization_retry_attempt_start"@, "summarization_retry_finished"@, "extension_error"@,
        "extension_ui_request"@,
    ]
}

/// Whether an event type belongs to pi's lifecycle.
pub fn is_lifecycle_event(t: &str) -> (r: bool)
    ensures
        r == lifecycle_types().contains(t@),
{
    let names: [&str; 22] = [
        "agent_start", "agent_end", "agent_settled", "turn_start", "turn_end", "message_start",
        "message_update", "message_end", "bash_execution_update", "tool_execution_start",
        "tool_execution_update", "tool_execution_end", "queue_update", "compaction_start",
        "compaction_end", "auto_retry_start", "auto_retry_end", "summarization_retry_scheduled",
        "summarization_retry_attempt_start", "summarization_retry_finished", "extension_error",
        "extension_ui_request",
    ];
    let ghost all = lifecycle_types();
    assert(forall|k: int| 0 <= k < 22 ==> #[trigger] names@[k]@ == all[k]);
    let mut k: usize = 0;
    while k < 22
        invariant
            all == lifecycle_types(),
            forall|j: int| 0 <= j < 22 ==> #[trigger] names@[j]@ == all[j],
            k <= 22,
            forall|j: int| 0 <= j < k ==> all[j] != t@,
        decreases 22 - k,
    {
        if same_text(names[k], t) {
            assert(all[k as int] == t@);
            return true;
        }
        k = k + 1;
    }
    false
}

/// The work an event asks for.
#[derive(Debug, Clone, Copy, PartialEq, Eq, Structural)]
pub struct EventPlan {
    /// An RPC response: its handler runs first.
    pub handle_response: bool,
    /// Sent to clients as an `event` envelope (pi lifecycle) rather than
    /// under its own type.
    pub lifecycle: bool,
    /// The session list changes (end of a turn or run).
    pub push_list: bool,
    /// The turn's workspace artifacts are captured.
    pub capture_artifacts: bool,
    /// A tool run is checked for writes outside its workspace.
    pub check_write: bool,
    /// The run ended: checkpoint, state refresh and completion notice.
    pub finish_run: bool,
}

/// What happens to an event: the gateway's own `session_cleanup` only
/// refreshes the list (`Err(())`); an event of no instance is dropped
/// (`Ok(None)`); others are tracked and forwarded with the follow-ups of
/// their type.
pub open spec fn plan_of(event_type: Seq<char>, has_instance: bool) -> Result<Option<EventPlan>, ()> {
    if event_type == "session_cleanup"@ {
        Err(())
    } else if !has_instance {
        Ok(None)
    } else {
        Ok(Some(EventPlan {
            handle_response: event_type == "response"@,
            lifecycle: lifecycle_types().contains(event_type),
            push_list: event_type == "agent_end"@ || event_type == "turn_end"@,
            capture_artifacts: event_type == "turn_end"@,
            check_write: event_type == "tool_execution_start"@,
            finish_run: event_type == "agent_end"@,
        }))
    }
}

/// What happens to an event (see [`plan_of`]).
pub fn event_plan(event_type: &str, has_instance: bool) -> (r: Result<Option<EventPlan>, ()>)
    ensures
        r == plan_of(event_type@, has_instance),
{
    if same_text(event_type, "session_cleanup") {
        return Err(());
    }
    if !has_instance {
        return Ok(None);
    }
    Ok(Some(EventPlan {
        handle_response: same_text(event_type, "response"),
        lifecycle: is_lifecycle_event(event_type),
        push_list: same_text(event_type, "agent_end") || same_text(event_type, "turn_end"),
        capture_artifacts: same_text(event_type, "turn_end"),
        check_write: same_text(event_type, "tool_execution_start"),
        finish_run: same_text(event_type, "agent_end"),
    }))
}

/// The tool names whose target path is checked against the workspace.
pub open spec fn is_write_tool(name: Seq<char>) -> bool {
    name == "write"@ || name == "edit"@
}

/// Whether a tool writes files.
pub fn writes_files(tool: &str) -> (r: bool)
    ensures
        r == is_write_tool(tool@),
{
    same_text(tool, "write") || same_text(tool, "edit")
}

/// The absolute target of a write, with `/` separators: an absolute path
/// without its Windows verbatim prefix, or a relative one under the
/// workspace directory.
pub open spec fn write_target_of(raw: Seq<char>, dir: Seq<char>) -> Seq<char> {
    if raw.len() > 0 && raw[0] == '/' {
        replace_char(strip_verbatim(raw), '\\', '/')
    } else {
        replace_char(join(dir, raw), '\\', '/')
    }
}

/// The absolute target of a write (see [`write_target_of`]).
pub fn write_target(raw: &str, dir: &str) -> (r: String)
    ensures
        r@ == write_target_of(raw@, dir@),
{
    let c = chars_of(raw);
    let p = if c.len() > 0 && c[0] == '/' {
        strip_verbatim_prefix(raw)
    } else {
        crate::paths::join_path(dir, raw)
    };
    string_of(&replace_chars(&chars_of(p.as_str()), '\\', '/'))
}

/// Whether a write is put to the user as a write block: the workspace does
/// not let everything through (mode "allow"), the tool writes files, its
/// target lies outside the workspace, and the target was not approved
/// before.
pub fn write_block_needed(mode: &str, tool: &str, inside: bool, approved: bool) -> (r: bool)
    ensures
        r == (mode@ != "allow"@ && is_write_tool(tool@) && !inside && !approved),
{
    !same_text(mode, "allow") && writes_files(tool) && !inside && !approved
}

/// A fresh id made of a three-character tag and 8 random lower-case hex
/// digits (the first digits of a random UUID).
pub fn tagged_id(tag: [char; 3]) -> (r: String)
    ensures
        r@.len() == 11,
        r@.subrange(0, 3) == tag@,
        forall|k: int| 3 <= k < 11 ==> is_lower_hex(#[trigger] r@[k]),
{
    let h = chars_of(random_uuid_hex().as_str());
    let r = concat_chars(&tag, &slice_chars(&h, 0, 8));
    assert(r@.subrange(0, 3) =~= tag@);
    assert forall|k: int| 3 <= k < 11 implies is_lower_hex(#[trigger] r@[k]) by {
        assert(r@[k] == h@[k - 3]);
    }
    string_of(&r)
}

/// A fresh id for a write-block request: `wb_` and 8 random lower-case
/// hex digits.
pub fn write_block_request_id() -> (r: String)
    ensures
        r@.len() == 11,
        r@.subrange(0, 3) == seq!['w', 'b', '_'],
        forall|k: int| 3 <= k < 11 ==> is_lower_hex(#[trigger] r@[k]),
{
    let tag: [char; 3] = ['w', 'b', '_'];
    assert(tag@ =~= seq!['w', 'b', '_']);
    tagged_id(tag)
}

/// A fresh workspace id: `ws_` and 8 random lower-case hex digits.
pub fn new_workspace_id() -> (r: String)
    ensures
        r@.len() == 11,
        r@.subrange(0, 3) == seq!['w', 's', '_'],
        forall|k: int| 3 <= k < 11 ==> is_lower_hex(#[trigger] r@[k]),
{
    let tag: [char; 3] = ['w', 's', '_'];
    assert(tag@ =~= seq!['w', 's', '_']);
    tagged_id(tag)
}

} // verus!
