//! Finding the user message a recall ("fork") refers to. The client knows
//! a message by its text and time; pi needs the entry id in the session
//! file. The caller reads the file; this module decides.

use vstd::prelude::*;
use crate::json::{json_i64, json_i64_at, json_str, json_str_at};
use crate::session::{extract_message_text, message_text, ChatMessage};
use crate::text::{chars_of, same_text};

verus! {

/// A user message of a session file: its entry id, its time in epoch
/// milliseconds (0 when the file has none) and its plain text.
#[derive(Debug, Clone)]
pub struct ForkEntry {
    pub entry_id: String,
    pub timestamp: i64,
    pub text: String,
}

/// Milliseconds within which a time counts as the message's time.
pub const FORK_TOLERANCE_MS: i64 = 10000;

/// The search so far: the entry found by both time and text (which ends
/// the search), the entry closest in time within the tolerance (with its
/// distance), and the first entry found by text.
pub struct ForkScan {
    pub done: Option<(Seq<char>, i64)>,
    pub best: Option<(Seq<char>, i64, int)>,
    pub by_content: Option<(Seq<char>, i64)>,
}

/// The distance of two times.
pub open spec fn distance(a: i64, b: i64) -> int {
    if a >= b {
        a - b
    } else {
        b - a
    }
}

/// The text given to search by: present and not empty.
pub open spec fn usable_content(content: Option<Seq<char>>) -> bool {
    content matches Some(c) && c.len() > 0
}

/// One more entry looked at.
pub open spec fn fork_step(s: ForkScan, e: ForkEntry, content: Option<Seq<char>>, timestamp: Option<i64>) -> ForkScan {
    let text_hit = usable_content(content) && e.text@ == content->0;
    match timestamp {
        Some(ts) => {
            let d = distance(e.timestamp, ts);
            let ts_hit = d <= FORK_TOLERANCE_MS;
            let best = if ts_hit && (s.best matches Some(b) ==> d < b.2) {
                Some((e.entry_id@, e.timestamp, d))
            } else {
                s.best
            };
            if text_hit && ts_hit {
                ForkScan { done: Some((e.entry_id@, e.timestamp)), best: best, by_content: s.by_content }
            } else if text_hit && s.by_content is None {
                ForkScan { done: None, best: best, by_content: Some((e.entry_id@, e.timestamp)) }
            } else {
                ForkScan { done: None, best: best, by_content: s.by_content }
            }
        },
        None => if text_hit && s.by_content is None {
            ForkScan { done: None, best: s.best, by_content: Some((e.entry_id@, e.timestamp)) }
        } else {
            s
        },
    }
}

/// The search over the entries, in file order; it stops at the first
/// entry that matches both time and text.
pub open spec fn fork_scan(entries: Seq<ForkEntry>, content: Option<Seq<char>>, timestamp: Option<i64>) -> ForkScan
    decreases entries.len(),
{
    if entries.len() == 0 {
        ForkScan { done: None, best: None, by_content: None }
    } else {
        let s = fork_scan(entries.drop_last(), content, timestamp);
        if s.done is Some {
            s
        } else {
            fork_step(s, entries.last(), content, timestamp)
        }
    }
}

/// The message a recall refers to: one matching both time (within the
/// tolerance) and text; else the one closest in time within the
/// tolerance (the first of equally close ones); else the first with the
/// text.
pub open spec fn fork_target(entries: Seq<ForkEntry>, content: Option<Seq<char>>, timestamp: Option<i64>) -> Option<(Seq<char>, i64)> {
    let s = fork_scan(entries, content, timestamp);
    match s.done {
        Some(d) => Some(d),
        None => match s.best {
            Some(b) => Some((b.0, b.1)),
            None => s.by_content,
        },
    }
}

/// Once both time and text matched, later entries change nothing.
pub proof fn lemma_scan_done(entries: Seq<ForkEntry>, content: Option<Seq<char>>, timestamp: Option<i64>, k: int)
    requires
        0 <= k <= entries.len(),
        fork_scan(entries.subrange(0, k), content, timestamp).done is Some,
    ensures
        fork_scan(entries, content, timestamp).done == fork_scan(entries.subrange(0, k), content, timestamp).done,
    decreases entries.len() - k,
{
    if k == entries.len() {
        assert(entries.subrange(0, k) =~= entries);
    } else {
        assert(entries.subrange(0, k + 1).drop_last() =~= entries.subrange(0, k));
        lemma_scan_done(entries, content, timestamp, k + 1);
    }
}

/// Times of the entries can be compared with the requested time.
pub open spec fn times_comparable(entries: Seq<ForkEntry>, timestamp: Option<i64>) -> bool {
    timestamp matches Some(ts) ==> forall|k: int|
        0 <= k < entries.len() ==> i64::MIN < (#[trigger] entries[k]).timestamp - ts <= i64::MAX
}

/// The entry id and time of the user message a recall refers to (see
/// [`fork_target`]).
pub fn resolve_fork_target(entries: &[ForkEntry], content: Option<&str>, timestamp: Option<i64>) -> (r: Option<(String, i64)>)
    requires
        times_comparable(entries@, timestamp),
    ensures
        match r {
            Some((e, t)) => fork_target(
                entries@,
                match content {
                    Some(c) => Some(c@),
                    None => None,
                },
                timestamp,
            ) == Some((e@, t)),
            None => fork_target(
                entries@,
                match content {
                    Some(c) => Some(c@),
                    None => None,
                },
                timestamp,
            ) is None,
        },
{
    let ghost cv: Option<Seq<char>> = match content {
        Some(c) => Some(c@),
        None => None,
    };
    let mut best: Option<(usize, i64)> = None;
    let mut by_content: Option<usize> = None;
    let mut k: usize = 0;
    while k < entries.len()
        invariant
            times_comparable(entries@, timestamp),
            cv == match content {
                Some(c) => Some(c@),
                None => None,
            },
            k <= entries@.len(),
            fork_scan(entries@.subrange(0, k as int), cv, timestamp).done is None,
            ({
                let s = fork_scan(entries@.subrange(0, k as int), cv, timestamp);
                &&& match best {
                    Some((i, d)) => i < k && s.best == Some((entries@[i as int].entry_id@, entries@[i as int].timestamp, d as int)),
                    None => s.best is None,
                }
                &&& match by_content {
                    Some(i) => i < k && s.by_content == Some((entries@[i as int].entry_id@, entries@[i as int].timestamp)),
                    None => s.by_content is None,
                }
            }),
        decreases entries@.len() - k,
    {
        let ghost pre = entries@.subrange(0, k as int);
        assert(entries@.subrange(0, k + 1).drop_last() =~= pre);
        assert(entries@.subrange(0, k + 1).last() == entries@[k as int]);
        let e = &entries[k];
        let text_hit = match content {
            Some(c) => chars_of(c).len() > 0 && same_text(e.text.as_str(), c),
            None => false,
        };
        match timestamp {
            Some(ts) => {
                assert(i64::MIN < entries@[k as int].timestamp - ts <= i64::MAX);
                let diff = e.timestamp - ts;
                let d = if diff >= 0 { diff } else { -diff };
                let ts_hit = d <= FORK_TOLERANCE_MS;
                let closer = match best {
                    Some((_, bd)) => d < bd,
                    None => true,
                };
                if ts_hit && closer {
                    best = Some((k, d));
                }
                if text_hit && ts_hit {
                    proof {
                        lemma_scan_done(entries@, cv, timestamp, k + 1);
                    }
                    return Some((e.entry_id.clone(), e.timestamp));
                }
                if text_hit && by_content.is_none() {
                    by_content = Some(k);
                }
            },
            None => {
                if text_hit && by_content.is_none() {
                    by_content = Some(k);
                }
            },
        }
        k = k + 1;
    }
    assert(entries@.subrange(0, entries@.len() as int) =~= entries@);
    match best {
        Some((i, _)) => Some((entries[i].entry_id.clone(), entries[i].timestamp)),
        None => match by_content {
            Some(i) => Some((entries[i].entry_id.clone(), entries[i].timestamp)),
            None => None,
        },
    }
}

/// The time recorded for an entry of a session file: that of the first
/// line with this id (`None` when no line has it, or it has no time).
pub open spec fn entry_time(lines: Seq<(String, Option<i64>)>, entry_id: Seq<char>) -> Option<i64>
    decreases lines.len(),
{
    if lines.len() == 0 {
        None
    } else if lines[0].0@ == entry_id {
        lines[0].1
    } else {
        entry_time(lines.drop_first(), entry_id)
    }
}

/// The time recorded for an entry, given each line's id and message time.
pub fn entry_timestamp(lines: &[(String, Option<i64>)], entry_id: &str) -> (r: Option<i64>)
    ensures
        r == entry_time(lines@, entry_id@),
{
    let mut k: usize = 0;
    assert(lines@.skip(0) =~= lines@);
    while k < lines.len()
        invariant
            k <= lines@.len(),
            entry_time(lines@, entry_id@) == entry_time(lines@.skip(k as int), entry_id@),
        decreases lines@.len() - k,
    {
        assert(lines@.skip(k as int)[0] == lines@[k as int]);
        if same_text(lines[k].0.as_str(), entry_id) {
            return lines[k].1;
        }
        assert(lines@.skip(k as int).drop_first() =~= lines@.skip(k + 1));
        k = k + 1;
    }
    None
}

// ─── Reading a session file ────────────────────────────────────────────────

/// A line of a session file records a user message with an entry id.
pub open spec fn is_user_entry(line: Seq<char>) -> bool {
    &&& json_str_at(line, "/type"@) == Some("message"@)
    &&& json_str_at(line, "/message/role"@) == Some("user"@)
    &&& json_str_at(line, "/id"@) is Some
}

/// The time a line records for its message (0 when it records none).
pub open spec fn line_time(line: Seq<char>) -> i64 {
    match json_i64_at(line, "/message/timestamp"@) {
        Some(t) => t,
        None => 0,
    }
}

/// The user message a line of a session file records, if it records one
/// with an entry id; `message` is the line's message as read by the caller,
/// from which the text is taken.
pub fn fork_entry_of(line: &str, message: &ChatMessage) -> (r: Option<ForkEntry>)
    ensures
        r is Some <==> is_user_entry(line@),
        r matches Some(e) ==> {
            &&& Some(e.entry_id@) == json_str_at(line@, "/id"@)
            &&& e.timestamp == line_time(line@)
            &&& e.text@ == message_text(message.content@)
        },
{
    let kind = json_str(line, "/type");
    let is_message = match &kind {
        Some(t) => same_text(t.as_str(), "message"),
        None => false,
    };
    if !is_message {
        return None;
    }
    let role = json_str(line, "/message/role");
    let is_user = match &role {
        Some(t) => same_text(t.as_str(), "user"),
        None => false,
    };
    if !is_user {
        return None;
    }
    match json_str(line, "/id") {
        Some(entry_id) => {
            let timestamp = match json_i64(line, "/message/timestamp") {
                Some(t) => t,
                None => 0,
            };
            Some(ForkEntry { entry_id, timestamp, text: extract_message_text(message) })
        },
        None => None,
    }
}

/// The entry id a line of a session file records, with the time it
/// records for its message.
pub fn id_time_of(line: &str) -> (r: Option<(String, Option<i64>)>)
    ensures
        match r {
            Some((id, t)) => json_str_at(line@, "/id"@) == Some(id@) && t == json_i64_at(line@, "/message/timestamp"@),
            None => json_str_at(line@, "/id"@) is None,
        },
{
    match json_str(line, "/id") {
        Some(id) => Some((id, json_i64(line, "/message/timestamp"))),
        None => None,
    }
}

/// Whether the times of the entries can be compared with the requested
/// time (see [`times_comparable`]).
pub fn times_comparable_exec(entries: &[ForkEntry], timestamp: Option<i64>) -> (r: bool)
    ensures
        r == times_comparable(entries@, timestamp),
{
    match timestamp {
        None => true,
        Some(ts) => {
            let mut k: usize = 0;
            while k < entries.len()
                invariant
                    k <= entries@.len(),
                    timestamp == Some(ts),
                    forall|j: int| 0 <= j < k ==> i64::MIN < (#[trigger] entries@[j]).timestamp - ts <= i64::MAX,
                decreases entries@.len() - k,
            {
                let t = entries[k].timestamp;
                let fits = if ts >= 0 { t > i64::MIN + ts } else { t <= i64::MAX + ts };
                if !fits {
                    assert(!(i64::MIN < entries@[k as int].timestamp - ts <= i64::MAX));
                    return false;
                }
                k = k + 1;
            }
            true
        },
    }
}

/// The entry id and time of the user message a recall refers to, or none
/// when the requested time is so far from an entry's that their distance
/// does not fit in `i64`.
pub fn resolve_fork_target_checked(entries: &[ForkEntry], content: Option<&str>, timestamp: Option<i64>) -> (r: Option<(String, i64)>)
    ensures
        !times_comparable(entries@, timestamp) ==> r is None,
        times_comparable(entries@, timestamp) ==> match r {
            Some((e, t)) => fork_target(
                entries@,
                match content {
                    Some(c) => Some(c@),
                    None => None,
                },
                timestamp,
            ) == Some((e@, t)),
            None => fork_target(
                entries@,
                match content {
                    Some(c) => Some(c@),
                    None => None,
                },
                timestamp,
            ) is None,
        },
{
    if !times_comparable_exec(entries, timestamp) {
        return None;
    }
    resolve_fork_target(entries, content, timestamp)
}

} // verus!
