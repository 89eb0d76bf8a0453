//! The session manager: every pi instance the gateway runs, keyed by its
//! instance id, with the messages seen so far, who is watching it, its
//! activity state, idle expiry and automatic naming.
//!
//! Time enters as a [`Moment`] handed in by the caller: a monotonic
//! millisecond reading for idle expiry and wall-clock seconds for display.

use vstd::prelude::*;
use crate::rpc::opt_view;
use crate::text::same_text;
use vstd::utf8::encode_utf8;
use crate::session::{
    ChatMessage, ContentView, MessageContent, MessageView, ToolExecution, copy_messages, extract_message_text,
    message_text, message_views,
};
use crate::title::{maybe_generate, session_title};

verus! {

/// Activity state of a managed session.
#[derive(Debug, Clone, Copy, PartialEq, Eq, Structural)]
pub enum SessionActivity {
    Idle,
    Busy,
    WaitingReview,
    Unloaded,
}

/// A reading of the clocks: monotonic milliseconds (for idle expiry) and
/// wall-clock seconds since the epoch (for display).
#[derive(Debug, Clone, Copy, PartialEq, Eq, Structural)]
pub struct Moment {
    pub mono_ms: u64,
    pub epoch_secs: u64,
}

/// Pi's own session state, as last reported by `get_state`.
#[derive(Debug, Clone)]
pub struct PiSessionState {
    pub session_file: Option<String>,
    pub session_id: Option<String>,
    pub session_name: Option<String>,
    pub model_id: Option<String>,
    pub model_name: Option<String>,
    pub model_provider: Option<String>,
    pub thinking_level: Option<String>,
    pub is_streaming: bool,
    pub is_compacting: bool,
    pub message_count: u32,
    pub pending_message_count: u32,
    pub context_window: Option<u32>,
}

/// No state reported yet: nothing known, nothing streaming, no messages.
pub open spec fn no_pi_state() -> PiSessionState {
    PiSessionState {
        session_file: None,
        session_id: None,
        session_name: None,
        model_id: None,
        model_name: None,
        model_provider: None,
        thinking_level: None,
        is_streaming: false,
        is_compacting: false,
        message_count: 0,
        pending_message_count: 0,
        context_window: None,
    }
}

impl Default for PiSessionState {
    fn default() -> (r: Self)
        ensures
            r == no_pi_state(),
    {
        PiSessionState {
            session_file: None,
            session_id: None,
            session_name: None,
            model_id: None,
            model_name: None,
            model_provider: None,
            thinking_level: None,
            is_streaming: false,
            is_compacting: false,
            message_count: 0,
            pending_message_count: 0,
            context_window: None,
        }
    }
}

/// Idle timeout used when none is configured.
pub const DEFAULT_IDLE_TIMEOUT_SECS: u64 = 600;

/// One pi instance as the gateway tracks it.
pub struct ManagedSession {
    pub instance_id: String,
    pub cwd: String,
    pub activity: SessionActivity,
    /// Monotonic milliseconds at which the last subscriber left.
    pub disconnected_since: Option<u64>,
    pub messages: Vec<ChatMessage>,
    pub partial_message: Option<ChatMessage>,
    /// Client ids watching this session.
    pub subscribers: Vec<u64>,
    /// Monotonic milliseconds of the last activity.
    pub last_active: u64,
    /// Wall-clock seconds of the last activity.
    pub last_active_epoch: u64,
    pub message_seq: u64,
    pub pi_state: Option<PiSessionState>,
    pub session_name: Option<String>,
    /// Completed turns (drives the automatic title).
    pub turn_count: u32,
    /// A title was generated or set by the user.
    pub title_set: bool,
    /// User message texts kept for the automatic title.
    pub title_candidates: Vec<String>,
}

/// Abstract value of a managed session (its instance id is the key it is
/// filed under).
pub struct SessionView {
    pub cwd: Seq<char>,
    pub activity: SessionActivity,
    pub disconnected_since: Option<u64>,
    pub messages: Seq<MessageView>,
    pub partial: Option<MessageView>,
    pub subscribers: Set<u64>,
    pub last_active: u64,
    pub last_active_epoch: u64,
    pub message_seq: u64,
    pub pi_state: Option<PiSessionState>,
    pub session_name: Option<Seq<char>>,
    pub turn_count: u32,
    pub title_set: bool,
    pub candidates: Seq<Seq<char>>,
}

/// The client ids held in a list.
pub open spec fn members(v: Seq<u64>) -> Set<u64> {
    Set::new(|c: u64| v.contains(c))
}

/// The abstract values of a list of strings.
pub open spec fn string_views(v: Seq<String>) -> Seq<Seq<char>> {
    v.map_values(|s: String| s@)
}

impl View for ManagedSession {
    type V = SessionView;

    open spec fn view(&self) -> SessionView {
        SessionView {
            cwd: self.cwd@,
            activity: self.activity,
            disconnected_since: self.disconnected_since,
            messages: message_views(self.messages@),
            partial: match self.partial_message {
                Some(m) => Some(m@),
                None => None,
            },
            subscribers: members(self.subscribers@),
            last_active: self.last_active,
            last_active_epoch: self.last_active_epoch,
            message_seq: self.message_seq,
            pi_state: self.pi_state,
            session_name: opt_view(self.session_name),
            turn_count: self.turn_count,
            title_set: self.title_set,
            candidates: string_views(self.title_candidates@),
        }
    }
}

/// A loaded session counts its messages: its sequence number is the
/// number of messages it holds.
pub open spec fn session_ok(s: SessionView) -> bool {
    s.activity != SessionActivity::Unloaded ==> s.message_seq == s.messages.len()
}

/// The session that registering an instance creates.
pub open spec fn fresh_session(cwd: Seq<char>, client_id: u64, now: Moment) -> SessionView {
    SessionView {
        cwd: cwd,
        activity: SessionActivity::Idle,
        disconnected_since: None,
        messages: seq![],
        partial: None,
        subscribers: set![client_id],
        last_active: now.mono_ms,
        last_active_epoch: now.epoch_secs,
        message_seq: 0,
        pi_state: None,
        session_name: None,
        turn_count: 0,
        title_set: false,
        candidates: seq![],
    }
}

/// A client attaches: it joins the subscribers, the session is no longer
/// disconnected, and it was active at `now`.
pub open spec fn attached(s: SessionView, client_id: u64, now: Moment) -> SessionView {
    SessionView {
        subscribers: s.subscribers.insert(client_id),
        disconnected_since: None,
        last_active: now.mono_ms,
        last_active_epoch: now.epoch_secs,
        ..s
    }
}

/// Whether a client leaving makes the session disconnected: it was the
/// last subscriber and the session was not disconnected already.
pub open spec fn goes_idle(s: SessionView, client_id: u64) -> bool {
    s.subscribers.remove(client_id).is_empty() && s.disconnected_since is None
}

/// A client leaves: it is dropped from the subscribers; when nobody is
/// left the session is disconnected from `now` on (an earlier disconnect
/// time is kept).
pub open spec fn detached(s: SessionView, client_id: u64, now: Moment) -> SessionView {
    SessionView {
        subscribers: s.subscribers.remove(client_id),
        disconnected_since: if goes_idle(s, client_id) {
            Some(now.mono_ms)
        } else {
            s.disconnected_since
        },
        ..s
    }
}

fn contains_id(v: &Vec<u64>, c: u64) -> (r: bool)
    ensures
        r == v@.contains(c),
{
    let mut i: usize = 0;
    while i < v.len()
        invariant
            i <= v@.len(),
            forall|j: int| 0 <= j < i ==> v@[j] != c,
        decreases v@.len() - i,
    {
        if v[i] == c {
            return true;
        }
        i = i + 1;
    }
    false
}

fn add_subscriber(v: &mut Vec<u64>, c: u64)
    ensures
        members(final(v)@) == members(old(v)@).insert(c),
{
    if !contains_id(v, c) {
        v.push(c);
        assert forall|x: u64| members(v@).contains(x) == members(old(v)@).insert(c).contains(x) by {
            if old(v)@.contains(x) {
                let k = choose|k: int| 0 <= k < old(v)@.len() && old(v)@[k] == x;
                assert(v@[k] == x);
            }
            if x == c {
                assert(v@[v@.len() - 1] == c);
            }
            if v@.contains(x) && x != c {
                let k = choose|k: int| 0 <= k < v@.len() && v@[k] == x;
                assert(old(v)@[k] == x);
            }
        }
    }
    assert(members(v@) =~= members(old(v)@).insert(c));
}

fn without_id(v: &Vec<u64>, c: u64) -> (r: Vec<u64>)
    ensures
        members(r@) == members(v@).remove(c),
{
    let mut r: Vec<u64> = Vec::new();
    let mut i: usize = 0;
    while i < v.len()
        invariant
            i <= v@.len(),
            forall|j: int| 0 <= j < r@.len() ==> r@[j] != c && v@.subrange(0, i as int).contains(#[trigger] r@[j]),
            forall|j: int| 0 <= j < i && v@[j] != c ==> r@.contains(#[trigger] v@[j]),
        decreases v@.len() - i,
    {
        let x = v[i];
        let ghost r0 = r@;
        if x != c {
            r.push(x);
            assert(r@[r@.len() - 1] == x);
        }
        assert forall|j: int| 0 <= j < r@.len() implies r@[j] != c && v@.subrange(0, i + 1).contains(#[trigger] r@[j]) by {
            if j < r@.len() - 1 || x == c {
                let k = choose|k: int| 0 <= k < i && v@.subrange(0, i as int)[k] == r@[j];
                assert(v@.subrange(0, i + 1)[k] == r@[j]);
            } else {
                assert(v@.subrange(0, i + 1)[i as int] == x);
            }
        }
        assert forall|j: int| 0 <= j < i + 1 && v@[j] != c implies r@.contains(#[trigger] v@[j]) by {
            if j == i {
                assert(r@[r@.len() - 1] == x);
            } else {
                assert(r0.contains(v@[j]));
                let k = choose|k: int| 0 <= k < r0.len() && r0[k] == v@[j];
                assert(r@[k] == v@[j]);
            }
        }
        i = i + 1;
    }
    assert forall|x: u64| members(r@).contains(x) == members(v@).remove(c).contains(x) by {
        if r@.contains(x) {
            let j = choose|j: int| 0 <= j < r@.len() && r@[j] == x;
            assert(v@.subrange(0, i as int).contains(r@[j]));
            let k = choose|k: int| 0 <= k < i && v@.subrange(0, i as int)[k] == r@[j];
            assert(v@[k] == x);
        }
        if v@.contains(x) && x != c {
            let k = choose|k: int| 0 <= k < v@.len() && v@[k] == x;
            assert(r@.contains(v@[k]));
        }
    }
    assert(members(r@) =~= members(v@).remove(c));
    r
}

proof fn lemma_members_empty(v: Seq<u64>)
    ensures
        members(v).is_empty() == (v.len() == 0),
{
    if v.len() > 0 {
        assert(members(v).contains(v[0]));
    } else {
        assert(members(v) =~= Set::<u64>::empty());
    }
}

fn fresh_managed(instance_id: &str, cwd: &str, client_id: u64, now: Moment) -> (r: ManagedSession)
    ensures
        r.instance_id@ == instance_id@,
        r@ == fresh_session(cwd@, client_id, now),
{
    let mut subscribers: Vec<u64> = Vec::new();
    subscribers.push(client_id);
    let r = ManagedSession {
        instance_id: instance_id.to_string(),
        cwd: cwd.to_string(),
        activity: SessionActivity::Idle,
        disconnected_since: None,
        messages: Vec::new(),
        partial_message: None,
        subscribers: subscribers,
        last_active: now.mono_ms,
        last_active_epoch: now.epoch_secs,
        message_seq: 0,
        pi_state: None,
        session_name: None,
        turn_count: 0,
        title_set: false,
        title_candidates: Vec::new(),
    };
    assert forall|x: u64| members(r.subscribers@).contains(x) == set![client_id].contains(x) by {
        if x == client_id {
            assert(r.subscribers@[0] == client_id);
        }
    }
    assert(members(r.subscribers@) =~= set![client_id]);
    assert(message_views(r.messages@) =~= seq![]);
    assert(string_views(r.title_candidates@) =~= seq![]);
    r
}

fn attach(s: &mut ManagedSession, client_id: u64, now: Moment)
    ensures
        final(s)@ == attached(old(s)@, client_id, now),
        final(s).instance_id == old(s).instance_id,
{
    add_subscriber(&mut s.subscribers, client_id);
    s.disconnected_since = None;
    s.last_active = now.mono_ms;
    s.last_active_epoch = now.epoch_secs;
}

fn detach(s: &mut ManagedSession, client_id: u64, now: Moment) -> (marked: bool)
    ensures
        final(s)@ == detached(old(s)@, client_id, now),
        final(s).instance_id == old(s).instance_id,
        marked == goes_idle(old(s)@, client_id),
{
    let rest = without_id(&s.subscribers, client_id);
    s.subscribers = rest;
    proof {
        lemma_members_empty(s.subscribers@);
    }
    if s.subscribers.len() == 0 && s.disconnected_since.is_none() {
        s.disconnected_since = Some(now.mono_ms);
        true
    } else {
        false
    }
}

/// A session once unloaded: its messages and the message being streamed
/// are dropped.
pub open spec fn unloaded(s: SessionView) -> SessionView {
    SessionView { activity: SessionActivity::Unloaded, messages: seq![], partial: None, ..s }
}

/// Milliseconds from `since` to `now` (none when `since` is later).
pub open spec fn elapsed_ms(since: u64, now_ms: u64) -> int {
    if now_ms >= since {
        now_ms - since
    } else {
        0
    }
}

/// A loaded session whose last watcher left longer than the idle timeout
/// ago.
pub open spec fn expired(s: SessionView, now_ms: u64, timeout_secs: u64) -> bool {
    &&& s.activity != SessionActivity::Unloaded
    &&& s.disconnected_since matches Some(t) && elapsed_ms(t, now_ms) > timeout_secs * 1000
}

// ─── Events ────────────────────────────────────────────────────────────────

/// The pi events the manager follows. Messages arrive as parsed values; an
/// event of another type is `Other`.
pub enum TrackedEvent {
    MessageStart { message: Option<ChatMessage> },
    MessageUpdate { message: Option<ChatMessage> },
    MessageEnd { message: Option<ChatMessage> },
    MirrorSync { messages: Option<Vec<ChatMessage>> },
    TurnEnd,
    AgentEnd,
    ToolExecutionStart { tool_call_id: Option<String>, tool_name: Option<String> },
    Other,
}

/// The session was active at `now`.
pub open spec fn touched(s: SessionView, now: Moment) -> SessionView {
    SessionView { last_active: now.mono_ms, last_active_epoch: now.epoch_secs, ..s }
}

/// The message shown while a reply streams in: a role and empty content.
pub open spec fn placeholder(role: Seq<char>) -> MessageView {
    MessageView { role: Some(role), content: ContentView::Text(seq![]), raw: None, tools: seq![] }
}

/// The role a started message is shown with (`assistant` unless the
/// event names one).
pub open spec fn start_role(message: Option<ChatMessage>) -> Seq<char> {
    match message {
        Some(m) => match m@.role {
            Some(r) => r,
            None => "assistant"@,
        },
        None => "assistant"@,
    }
}

/// The text of an optional string, empty when absent.
pub open spec fn text_or_empty(s: Option<String>) -> Seq<char> {
    match s {
        Some(x) => x@,
        None => seq![],
    }
}

/// The turn counter after one more turn (it wraps at the top of `u32`).
pub open spec fn next_turn(n: u32) -> u32 {
    if n == u32::MAX {
        0
    } else {
        (n + 1) as u32
    }
}

/// What an event does to a loaded session: the new session, whether the
/// session list changed, and the automatic title given to it, if any.
pub open spec fn event_result(s: SessionView, ev: TrackedEvent) -> (SessionView, bool, Option<Seq<char>>) {
    match ev {
        TrackedEvent::MessageStart { message } => (
            SessionView {
                partial: Some(placeholder(start_role(message))),
                activity: SessionActivity::Busy,
                ..s
            },
            s.activity != SessionActivity::Busy,
            None,
        ),
        TrackedEvent::MessageUpdate { message } => match message {
            Some(m) => (SessionView { partial: Some(m@), ..s }, false, None),
            None => (s, false, None),
        },
        TrackedEvent::MessageEnd { message } => {
            let msg = match message {
                Some(m) => Some(m@),
                None => s.partial,
            };
            match msg {
                None => (SessionView { partial: None, ..s }, false, None),
                Some(m) => {
                    let user = m.role == Some("user"@);
                    let text = message_text(m.content);
                    let keep = user && !s.title_set && encode_utf8(text).len() >= 10;
                    (
                        SessionView {
                            activity: if user { SessionActivity::Busy } else { s.activity },
                            candidates: if keep { s.candidates.push(text) } else { s.candidates },
                            messages: s.messages.push(m),
                            message_seq: (s.message_seq + 1) as u64,
                            partial: None,
                            ..s
                        },
                        user && s.activity != SessionActivity::Busy,
                        None,
                    )
                },
            }
        },
        TrackedEvent::MirrorSync { messages } => match messages {
            Some(ms) => (
                SessionView {
                    messages: message_views(ms@),
                    partial: None,
                    message_seq: ms@.len() as u64,
                    ..s
                },
                false,
                None,
            ),
            None => (s, false, None),
        },
        TrackedEvent::TurnEnd => turn_result(s, true),
        TrackedEvent::AgentEnd => turn_result(s, false),
        TrackedEvent::ToolExecutionStart { tool_call_id, tool_name } => match s.partial {
            Some(p) => (
                SessionView {
                    partial: Some(MessageView {
                        tools: p.tools.push((text_or_empty(tool_call_id), text_or_empty(tool_name))),
                        ..p
                    }),
                    ..s
                },
                false,
                None,
            ),
            None => (s, false, None),
        },
        TrackedEvent::Other => (s, false, None),
    }
}

/// The end of a turn (or of the agent's run): the session goes idle when
/// someone watches it and waits for review otherwise; the streamed message
/// is kept; at a turn's end the turn is counted and, from the second turn
/// on, an untitled session with candidate texts gets its automatic title.
pub open spec fn turn_result(s: SessionView, counts: bool) -> (SessionView, bool, Option<Seq<char>>) {
    let next = if s.subscribers.is_empty() { SessionActivity::WaitingReview } else { SessionActivity::Idle };
    let s1 = match s.partial {
        Some(p) => SessionView {
            activity: next,
            messages: s.messages.push(p),
            message_seq: (s.message_seq + 1) as u64,
            partial: None,
            ..s
        },
        None => SessionView { activity: next, ..s },
    };
    if counts {
        let turns = next_turn(s.turn_count);
        let title = if !s.title_set && turns >= 2 && s.candidates.len() > 0 {
            session_title(s.candidates)
        } else {
            None
        };
        match title {
            Some(t) => (
                SessionView { turn_count: turns, session_name: Some(t), title_set: true, ..s1 },
                true,
                Some(t),
            ),
            None => (SessionView { turn_count: turns, ..s1 }, s.activity != next, None),
        }
    } else {
        (s1, s.activity != next, None)
    }
}

fn string_or_empty(s: Option<String>) -> (r: String)
    ensures
        r@ == text_or_empty(s),
{
    match s {
        Some(x) => x,
        None => String::new(),
    }
}

fn is_user(m: &ChatMessage) -> (r: bool)
    ensures
        r == (m@.role == Some("user"@)),
{
    match &m.role {
        Some(r) => same_text(r.as_str(), "user"),
        None => false,
    }
}

/// The text of the last assistant message (empty when there is none).
pub open spec fn last_assistant_text(msgs: Seq<MessageView>) -> Seq<char>
    decreases msgs.len(),
{
    if msgs.len() == 0 {
        seq![]
    } else if msgs.last().role == Some("assistant"@) {
        message_text(msgs.last().content)
    } else {
        last_assistant_text(msgs.drop_last())
    }
}

fn is_assistant(m: &ChatMessage) -> (r: bool)
    ensures
        r == (m@.role == Some("assistant"@)),
{
    match &m.role {
        Some(r) => same_text(r.as_str(), "assistant"),
        None => false,
    }
}

fn end_turn(s: &mut ManagedSession, counts: bool) -> (r: (bool, Option<String>))
    requires
        session_ok(old(s)@),
        old(s).activity != SessionActivity::Unloaded,
    ensures
        (final(s)@, r.0, opt_view(r.1)) == turn_result(old(s)@, counts),
        final(s).instance_id == old(s).instance_id,
        session_ok(final(s)@),
{
    proof {
        lemma_members_empty(s.subscribers@);
    }
    let next = if s.subscribers.len() == 0 { SessionActivity::WaitingReview } else { SessionActivity::Idle };
    let changed = s.activity != next;
    s.activity = next;
    match s.partial_message.take() {
        Some(p) => {
            let ghost pv = p@;
            s.messages.push(p);
            let n = s.messages.len();
            assert(message_views(old(s).messages@).len() == old(s).messages@.len());
            assert(s.message_seq as int == n - 1);
            s.message_seq = s.message_seq + 1;
            proof {
                assert(message_views(s.messages@) =~= message_views(old(s).messages@).push(pv));
            }
        },
        None => {},
    }
    if counts {
        let turns = if s.turn_count == u32::MAX { 0 } else { s.turn_count + 1 };
        s.turn_count = turns;
        let title = maybe_generate(s.instance_id.as_str(), turns, s.title_set, s.title_candidates.as_slice());
        proof {
            assert(s.title_candidates@.len() == string_views(s.title_candidates@).len());
        }
        match title {
            Some(t) => {
                s.session_name = Some(t.clone());
                s.title_set = true;
                (true, Some(t))
            },
            None => (changed, None),
        }
    } else {
        (changed, None)
    }
}

fn apply_event(s: &mut ManagedSession, ev: TrackedEvent) -> (r: (bool, Option<String>))
    requires
        session_ok(old(s)@),
        old(s).activity != SessionActivity::Unloaded,
    ensures
        (final(s)@, r.0, opt_view(r.1)) == event_result(old(s)@, ev),
        final(s).instance_id == old(s).instance_id,
        session_ok(final(s)@),
{
    match ev {
        TrackedEvent::MessageStart { message } => {
            let role = match message {
                Some(m) => match m.role {
                    Some(r) => r,
                    None => "assistant".to_string(),
                },
                None => "assistant".to_string(),
            };
            let placeholder_msg = ChatMessage {
                role: Some(role),
                content: MessageContent::Text(String::new()),
                raw: None,
                tool_executions: Vec::new(),
            };
            assert(placeholder_msg.tool_executions@.map_values(|t: ToolExecution| t@) =~= seq![]);
            s.partial_message = Some(placeholder_msg);
            let changed = s.activity != SessionActivity::Busy;
            s.activity = SessionActivity::Busy;
            (changed, None)
        },
        TrackedEvent::MessageUpdate { message } => {
            match message {
                Some(m) => {
                    s.partial_message = Some(m);
                },
                None => {},
            }
            (false, None)
        },
        TrackedEvent::MessageEnd { message } => {
            let partial = s.partial_message.take();
            let msg = match message {
                Some(m) => Some(m),
                None => partial,
            };
            match msg {
                None => (false, None),
                Some(m) => {
                    let ghost mv = m@;
                    let user = is_user(&m);
                    let mut changed = false;
                    if user {
                        changed = s.activity != SessionActivity::Busy;
                        s.activity = SessionActivity::Busy;
                        if !s.title_set {
                            let text = extract_message_text(&m);
                            if text.as_str().as_bytes().len() >= 10 {
                                let ghost tv = text@;
                                s.title_candidates.push(text);
                                proof {
                                    assert(string_views(s.title_candidates@) =~= string_views(old(s).title_candidates@).push(tv));
                                }
                            }
                        }
                    }
                    s.messages.push(m);
                    let n = s.messages.len();
                    assert(message_views(old(s).messages@).len() == old(s).messages@.len());
                    assert(s.message_seq as int == n - 1);
                    s.message_seq = s.message_seq + 1;
                    proof {
                        assert(message_views(s.messages@) =~= message_views(old(s).messages@).push(mv));
                    }
                    (changed, None)
                },
            }
        },
        TrackedEvent::MirrorSync { messages } => {
            match messages {
                Some(ms) => {
                    let n = ms.len() as u64;
                    s.messages = ms;
                    s.partial_message = None;
                    s.message_seq = n;
                },
                None => {},
            }
            (false, None)
        },
        TrackedEvent::TurnEnd => end_turn(s, true),
        TrackedEvent::AgentEnd => end_turn(s, false),
        TrackedEvent::ToolExecutionStart { tool_call_id, tool_name } => {
            match s.partial_message.take() {
                Some(p) => {
                    let mut p = p;
                    let ghost before = p@;
                    let t = ToolExecution { id: string_or_empty(tool_call_id), name: string_or_empty(tool_name) };
                    let ghost tv = t@;
                    p.tool_executions.push(t);
                    proof {
                        assert(p.tool_executions@.map_values(|t: ToolExecution| t@) =~= before.tools.push(tv));
                    }
                    s.partial_message = Some(p);
                },
                None => {},
            }
            (false, None)
        },
        TrackedEvent::Other => (false, None),
    }
}

// ─── The table of sessions ─────────────────────────────────────────────────

/// No two sessions share an instance id.
pub open spec fn ids_unique(s: Seq<ManagedSession>) -> bool {
    forall|i: int, j: int|
        0 <= i < s.len() && 0 <= j < s.len() && i != j ==> #[trigger] s[i].instance_id@ != #[trigger] s[j].instance_id@
}

/// Some session has this instance id.
pub open spec fn has_session(s: Seq<ManagedSession>, id: Seq<char>) -> bool {
    exists|i: int| 0 <= i < s.len() && #[trigger] s[i].instance_id@ == id
}

/// The position of the session with this instance id.
pub open spec fn slot_of(s: Seq<ManagedSession>, id: Seq<char>) -> int {
    choose|i: int| 0 <= i < s.len() && #[trigger] s[i].instance_id@ == id
}

/// The sessions as a map from instance id to abstract session.
pub open spec fn table(s: Seq<ManagedSession>) -> Map<Seq<char>, SessionView> {
    Map::new(|id: Seq<char>| has_session(s, id), |id: Seq<char>| s[slot_of(s, id)]@)
}

proof fn lemma_table_at(s: Seq<ManagedSession>, i: int)
    requires
        ids_unique(s),
        0 <= i < s.len(),
    ensures
        table(s).contains_key(s[i].instance_id@),
        table(s)[s[i].instance_id@] == s[i]@,
        slot_of(s, s[i].instance_id@) == i,
{
    let id = s[i].instance_id@;
    assert(has_session(s, id));
    let j = slot_of(s, id);
    if j != i {
        assert(s[i].instance_id@ != s[j].instance_id@);
    }
}

proof fn lemma_table_same_ids(old: Seq<ManagedSession>, new: Seq<ManagedSession>)
    requires
        ids_unique(old),
        new.len() == old.len(),
        forall|j: int| 0 <= j < old.len() ==> (#[trigger] new[j]).instance_id@ == old[j].instance_id@,
    ensures
        ids_unique(new),
        table(new).dom() == table(old).dom(),
        forall|j: int| 0 <= j < new.len() ==> #[trigger] table(new)[new[j].instance_id@] == new[j]@,
{
    assert forall|i: int, j: int|
        0 <= i < new.len() && 0 <= j < new.len() && i != j implies #[trigger] new[i].instance_id@
        != #[trigger] new[j].instance_id@ by {
        assert(old[i].instance_id@ != old[j].instance_id@);
    }
    assert forall|id: Seq<char>| has_session(new, id) == has_session(old, id) by {
        if has_session(new, id) {
            let j = choose|j: int| 0 <= j < new.len() && #[trigger] new[j].instance_id@ == id;
            assert(old[j].instance_id@ == id);
        }
        if has_session(old, id) {
            let j = choose|j: int| 0 <= j < old.len() && #[trigger] old[j].instance_id@ == id;
            assert(new[j].instance_id@ == id);
        }
    }
    assert(table(new).dom() =~= table(old).dom());
    assert forall|j: int| 0 <= j < new.len() implies #[trigger] table(new)[new[j].instance_id@] == new[j]@ by {
        lemma_table_at(new, j);
    }
}

proof fn lemma_table_update(old: Seq<ManagedSession>, new: Seq<ManagedSession>, i: int)
    requires
        ids_unique(old),
        new.len() == old.len(),
        0 <= i < old.len(),
        new[i].instance_id@ == old[i].instance_id@,
        forall|j: int| 0 <= j < old.len() && j != i ==> #[trigger] new[j] == old[j],
    ensures
        ids_unique(new),
        table(new) == table(old).insert(old[i].instance_id@, new[i]@),
{
    assert forall|j: int| 0 <= j < old.len() implies (#[trigger] new[j]).instance_id@ == old[j].instance_id@ by {
        if j != i {
            assert(new[j] == old[j]);
        }
    }
    lemma_table_same_ids(old, new);
    let target = table(old).insert(old[i].instance_id@, new[i]@);
    lemma_table_at(old, i);
    assert(table(new).dom() =~= target.dom());
    assert forall|id: Seq<char>| #[trigger] table(new).contains_key(id) implies table(new)[id] == target[id] by {
        let j = slot_of(new, id);
        lemma_table_at(new, j);
        if j != i {
            assert(new[j] == old[j]);
            lemma_table_at(old, j);
        }
    }
    assert(table(new) =~= target);
}

proof fn lemma_table_push(old: Seq<ManagedSession>, x: ManagedSession)
    requires
        ids_unique(old),
        !has_session(old, x.instance_id@),
    ensures
        ids_unique(old.push(x)),
        table(old.push(x)) == table(old).insert(x.instance_id@, x@),
{
    let new = old.push(x);
    assert forall|i: int, j: int|
        0 <= i < new.len() && 0 <= j < new.len() && i != j implies #[trigger] new[i].instance_id@
        != #[trigger] new[j].instance_id@ by {
        if i < old.len() && j < old.len() {
            assert(old[i].instance_id@ != old[j].instance_id@);
        } else if i < old.len() {
            assert(new[i] == old[i]);
        } else {
            assert(new[j] == old[j]);
        }
    }
    let target = table(old).insert(x.instance_id@, x@);
    assert forall|id: Seq<char>| has_session(new, id) == target.contains_key(id) by {
        if has_session(new, id) {
            let j = choose|j: int| 0 <= j < new.len() && #[trigger] new[j].instance_id@ == id;
            if j < old.len() {
                assert(old[j] == new[j]);
            }
        }
        if has_session(old, id) {
            let j = choose|j: int| 0 <= j < old.len() && #[trigger] old[j].instance_id@ == id;
            assert(new[j] == old[j]);
        }
        if id == x.instance_id@ {
            assert(new[old.len() as int] == x);
        }
    }
    assert(table(new).dom() =~= target.dom());
    assert forall|id: Seq<char>| #[trigger] table(new).contains_key(id) implies table(new)[id] == target[id] by {
        let j = slot_of(new, id);
        lemma_table_at(new, j);
        if j < old.len() {
            assert(new[j] == old[j]);
            lemma_table_at(old, j);
        }
    }
    assert(table(new) =~= target);
}

proof fn lemma_table_remove(old: Seq<ManagedSession>, i: int)
    requires
        ids_unique(old),
        0 <= i < old.len(),
    ensures
        ids_unique(old.remove(i)),
        table(old.remove(i)) == table(old).remove(old[i].instance_id@),
{
    let new = old.remove(i);
    assert forall|a: int, b: int|
        0 <= a < new.len() && 0 <= b < new.len() && a != b implies #[trigger] new[a].instance_id@
        != #[trigger] new[b].instance_id@ by {
        let oa = if a < i { a } else { a + 1 };
        let ob = if b < i { b } else { b + 1 };
        assert(new[a] == old[oa]);
        assert(new[b] == old[ob]);
        assert(old[oa].instance_id@ != old[ob].instance_id@);
    }
    let target = table(old).remove(old[i].instance_id@);
    lemma_table_at(old, i);
    assert forall|id: Seq<char>| has_session(new, id) == target.contains_key(id) by {
        if has_session(new, id) {
            let a = choose|a: int| 0 <= a < new.len() && #[trigger] new[a].instance_id@ == id;
            let oa = if a < i { a } else { a + 1 };
            assert(new[a] == old[oa]);
            assert(old[oa].instance_id@ != old[i].instance_id@);
        }
        if target.contains_key(id) {
            let o = choose|o: int| 0 <= o < old.len() && #[trigger] old[o].instance_id@ == id;
            assert(o != i);
            let a = if o < i { o } else { o - 1 };
            assert(new[a] == old[o]);
        }
    }
    assert(table(new).dom() =~= target.dom());
    assert forall|id: Seq<char>| #[trigger] table(new).contains_key(id) implies table(new)[id] == target[id] by {
        let a = slot_of(new, id);
        lemma_table_at(new, a);
        let oa = if a < i { a } else { a + 1 };
        assert(new[a] == old[oa]);
        lemma_table_at(old, oa);
    }
    assert(table(new) =~= target);
}

// ─── Pending project links ─────────────────────────────────────────────────

/// No two links share an instance id.
pub open spec fn link_keys_unique(s: Seq<(String, String)>) -> bool {
    forall|i: int, j: int| 0 <= i < s.len() && 0 <= j < s.len() && i != j ==> #[trigger] s[i].0@ != #[trigger] s[j].0@
}

/// The links as a map from instance id to project id.
pub open spec fn link_map(s: Seq<(String, String)>) -> Map<Seq<char>, Seq<char>> {
    Map::new(
        |id: Seq<char>| exists|i: int| 0 <= i < s.len() && #[trigger] s[i].0@ == id,
        |id: Seq<char>| s[choose|i: int| 0 <= i < s.len() && #[trigger] s[i].0@ == id].1@,
    )
}

proof fn lemma_links_at(s: Seq<(String, String)>, i: int)
    requires
        link_keys_unique(s),
        0 <= i < s.len(),
    ensures
        link_map(s).contains_key(s[i].0@),
        link_map(s)[s[i].0@] == s[i].1@,
{
    let id = s[i].0@;
    assert(s[i].0@ == id);
    let j = choose|j: int| 0 <= j < s.len() && #[trigger] s[j].0@ == id;
    if j != i {
        assert(s[i].0@ != s[j].0@);
    }
}

proof fn lemma_links_set(old: Seq<(String, String)>, i: int, x: (String, String))
    requires
        link_keys_unique(old),
        0 <= i < old.len(),
        x.0@ == old[i].0@,
    ensures
        link_keys_unique(old.update(i, x)),
        link_map(old.update(i, x)) == link_map(old).insert(x.0@, x.1@),
{
    let new = old.update(i, x);
    assert forall|a: int, b: int| 0 <= a < new.len() && 0 <= b < new.len() && a != b
        implies #[trigger] new[a].0@ != #[trigger] new[b].0@ by {
        assert(old[a].0@ != old[b].0@);
    }
    let target = link_map(old).insert(x.0@, x.1@);
    lemma_links_at(old, i);
    assert forall|id: Seq<char>| #[trigger] link_map(new).contains_key(id) == target.contains_key(id) by {
        if link_map(new).contains_key(id) {
            let a = choose|a: int| 0 <= a < new.len() && #[trigger] new[a].0@ == id;
            if a != i {
                lemma_links_at(old, a);
            }
        }
        if link_map(old).contains_key(id) {
            let a = choose|a: int| 0 <= a < old.len() && #[trigger] old[a].0@ == id;
            if a != i {
                assert(new[a] == old[a]);
            }
            lemma_links_at(new, a);
        }
        if id == x.0@ {
            lemma_links_at(new, i);
        }
    }
    assert(link_map(new).dom() =~= target.dom());
    assert forall|id: Seq<char>| #[trigger] link_map(new).contains_key(id) implies link_map(new)[id] == target[id] by {
        let a = choose|a: int| 0 <= a < new.len() && #[trigger] new[a].0@ == id;
        lemma_links_at(new, a);
        if a != i {
            lemma_links_at(old, a);
        }
    }
    assert(link_map(new) =~= target);
}

proof fn lemma_links_push(old: Seq<(String, String)>, x: (String, String))
    requires
        link_keys_unique(old),
        !link_map(old).contains_key(x.0@),
    ensures
        link_keys_unique(old.push(x)),
        link_map(old.push(x)) == link_map(old).insert(x.0@, x.1@),
{
    let new = old.push(x);
    assert forall|a: int, b: int| 0 <= a < new.len() && 0 <= b < new.len() && a != b
        implies #[trigger] new[a].0@ != #[trigger] new[b].0@ by {
        if a < old.len() && b < old.len() {
            assert(old[a].0@ != old[b].0@);
        } else if a < old.len() {
            assert(new[a] == old[a]);
            assert(old[a].0@ == old[a].0@);
        } else {
            assert(new[b] == old[b]);
            assert(old[b].0@ == old[b].0@);
        }
    }
    let target = link_map(old).insert(x.0@, x.1@);
    assert forall|id: Seq<char>| #[trigger] link_map(new).contains_key(id) == target.contains_key(id) by {
        if link_map(new).contains_key(id) {
            let a = choose|a: int| 0 <= a < new.len() && #[trigger] new[a].0@ == id;
            if a < old.len() {
                assert(new[a] == old[a]);
            }
        }
        if link_map(old).contains_key(id) {
            let a = choose|a: int| 0 <= a < old.len() && #[trigger] old[a].0@ == id;
            assert(new[a] == old[a]);
        }
        if id == x.0@ {
            assert(new[old.len() as int] == x);
        }
    }
    assert(link_map(new).dom() =~= target.dom());
    assert forall|id: Seq<char>| #[trigger] link_map(new).contains_key(id) implies link_map(new)[id] == target[id] by {
        let a = choose|a: int| 0 <= a < new.len() && #[trigger] new[a].0@ == id;
        lemma_links_at(new, a);
        if a < old.len() {
            assert(new[a] == old[a]);
            lemma_links_at(old, a);
        }
    }
    assert(link_map(new) =~= target);
}

proof fn lemma_links_remove(old: Seq<(String, String)>, i: int)
    requires
        link_keys_unique(old),
        0 <= i < old.len(),
    ensures
        link_keys_unique(old.remove(i)),
        link_map(old.remove(i)) == link_map(old).remove(old[i].0@),
{
    let new = old.remove(i);
    assert forall|a: int, b: int| 0 <= a < new.len() && 0 <= b < new.len() && a != b
        implies #[trigger] new[a].0@ != #[trigger] new[b].0@ by {
        let oa = if a < i { a } else { a + 1 };
        let ob = if b < i { b } else { b + 1 };
        assert(new[a] == old[oa]);
        assert(new[b] == old[ob]);
        assert(old[oa].0@ != old[ob].0@);
    }
    let target = link_map(old).remove(old[i].0@);
    lemma_links_at(old, i);
    assert forall|id: Seq<char>| #[trigger] link_map(new).contains_key(id) == target.contains_key(id) by {
        if link_map(new).contains_key(id) {
            let a = choose|a: int| 0 <= a < new.len() && #[trigger] new[a].0@ == id;
            let oa = if a < i { a } else { a + 1 };
            assert(new[a] == old[oa]);
            assert(old[oa].0@ != old[i].0@);
            lemma_links_at(old, oa);
        }
        if target.contains_key(id) {
            let o = choose|o: int| 0 <= o < old.len() && #[trigger] old[o].0@ == id;
            assert(o != i);
            let a = if o < i { o } else { o - 1 };
            assert(new[a] == old[o]);
            lemma_links_at(new, a);
        }
    }
    assert(link_map(new).dom() =~= target.dom());
    assert forall|id: Seq<char>| #[trigger] link_map(new).contains_key(id) implies link_map(new)[id] == target[id] by {
        let a = choose|a: int| 0 <= a < new.len() && #[trigger] new[a].0@ == id;
        lemma_links_at(new, a);
        let oa = if a < i { a } else { a + 1 };
        assert(new[a] == old[oa]);
        lemma_links_at(old, oa);
    }
    assert(link_map(new) =~= target);
}

// ─── The manager ───────────────────────────────────────────────────────────

/// All sessions of the gateway, with the bookkeeping the event loop drains.
pub struct SessionManager {
    pub sessions: Vec<ManagedSession>,
    pub idle_timeout_secs: u64,
    /// Sessions whose project link waits for pi's session file:
    /// instance id → project id.
    pub pending_links: Vec<(String, String)>,
    /// Set whenever the session list changed; drained by `take_dirty`.
    pub dirty: bool,
    /// Automatic names still to be stored: (instance id, name).
    pub pending_names: Vec<(String, String)>,
}

/// Result of activating a session for a client.
pub enum ActivateResult {
    Snapshot { messages: Vec<ChatMessage>, instance_id: String, message_seq: u64 },
    NeedSpawn { instance_id: String },
}

/// Result of switching a client to a session.
pub enum SessionResult {
    Switched { instance_id: String, messages: Vec<ChatMessage>, message_seq: u64 },
    NeedSpawn { instance_id: String },
}

impl SessionManager {
    /// The sessions by instance id.
    pub open spec fn table(&self) -> Map<Seq<char>, SessionView> {
        table(self.sessions@)
    }

    /// The pending links by instance id.
    pub open spec fn links(&self) -> Map<Seq<char>, Seq<char>> {
        link_map(self.pending_links@)
    }

    /// The names waiting to be stored.
    pub open spec fn names(&self) -> Seq<(Seq<char>, Seq<char>)> {
        self.pending_names@.map_values(|p: (String, String)| (p.0@, p.1@))
    }

    /// Well-formed: instance ids and link keys are unique, and every loaded
    /// session counts its messages.
    pub open spec fn wf(&self) -> bool {
        &&& ids_unique(self.sessions@)
        &&& link_keys_unique(self.pending_links@)
        &&& forall|i: int| 0 <= i < self.sessions@.len() ==> session_ok(#[trigger] self.sessions@[i]@)
    }

    /// A manager with no sessions; the idle timeout defaults to
    /// [`DEFAULT_IDLE_TIMEOUT_SECS`].
    pub fn new(idle_timeout_secs: Option<u64>) -> (r: Self)
        ensures
            r.wf(),
            r.table() == Map::<Seq<char>, SessionView>::empty(),
            r.links() == Map::<Seq<char>, Seq<char>>::empty(),
            r.names() == Seq::<(Seq<char>, Seq<char>)>::empty(),
            !r.dirty,
            r.idle_timeout_secs == match idle_timeout_secs {
                Some(t) => t,
                None => DEFAULT_IDLE_TIMEOUT_SECS,
            },
    {
        let r = SessionManager {
            sessions: Vec::new(),
            idle_timeout_secs: match idle_timeout_secs {
                Some(t) => t,
                None => DEFAULT_IDLE_TIMEOUT_SECS,
            },
            pending_links: Vec::new(),
            dirty: false,
            pending_names: Vec::new(),
        };
        assert(r.table() =~= Map::<Seq<char>, SessionView>::empty());
        assert(r.links() =~= Map::<Seq<char>, Seq<char>>::empty());
        assert(r.names() =~= Seq::<(Seq<char>, Seq<char>)>::empty());
        r
    }

    /// The links, names and idle timeout are those of `other`.
    pub open spec fn keeps_books(self, other: Self) -> bool {
        &&& self.links() == other.links()
        &&& self.names() == other.names()
        &&& self.idle_timeout_secs == other.idle_timeout_secs
    }

    /// Registers a freshly spawned instance, watched by `client_id`,
    /// replacing any session filed under the same id.
    pub fn register_instance(&mut self, instance_id: &str, cwd: &str, client_id: u64, now: Moment)
        requires
            old(self).wf(),
        ensures
            final(self).wf(),
            final(self).table() == old(self).table().insert(instance_id@, fresh_session(cwd@, client_id, now)),
            final(self).dirty,
            final(self).keeps_books(*old(self)),
    {
        let fresh = fresh_managed(instance_id, cwd, client_id, now);
        let ghost fv = fresh;
        let ghost old_s = self.sessions@;
        match self.find(instance_id) {
            Some(i) => {
                self.sessions[i] = fresh;
                proof {
                    lemma_table_update(old_s, self.sessions@, i as int);
                    lemma_table_at(old_s, i as int);
                }
            },
            None => {
                self.sessions.push(fresh);
                proof {
                    lemma_table_push(old_s, fv);
                }
            },
        }
        self.dirty = true;
    }

    /// Moves a client to a session: unless the session is unknown or
    /// unloaded, the client joins it and gets its messages.
    pub fn switch_session(&mut self, instance_id: &str, client_id: u64, now: Moment) -> (r: SessionResult)
        requires
            old(self).wf(),
        ensures
            final(self).wf(),
            final(self).keeps_books(*old(self)),
            final(self).dirty == old(self).dirty,
            ({
                let t = old(self).table();
                if t.contains_key(instance_id@) && t[instance_id@].activity != SessionActivity::Unloaded {
                    &&& final(self).table() == t.insert(instance_id@, attached(t[instance_id@], client_id, now))
                    &&& r matches SessionResult::Switched { instance_id: iid, messages, message_seq }
                        && iid@ == instance_id@ && message_views(messages@) == t[instance_id@].messages
                        && message_seq == t[instance_id@].message_seq
                } else {
                    &&& final(self).table() == t
                    &&& r matches SessionResult::NeedSpawn { instance_id: iid } && iid@ == instance_id@
                }
            }),
    {
        let ghost old_s = self.sessions@;
        match self.find(instance_id) {
            Some(i) => {
                proof {
                    lemma_table_at(old_s, i as int);
                }
                if self.sessions[i].activity != SessionActivity::Unloaded {
                    let messages = copy_messages(&self.sessions[i].messages);
                    let seq = self.sessions[i].message_seq;
                    attach(&mut self.sessions[i], client_id, now);
                    proof {
                        lemma_table_update(old_s, self.sessions@, i as int);
                    }
                    SessionResult::Switched { instance_id: instance_id.to_string(), messages: messages, message_seq: seq }
                } else {
                    SessionResult::NeedSpawn { instance_id: instance_id.to_string() }
                }
            },
            None => SessionResult::NeedSpawn { instance_id: instance_id.to_string() },
        }
    }

    /// Activates a session for a client: as [`Self::switch_session`], and
    /// the list is marked changed when the session had been disconnected.
    pub fn activate(&mut self, instance_id: &str, client_id: u64, now: Moment) -> (r: ActivateResult)
        requires
            old(self).wf(),
        ensures
            final(self).wf(),
            final(self).keeps_books(*old(self)),
            ({
                let t = old(self).table();
                if t.contains_key(instance_id@) && t[instance_id@].activity != SessionActivity::Unloaded {
                    &&& final(self).table() == t.insert(instance_id@, attached(t[instance_id@], client_id, now))
                    &&& final(self).dirty == (old(self).dirty || t[instance_id@].disconnected_since is Some)
                    &&& r matches ActivateResult::Snapshot { messages, instance_id: iid, message_seq }
                        && iid@ == instance_id@ && message_views(messages@) == t[instance_id@].messages
                        && message_seq == t[instance_id@].message_seq
                } else {
                    &&& final(self).table() == t
                    &&& final(self).dirty == old(self).dirty
                    &&& r matches ActivateResult::NeedSpawn { instance_id: iid } && iid@ == instance_id@
                }
            }),
    {
        let ghost old_s = self.sessions@;
        match self.find(instance_id) {
            Some(i) => {
                proof {
                    lemma_table_at(old_s, i as int);
                }
                if self.sessions[i].activity != SessionActivity::Unloaded {
                    let was_disconnected = self.sessions[i].disconnected_since.is_some();
                    let messages = copy_messages(&self.sessions[i].messages);
                    let seq = self.sessions[i].message_seq;
                    attach(&mut self.sessions[i], client_id, now);
                    proof {
                        lemma_table_update(old_s, self.sessions@, i as int);
                    }
                    if was_disconnected {
                        self.dirty = true;
                    }
                    ActivateResult::Snapshot { messages: messages, instance_id: instance_id.to_string(), message_seq: seq }
                } else {
                    ActivateResult::NeedSpawn { instance_id: instance_id.to_string() }
                }
            },
            None => ActivateResult::NeedSpawn { instance_id: instance_id.to_string() },
        }
    }

    /// A client stops watching a session; when it was the last one the
    /// session counts as disconnected from `now`.
    pub fn deactivate(&mut self, instance_id: &str, client_id: u64, now: Moment)
        requires
            old(self).wf(),
        ensures
            final(self).wf(),
            final(self).keeps_books(*old(self)),
            ({
                let t = old(self).table();
                if t.contains_key(instance_id@) {
                    &&& final(self).table() == t.insert(instance_id@, detached(t[instance_id@], client_id, now))
                    &&& final(self).dirty == (old(self).dirty || goes_idle(t[instance_id@], client_id))
                } else {
                    &&& final(self).table() == t
                    &&& final(self).dirty == old(self).dirty
                }
            }),
    {
        let ghost old_s = self.sessions@;
        match self.find(instance_id) {
            Some(i) => {
                proof {
                    lemma_table_at(old_s, i as int);
                }
                let marked = detach(&mut self.sessions[i], client_id, now);
                proof {
                    lemma_table_update(old_s, self.sessions@, i as int);
                }
                if marked {
                    self.dirty = true;
                }
            },
            None => {},
        }
    }

    /// Whether the list changed since the last call; clears the mark.
    pub fn take_dirty(&mut self) -> (r: bool)
        ensures
            r == old(self).dirty,
            !final(self).dirty,
            final(self).sessions == old(self).sessions,
            final(self).keeps_books(*old(self)),
    {
        let d = self.dirty;
        self.dirty = false;
        d
    }

    /// Marks the list as changed.
    pub fn mark_dirty(&mut self)
        ensures
            final(self).dirty,
            final(self).sessions == old(self).sessions,
            final(self).keeps_books(*old(self)),
    {
        self.dirty = true;
    }

    /// Hands out the names waiting to be stored and forgets them.
    pub fn take_pending_names(&mut self) -> (r: Vec<(String, String)>)
        ensures
            r@.map_values(|p: (String, String)| (p.0@, p.1@)) == old(self).names(),
            final(self).names() == Seq::<(Seq<char>, Seq<char>)>::empty(),
            final(self).sessions == old(self).sessions,
            final(self).pending_links == old(self).pending_links,
            final(self).idle_timeout_secs == old(self).idle_timeout_secs,
            final(self).dirty == old(self).dirty,
    {
        let mut r: Vec<(String, String)> = Vec::new();
        std::mem::swap(&mut r, &mut self.pending_names);
        assert(self.names() =~= Seq::<(Seq<char>, Seq<char>)>::empty());
        r
    }

    /// Gives a loaded session the user's name; the automatic title will no
    /// longer replace it.
    pub fn set_session_name(&mut self, instance_id: &str, name: String)
        requires
            old(self).wf(),
        ensures
            final(self).wf(),
            final(self).keeps_books(*old(self)),
            final(self).dirty == old(self).dirty,
            ({
                let t = old(self).table();
                if t.contains_key(instance_id@) {
                    final(self).table() == t.insert(
                        instance_id@,
                        SessionView { session_name: Some(name@), title_set: true, ..t[instance_id@] },
                    )
                } else {
                    final(self).table() == t
                }
            }),
    {
        let ghost old_s = self.sessions@;
        let ghost nv = name@;
        match self.find(instance_id) {
            Some(i) => {
                proof {
                    lemma_table_at(old_s, i as int);
                }
                self.sessions[i].session_name = Some(name);
                self.sessions[i].title_set = true;
                proof {
                    lemma_table_update(old_s, self.sessions@, i as int);
                }
            },
            None => {},
        }
    }

    /// Whether someone watches the session.
    pub fn has_subscribers(&self, instance_id: &str) -> (r: bool)
        requires
            self.wf(),
        ensures
            r == (self.table().contains_key(instance_id@) && !self.table()[instance_id@].subscribers.is_empty()),
    {
        match self.find(instance_id) {
            Some(i) => {
                proof {
                    lemma_table_at(self.sessions@, i as int);
                    lemma_members_empty(self.sessions@[i as int].subscribers@);
                }
                self.sessions[i].subscribers.len() > 0
            },
            None => false,
        }
    }

    /// Stores pi's reported state for a session.
    pub fn update_pi_state(&mut self, instance_id: &str, pi_state: PiSessionState)
        requires
            old(self).wf(),
        ensures
            final(self).wf(),
            final(self).keeps_books(*old(self)),
            ({
                let t = old(self).table();
                if t.contains_key(instance_id@) {
                    &&& final(self).table() == t.insert(instance_id@, SessionView { pi_state: Some(pi_state), ..t[instance_id@] })
                    &&& final(self).dirty
                } else {
                    &&& final(self).table() == t
                    &&& final(self).dirty == old(self).dirty
                }
            }),
    {
        let ghost old_s = self.sessions@;
        let ghost pv = pi_state;
        match self.find(instance_id) {
            Some(i) => {
                proof {
                    lemma_table_at(old_s, i as int);
                }
                self.sessions[i].pi_state = Some(pi_state);
                proof {
                    lemma_table_update(old_s, self.sessions@, i as int);
                }
                self.dirty = true;
            },
            None => {},
        }
    }

    /// Records the model pi switched a session to: its id and provider
    /// (none when pi names no provider), and its name when pi gives one.
    pub fn record_model(&mut self, instance_id: &str, model_id: String, provider: Option<String>, name: Option<String>)
        requires
            old(self).wf(),
        ensures
            final(self).wf(),
            final(self).keeps_books(*old(self)),
            final(self).dirty == old(self).dirty,
            ({
                let t = old(self).table();
                if t.contains_key(instance_id@) {
                    let ps = match t[instance_id@].pi_state {
                        Some(p) => p,
                        None => no_pi_state(),
                    };
                    final(self).table() == t.insert(
                        instance_id@,
                        SessionView {
                            pi_state: Some(PiSessionState {
                                model_id: Some(model_id),
                                model_provider: provider,
                                model_name: match name {
                                    Some(n) => Some(n),
                                    None => ps.model_name,
                                },
                                ..ps
                            }),
                            ..t[instance_id@]
                        },
                    )
                } else {
                    final(self).table() == t
                }
            }),
    {
        let ghost old_s = self.sessions@;
        match self.find(instance_id) {
            Some(i) => {
                proof {
                    lemma_table_at(old_s, i as int);
                }
                let mut ps = match self.sessions[i].pi_state.take() {
                    Some(p) => p,
                    None => PiSessionState::default(),
                };
                ps.model_id = Some(model_id);
                ps.model_provider = provider;
                match name {
                    Some(n) => {
                        ps.model_name = Some(n);
                    },
                    None => {},
                }
                self.sessions[i].pi_state = Some(ps);
                proof {
                    lemma_table_update(old_s, self.sessions@, i as int);
                }
            },
            None => {},
        }
    }

    /// Sets the idle timeout.
    pub fn set_idle_timeout(&mut self, secs: u64)
        ensures
            final(self).idle_timeout_secs == secs,
            final(self).sessions == old(self).sessions,
            final(self).pending_links == old(self).pending_links,
            final(self).pending_names == old(self).pending_names,
            final(self).dirty == old(self).dirty,
    {
        self.idle_timeout_secs = secs;
    }

    /// Completed turns of a session (0 for an unknown one).
    pub fn turn_count(&self, instance_id: &str) -> (r: u32)
        requires
            self.wf(),
        ensures
            r == (if self.table().contains_key(instance_id@) { self.table()[instance_id@].turn_count } else { 0 }),
    {
        match self.find(instance_id) {
            Some(i) => {
                proof {
                    lemma_table_at(self.sessions@, i as int);
                }
                self.sessions[i].turn_count
            },
            None => 0,
        }
    }

    /// Position of the link of this instance id, if any.
    fn find_link(&self, instance_id: &str) -> (r: Option<usize>)
        requires
            link_keys_unique(self.pending_links@),
        ensures
            match r {
                Some(i) => i < self.pending_links@.len() && self.pending_links@[i as int].0@ == instance_id@,
                None => !self.links().contains_key(instance_id@),
            },
    {
        let mut i: usize = 0;
        while i < self.pending_links.len()
            invariant
                i <= self.pending_links@.len(),
                forall|j: int| 0 <= j < i ==> (#[trigger] self.pending_links@[j]).0@ != instance_id@,
            decreases self.pending_links@.len() - i,
        {
            if same_text(self.pending_links[i].0.as_str(), instance_id) {
                return Some(i);
            }
            i = i + 1;
        }
        None
    }

    /// Records that the session's project link waits for pi's session file.
    pub fn link_pending(&mut self, instance_id: &str, project_id: &str)
        requires
            old(self).wf(),
        ensures
            final(self).wf(),
            final(self).links() == old(self).links().insert(instance_id@, project_id@),
            final(self).sessions == old(self).sessions,
            final(self).names() == old(self).names(),
            final(self).idle_timeout_secs == old(self).idle_timeout_secs,
            final(self).dirty == old(self).dirty,
    {
        let entry = (instance_id.to_string(), project_id.to_string());
        let ghost ev = entry;
        let ghost old_l = self.pending_links@;
        match self.find_link(instance_id) {
            Some(i) => {
                self.pending_links[i] = entry;
                proof {
                    lemma_links_set(old_l, i as int, ev);
                }
            },
            None => {
                self.pending_links.push(entry);
                proof {
                    lemma_links_push(old_l, ev);
                }
            },
        }
    }

    /// Removes and returns the session's pending project link.
    pub fn take_pending_link(&mut self, instance_id: &str) -> (r: Option<String>)
        requires
            old(self).wf(),
        ensures
            final(self).wf(),
            opt_view(r) == (if old(self).links().contains_key(instance_id@) {
                Some(old(self).links()[instance_id@])
            } else {
                None
            }),
            final(self).links() == old(self).links().remove(instance_id@),
            final(self).sessions == old(self).sessions,
            final(self).names() == old(self).names(),
            final(self).idle_timeout_secs == old(self).idle_timeout_secs,
            final(self).dirty == old(self).dirty,
    {
        let ghost old_l = self.pending_links@;
        match self.find_link(instance_id) {
            Some(i) => {
                proof {
                    lemma_links_at(old_l, i as int);
                    lemma_links_remove(old_l, i as int);
                }
                let (_, project) = self.pending_links.remove(i);
                Some(project)
            },
            None => {
                assert(old_l.len() == self.pending_links@.len());
                assert(self.links().remove(instance_id@) =~= self.links());
                None
            },
        }
    }

    /// Forgets a session and its pending link.
    pub fn remove_session(&mut self, instance_id: &str)
        requires
            old(self).wf(),
        ensures
            final(self).wf(),
            final(self).table() == old(self).table().remove(instance_id@),
            final(self).links() == old(self).links().remove(instance_id@),
            final(self).names() == old(self).names(),
            final(self).idle_timeout_secs == old(self).idle_timeout_secs,
            final(self).dirty == old(self).dirty,
    {
        let ghost old_s = self.sessions@;
        match self.find(instance_id) {
            Some(i) => {
                proof {
                    lemma_table_at(old_s, i as int);
                    lemma_table_remove(old_s, i as int);
                }
                let _ = self.sessions.remove(i);
                assert forall|j: int| 0 <= j < self.sessions@.len() implies session_ok(#[trigger] self.sessions@[j]@) by {
                    let oj = if j < i { j } else { j + 1 };
                    assert(self.sessions@[j] == old_s[oj]);
                }
            },
            None => {
                assert(self.table().remove(instance_id@) =~= self.table());
            },
        }
        let _ = self.take_pending_link(instance_id);
    }

    /// Puts messages loaded from disk into a session; its sequence number
    /// becomes their count.
    pub fn load_messages(&mut self, instance_id: &str, messages: Vec<ChatMessage>)
        requires
            old(self).wf(),
        ensures
            final(self).wf(),
            final(self).keeps_books(*old(self)),
            final(self).dirty == old(self).dirty,
            ({
                let t = old(self).table();
                if t.contains_key(instance_id@) {
                    final(self).table() == t.insert(
                        instance_id@,
                        SessionView {
                            messages: message_views(messages@),
                            message_seq: messages@.len() as u64,
                            ..t[instance_id@]
                        },
                    )
                } else {
                    final(self).table() == t
                }
            }),
    {
        let ghost old_s = self.sessions@;
        let ghost mv = message_views(messages@);
        let n = messages.len() as u64;
        match self.find(instance_id) {
            Some(i) => {
                proof {
                    lemma_table_at(old_s, i as int);
                }
                self.sessions[i].messages = messages;
                self.sessions[i].message_seq = n;
                proof {
                    lemma_table_update(old_s, self.sessions@, i as int);
                }
            },
            None => {},
        }
    }

    /// A client acknowledges a finished session: it joins the watchers,
    /// the session is connected again, and one waiting for review becomes
    /// idle.
    pub fn ack_review(&mut self, instance_id: &str, client_id: u64)
        requires
            old(self).wf(),
        ensures
            final(self).wf(),
            final(self).keeps_books(*old(self)),
            ({
                let t = old(self).table();
                if t.contains_key(instance_id@) {
                    let s = t[instance_id@];
                    &&& final(self).table() == t.insert(
                        instance_id@,
                        SessionView {
                            subscribers: s.subscribers.insert(client_id),
                            disconnected_since: None,
                            activity: if s.activity == SessionActivity::WaitingReview {
                                SessionActivity::Idle
                            } else {
                                s.activity
                            },
                            ..s
                        },
                    )
                    &&& final(self).dirty == (old(self).dirty || s.activity == SessionActivity::WaitingReview)
                } else {
                    &&& final(self).table() == t
                    &&& final(self).dirty == old(self).dirty
                }
            }),
    {
        let ghost old_s = self.sessions@;
        match self.find(instance_id) {
            Some(i) => {
                proof {
                    lemma_table_at(old_s, i as int);
                }
                add_subscriber(&mut self.sessions[i].subscribers, client_id);
                self.sessions[i].disconnected_since = None;
                if self.sessions[i].activity == SessionActivity::WaitingReview {
                    self.sessions[i].activity = SessionActivity::Idle;
                    self.dirty = true;
                }
                proof {
                    lemma_table_update(old_s, self.sessions@, i as int);
                }
            },
            None => {},
        }
    }

    /// A client leaves every session it watched (it disconnected).
    pub fn deactivate_all_for_client(&mut self, client_id: u64, now: Moment)
        requires
            old(self).wf(),
        ensures
            final(self).wf(),
            final(self).keeps_books(*old(self)),
            final(self).table().dom() == old(self).table().dom(),
            forall|id: Seq<char>| #[trigger] final(self).table().contains_key(id)
                ==> final(self).table()[id] == detached(old(self).table()[id], client_id, now),
            final(self).dirty == (old(self).dirty || exists|id: Seq<char>|
                #[trigger] old(self).table().contains_key(id) && goes_idle(old(self).table()[id], client_id)),
    {
        let ghost old_s = self.sessions@;
        let ghost old_dirty = self.dirty;
        let n = self.sessions.len();
        let mut i: usize = 0;
        while i < n
            invariant
                n == old_s.len(),
                ids_unique(old_s),
                forall|j: int| 0 <= j < old_s.len() ==> session_ok(#[trigger] old_s[j]@),
                0 <= i <= n,
                self.sessions@.len() == n,
                forall|j: int| 0 <= j < n ==> (#[trigger] self.sessions@[j]).instance_id == old_s[j].instance_id,
                forall|j: int| 0 <= j < i ==> (#[trigger] self.sessions@[j])@ == detached(old_s[j]@, client_id, now),
                forall|j: int| i <= j < n ==> #[trigger] self.sessions@[j] == old_s[j],
                self.dirty == (old_dirty || exists|j: int| 0 <= j < i && goes_idle(#[trigger] old_s[j]@, client_id)),
                self.pending_links == old(self).pending_links,
                self.pending_names == old(self).pending_names,
                self.idle_timeout_secs == old(self).idle_timeout_secs,
            decreases n - i,
        {
            let marked = detach(&mut self.sessions[i], client_id, now);
            if marked {
                self.dirty = true;
            }
            assert(self.dirty == (old_dirty || exists|j: int| 0 <= j < i + 1 && goes_idle(#[trigger] old_s[j]@, client_id))) by {
                if goes_idle(old_s[i as int]@, client_id) {
                    assert(0 <= i < i + 1);
                }
            }
            i = i + 1;
        }
        proof {
            lemma_table_same_ids(old_s, self.sessions@);
            assert forall|id: Seq<char>| #[trigger] self.table().contains_key(id)
                implies self.table()[id] == detached(table(old_s)[id], client_id, now) by {
                let j = slot_of(old_s, id);
                lemma_table_at(old_s, j);
                assert(self.sessions@[j].instance_id@ == id);
            }
            if exists|j: int| 0 <= j < n && goes_idle(#[trigger] old_s[j]@, client_id) {
                let j = choose|j: int| 0 <= j < n && goes_idle(#[trigger] old_s[j]@, client_id);
                lemma_table_at(old_s, j);
                assert(table(old_s).contains_key(old_s[j].instance_id@));
            }
            if exists|id: Seq<char>| #[trigger] table(old_s).contains_key(id) && goes_idle(table(old_s)[id], client_id) {
                let id = choose|id: Seq<char>| #[trigger] table(old_s).contains_key(id) && goes_idle(table(old_s)[id], client_id);
                let j = slot_of(old_s, id);
                lemma_table_at(old_s, j);
            }
            assert forall|j: int| 0 <= j < self.sessions@.len() implies session_ok(#[trigger] self.sessions@[j]@) by {
                assert(session_ok(old_s[j]@));
            }
        }
    }

    /// Unloads the listed sessions (their pi process is gone): their
    /// messages are dropped and they no longer expire.
    pub fn mark_unloaded(&mut self, instance_ids: &[String])
        requires
            old(self).wf(),
        ensures
            final(self).wf(),
            final(self).keeps_books(*old(self)),
            final(self).table().dom() == old(self).table().dom(),
            forall|id: Seq<char>| #[trigger] final(self).table().contains_key(id)
                ==> final(self).table()[id] == if string_views(instance_ids@).contains(id) {
                    unloaded(old(self).table()[id])
                } else {
                    old(self).table()[id]
                },
            final(self).dirty == (old(self).dirty || exists|k: int|
                0 <= k < instance_ids@.len() && old(self).table().contains_key(#[trigger] instance_ids@[k]@)),
    {
        let ghost t0 = self.table();
        let ghost old_dirty = self.dirty;
        let mut k: usize = 0;
        while k < instance_ids.len()
            invariant
                self.wf(),
                0 <= k <= instance_ids@.len(),
                self.table().dom() == t0.dom(),
                forall|id: Seq<char>| #[trigger] self.table().contains_key(id)
                    ==> self.table()[id] == if string_views(instance_ids@.subrange(0, k as int)).contains(id) {
                        unloaded(t0[id])
                    } else {
                        t0[id]
                    },
                self.dirty == (old_dirty || exists|j: int| 0 <= j < k && t0.contains_key(#[trigger] instance_ids@[j]@)),
                self.pending_links == old(self).pending_links,
                self.pending_names == old(self).pending_names,
                self.idle_timeout_secs == old(self).idle_timeout_secs,
            decreases instance_ids@.len() - k,
        {
            let ghost before = self.table();
            let ghost cur = instance_ids@[k as int]@;
            let ghost old_s = self.sessions@;
            match self.find(instance_ids[k].as_str()) {
                Some(i) => {
                    proof {
                        lemma_table_at(old_s, i as int);
                    }
                    self.sessions[i].activity = SessionActivity::Unloaded;
                    self.sessions[i].messages.clear();
                    self.sessions[i].partial_message = None;
                    proof {
                        lemma_table_update(old_s, self.sessions@, i as int);
                        assert(message_views(self.sessions@[i as int].messages@) =~= seq![]);
                    }
                    self.dirty = true;
                },
                None => {},
            }
            proof {
                let pre = string_views(instance_ids@.subrange(0, k as int));
                let post = string_views(instance_ids@.subrange(0, k + 1));
                assert forall|id: Seq<char>| post.contains(id) == (pre.contains(id) || id == cur) by {
                    if post.contains(id) {
                        let j = choose|j: int| 0 <= j < post.len() && post[j] == id;
                        if j < k {
                            assert(pre[j] == id);
                        }
                    }
                    if pre.contains(id) {
                        let j = choose|j: int| 0 <= j < pre.len() && pre[j] == id;
                        assert(post[j] == id);
                    }
                    if id == cur {
                        assert(post[k as int] == id);
                    }
                }
                assert(self.dirty == (old_dirty || exists|j: int| 0 <= j < k + 1 && t0.contains_key(#[trigger] instance_ids@[j]@))) by {
                    if t0.contains_key(cur) {
                        assert(0 <= k < k + 1);
                    }
                }
            }
            k = k + 1;
        }
        assert(instance_ids@.subrange(0, instance_ids@.len() as int) =~= instance_ids@);
    }

    /// The ids of the loaded sessions whose last watcher left more than the
    /// idle timeout before `now_ms`.
    pub fn find_expired_sessions(&self, now_ms: u64) -> (r: Vec<String>)
        requires
            self.wf(),
        ensures
            forall|k: int| 0 <= k < r@.len() ==> self.table().contains_key(#[trigger] r@[k]@)
                && expired(self.table()[r@[k]@], now_ms, self.idle_timeout_secs),
            forall|id: Seq<char>| #[trigger] self.table().contains_key(id)
                && expired(self.table()[id], now_ms, self.idle_timeout_secs) ==> string_views(r@).contains(id),
            forall|a: int, b: int| 0 <= a < r@.len() && 0 <= b < r@.len() && a != b ==> #[trigger] r@[a]@ != #[trigger] r@[b]@,
    {
        let limit: u128 = (self.idle_timeout_secs as u128) * 1000;
        let mut r: Vec<String> = Vec::new();
        let ghost mut src: Seq<int> = seq![];
        let mut i: usize = 0;
        while i < self.sessions.len()
            invariant
                self.wf(),
                i <= self.sessions@.len(),
                limit == self.idle_timeout_secs * 1000,
                src.len() == r@.len(),
                forall|k: int| 0 <= k < r@.len() ==> 0 <= #[trigger] src[k] < i && self.sessions@[src[k]].instance_id@ == r@[k]@
                    && expired(self.sessions@[src[k]]@, now_ms, self.idle_timeout_secs),
                forall|j: int| 0 <= j < i && expired((#[trigger] self.sessions@[j])@, now_ms, self.idle_timeout_secs)
                    ==> string_views(r@).contains(self.sessions@[j].instance_id@),
                forall|a: int, b: int| 0 <= a < r@.len() && 0 <= b < r@.len() && a != b ==> #[trigger] r@[a]@ != #[trigger] r@[b]@,
                forall|k: int, j: int| 0 <= k < r@.len() && i <= j < self.sessions@.len() ==> (#[trigger] r@[k])@ != (#[trigger] self.sessions@[j]).instance_id@,
            decreases self.sessions@.len() - i,
        {
            let s = &self.sessions[i];
            let hit = match s.disconnected_since {
                Some(t) => {
                    let elapsed: u64 = if now_ms >= t { now_ms - t } else { 0 };
                    s.activity != SessionActivity::Unloaded && (elapsed as u128) > limit
                },
                None => false,
            };
            let ghost r0 = r@;
            if hit {
                r.push(s.instance_id.clone());
                proof {
                    src = src.push(i as int);
                }
            }
            let ghost i0 = i as int;
            i = i + 1;
            proof {
                assert forall|k: int| 0 <= k < r@.len() implies 0 <= #[trigger] src[k] < i && self.sessions@[src[k]].instance_id@ == r@[k]@
                    && expired(self.sessions@[src[k]]@, now_ms, self.idle_timeout_secs) by {
                    if k < r0.len() {
                        assert(r@[k] == r0[k]);
                    }
                }
                assert forall|j: int| 0 <= j < i && expired((#[trigger] self.sessions@[j])@, now_ms, self.idle_timeout_secs)
                    implies string_views(r@).contains(self.sessions@[j].instance_id@) by {
                    if j < i0 {
                        let k = choose|k: int| 0 <= k < string_views(r0).len() && string_views(r0)[k] == self.sessions@[j].instance_id@;
                        assert(string_views(r@)[k] == self.sessions@[j].instance_id@);
                    } else {
                        assert(string_views(r@)[r@.len() - 1] == self.sessions@[j].instance_id@);
                    }
                }
                assert forall|k: int, j: int| 0 <= k < r@.len() && i <= j < self.sessions@.len()
                    implies (#[trigger] r@[k])@ != (#[trigger] self.sessions@[j]).instance_id@ by {
                    if k < r0.len() {
                        assert(r@[k] == r0[k]);
                    } else {
                        assert(self.sessions@[i0].instance_id@ != self.sessions@[j].instance_id@);
                    }
                }
                assert forall|a: int, b: int| 0 <= a < r@.len() && 0 <= b < r@.len() && a != b implies #[trigger] r@[a]@ != #[trigger] r@[b]@ by {
                    if a < r0.len() && b < r0.len() {
                        assert(r@[a] == r0[a] && r@[b] == r0[b]);
                    } else if a < r0.len() {
                        assert(r@[a] == r0[a]);
                    } else {
                        assert(r@[b] == r0[b]);
                    }
                }
            }
        }
        proof {
            assert forall|k: int| 0 <= k < r@.len() implies self.table().contains_key(#[trigger] r@[k]@)
                && expired(self.table()[r@[k]@], now_ms, self.idle_timeout_secs) by {
                lemma_table_at(self.sessions@, src[k]);
            }
            assert forall|id: Seq<char>| #[trigger] self.table().contains_key(id)
                && expired(self.table()[id], now_ms, self.idle_timeout_secs) implies string_views(r@).contains(id) by {
                let j = slot_of(self.sessions@, id);
                lemma_table_at(self.sessions@, j);
            }
        }
        r
    }

    /// Follows one pi event of a session. `event` is `None` when the event
    /// could not be read. Returns the session's message sequence number
    /// after the event; `Some(0)` for an unloaded session, which is left
    /// alone; `None` for an unknown session or an unreadable event (the
    /// session still counts as active then).
    pub fn on_event(&mut self, event: Option<TrackedEvent>, instance_id: &str, now: Moment) -> (r: Option<u64>)
        requires
            old(self).wf(),
        ensures
            final(self).wf(),
            final(self).links() == old(self).links(),
            final(self).idle_timeout_secs == old(self).idle_timeout_secs,
            ({
                let t = old(self).table();
                if !t.contains_key(instance_id@) {
                    &&& r is None
                    &&& final(self).table() == t
                    &&& final(self).dirty == old(self).dirty
                    &&& final(self).names() == old(self).names()
                } else if t[instance_id@].activity == SessionActivity::Unloaded {
                    &&& r == Some(0u64)
                    &&& final(self).table() == t
                    &&& final(self).dirty == old(self).dirty
                    &&& final(self).names() == old(self).names()
                } else {
                    match event {
                        None => {
                            &&& r is None
                            &&& final(self).table() == t.insert(instance_id@, touched(t[instance_id@], now))
                            &&& final(self).dirty == old(self).dirty
                            &&& final(self).names() == old(self).names()
                        },
                        Some(ev) => {
                            let (s2, changed, title) = event_result(touched(t[instance_id@], now), ev);
                            &&& r == Some(s2.message_seq)
                            &&& final(self).table() == t.insert(instance_id@, s2)
                            &&& final(self).dirty == (old(self).dirty || changed)
                            &&& final(self).names() == match title {
                                Some(n) => old(self).names().push((instance_id@, n)),
                                None => old(self).names(),
                            }
                        },
                    }
                }
            }),
    {
        let ghost old_s = self.sessions@;
        let i = match self.find(instance_id) {
            Some(i) => i,
            None => {
                return None;
            },
        };
        proof {
            lemma_table_at(old_s, i as int);
        }
        if self.sessions[i].activity == SessionActivity::Unloaded {
            return Some(0);
        }
        self.sessions[i].last_active = now.mono_ms;
        self.sessions[i].last_active_epoch = now.epoch_secs;
        let ghost mid = self.sessions@;
        proof {
            lemma_table_update(old_s, mid, i as int);
        }
        let ev = match event {
            Some(ev) => ev,
            None => {
                return None;
            },
        };
        let (changed, title) = apply_event(&mut self.sessions[i], ev);
        proof {
            lemma_table_update(old_s, self.sessions@, i as int);
        }
        if changed {
            self.dirty = true;
        }
        match title {
            Some(t) => {
                let ghost nv = t@;
                self.pending_names.push((self.sessions[i].instance_id.clone(), t));
                proof {
                    assert(self.names() =~= old(self).names().push((instance_id@, nv)));
                }
            },
            None => {},
        }
        Some(self.sessions[i].message_seq)
    }

    /// Whether a loaded session runs in this directory.
    pub fn has_active_session_in(&self, cwd: &str) -> (r: bool)
        requires
            self.wf(),
        ensures
            r == exists|id: Seq<char>| #[trigger] self.table().contains_key(id) && self.table()[id].cwd == cwd@
                && self.table()[id].activity != SessionActivity::Unloaded,
    {
        let mut k: usize = 0;
        while k < self.sessions.len()
            invariant
                self.wf(),
                k <= self.sessions@.len(),
                forall|j: int| 0 <= j < k ==> !((#[trigger] self.sessions@[j]).cwd@ == cwd@
                    && self.sessions@[j].activity != SessionActivity::Unloaded),
            decreases self.sessions@.len() - k,
        {
            if same_text(self.sessions[k].cwd.as_str(), cwd) && self.sessions[k].activity != SessionActivity::Unloaded {
                proof {
                    lemma_table_at(self.sessions@, k as int);
                }
                return true;
            }
            k = k + 1;
        }
        proof {
            assert forall|id: Seq<char>| #[trigger] self.table().contains_key(id) implies !(self.table()[id].cwd == cwd@
                && self.table()[id].activity != SessionActivity::Unloaded) by {
                let j = slot_of(self.sessions@, id);
                lemma_table_at(self.sessions@, j);
            }
        }
        false
    }

    /// For a run's completion notice: the session's name (empty when it
    /// has none) and the text of its last assistant message (empty when
    /// there is none); both empty for an unknown session.
    #[verifier::loop_isolation(false)]
    pub fn completion_notice(&self, instance_id: &str) -> (r: (String, String))
        requires
            self.wf(),
        ensures
            self.table().contains_key(instance_id@) ==> {
                let s = self.table()[instance_id@];
                &&& r.0@ == match s.session_name {
                    Some(n) => n,
                    None => seq![],
                }
                &&& r.1@ == last_assistant_text(s.messages)
            },
            !self.table().contains_key(instance_id@) ==> r.0@.len() == 0 && r.1@.len() == 0,
    {
        match self.find(instance_id) {
            Some(i) => {
                let s = &self.sessions[i];
                let label = match &s.session_name {
                    Some(n) => n.clone(),
                    None => String::new(),
                };
                let ghost mv = message_views(s.messages@);
                assert(mv.subrange(0, mv.len() as int) =~= mv);
                let mut k: usize = s.messages.len();
                while k > 0
                    invariant
                        mv == message_views(s.messages@),
                        k <= s.messages@.len(),
                        last_assistant_text(mv) == last_assistant_text(mv.subrange(0, k as int)),
                    decreases k,
                {
                    let ghost pre = mv.subrange(0, k as int);
                    assert(pre.last() == s.messages@[k - 1]@);
                    assert(pre.drop_last() =~= mv.subrange(0, k - 1));
                    if is_assistant(&s.messages[k - 1]) {
                        return (label, extract_message_text(&s.messages[k - 1]));
                    }
                    k = k - 1;
                }
                (label, String::new())
            },
            None => (String::new(), String::new()),
        }
    }

    /// Position of the session with this instance id, if any.
    pub(crate) fn find(&self, instance_id: &str) -> (r: Option<usize>)
        requires
            ids_unique(self.sessions@),
        ensures
            match r {
                Some(i) => i < self.sessions@.len() && self.sessions@[i as int].instance_id@ == instance_id@
                    && self.table().contains_key(instance_id@) && self.table()[instance_id@] == self.sessions@[i as int]@,
                None => !self.table().contains_key(instance_id@),
            },
    {
        let mut i: usize = 0;
        while i < self.sessions.len()
            invariant
                ids_unique(self.sessions@),
                i <= self.sessions@.len(),
                forall|j: int| 0 <= j < i ==> (#[trigger] self.sessions@[j]).instance_id@ != instance_id@,
            decreases self.sessions@.len() - i,
        {
            if same_text(self.sessions[i].instance_id.as_str(), instance_id) {
                proof {
                    lemma_table_at(self.sessions@, i as int);
                }
                return Some(i);
            }
            i = i + 1;
        }
        assert(!has_session(self.sessions@, instance_id@));
        None
    }
}

} // verus!

verus! {

/// Every loaded session of a well-formed manager counts its messages: its
/// sequence number is the number of messages it holds.
pub proof fn lemma_loaded_session_counts_messages(m: SessionManager, id: Seq<char>)
    requires
        m.wf(),
        m.table().contains_key(id),
        m.table()[id].activity != SessionActivity::Unloaded,
    ensures
        m.table()[id].message_seq == m.table()[id].messages.len(),
{
    let j = slot_of(m.sessions@, id);
    lemma_table_at(m.sessions@, j);
}

/// Once a session has a title (generated or set by the user), no event
/// changes its name or produces another automatic title.
pub proof fn lemma_title_is_kept(s: SessionView, ev: TrackedEvent)
    requires
        s.title_set,
    ensures
        event_result(s, ev).0.session_name == s.session_name,
        event_result(s, ev).0.title_set,
        event_result(s, ev).2 is None,
{
}

/// A finished message is recorded once: after `message_end`, the end of
/// the turn adds no second copy of the streamed message.
pub proof fn lemma_message_end_then_turn_end(s: SessionView, end: TrackedEvent)
    requires
        end is MessageEnd,
        session_ok(s),
        s.activity != SessionActivity::Unloaded,
    ensures
        ({
            let after_end = event_result(s, end).0;
            let after_turn = event_result(after_end, TrackedEvent::TurnEnd).0;
            &&& after_end.partial is None
            &&& after_turn.messages == after_end.messages
            &&& after_end.messages.len() <= s.messages.len() + 1
        }),
{
}

/// A streamed update shows the message it carries, whatever was shown
/// before (the placeholder of `message_start` or an earlier update); it
/// records nothing yet, and the end of the agent's run keeps that message
/// as the session's last one.
pub proof fn lemma_update_shows_streamed_message(s: SessionView, m: ChatMessage)
    ensures
        event_result(s, TrackedEvent::MessageUpdate { message: Some(m) }).0.partial == Some(m@),
        event_result(s, TrackedEvent::MessageUpdate { message: Some(m) }).0.messages == s.messages,
        event_result(
            event_result(s, TrackedEvent::MessageUpdate { message: Some(m) }).0,
            TrackedEvent::AgentEnd,
        ).0.messages == s.messages.push(m@),
{
}

/// After `message_start` and an update carrying a message, the session
/// shows that message (not the empty placeholder).
pub proof fn lemma_start_then_update(s: SessionView, start: Option<ChatMessage>, m: ChatMessage)
    ensures
        event_result(
            event_result(s, TrackedEvent::MessageStart { message: start }).0,
            TrackedEvent::MessageUpdate { message: Some(m) },
        ).0.partial == Some(m@),
{
}

/// At the end of a turn a session that somebody watches becomes idle, and
/// one that nobody watches waits for review.
pub proof fn lemma_turn_end_activity(s: SessionView, ev: TrackedEvent)
    requires
        ev is TurnEnd || ev is AgentEnd,
    ensures
        event_result(s, ev).0.activity == if s.subscribers.is_empty() {
            SessionActivity::WaitingReview
        } else {
            SessionActivity::Idle
        },
{
}

/// A client that starts watching a session and then stops leaves its
/// watchers as they were; while others still watch it, it does not count
/// as disconnected.
pub proof fn lemma_watch_then_leave(s: SessionView, client_id: u64, n1: Moment, n2: Moment)
    requires
        !s.subscribers.contains(client_id),
    ensures
        detached(attached(s, client_id, n1), client_id, n2).subscribers == s.subscribers,
        !s.subscribers.is_empty() ==> detached(attached(s, client_id, n1), client_id, n2).disconnected_since is None,
        s.subscribers.is_empty() ==> detached(attached(s, client_id, n1), client_id, n2).disconnected_since == Some(n2.mono_ms),
{
    assert(s.subscribers.insert(client_id).remove(client_id) =~= s.subscribers);
}

} // verus!
