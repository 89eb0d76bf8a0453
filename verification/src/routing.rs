//! Decisions on the gateway's request paths: which pi instance a command
//! goes to, what a recall ("fork") asks pi to do, and what a `get_state`
//! reply records. The callers read the wire and the disk; these functions
//! decide on what was read.

use vstd::prelude::*;
use crate::fork::{ForkEntry, entry_time, entry_timestamp, fork_target, resolve_fork_target, times_comparable};
use crate::manager::{ManagedSession, Moment, PiSessionState, SessionActivity, SessionManager, SessionView, fresh_session, string_views};
use crate::names::format_model_arg;
use crate::rpc::opt_view;
use crate::session::{ChatMessage, message_views};
use crate::text::{chars_of, same_text, trim, trim_chars};

verus! {

/// Whether a list of ids holds `id`.
pub fn listed(ids: &[String], id: &str) -> (r: bool)
    ensures
        r == string_views(ids@).contains(id@),
{
    let mut i: usize = 0;
    while i < ids.len()
        invariant
            i <= ids@.len(),
            forall|j: int| 0 <= j < i ==> (#[trigger] ids@[j])@ != id@,
        decreases ids@.len() - i,
    {
        if same_text(ids[i].as_str(), id) {
            proof {
                assert(string_views(ids@)[i as int] == id@);
            }
            return true;
        }
        i = i + 1;
    }
    proof {
        if string_views(ids@).contains(id@) {
            let k = choose|k: int| 0 <= k < string_views(ids@).len() && string_views(ids@)[k] == id@;
            assert(ids@[k]@ == id@);
        }
    }
    false
}

/// Commands that may run without naming an instance.
pub open spec fn is_fallback_command(c: Seq<char>) -> bool {
    ||| c == "get_available_models"@
    ||| c == "get_state"@
    ||| c == "set_model"@
    ||| c == "cycle_model"@
}

/// Whether a command may run without naming an instance.
pub fn allows_fallback(command: &str) -> (r: bool)
    ensures
        r == is_fallback_command(command@),
{
    same_text(command, "get_available_models") || same_text(command, "get_state")
        || same_text(command, "set_model") || same_text(command, "cycle_model")
}

/// Where an RPC goes.
#[derive(Debug, Clone, PartialEq, Eq)]
pub enum RpcTarget {
    /// A running instance takes the command.
    Instance(String),
    /// No running instance fits: start a throwaway one for this command.
    SpawnEphemeral,
    /// The instance named is not running.
    NotFound,
    /// The command may not run without naming an instance.
    NeedsInstance,
}

/// A session can take a command that names no instance: its instance runs,
/// and it is idle (or, with `idle_only` false, merely loaded).
pub open spec fn serves(s: ManagedSession, running: Seq<Seq<char>>, idle_only: bool) -> bool {
    &&& running.contains(s.instance_id@)
    &&& if idle_only {
        s.activity == SessionActivity::Idle
    } else {
        s.activity != SessionActivity::Unloaded
    }
}

/// `k` is the first session, in the manager's order, that serves.
pub open spec fn first_server(s: Seq<ManagedSession>, running: Seq<Seq<char>>, idle_only: bool, k: int) -> bool {
    &&& 0 <= k < s.len()
    &&& serves(s[k], running, idle_only)
    &&& forall|j: int| 0 <= j < k ==> !serves(#[trigger] s[j], running, idle_only)
}

/// Some session serves.
pub open spec fn any_server(s: Seq<ManagedSession>, running: Seq<Seq<char>>, idle_only: bool) -> bool {
    exists|k: int| 0 <= k < s.len() && serves(#[trigger] s[k], running, idle_only)
}

fn first_serving(sessions: &Vec<ManagedSession>, running: &[String], idle_only: bool) -> (r: Option<usize>)
    ensures
        match r {
            Some(k) => first_server(sessions@, string_views(running@), idle_only, k as int),
            None => !any_server(sessions@, string_views(running@), idle_only),
        },
{
    let mut i: usize = 0;
    while i < sessions.len()
        invariant
            i <= sessions@.len(),
            forall|j: int| 0 <= j < i ==> !serves(#[trigger] sessions@[j], string_views(running@), idle_only),
        decreases sessions@.len() - i,
    {
        let fits = if idle_only {
            sessions[i].activity == SessionActivity::Idle
        } else {
            sessions[i].activity != SessionActivity::Unloaded
        };
        if fits && listed(running, sessions[i].instance_id.as_str()) {
            return Some(i);
        }
        i = i + 1;
    }
    None
}

impl SessionManager {
    /// Where an RPC goes. A named instance must be running. Without a name,
    /// only the fallback commands may run: on the first idle session whose
    /// instance runs, else on the first loaded one, else on a throwaway
    /// instance.
    pub fn rpc_target(&self, explicit: Option<&str>, command: &str, running: &[String]) -> (r: RpcTarget)
        ensures
            explicit matches Some(id) ==> if string_views(running@).contains(id@) {
                r matches RpcTarget::Instance(t) && t@ == id@
            } else {
                r is NotFound
            },
            explicit is None && !is_fallback_command(command@) ==> r is NeedsInstance,
            explicit is None && is_fallback_command(command@) ==> match r {
                RpcTarget::Instance(t) => exists|k: int|
                    #![trigger self.sessions@[k]]
                    t@ == self.sessions@[k].instance_id@ && (first_server(self.sessions@, string_views(running@), true, k) || (
                    !any_server(self.sessions@, string_views(running@), true) && first_server(
                        self.sessions@,
                        string_views(running@),
                        false,
                        k,
                    ))),
                RpcTarget::SpawnEphemeral => !any_server(self.sessions@, string_views(running@), true) && !any_server(
                    self.sessions@,
                    string_views(running@),
                    false,
                ),
                _ => false,
            },
    {
        match explicit {
            Some(id) => {
                if listed(running, id) {
                    RpcTarget::Instance(id.to_string())
                } else {
                    RpcTarget::NotFound
                }
            },
            None => {
                if !allows_fallback(command) {
                    return RpcTarget::NeedsInstance;
                }
                match first_serving(&self.sessions, running, true) {
                    Some(k) => RpcTarget::Instance(self.sessions[k].instance_id.clone()),
                    None => {
                        match first_serving(&self.sessions, running, false) {
                            Some(k) => RpcTarget::Instance(self.sessions[k].instance_id.clone()),
                            None => {
                                proof {
                                    if any_server(self.sessions@, string_views(running@), true) {
                                        let k = choose|k: int|
                                            0 <= k < self.sessions@.len() && serves(
                                                #[trigger] self.sessions@[k],
                                                string_views(running@),
                                                true,
                                            );
                                        assert(serves(self.sessions@[k], string_views(running@), false));
                                    }
                                }
                                RpcTarget::SpawnEphemeral
                            },
                        }
                    },
                }
            },
        }
    }
}

/// Where a message from a client goes.
#[derive(Debug, Clone, PartialEq, Eq)]
pub enum UiRoute {
    /// A control request for the broker itself.
    BrokerControl,
    /// A request the gateway answers.
    GatewayCommand,
    /// A session command the gateway handles (new, switch, recall, ...).
    BrokerCommand,
    /// Passed on to this running instance.
    Instance(String),
    /// No running instance is named: the message cannot be delivered.
    NoRoute,
}

/// Where a client message goes, by its type; any other type goes to the
/// instance it names (`instanceId`, or the one in its payload), which
/// must be running.
pub fn ui_route(msg_type: &str, instance_id: Option<&str>, running: &[String]) -> (r: UiRoute)
    ensures
        msg_type@ == "broker_control"@ ==> r is BrokerControl,
        msg_type@ != "broker_control"@ && msg_type@ == "gateway_command"@ ==> r is GatewayCommand,
        msg_type@ != "broker_control"@ && msg_type@ != "gateway_command"@ && msg_type@ == "broker_command"@
            ==> r is BrokerCommand,
        msg_type@ != "broker_control"@ && msg_type@ != "gateway_command"@ && msg_type@ != "broker_command"@
            ==> match instance_id {
            Some(id) => if string_views(running@).contains(id@) {
                r matches UiRoute::Instance(t) && t@ == id@
            } else {
                r is NoRoute
            },
            None => r is NoRoute,
        },
{
    if same_text(msg_type, "broker_control") {
        UiRoute::BrokerControl
    } else if same_text(msg_type, "gateway_command") {
        UiRoute::GatewayCommand
    } else if same_text(msg_type, "broker_command") {
        UiRoute::BrokerCommand
    } else {
        match instance_id {
            Some(id) => if listed(running, id) {
                UiRoute::Instance(id.to_string())
            } else {
                UiRoute::NoRoute
            },
            None => UiRoute::NoRoute,
        }
    }
}

/// Why a recall is refused.
#[derive(Debug, Clone, Copy, PartialEq, Eq, Structural)]
pub enum ForkRefusal {
    /// No instance named.
    MissingInstance,
    /// The session is mid-turn; a recall would cut it off.
    Busy,
    /// No user message of the session file fits.
    EntryNotFound,
}

impl ForkRefusal {
    /// The reason sent back to the client.
    pub fn reason(&self) -> (s: &'static str)
        ensures
            s@ == match *self {
                ForkRefusal::MissingInstance => "missing_instanceId"@,
                ForkRefusal::Busy => "fork_busy"@,
                ForkRefusal::EntryNotFound => "fork_entry_not_found"@,
            },
    {
        match self {
            ForkRefusal::MissingInstance => "missing_instanceId",
            ForkRefusal::Busy => "fork_busy",
            ForkRefusal::EntryNotFound => "fork_entry_not_found",
        }
    }
}

/// What was read of a session file for a recall: its user messages, and
/// each line's entry id with its message time.
pub struct ForkSource {
    pub entries: Vec<ForkEntry>,
    pub lines: Vec<(String, Option<i64>)>,
}

/// A time the client gave, if it is a time at all (positive).
pub open spec fn given_time(t: Option<i64>) -> Option<i64> {
    match t {
        Some(x) => if x > 0 {
            Some(x)
        } else {
            None
        },
        None => None,
    }
}

/// An entry id the client gave, if not empty.
pub open spec fn given_entry(e: Option<Seq<char>>) -> Option<Seq<char>> {
    match e {
        Some(x) => if x.len() > 0 {
            Some(x)
        } else {
            None
        },
        None => None,
    }
}

/// The session named is mid-turn.
pub open spec fn is_busy(m: Map<Seq<char>, SessionView>, id: Seq<char>) -> bool {
    m.contains_key(id) && m[id].activity == SessionActivity::Busy
}

/// What a recall asks of pi: the entry to fork at and the time files are
/// rolled back to. A given entry id is taken as it is, with the time the
/// file records for it, else the client's time, else 0; without one the
/// user message is looked up by text and time in the session file.
pub open spec fn fork_order(
    table: Map<Seq<char>, SessionView>,
    instance_id: Seq<char>,
    content: Option<Seq<char>>,
    timestamp: Option<i64>,
    entry_id: Option<Seq<char>>,
    source: Option<(Seq<ForkEntry>, Seq<(String, Option<i64>)>)>,
) -> Result<(Seq<char>, i64), ForkRefusal> {
    if instance_id.len() == 0 {
        Err(ForkRefusal::MissingInstance)
    } else if is_busy(table, instance_id) {
        Err(ForkRefusal::Busy)
    } else {
        match given_entry(entry_id) {
            Some(e) => {
                let from_file = match source {
                    Some(src) => entry_time(src.1, e),
                    None => None,
                };
                let t = match from_file {
                    Some(x) => x,
                    None => match given_time(timestamp) {
                        Some(x) => x,
                        None => 0,
                    },
                };
                Ok((e, t))
            },
            None => match source {
                Some(src) => match fork_target(src.0, content, given_time(timestamp)) {
                    Some(found) => Ok(found),
                    None => Err(ForkRefusal::EntryNotFound),
                },
                None => Err(ForkRefusal::EntryNotFound),
            },
        }
    }
}

/// The source as the spec sees it.
pub open spec fn source_view(source: Option<&ForkSource>) -> Option<(Seq<ForkEntry>, Seq<(String, Option<i64>)>)> {
    match source {
        Some(s) => Some((s.entries@, s.lines@)),
        None => None,
    }
}

/// What a recall asks of pi (see [`fork_order`]); `source` is the session
/// file as read, `None` when the session has none.
pub fn fork_request(
    mgr: &SessionManager,
    instance_id: &str,
    content: Option<&str>,
    timestamp: Option<i64>,
    entry_id: Option<&str>,
    source: Option<&ForkSource>,
) -> (r: Result<(String, i64), ForkRefusal>)
    requires
        mgr.wf(),
        source matches Some(s) ==> times_comparable(s.entries@, given_time(timestamp)),
    ensures
        match r {
            Ok((e, t)) => fork_order(
                mgr.table(),
                instance_id@,
                match content {
                    Some(c) => Some(c@),
                    None => None,
                },
                timestamp,
                match entry_id {
                    Some(e) => Some(e@),
                    None => None,
                },
                source_view(source),
            ) == Ok::<(Seq<char>, i64), ForkRefusal>((e@, t)),
            Err(why) => fork_order(
                mgr.table(),
                instance_id@,
                match content {
                    Some(c) => Some(c@),
                    None => None,
                },
                timestamp,
                match entry_id {
                    Some(e) => Some(e@),
                    None => None,
                },
                source_view(source),
            ) == Err::<(Seq<char>, i64), ForkRefusal>(why),
        },
{
    if instance_id.is_empty() {
        return Err(ForkRefusal::MissingInstance);
    }
    match mgr.find(instance_id) {
        Some(i) => {
            if mgr.sessions[i].activity == SessionActivity::Busy {
                return Err(ForkRefusal::Busy);
            }
        },
        None => {},
    }
    let ts = match timestamp {
        Some(x) => if x > 0 {
            Some(x)
        } else {
            None
        },
        None => None,
    };
    let given = match entry_id {
        Some(e) => if !e.is_empty() {
            Some(e)
        } else {
            None
        },
        None => None,
    };
    match given {
        Some(e) => {
            let from_file = match source {
                Some(src) => entry_timestamp(src.lines.as_slice(), e),
                None => None,
            };
            let t = match from_file {
                Some(x) => x,
                None => match ts {
                    Some(x) => x,
                    None => 0,
                },
            };
            Ok((e.to_string(), t))
        },
        None => match source {
            Some(src) => match resolve_fork_target(src.entries.as_slice(), content, ts) {
                Some(found) => Ok(found),
                None => Err(ForkRefusal::EntryNotFound),
            },
            None => Err(ForkRefusal::EntryNotFound),
        },
    }
}

/// The fields of a `get_state` reply, as read off the wire (`None` where
/// the reply has no such field, or one of another type).
#[derive(Debug, Clone)]
pub struct StateReport {
    pub session_file: Option<String>,
    pub session_id: Option<String>,
    pub session_name: Option<String>,
    pub model_id: Option<String>,
    pub model_name: Option<String>,
    pub model_provider: Option<String>,
    pub thinking_level: Option<String>,
    pub is_streaming: Option<bool>,
    pub is_compacting: Option<bool>,
    pub message_count: Option<u64>,
    pub pending_message_count: Option<u64>,
    pub context_window: Option<u64>,
}

/// What a `get_state` reply records: the session file to link the
/// instance to, pi's own session id to route by, and the state to keep.
#[derive(Debug, Clone)]
pub struct StateUpdate {
    pub session_file: Option<String>,
    pub session_id: Option<String>,
    pub state: PiSessionState,
}

/// A text field that counts only when not empty.
pub open spec fn nonempty(o: Option<String>) -> Option<Seq<char>> {
    match o {
        Some(s) => if s@.len() > 0 {
            Some(s@)
        } else {
            None
        },
        None => None,
    }
}

fn keep_nonempty(o: &Option<String>) -> (r: Option<String>)
    ensures
        opt_view(r) == nonempty(*o),
{
    match o {
        Some(s) => if s.as_str().is_empty() {
            None
        } else {
            Some(s.clone())
        },
        None => None,
    }
}

fn copy_text(o: &Option<String>) -> (r: Option<String>)
    ensures
        opt_view(r) == opt_view(*o),
{
    match o {
        Some(s) => Some(s.clone()),
        None => None,
    }
}

/// A count as pi's state keeps it: 32 bits, 0 when absent.
pub open spec fn count_of(n: Option<u64>) -> u32 {
    match n {
        Some(x) => x as u32,
        None => 0,
    }
}

/// The state a reply reports: empty file and session ids count as none,
/// absent flags as false, absent counts as 0; counts are kept in 32 bits.
pub open spec fn reported_state(p: StateReport, s: PiSessionState) -> bool {
    &&& opt_view(s.session_file) == nonempty(p.session_file)
    &&& opt_view(s.session_id) == nonempty(p.session_id)
    &&& opt_view(s.session_name) == opt_view(p.session_name)
    &&& opt_view(s.model_id) == opt_view(p.model_id)
    &&& opt_view(s.model_name) == opt_view(p.model_name)
    &&& opt_view(s.model_provider) == opt_view(p.model_provider)
    &&& opt_view(s.thinking_level) == opt_view(p.thinking_level)
    &&& s.is_streaming == (p.is_streaming == Some(true))
    &&& s.is_compacting == (p.is_compacting == Some(true))
    &&& s.message_count == count_of(p.message_count)
    &&& s.pending_message_count == count_of(p.pending_message_count)
    &&& s.context_window == match p.context_window {
        Some(x) => Some(x as u32),
        None => None,
    }
}

/// What a reply to a command records: only a successful `get_state` with
/// data does.
pub fn state_update(success: bool, command: &str, report: Option<&StateReport>) -> (r: Option<StateUpdate>)
    ensures
        r is Some <==> success && command@ == "get_state"@ && report is Some,
        r matches Some(u) ==> {
            &&& opt_view(u.session_file) == nonempty(report->0.session_file)
            &&& opt_view(u.session_id) == nonempty(report->0.session_id)
            &&& reported_state(*report->0, u.state)
        },
{
    if !success || !same_text(command, "get_state") {
        return None;
    }
    match report {
        None => None,
        Some(p) => {
            let state = PiSessionState {
                session_file: keep_nonempty(&p.session_file),
                session_id: keep_nonempty(&p.session_id),
                session_name: copy_text(&p.session_name),
                model_id: copy_text(&p.model_id),
                model_name: copy_text(&p.model_name),
                model_provider: copy_text(&p.model_provider),
                thinking_level: copy_text(&p.thinking_level),
                is_streaming: match p.is_streaming {
                    Some(b) => b,
                    None => false,
                },
                is_compacting: match p.is_compacting {
                    Some(b) => b,
                    None => false,
                },
                message_count: match p.message_count {
                    Some(x) => x as u32,
                    None => 0,
                },
                pending_message_count: match p.pending_message_count {
                    Some(x) => x as u32,
                    None => 0,
                },
                context_window: match p.context_window {
                    Some(x) => Some(x as u32),
                    None => None,
                },
            };
            Some(StateUpdate {
                session_file: keep_nonempty(&p.session_file),
                session_id: keep_nonempty(&p.session_id),
                state,
            })
        },
    }
}

/// The model a new session asks for: `provider/id`, or the id alone when
/// the provider is absent or empty; none without an id.
pub fn requested_model(id: Option<String>, provider: Option<String>) -> (r: Option<String>)
    ensures
        opt_view(r) == match (opt_view(id), nonempty(provider)) {
            (Some(i), Some(p)) => Some(p + seq!['/'] + i),
            (Some(i), None) => Some(i),
            _ => None,
        },
{
    let p = keep_nonempty(&provider);
    format_model_arg(&id, &p)
}

/// The name of a new session's project: the one given in the payload,
/// else the one at the top of the message, else "New Project".
pub fn new_project_name(payload_name: Option<&str>, top_name: Option<&str>) -> (r: String)
    ensures
        r@ == match payload_name {
            Some(n) => n@,
            None => match top_name {
                Some(n) => n@,
                None => "New Project"@,
            },
        },
{
    match payload_name {
        Some(n) => n.to_string(),
        None => match top_name {
            Some(n) => n.to_string(),
            None => "New Project".to_string(),
        },
    }
}

/// The session's model differs from the one wanted (or nothing is known
/// of it yet).
pub open spec fn model_differs(
    t: Map<Seq<char>, SessionView>,
    id: Seq<char>,
    want_id: Seq<char>,
    want_provider: Seq<char>,
) -> bool {
    match (if t.contains_key(id) { t[id].pi_state } else { None }) {
        Some(ps) => opt_view(ps.model_id) != Some(want_id) || opt_view(ps.model_provider) != Some(want_provider),
        None => true,
    }
}

fn same_opt_text(o: &Option<String>, want: &str) -> (r: bool)
    ensures
        r == (opt_view(*o) == Some(want@)),
{
    match o {
        Some(s) => same_text(s.as_str(), want),
        None => false,
    }
}

/// pi's settings still name, as its default, the model that a `set_model`
/// just chose (so the default from before may be put back).
pub fn default_is_switched_model(current_provider: &str, current_model: &str, provider: Option<&str>, model_id: &str) -> (r: bool)
    ensures
        r == (current_provider@ == match provider {
            Some(p) => p@,
            None => Seq::<char>::empty(),
        } && current_model@ == model_id@),
{
    let p_matches = match provider {
        Some(p) => same_text(current_provider, p),
        None => current_provider.is_empty(),
    };
    assert(current_provider@.len() == 0 ==> current_provider@ =~= Seq::<char>::empty());
    p_matches && same_text(current_model, model_id)
}

impl SessionManager {
    /// Whether a session must be told to switch to the model wanted: when
    /// its model id or provider differs, or nothing is known of it yet.
    pub fn needs_model_switch(&self, instance_id: &str, want_id: &str, want_provider: &str) -> (r: bool)
        requires
            self.wf(),
        ensures
            r == model_differs(self.table(), instance_id@, want_id@, want_provider@),
    {
        match self.find(instance_id) {
            Some(i) => match &self.sessions[i].pi_state {
                Some(ps) => !same_opt_text(&ps.model_id, want_id) || !same_opt_text(&ps.model_provider, want_provider),
                None => true,
            },
            None => true,
        }
    }

    /// How a restarted instance resumes: the session file the running
    /// instance was given, else the one pi reported; and the model pi
    /// reported, as its `--model` argument.
    pub fn resume_args(&self, instance_id: &str, given_session: Option<String>) -> (r: (Option<String>, Option<String>))
        requires
            self.wf(),
        ensures
            ({
                let ps = if self.table().contains_key(instance_id@) {
                    self.table()[instance_id@].pi_state
                } else {
                    None
                };
                &&& opt_view(r.0) == match opt_view(given_session) {
                    Some(g) => Some(g),
                    None => match ps {
                        Some(p) => opt_view(p.session_file),
                        None => None,
                    },
                }
                &&& opt_view(r.1) == match ps {
                    Some(p) => match (opt_view(p.model_id), opt_view(p.model_provider)) {
                        (Some(id), Some(provider)) => Some(provider + seq!['/'] + id),
                        (Some(id), None) => Some(id),
                        _ => None,
                    },
                    None => None,
                }
            }),
    {
        match self.find(instance_id) {
            Some(i) => match &self.sessions[i].pi_state {
                Some(ps) => {
                    let path = match given_session {
                        Some(g) => Some(g),
                        None => copy_text(&ps.session_file),
                    };
                    (path, format_model_arg(&ps.model_id, &ps.model_provider))
                },
                None => (given_session, None),
            },
            None => (given_session, None),
        }
    }
}

/// A stored name counts when it is not blank.
pub open spec fn usable_name(name: Option<String>) -> bool {
    name matches Some(n) && trim(n@).len() > 0
}

/// The session a resumed instance becomes: freshly registered for the
/// client, holding the messages read back from its file (its sequence
/// number is their count), and carrying its stored name, when not blank,
/// as a title the user chose.
pub open spec fn resumed_session(
    cwd: Seq<char>,
    client_id: u64,
    now: Moment,
    messages: Seq<ChatMessage>,
    name: Option<String>,
) -> SessionView {
    let s = SessionView {
        messages: message_views(messages),
        message_seq: messages.len() as u64,
        ..fresh_session(cwd, client_id, now)
    };
    if usable_name(name) {
        SessionView { session_name: Some(name->0@), title_set: true, ..s }
    } else {
        s
    }
}

impl SessionManager {
    /// Takes in an instance that was started again for a stored session
    /// (see [`resumed_session`]).
    pub fn adopt_resumed(
        &mut self,
        instance_id: &str,
        cwd: &str,
        client_id: u64,
        now: Moment,
        messages: Vec<ChatMessage>,
        stored_name: Option<String>,
    )
        requires
            old(self).wf(),
        ensures
            final(self).wf(),
            final(self).keeps_books(*old(self)),
            final(self).dirty,
            final(self).table() == old(self).table().insert(
                instance_id@,
                resumed_session(cwd@, client_id, now, messages@, stored_name),
            ),
    {
        let ghost mv = messages@;
        let ghost t0 = self.table();
        self.register_instance(instance_id, cwd, client_id, now);
        self.load_messages(instance_id, messages);
        let ghost t2 = self.table();
        assert(t2 == t0.insert(instance_id@, SessionView {
            messages: message_views(mv),
            message_seq: mv.len() as u64,
            ..fresh_session(cwd@, client_id, now)
        }));
        match stored_name {
            Some(n) => {
                let blank = trim_chars(&chars_of(n.as_str())).len() == 0;
                if !blank {
                    self.set_session_name(instance_id, n);
                }
            },
            None => {},
        }
        assert(self.table() =~= t0.insert(instance_id@, resumed_session(cwd@, client_id, now, mv, stored_name)));
    }
}

/// What a session command from a client does, by its payload type.
#[derive(Debug, Clone, PartialEq, Eq)]
pub enum BrokerAction {
    NewSession,
    SwitchSession,
    Fork,
    AckReview,
    /// The client stops watching this session.
    Deactivate(String),
    /// Any other command goes on to this instance.
    Forward(String),
    /// The command names no instance: it cannot be delivered.
    MissingInstance,
}

/// What a session command does: the four the gateway handles itself by
/// type; `deactivate_session` and anything else need the instance the
/// command names (`""` when none).
pub fn broker_action(payload_type: &str, instance_id: &str) -> (r: BrokerAction)
    ensures
        payload_type@ == "new_session"@ ==> r is NewSession,
        payload_type@ != "new_session"@ && payload_type@ == "switch_session"@ ==> r is SwitchSession,
        payload_type@ != "new_session"@ && payload_type@ != "switch_session"@ && payload_type@ == "fork"@ ==> r is Fork,
        payload_type@ != "new_session"@ && payload_type@ != "switch_session"@ && payload_type@ != "fork"@
            && payload_type@ == "ack_review"@ ==> r is AckReview,
        payload_type@ != "new_session"@ && payload_type@ != "switch_session"@ && payload_type@ != "fork"@
            && payload_type@ != "ack_review"@ ==> if instance_id@.len() == 0 {
            r is MissingInstance
        } else if payload_type@ == "deactivate_session"@ {
            r matches BrokerAction::Deactivate(i) && i@ == instance_id@
        } else {
            r matches BrokerAction::Forward(i) && i@ == instance_id@
        },
{
    if same_text(payload_type, "new_session") {
        BrokerAction::NewSession
    } else if same_text(payload_type, "switch_session") {
        BrokerAction::SwitchSession
    } else if same_text(payload_type, "fork") {
        BrokerAction::Fork
    } else if same_text(payload_type, "ack_review") {
        BrokerAction::AckReview
    } else if instance_id.is_empty() {
        BrokerAction::MissingInstance
    } else if same_text(payload_type, "deactivate_session") {
        BrokerAction::Deactivate(instance_id.to_string())
    } else {
        BrokerAction::Forward(instance_id.to_string())
    }
}

/// The working directory a command asks for: the payload's, else the one
/// at the top of the message; only an absolute path (one starting with
/// `/`) is taken.
pub fn command_cwd(payload_cwd: Option<&str>, top_cwd: Option<&str>) -> (r: Option<String>)
    ensures
        ({
            let raw = match payload_cwd {
                Some(c) => Some(c@),
                None => match top_cwd {
                    Some(c) => Some(c@),
                    None => None,
                },
            };
            match raw {
                Some(c) => if c.len() > 0 && c[0] == '/' {
                    r matches Some(x) && x@ == c
                } else {
                    r is None
                },
                None => r is None,
            }
        }),
{
    let raw = match payload_cwd {
        Some(c) => Some(c),
        None => top_cwd,
    };
    match raw {
        Some(c) => {
            let v = chars_of(c);
            if v.len() > 0 && v[0] == '/' {
                Some(c.to_string())
            } else {
                None
            }
        },
        None => None,
    }
}

/// The answer to a broker control request.
#[derive(Debug, Clone, PartialEq, Eq)]
pub enum ControlReply {
    Pong,
    /// The broker's version and features.
    Info,
    /// Not a control command.
    Unknown(String),
}

/// The answer to a broker control request: `ping` and `info` are known.
pub fn control_reply(command: &str) -> (r: ControlReply)
    ensures
        command@ == "ping"@ ==> r is Pong,
        command@ != "ping"@ && command@ == "info"@ ==> r is Info,
        command@ != "ping"@ && command@ != "info"@ ==> (r matches ControlReply::Unknown(c) && c@ == command@),
{
    if same_text(command, "ping") {
        ControlReply::Pong
    } else if same_text(command, "info") {
        ControlReply::Info
    } else {
        ControlReply::Unknown(command.to_string())
    }
}

/// The features a broker announces.
pub fn broker_features() -> (r: Vec<&'static str>)
    ensures
        r@.len() == 5,
        r@[0]@ == "rpc"@,
        r@[1]@ == "ws"@,
        r@[2]@ == "lan"@,
        r@[3]@ == "health"@,
        r@[4]@ == "multi_instance"@,
{
    vec!["rpc", "ws", "lan", "health", "multi_instance"]
}

/// Commands before which the session's model is brought in line with the
/// one the client wants: `prompt`, `steer` and `follow_up`.
pub fn syncs_model(command: &str) -> (r: bool)
    ensures
        r == (command@ == "prompt"@ || command@ == "steer"@ || command@ == "follow_up"@),
{
    same_text(command, "prompt") || same_text(command, "steer") || same_text(command, "follow_up")
}

} // verus!
