//! The session list the gateway sends its clients: projects with their
//! sessions (pinned first, then most recently active), sessions without a
//! project under "Other", archived projects last.

use vstd::prelude::*;
use crate::manager::{SessionActivity, SessionManager, SessionView};
use crate::rpc::opt_view;
use crate::session::copy_opt_string;
use crate::text::{chars_of, same_text, slice_chars, string_of};

verus! {

// ─── Listing order ─────────────────────────────────────────────────────────

/// Entry `i` is listed before entry `j`: it is pinned higher, or equally
/// pinned and more recently active, or tied and earlier in the input.
pub open spec fn ranks_before(keys: Seq<(i32, u64)>, i: int, j: int) -> bool {
    ||| keys[i].0 > keys[j].0
    ||| keys[i].0 == keys[j].0 && keys[i].1 > keys[j].1
    ||| keys[i].0 == keys[j].0 && keys[i].1 == keys[j].1 && i < j
}

/// Where entry `i` goes among the already ordered entries `p`, searching
/// from position `k`: before the first entry it ranks before.
pub open spec fn insert_at(keys: Seq<(i32, u64)>, p: Seq<int>, i: int, k: int) -> int
    decreases p.len() - k,
{
    if k >= p.len() {
        p.len() as int
    } else if ranks_before(keys, i, p[k]) {
        k
    } else {
        insert_at(keys, p, i, k + 1)
    }
}

/// The order of the first `n` entries, each placed in turn.
pub open spec fn order_upto(keys: Seq<(i32, u64)>, n: nat) -> Seq<int>
    decreases n,
{
    if n == 0 {
        seq![]
    } else {
        let p = order_upto(keys, (n - 1) as nat);
        p.insert(insert_at(keys, p, n - 1, 0), n - 1)
    }
}

/// The order in which entries with these (pinned, last active) keys are
/// listed: positions into the input.
pub open spec fn listing_order(keys: Seq<(i32, u64)>) -> Seq<int> {
    order_upto(keys, keys.len())
}

/// Positions as integers.
pub open spec fn positions(p: Seq<usize>) -> Seq<int> {
    p.map_values(|k: usize| k as int)
}

proof fn lemma_insert_at_range(keys: Seq<(i32, u64)>, p: Seq<int>, i: int, k: int)
    requires
        0 <= k <= p.len(),
    ensures
        k <= insert_at(keys, p, i, k) <= p.len(),
        forall|m: int| k <= m < insert_at(keys, p, i, k) ==> !ranks_before(keys, i, #[trigger] p[m]),
        insert_at(keys, p, i, k) < p.len() ==> ranks_before(keys, i, p[insert_at(keys, p, i, k)]),
    decreases p.len() - k,
{
    if k < p.len() && !ranks_before(keys, i, p[k]) {
        lemma_insert_at_range(keys, p, i, k + 1);
    }
}

/// The listing order lists every entry exactly once, and an entry comes
/// before another exactly when it ranks before it: pinned entries first,
/// then the most recently active, ties in input order.
pub proof fn lemma_listing_order(keys: Seq<(i32, u64)>, n: nat)
    requires
        n <= keys.len(),
    ensures
        order_upto(keys, n).len() == n,
        forall|a: int| 0 <= a < n ==> 0 <= #[trigger] order_upto(keys, n)[a] < n,
        forall|a: int, b: int| 0 <= a < b < n
            ==> ranks_before(keys, #[trigger] order_upto(keys, n)[a], #[trigger] order_upto(keys, n)[b]),
    decreases n,
{
    if n > 0 {
        let m = (n - 1) as nat;
        lemma_listing_order(keys, m);
        let p = order_upto(keys, m);
        let i = m as int;
        let pos = insert_at(keys, p, i, 0);
        lemma_insert_at_range(keys, p, i, 0);
        let q = p.insert(pos, i);
        assert(order_upto(keys, n) == q);
        assert forall|a: int| 0 <= a < n implies 0 <= #[trigger] q[a] < n by {
            if a < pos {
                assert(q[a] == p[a]);
            } else if a > pos {
                assert(q[a] == p[a - 1]);
            }
        }
        assert forall|a: int, b: int| 0 <= a < b < n implies ranks_before(keys, #[trigger] q[a], #[trigger] q[b]) by {
            if b < pos {
                assert(q[a] == p[a] && q[b] == p[b]);
            } else if b == pos {
                assert(q[a] == p[a]);
                assert(!ranks_before(keys, i, p[a]));
                assert(p[a] != i);
            } else if a < pos {
                assert(q[a] == p[a] && q[b] == p[b - 1]);
                assert(ranks_before(keys, p[a], p[b - 1]));
            } else if a == pos {
                assert(q[b] == p[b - 1]);
                assert(ranks_before(keys, i, p[pos]));
                if b - 1 > pos {
                    assert(ranks_before(keys, p[pos], p[b - 1]));
                }
            } else {
                assert(q[a] == p[a - 1] && q[b] == p[b - 1]);
            }
        }
    }
}

fn ranks_before_exec(keys: &[(i32, u64)], i: usize, j: usize) -> (r: bool)
    requires
        i < keys@.len(),
        j < keys@.len(),
    ensures
        r == ranks_before(keys@, i as int, j as int),
{
    let (pi, ui) = keys[i];
    let (pj, uj) = keys[j];
    pi > pj || (pi == pj && ui > uj) || (pi == pj && ui == uj && i < j)
}

/// The listing order of entries with these (pinned, last active) keys.
pub fn sort_order(keys: &[(i32, u64)]) -> (p: Vec<usize>)
    ensures
        positions(p@) == listing_order(keys@),
{
    let mut p: Vec<usize> = Vec::new();
    let n = keys.len();
    let mut i: usize = 0;
    while i < n
        invariant
            n == keys@.len(),
            i <= n,
            positions(p@) == order_upto(keys@, i as nat),
            forall|a: int| 0 <= a < p@.len() ==> p@[a] < i,
        decreases n - i,
    {
        proof {
            lemma_listing_order(keys@, i as nat);
        }
        let mut k: usize = 0;
        while k < p.len() && !ranks_before_exec(keys, i, p[k])
            invariant
                n == keys@.len(),
                i < n,
                k <= p@.len(),
                forall|a: int| 0 <= a < p@.len() ==> p@[a] < i,
                insert_at(keys@, positions(p@), i as int, 0) == insert_at(keys@, positions(p@), i as int, k as int),
            decreases p@.len() - k,
        {
            k = k + 1;
        }
        let ghost before = p@;
        p.insert(k, i);
        proof {
            assert(positions(p@) =~= positions(before).insert(k as int, i as int));
            assert forall|a: int| 0 <= a < p@.len() implies p@[a] < i + 1 by {
                if a < k {
                    assert(p@[a] == before[a]);
                } else if a > k {
                    assert(p@[a] == before[a - 1]);
                }
            }
        }
        i = i + 1;
    }
    p
}

// ─── Rows and the list ─────────────────────────────────────────────────────

/// A project as stored.
#[derive(Debug, Clone)]
pub struct ProjectRow {
    pub id: String,
    pub name: String,
    pub cwd: String,
    /// `normal` or `workspace`.
    pub project_type: String,
    pub pinned: i32,
    pub archived: bool,
    pub created_at: String,
    pub updated_at: String,
}

/// A session as stored.
#[derive(Debug, Clone)]
pub struct SessionRow {
    pub instance_id: String,
    pub session_path: Option<String>,
    pub project_id: Option<String>,
    pub cwd: String,
    pub name: Option<String>,
    /// RFC 3339 time of registration.
    pub created_at: String,
    pub model_id: Option<String>,
    pub model_provider: Option<String>,
    /// 1 when pinned.
    pub pinned: i32,
}

/// One session of the list.
#[derive(Debug, Clone)]
pub struct SessionInfo {
    pub id: String,
    pub label: String,
    pub created_at: String,
    pub file_path: String,
    /// Seconds since the epoch.
    pub updated_at: u64,
    pub preview: String,
    pub cwd: String,
    pub instance_id: Option<String>,
    /// `idle`, `busy`, `waiting_review` or `unloaded`.
    pub state: Option<String>,
    pub model: Option<String>,
    pub model_provider: Option<String>,
    pub thinking_level: Option<String>,
    pub message_count: u32,
    pub message_seq: u64,
    pub pinned: i32,
}

/// One project of the list with its sessions.
#[derive(Debug, Clone)]
pub struct ProjectGroup {
    pub path: String,
    pub name: String,
    /// `None` for the group of sessions without a project.
    pub id: Option<String>,
    pub project_type: String,
    pub pinned: i32,
    pub archived: bool,
    pub sessions: Vec<SessionInfo>,
}

/// The session list.
#[derive(Debug, Clone)]
pub struct SessionsResponse {
    pub projects: Vec<ProjectGroup>,
}

/// Abstract session entry.
pub struct InfoView {
    pub id: Seq<char>,
    pub label: Seq<char>,
    pub created_at: Seq<char>,
    pub file_path: Seq<char>,
    pub updated_at: u64,
    pub preview: Seq<char>,
    pub cwd: Seq<char>,
    pub instance_id: Option<Seq<char>>,
    pub state: Option<Seq<char>>,
    pub model: Option<Seq<char>>,
    pub model_provider: Option<Seq<char>>,
    pub thinking_level: Option<Seq<char>>,
    pub message_count: u32,
    pub message_seq: u64,
    pub pinned: i32,
}

/// Abstract project group.
pub struct GroupView {
    pub path: Seq<char>,
    pub name: Seq<char>,
    pub id: Option<Seq<char>>,
    pub project_type: Seq<char>,
    pub pinned: i32,
    pub archived: bool,
    pub sessions: Seq<InfoView>,
}

impl View for SessionInfo {
    type V = InfoView;

    open spec fn view(&self) -> InfoView {
        InfoView {
            id: self.id@,
            label: self.label@,
            created_at: self.created_at@,
            file_path: self.file_path@,
            updated_at: self.updated_at,
            preview: self.preview@,
            cwd: self.cwd@,
            instance_id: opt_view(self.instance_id),
            state: opt_view(self.state),
            model: opt_view(self.model),
            model_provider: opt_view(self.model_provider),
            thinking_level: opt_view(self.thinking_level),
            message_count: self.message_count,
            message_seq: self.message_seq,
            pinned: self.pinned,
        }
    }
}

/// Abstract entries of a list of sessions.
pub open spec fn info_views(v: Seq<SessionInfo>) -> Seq<InfoView> {
    v.map_values(|i: SessionInfo| i@)
}

impl View for ProjectGroup {
    type V = GroupView;

    open spec fn view(&self) -> GroupView {
        GroupView {
            path: self.path@,
            name: self.name@,
            id: opt_view(self.id),
            project_type: self.project_type@,
            pinned: self.pinned,
            archived: self.archived,
            sessions: info_views(self.sessions@),
        }
    }
}

/// Abstract groups of a list of groups.
pub open spec fn group_views(v: Seq<ProjectGroup>) -> Seq<GroupView> {
    v.map_values(|g: ProjectGroup| g@)
}

/// Seconds since the epoch of an RFC 3339 time, if it is one.
pub uninterp spec fn rfc3339_timestamp(s: Seq<char>) -> Option<i64>;

/// `chrono::DateTime::parse_from_rfc3339(s)` and, when it parses, the
/// time's `timestamp()`: seconds since the epoch. The result is named, not
/// described.
#[verifier::external_body]
fn rfc3339_seconds(s: &str) -> (r: Option<i64>)
    ensures
        r == rfc3339_timestamp(s@),
{
    match chrono::DateTime::parse_from_rfc3339(s) {
        Ok(dt) => Some(dt.timestamp()),
        Err(_) => None,
    }
}

/// The name a session activity is shown with.
pub open spec fn activity_name(a: SessionActivity) -> Seq<char> {
    match a {
        SessionActivity::Idle => "idle"@,
        SessionActivity::Busy => "busy"@,
        SessionActivity::WaitingReview => "waiting_review"@,
        SessionActivity::Unloaded => "unloaded"@,
    }
}

fn activity_text(a: SessionActivity) -> (r: String)
    ensures
        r@ == activity_name(a),
{
    match a {
        SessionActivity::Idle => "idle".to_string(),
        SessionActivity::Busy => "busy".to_string(),
        SessionActivity::WaitingReview => "waiting_review".to_string(),
        SessionActivity::Unloaded => "unloaded".to_string(),
    }
}

/// The first eight characters of an id.
pub open spec fn short_id(id: Seq<char>) -> Seq<char> {
    if id.len() <= 8 {
        id
    } else {
        id.take(8)
    }
}

/// The first of two optional texts that is present.
pub open spec fn either(a: Option<Seq<char>>, b: Option<Seq<char>>) -> Option<Seq<char>> {
    match a {
        Some(x) => Some(x),
        None => b,
    }
}

/// A text, or the empty text.
pub open spec fn or_empty(a: Option<Seq<char>>) -> Seq<char> {
    match a {
        Some(x) => x,
        None => seq![],
    }
}

/// The runtime session filed under an id, if any.
pub open spec fn runtime_of(t: Map<Seq<char>, SessionView>, id: Seq<char>) -> Option<SessionView> {
    if t.contains_key(id) {
        Some(t[id])
    } else {
        None
    }
}

/// No two stored sessions share an instance id.
pub open spec fn rows_unique(rows: Seq<SessionRow>) -> bool {
    forall|i: int, j: int| 0 <= i < rows.len() && 0 <= j < rows.len() && i != j
        ==> #[trigger] rows[i].instance_id@ != #[trigger] rows[j].instance_id@
}

/// The stored session with an instance id, if any.
pub open spec fn row_of(rows: Seq<SessionRow>, id: Seq<char>) -> Option<SessionRow> {
    if exists|i: int| 0 <= i < rows.len() && #[trigger] rows[i].instance_id@ == id {
        Some(rows[choose|i: int| 0 <= i < rows.len() && #[trigger] rows[i].instance_id@ == id])
    } else {
        None
    }
}

/// Fields of pi's reported state.
pub open spec fn pi_model(s: SessionView) -> Option<Seq<char>> {
    match s.pi_state {
        Some(p) => opt_view(p.model_id),
        None => None,
    }
}

pub open spec fn pi_provider(s: SessionView) -> Option<Seq<char>> {
    match s.pi_state {
        Some(p) => opt_view(p.model_provider),
        None => None,
    }
}

pub open spec fn pi_thinking(s: SessionView) -> Option<Seq<char>> {
    match s.pi_state {
        Some(p) => opt_view(p.thinking_level),
        None => None,
    }
}

/// The entry of a session of a project: runtime state first, stored
/// values next.
pub open spec fn project_info(iid: Seq<char>, cwd: Seq<char>, rt: Option<SessionView>, row: Option<SessionRow>) -> InfoView {
    let rt_name = match rt { Some(s) => s.session_name, None => None };
    let row_name = match row { Some(r) => opt_view(r.name), None => None };
    InfoView {
        id: iid,
        label: match either(rt_name, row_name) {
            Some(l) => l,
            None => short_id(iid),
        },
        created_at: seq![],
        file_path: match row { Some(r) => or_empty(opt_view(r.session_path)), None => seq![] },
        updated_at: match rt {
            Some(s) => s.last_active_epoch,
            None => match row {
                Some(r) => match rfc3339_timestamp(r.created_at@) {
                    Some(t) => t as u64,
                    None => 0,
                },
                None => 0,
            },
        },
        preview: seq![],
        cwd: cwd,
        instance_id: Some(iid),
        state: Some(match rt { Some(s) => activity_name(s.activity), None => "unloaded"@ }),
        model: either(
            match rt { Some(s) => pi_model(s), None => None },
            match row { Some(r) => opt_view(r.model_id), None => None },
        ),
        model_provider: either(
            match rt { Some(s) => pi_provider(s), None => None },
            match row { Some(r) => opt_view(r.model_provider), None => None },
        ),
        thinking_level: match rt { Some(s) => pi_thinking(s), None => None },
        message_count: match rt { Some(s) => s.messages.len() as u32, None => 0 },
        message_seq: match rt { Some(s) => s.message_seq, None => 0 },
        pinned: match row { Some(r) => r.pinned, None => 0 },
    }
}

/// The entry of a stored session without a project: its stored name
/// first; it is dated by its number of messages.
pub open spec fn orphan_info(row: SessionRow, rt: Option<SessionView>) -> InfoView {
    let rt_name = match rt { Some(s) => s.session_name, None => None };
    InfoView {
        id: row.instance_id@,
        label: match either(opt_view(row.name), rt_name) {
            Some(l) => l,
            None => short_id(row.instance_id@),
        },
        created_at: seq![],
        file_path: or_empty(opt_view(row.session_path)),
        updated_at: match rt { Some(s) => (s.messages.len() as u32) as u64, None => 0 },
        preview: seq![],
        cwd: row.cwd@,
        instance_id: Some(row.instance_id@),
        state: Some(match rt { Some(s) => activity_name(s.activity), None => "unloaded"@ }),
        model: either(match rt { Some(s) => pi_model(s), None => None }, opt_view(row.model_id)),
        model_provider: either(match rt { Some(s) => pi_provider(s), None => None }, opt_view(row.model_provider)),
        thinking_level: None,
        message_count: match rt { Some(s) => s.messages.len() as u32, None => 0 },
        message_seq: match rt { Some(s) => s.message_seq, None => 0 },
        pinned: row.pinned,
    }
}

/// The (pinned, last active) keys of entries.
pub open spec fn keys_of(items: Seq<InfoView>) -> Seq<(i32, u64)> {
    items.map_values(|i: InfoView| (i.pinned, i.updated_at))
}

/// Entries in listing order.
pub open spec fn listed(items: Seq<InfoView>) -> Seq<InfoView> {
    listing_order(keys_of(items)).map_values(|k: int| items[k])
}

/// The entries of a project's sessions, in the order given.
pub open spec fn project_infos(ids: Seq<String>, cwd: Seq<char>, rows: Seq<SessionRow>, t: Map<Seq<char>, SessionView>) -> Seq<InfoView> {
    ids.map_values(|iid: String| project_info(iid@, cwd, runtime_of(t, iid@), row_of(rows, iid@)))
}

/// The group of a project.
pub open spec fn project_group(p: ProjectRow, ids: Seq<String>, rows: Seq<SessionRow>, t: Map<Seq<char>, SessionView>) -> GroupView {
    GroupView {
        path: p.cwd@,
        name: p.name@,
        id: Some(p.id@),
        project_type: p.project_type@,
        pinned: p.pinned,
        archived: p.archived,
        sessions: listed(project_infos(ids, p.cwd@, rows, t)),
    }
}

/// The groups of the projects that are (or are not) archived, in project
/// order; each project comes with the ids of its sessions.
pub open spec fn project_groups(
    projects: Seq<(ProjectRow, Vec<String>)>,
    rows: Seq<SessionRow>,
    t: Map<Seq<char>, SessionView>,
    archived: bool,
) -> Seq<GroupView>
    decreases projects.len(),
{
    if projects.len() == 0 {
        seq![]
    } else {
        let rest = project_groups(projects.drop_last(), rows, t, archived);
        let (p, ids) = projects.last();
        if p.archived == archived {
            rest.push(project_group(p, ids@, rows, t))
        } else {
            rest
        }
    }
}

/// The session is listed under a project that is not archived.
pub open spec fn linked(projects: Seq<(ProjectRow, Vec<String>)>, id: Seq<char>) -> bool {
    exists|k: int, j: int|
        0 <= k < projects.len() && !projects[k].0.archived && 0 <= j < projects[k].1@.len()
            && (#[trigger] projects[k].1@[j])@ == id
}

/// A stored session that goes to "Other": it has no project and no listed
/// project holds it.
pub open spec fn is_orphan(r: SessionRow, projects: Seq<(ProjectRow, Vec<String>)>) -> bool {
    r.project_id is None && !linked(projects, r.instance_id@)
}

/// The stored sessions that go to "Other", in stored order.
pub open spec fn orphan_rows(rows: Seq<SessionRow>, projects: Seq<(ProjectRow, Vec<String>)>) -> Seq<SessionRow>
    decreases rows.len(),
{
    if rows.len() == 0 {
        seq![]
    } else {
        let rest = orphan_rows(rows.drop_last(), projects);
        if is_orphan(rows.last(), projects) {
            rest.push(rows.last())
        } else {
            rest
        }
    }
}

/// The entries of the sessions without a project.
pub open spec fn orphan_infos(orphans: Seq<SessionRow>, t: Map<Seq<char>, SessionView>) -> Seq<InfoView> {
    orphans.map_values(|r: SessionRow| orphan_info(r, runtime_of(t, r.instance_id@)))
}

/// The group "Other" of sessions without a project.
pub open spec fn other_group(orphans: Seq<SessionRow>, t: Map<Seq<char>, SessionView>) -> GroupView {
    GroupView {
        path: seq![],
        name: "Other"@,
        id: None,
        project_type: seq![],
        pinned: 0,
        archived: false,
        sessions: listed(orphan_infos(orphans, t)),
    }
}

/// The whole list: the groups of the projects not archived, then "Other"
/// when some session has no project, then the archived projects.
pub open spec fn session_tree(
    projects: Seq<(ProjectRow, Vec<String>)>,
    rows: Seq<SessionRow>,
    t: Map<Seq<char>, SessionView>,
) -> Seq<GroupView> {
    let orphans = orphan_rows(rows, projects);
    project_groups(projects, rows, t, false) + (if orphans.len() > 0 {
        seq![other_group(orphans, t)]
    } else {
        seq![]
    }) + project_groups(projects, rows, t, true)
}

/// Listing puts each entry once, as given, pinned entries before
/// unpinned ones.
proof fn lemma_listed_entries(items: Seq<InfoView>)
    ensures
        listed(items).len() == items.len(),
        forall|a: int| 0 <= a < items.len() ==> exists|k: int| 0 <= k < items.len() && #[trigger] listed(items)[a] == items[k],
        forall|a: int, b: int| 0 <= a < b < items.len() ==> (#[trigger] listed(items)[a]).pinned >= (#[trigger] listed(items)[b]).pinned,
{
    let keys = keys_of(items);
    lemma_listing_order(keys, keys.len());
    let o = listing_order(keys);
    assert forall|a: int| 0 <= a < items.len() implies exists|k: int| 0 <= k < items.len() && #[trigger] listed(items)[a] == items[k] by {
        assert(listed(items)[a] == items[o[a]]);
    }
    assert forall|a: int, b: int| 0 <= a < b < items.len() implies (#[trigger] listed(items)[a]).pinned >= (#[trigger] listed(items)[b]).pinned by {
        assert(ranks_before(keys, o[a], o[b]));
        assert(listed(items)[a] == items[o[a]] && listed(items)[b] == items[o[b]]);
        assert(keys[o[a]] == (items[o[a]].pinned, items[o[a]].updated_at));
        assert(keys[o[b]] == (items[o[b]].pinned, items[o[b]].updated_at));
    }
}

/// The group "Other" lists every session without a project once, each
/// with the pinned mark of its stored row, pinned sessions first.
pub proof fn lemma_other_group_keeps_pins(orphans: Seq<SessionRow>, t: Map<Seq<char>, SessionView>)
    ensures
        other_group(orphans, t).sessions.len() == orphans.len(),
        forall|a: int| 0 <= a < orphans.len() ==> exists|k: int| 0 <= k < orphans.len()
            && (#[trigger] other_group(orphans, t).sessions[a]).id == orphans[k].instance_id@
            && other_group(orphans, t).sessions[a].pinned == orphans[k].pinned,
        forall|a: int, b: int| 0 <= a < b < orphans.len()
            ==> (#[trigger] other_group(orphans, t).sessions[a]).pinned >= (#[trigger] other_group(orphans, t).sessions[b]).pinned,
{
    let items = orphan_infos(orphans, t);
    lemma_listed_entries(items);
    let g = other_group(orphans, t).sessions;
    assert forall|a: int| 0 <= a < orphans.len() implies exists|k: int| 0 <= k < orphans.len()
        && (#[trigger] g[a]).id == orphans[k].instance_id@ && g[a].pinned == orphans[k].pinned by {
        let k = choose|k: int| 0 <= k < items.len() && listed(items)[a] == items[k];
        assert(items[k] == orphan_info(orphans[k], runtime_of(t, orphans[k].instance_id@)));
    }
}

/// A project's group lists each of its sessions once, each with the
/// pinned mark of its stored row (0 without one), pinned sessions first.
pub proof fn lemma_project_group_keeps_pins(p: ProjectRow, ids: Seq<String>, rows: Seq<SessionRow>, t: Map<Seq<char>, SessionView>)
    ensures
        project_group(p, ids, rows, t).sessions.len() == ids.len(),
        forall|a: int| 0 <= a < ids.len() ==> exists|k: int| 0 <= k < ids.len()
            && (#[trigger] project_group(p, ids, rows, t).sessions[a]).id == ids[k]@
            && project_group(p, ids, rows, t).sessions[a].pinned == match row_of(rows, ids[k]@) {
                Some(r) => r.pinned,
                None => 0,
            },
        forall|a: int, b: int| 0 <= a < b < ids.len()
            ==> (#[trigger] project_group(p, ids, rows, t).sessions[a]).pinned
                >= (#[trigger] project_group(p, ids, rows, t).sessions[b]).pinned,
{
    let items = project_infos(ids, p.cwd@, rows, t);
    lemma_listed_entries(items);
    let g = project_group(p, ids, rows, t).sessions;
    assert forall|a: int| 0 <= a < ids.len() implies exists|k: int| 0 <= k < ids.len()
        && (#[trigger] g[a]).id == ids[k]@ && g[a].pinned == match row_of(rows, ids[k]@) {
            Some(r) => r.pinned,
            None => 0,
        } by {
        let k = choose|k: int| 0 <= k < items.len() && listed(items)[a] == items[k];
        assert(items[k] == project_info(ids[k]@, p.cwd@, runtime_of(t, ids[k]@), row_of(rows, ids[k]@)));
    }
}

// ─── Building the list ─────────────────────────────────────────────────────

fn row_index(rows: &[SessionRow], id: &str) -> (r: Option<usize>)
    requires
        rows_unique(rows@),
    ensures
        match r {
            Some(i) => i < rows@.len() && row_of(rows@, id@) == Some(rows@[i as int]),
            None => row_of(rows@, id@) is None,
        },
{
    let mut i: usize = 0;
    while i < rows.len()
        invariant
            rows_unique(rows@),
            i <= rows@.len(),
            forall|j: int| 0 <= j < i ==> (#[trigger] rows@[j]).instance_id@ != id@,
        decreases rows@.len() - i,
    {
        if same_text(rows[i].instance_id.as_str(), id) {
            proof {
                let k = choose|k: int| 0 <= k < rows@.len() && #[trigger] rows@[k].instance_id@ == id@;
                if k != i {
                    assert(rows@[k].instance_id@ != rows@[i as int].instance_id@);
                }
            }
            return Some(i);
        }
        i = i + 1;
    }
    None
}

fn short_id_text(id: &str) -> (r: String)
    ensures
        r@ == short_id(id@),
{
    let c = chars_of(id);
    if c.len() <= 8 {
        string_of(&c)
    } else {
        let p = slice_chars(&c, 0, 8);
        string_of(&p)
    }
}

fn either_text(a: Option<String>, b: Option<String>) -> (r: Option<String>)
    ensures
        opt_view(r) == either(opt_view(a), opt_view(b)),
{
    match a {
        Some(x) => Some(x),
        None => b,
    }
}

fn text_or_empty(a: &Option<String>) -> (r: String)
    ensures
        r@ == or_empty(opt_view(*a)),
{
    match a {
        Some(x) => x.clone(),
        None => String::new(),
    }
}

fn runtime_fields(mgr: &SessionManager, i: Option<usize>) -> (r: (Option<String>, Option<String>, Option<String>, Option<String>, String, u32, u64))
    requires
        match i {
            Some(k) => k < mgr.sessions@.len(),
            None => true,
        },
    ensures
        ({
            let rt = match i {
                Some(k) => Some(mgr.sessions@[k as int]@),
                None => None,
            };
            &&& opt_view(r.0) == match rt { Some(s) => s.session_name, None => None }
            &&& opt_view(r.1) == match rt { Some(s) => pi_model(s), None => None }
            &&& opt_view(r.2) == match rt { Some(s) => pi_provider(s), None => None }
            &&& opt_view(r.3) == match rt { Some(s) => pi_thinking(s), None => None }
            &&& r.4@ == match rt { Some(s) => activity_name(s.activity), None => "unloaded"@ }
            &&& r.5 == match rt { Some(s) => s.messages.len() as u32, None => 0 }
            &&& r.6 == match rt { Some(s) => s.message_seq, None => 0 }
        }),
{
    match i {
        Some(k) => {
            let s = &mgr.sessions[k];
            let (model, provider, thinking) = match &s.pi_state {
                Some(p) => (copy_opt_string(&p.model_id), copy_opt_string(&p.model_provider), copy_opt_string(&p.thinking_level)),
                None => (None, None, None),
            };
            assert(crate::session::message_views(s.messages@).len() == s.messages@.len());
            let count = s.messages.len() as u32;
            (copy_opt_string(&s.session_name), model, provider, thinking, activity_text(s.activity), count, s.message_seq)
        },
        None => (None, None, None, None, "unloaded".to_string(), 0, 0),
    }
}

fn project_info_of(iid: &String, cwd: &String, rows: &[SessionRow], mgr: &SessionManager) -> (r: SessionInfo)
    requires
        mgr.wf(),
        rows_unique(rows@),
    ensures
        r@ == project_info(iid@, cwd@, runtime_of(mgr.table(), iid@), row_of(rows@, iid@)),
{
    let rt = mgr.find(iid.as_str());
    let row = row_index(rows, iid.as_str());
    let (rt_name, rt_model, rt_provider, rt_thinking, state, count, seq) = runtime_fields(mgr, rt);
    let (row_name, row_path, row_model, row_provider, pinned) = match row {
        Some(j) => (
            copy_opt_string(&rows[j].name),
            text_or_empty(&rows[j].session_path),
            copy_opt_string(&rows[j].model_id),
            copy_opt_string(&rows[j].model_provider),
            rows[j].pinned,
        ),
        None => (None, String::new(), None, None, 0),
    };
    let label = match either_text(rt_name, row_name) {
        Some(l) => l,
        None => short_id_text(iid.as_str()),
    };
    let updated_at: u64 = match rt {
        Some(k) => mgr.sessions[k].last_active_epoch,
        None => match row {
            Some(j) => match rfc3339_seconds(rows[j].created_at.as_str()) {
                Some(t) => t as u64,
                None => 0,
            },
            None => 0,
        },
    };
    SessionInfo {
        id: iid.clone(),
        label: label,
        created_at: String::new(),
        file_path: row_path,
        updated_at: updated_at,
        preview: String::new(),
        cwd: cwd.clone(),
        instance_id: Some(iid.clone()),
        state: Some(state),
        model: either_text(rt_model, row_model),
        model_provider: either_text(rt_provider, row_provider),
        thinking_level: rt_thinking,
        message_count: count,
        message_seq: seq,
        pinned: pinned,
    }
}

fn orphan_info_of(row: &SessionRow, mgr: &SessionManager) -> (r: SessionInfo)
    requires
        mgr.wf(),
    ensures
        r@ == orphan_info(*row, runtime_of(mgr.table(), row.instance_id@)),
{
    let rt = mgr.find(row.instance_id.as_str());
    let (rt_name, rt_model, rt_provider, _rt_thinking, state, count, seq) = runtime_fields(mgr, rt);
    let label = match either_text(copy_opt_string(&row.name), rt_name) {
        Some(l) => l,
        None => short_id_text(row.instance_id.as_str()),
    };
    let updated_at: u64 = match rt {
        Some(_) => count as u64,
        None => 0,
    };
    SessionInfo {
        id: row.instance_id.clone(),
        label: label,
        created_at: String::new(),
        file_path: text_or_empty(&row.session_path),
        updated_at: updated_at,
        preview: String::new(),
        cwd: row.cwd.clone(),
        instance_id: Some(row.instance_id.clone()),
        state: Some(state),
        model: either_text(rt_model, copy_opt_string(&row.model_id)),
        model_provider: either_text(rt_provider, copy_opt_string(&row.model_provider)),
        thinking_level: None,
        message_count: count,
        message_seq: seq,
        pinned: row.pinned,
    }
}

fn copy_info(i: &SessionInfo) -> (r: SessionInfo)
    ensures
        r@ == i@,
{
    SessionInfo {
        id: i.id.clone(),
        label: i.label.clone(),
        created_at: i.created_at.clone(),
        file_path: i.file_path.clone(),
        updated_at: i.updated_at,
        preview: i.preview.clone(),
        cwd: i.cwd.clone(),
        instance_id: copy_opt_string(&i.instance_id),
        state: copy_opt_string(&i.state),
        model: copy_opt_string(&i.model),
        model_provider: copy_opt_string(&i.model_provider),
        thinking_level: copy_opt_string(&i.thinking_level),
        message_count: i.message_count,
        message_seq: i.message_seq,
        pinned: i.pinned,
    }
}

/// Sessions in listing order: pinned first, then the most recently
/// active; ties keep their order.
pub fn list_in_order(items: &Vec<SessionInfo>) -> (r: Vec<SessionInfo>)
    ensures
        info_views(r@) == listed(info_views(items@)),
{
    let ghost iv = info_views(items@);
    let mut keys: Vec<(i32, u64)> = Vec::new();
    for k in 0..items.len()
        invariant
            iv == info_views(items@),
            keys@.len() == k,
            forall|j: int| 0 <= j < k ==> #[trigger] keys@[j] == (items@[j].pinned, items@[j].updated_at),
    {
        keys.push((items[k].pinned, items[k].updated_at));
    }
    assert(keys@ =~= keys_of(iv));
    let order = sort_order(keys.as_slice());
    proof {
        lemma_listing_order(keys@, keys@.len());
    }
    let mut out: Vec<SessionInfo> = Vec::new();
    for k in 0..order.len()
        invariant
            iv == info_views(items@),
            keys@ == keys_of(iv),
            keys@.len() == items@.len(),
            positions(order@) == listing_order(keys@),
            order@.len() == items@.len(),
            forall|a: int| 0 <= a < order@.len() ==> 0 <= #[trigger] listing_order(keys@)[a] < items@.len(),
            out@.len() == k,
            forall|j: int| 0 <= j < k ==> (#[trigger] out@[j])@ == items@[order@[j] as int]@,
    {
        assert(positions(order@)[k as int] == order@[k as int] as int);
        let idx = order[k];
        out.push(copy_info(&items[idx]));
    }
    assert(info_views(out@) =~= listed(iv)) by {
        assert forall|j: int| 0 <= j < out@.len() implies #[trigger] info_views(out@)[j] == listed(iv)[j] by {
            assert(positions(order@)[j] == order@[j] as int);
        }
    }
    out
}

/// The group of one project.
fn project_group_of(p: &ProjectRow, ids: &Vec<String>, rows: &[SessionRow], mgr: &SessionManager) -> (r: ProjectGroup)
    requires
        mgr.wf(),
        rows_unique(rows@),
    ensures
        r@ == project_group(*p, ids@, rows@, mgr.table()),
{
    let mut infos: Vec<SessionInfo> = Vec::new();
    for k in 0..ids.len()
        invariant
            mgr.wf(),
            rows_unique(rows@),
            infos@.len() == k,
            forall|j: int| 0 <= j < k ==> (#[trigger] infos@[j])@
                == project_info(ids@[j]@, p.cwd@, runtime_of(mgr.table(), ids@[j]@), row_of(rows@, ids@[j]@)),
    {
        infos.push(project_info_of(&ids[k], &p.cwd, rows, mgr));
    }
    assert(info_views(infos@) =~= project_infos(ids@, p.cwd@, rows@, mgr.table()));
    let sessions = list_in_order(&infos);
    ProjectGroup {
        path: p.cwd.clone(),
        name: p.name.clone(),
        id: Some(p.id.clone()),
        project_type: p.project_type.clone(),
        pinned: p.pinned,
        archived: p.archived,
        sessions: sessions,
    }
}

fn is_linked(projects: &[(ProjectRow, Vec<String>)], id: &str) -> (r: bool)
    ensures
        r == linked(projects@, id@),
{
    let mut k: usize = 0;
    while k < projects.len()
        invariant
            k <= projects@.len(),
            forall|a: int, j: int| 0 <= a < k && !projects@[a].0.archived && 0 <= j < projects@[a].1@.len()
                ==> (#[trigger] projects@[a].1@[j])@ != id@,
        decreases projects@.len() - k,
    {
        if !projects[k].0.archived {
            let ids = &projects[k].1;
            let mut j: usize = 0;
            while j < ids.len()
                invariant
                    k < projects@.len(),
                    !projects@[k as int].0.archived,
                    forall|a: int, j: int| 0 <= a < k && !projects@[a].0.archived && 0 <= j < projects@[a].1@.len()
                        ==> (#[trigger] projects@[a].1@[j])@ != id@,
                    *ids == projects@[k as int].1,
                    j <= ids@.len(),
                    forall|b: int| 0 <= b < j ==> (#[trigger] ids@[b])@ != id@,
                decreases ids@.len() - j,
            {
                if same_text(ids[j].as_str(), id) {
                    assert(projects@[k as int].1@[j as int]@ == id@);
                    return true;
                }
                j = j + 1;
            }
        }
        k = k + 1;
    }
    false
}

/// The session list: each project with its sessions (runtime state
/// first, stored values next), "Other" for stored sessions without a
/// project, archived projects last. Each project comes with the ids of its
/// stored sessions; `rows` are all stored sessions.
pub fn build_project_session_tree(
    projects: &[(ProjectRow, Vec<String>)],
    rows: &[SessionRow],
    mgr: &SessionManager,
) -> (r: Vec<ProjectGroup>)
    requires
        mgr.wf(),
        rows_unique(rows@),
    ensures
        group_views(r@) == session_tree(projects@, rows@, mgr.table()),
{
    let mut result: Vec<ProjectGroup> = Vec::new();
    let mut archived: Vec<ProjectGroup> = Vec::new();
    for k in 0..projects.len()
        invariant
            mgr.wf(),
            rows_unique(rows@),
            group_views(result@) == project_groups(projects@.subrange(0, k as int), rows@, mgr.table(), false),
            group_views(archived@) == project_groups(projects@.subrange(0, k as int), rows@, mgr.table(), true),
    {
        let ghost pre = projects@.subrange(0, k as int);
        let ghost post = projects@.subrange(0, k + 1);
        assert(post.drop_last() =~= pre);
        let g = project_group_of(&projects[k].0, &projects[k].1, rows, mgr);
        let ghost gv = g@;
        if projects[k].0.archived {
            archived.push(g);
            assert(group_views(archived@) =~= group_views(archived@.drop_last()).push(gv));
        } else {
            result.push(g);
            assert(group_views(result@) =~= group_views(result@.drop_last()).push(gv));
        }
    }
    assert(projects@.subrange(0, projects@.len() as int) =~= projects@);
    let mut orphans: Vec<SessionInfo> = Vec::new();
    let ghost mut orphan_seq: Seq<SessionRow> = seq![];
    for i in 0..rows.len()
        invariant
            mgr.wf(),
            orphan_seq == orphan_rows(rows@.subrange(0, i as int), projects@),
            orphans@.len() == orphan_seq.len(),
            forall|j: int| 0 <= j < orphans@.len() ==> (#[trigger] orphans@[j])@
                == orphan_info(orphan_seq[j], runtime_of(mgr.table(), orphan_seq[j].instance_id@)),
    {
        let ghost pre = rows@.subrange(0, i as int);
        assert(rows@.subrange(0, i + 1).drop_last() =~= pre);
        let row = &rows[i];
        if row.project_id.is_none() && !is_linked(projects, row.instance_id.as_str()) {
            let info = orphan_info_of(row, mgr);
            orphans.push(info);
            proof {
                orphan_seq = orphan_seq.push(*row);
            }
        }
    }
    assert(rows@.subrange(0, rows@.len() as int) =~= rows@);
    assert(info_views(orphans@) =~= orphan_infos(orphan_seq, mgr.table()));
    let ghost before_other = result@;
    if orphans.len() > 0 {
        let sessions = list_in_order(&orphans);
        let other = ProjectGroup {
            path: String::new(),
            name: "Other".to_string(),
            id: None,
            project_type: String::new(),
            pinned: 0,
            archived: false,
            sessions: sessions,
        };
        result.push(other);
    }
    let ghost middle = result@;
    let ghost tail = archived@;
    result.append(&mut archived);
    proof {
        assert(result@ == middle + tail);
        assert(group_views(result@) =~= group_views(middle) + group_views(tail));
        if orphans@.len() > 0 {
            assert(group_views(middle) =~= group_views(before_other).push(middle.last()@));
        } else {
            assert(middle == before_other);
        }
    }
    result
}

} // verus!
