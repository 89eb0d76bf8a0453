//! The session list read straight from pi's session directory: every
//! session file of every project directory, labelled by its first user
//! message, grouped by the working directory it records, newest first.
//! The caller walks the directories and reads the files; this module
//! decides what the list holds and in which order.

use vstd::prelude::*;
use crate::names::{decode_project_name_with, decoded_name_on};
use crate::rpc::opt_view;
use crate::system::texts;
use crate::json::{json_items, json_items_at, json_str, json_str_at};
use crate::text::{chars_of, lemma_split_nonempty, same_text, slice_chars, split_chars, split_seq, string_of, views};

verus! {

// ─── Time ─────────────────────────────────────────────────────────────────

/// The RFC 3339 text (UTC) of a time in seconds since the epoch, when
/// chrono can hold that time.
pub uninterp spec fn rfc3339_of_secs(secs: u64) -> Option<Seq<char>>;

/// `chrono::DateTime::from_timestamp(secs as i64, 0)` and, when chrono
/// holds that time, its `to_rfc3339()`. The text is named, not described.
#[verifier::external_body]
fn secs_rfc3339(secs: u64) -> (r: Option<String>)
    ensures
        opt_view(r) == rfc3339_of_secs(secs),
{
    chrono::DateTime::from_timestamp(secs as i64, 0).map(|d| d.to_rfc3339())
}

/// `chrono::Utc::now().to_rfc3339()`: the current time, of which nothing
/// is stated.
#[verifier::external_body]
fn now_rfc3339() -> (r: String) {
    chrono::Utc::now().to_rfc3339()
}

/// The creation time of a session file as the list shows it: the RFC 3339
/// text of `secs`, or of the current time when chrono cannot hold `secs`.
pub fn created_text(secs: u64) -> (r: String)
    ensures
        rfc3339_of_secs(secs) matches Some(t) ==> r@ == t,
{
    match secs_rfc3339(secs) {
        Some(t) => t,
        None => now_rfc3339(),
    }
}

// ─── Lines and prefixes ────────────────────────────────────────────────────

/// A line without the `\r` of a `\r\n` ending.
pub open spec fn drop_cr(l: Seq<char>) -> Seq<char> {
    if l.len() > 0 && l.last() == '\r' {
        l.drop_last()
    } else {
        l
    }
}

/// The lines of a text as `str::lines` gives them: split at `\n`, the `\r`
/// of a `\r\n` ending dropped, and no empty line after a final `\n`.
pub open spec fn text_lines(s: Seq<char>) -> Seq<Seq<char>> {
    let p = split_seq(s, '\n');
    let n = p.len() as int;
    let k = if p.last().len() == 0 { n - 1 } else { n };
    Seq::new(k as nat, |i: int| if i < n - 1 { drop_cr(p[i]) } else { p[i] })
}

/// The lines of a text (see [`text_lines`]).
pub fn lines_of(s: &[char]) -> (r: Vec<Vec<char>>)
    ensures
        views(r@) == text_lines(s@),
{
    let parts = split_chars(s, '\n');
    proof {
        lemma_split_nonempty(s@, '\n');
    }
    let n = parts.len();
    assert(views(parts@)[n - 1] == parts@[n - 1]@);
    let k = if parts[n - 1].len() == 0 { n - 1 } else { n };
    let ghost p = split_seq(s@, '\n');
    let mut out: Vec<Vec<char>> = Vec::new();
    for i in 0..k
        invariant
            n == parts@.len(),
            k <= n,
            views(parts@) == p,
            p.len() == n,
            views(out@) == Seq::new(i as nat, |j: int| if j < n - 1 { drop_cr(p[j]) } else { p[j] }),
    {
        let l = &parts[i];
        assert(l@ == p[i as int]);
        let line = if i + 1 < n && l.len() > 0 && l[l.len() - 1] == '\r' {
            slice_chars(l, 0, l.len() - 1)
        } else {
            slice_chars(l, 0, l.len())
        };
        proof {
            assert(l@.subrange(0, l@.len() as int) =~= l@);
            assert(l@.len() > 0 ==> l@.subrange(0, l@.len() - 1) =~= l@.drop_last());
        }
        let ghost before = views(out@);
        out.push(line);
        assert(views(out@) =~= before.push(line@));
        assert(views(out@) =~= Seq::new((i + 1) as nat, |j: int| if j < n - 1 { drop_cr(p[j]) } else { p[j] }));
    }
    out
}

/// The first `n` characters of a text (all of it when shorter).
pub open spec fn take_chars(s: Seq<char>, n: nat) -> Seq<char> {
    if s.len() <= n {
        s
    } else {
        s.take(n as int)
    }
}

fn take_prefix(s: &[char], n: usize) -> (r: Vec<char>)
    ensures
        r@ == take_chars(s@, n as nat),
{
    if s.len() <= n {
        let r = slice_chars(s, 0, s.len());
        assert(r@ =~= s@);
        r
    } else {
        let r = slice_chars(s, 0, n);
        assert(r@ =~= s@.take(n as int));
        r
    }
}

/// The first line of a text (empty when it has none).
pub open spec fn first_line(s: Seq<char>) -> Seq<char> {
    if text_lines(s).len() > 0 {
        text_lines(s)[0]
    } else {
        seq![]
    }
}

// ─── What a session file says ──────────────────────────────────────────────

/// The text of a content block that is a text block.
pub open spec fn text_block(item: Seq<char>) -> Option<Seq<char>> {
    if json_str_at(item, "/type"@) == Some("text"@) {
        json_str_at(item, "/text"@)
    } else {
        None
    }
}

/// The text of the first text block from position `i` on.
pub open spec fn first_block_from(items: Seq<Seq<char>>, i: int) -> Option<Seq<char>>
    decreases items.len() - i,
{
    if i < 0 || i >= items.len() {
        None
    } else if text_block(items[i]) is Some {
        text_block(items[i])
    } else {
        first_block_from(items, i + 1)
    }
}

/// The text of a line that records a user message: its content when that
/// is a text, else its first text block.
pub open spec fn user_text(line: Seq<char>) -> Option<Seq<char>> {
    if json_str_at(line, "/message/role"@) == Some("user"@) {
        match json_str_at(line, "/message/content"@) {
            Some(s) => Some(s),
            None => match json_items_at(line, "/message/content"@) {
                Some(items) => first_block_from(items, 0),
                None => None,
            },
        }
    } else {
        None
    }
}

/// The text of the first user message from line `i` on (empty when none).
pub open spec fn first_user_from(lines: Seq<Seq<char>>, i: int) -> Seq<char>
    decreases lines.len() - i,
{
    if i < 0 || i >= lines.len() {
        seq![]
    } else if user_text(lines[i]) is Some {
        user_text(lines[i])->0
    } else {
        first_user_from(lines, i + 1)
    }
}

fn block_text(item: &str) -> (r: Option<String>)
    ensures
        opt_view(r) == text_block(item@),
{
    match json_str(item, "/type") {
        Some(t) => {
            if same_text(t.as_str(), "text") {
                json_str(item, "/text")
            } else {
                None
            }
        },
        None => None,
    }
}

fn line_user_text(line: &str) -> (r: Option<String>)
    ensures
        opt_view(r) == user_text(line@),
{
    let role = json_str(line, "/message/role");
    let is_user = match &role {
        Some(t) => same_text(t.as_str(), "user"),
        None => false,
    };
    if !is_user {
        return None;
    }
    match json_str(line, "/message/content") {
        Some(s) => Some(s),
        None => match json_items(line, "/message/content") {
            Some(items) => {
                let mut i: usize = 0;
                while i < items.len()
                    invariant
                        i <= items@.len(),
                        json_str_at(line@, "/message/role"@) == Some("user"@),
                        json_str_at(line@, "/message/content"@) is None,
                        json_items_at(line@, "/message/content"@) == Some(texts(items@)),
                        first_block_from(texts(items@), 0) == first_block_from(texts(items@), i as int),
                    decreases items@.len() - i,
                {
                    assert(texts(items@)[i as int] == items@[i as int]@);
                    let b = block_text(items[i].as_str());
                    if b.is_some() {
                        return b;
                    }
                    i = i + 1;
                }
                None
            },
            None => None,
        },
    }
}

/// A session file as the caller found it: the name of its project
/// directory, its name without `.jsonl`, its path, its creation and
/// modification times (seconds since the epoch, 0 when unknown) and what
/// it holds.
#[derive(Debug, Clone)]
pub struct SessionFile {
    pub project_dir: String,
    pub stem: String,
    pub path: String,
    pub created_secs: u64,
    pub modified_secs: u64,
    pub content: String,
}

/// Abstract session file.
pub struct SessionFileView {
    pub project_dir: Seq<char>,
    pub stem: Seq<char>,
    pub path: Seq<char>,
    pub created_secs: u64,
    pub modified_secs: u64,
    pub content: Seq<char>,
}

impl View for SessionFile {
    type V = SessionFileView;

    open spec fn view(&self) -> SessionFileView {
        SessionFileView {
            project_dir: self.project_dir@,
            stem: self.stem@,
            path: self.path@,
            created_secs: self.created_secs,
            modified_secs: self.modified_secs,
            content: self.content@,
        }
    }
}

/// One session of the list.
#[derive(Debug, Clone)]
pub struct SessionInfo {
    pub id: String,
    pub label: String,
    /// RFC 3339 creation time.
    pub created_at: String,
    pub file_path: String,
    /// Seconds since the epoch of the last change.
    pub updated_at: u64,
    pub preview: String,
    pub cwd: String,
}

/// Abstract session of the list.
pub struct InfoView {
    pub id: Seq<char>,
    pub label: Seq<char>,
    pub created_at: Seq<char>,
    pub file_path: Seq<char>,
    pub updated_at: u64,
    pub preview: Seq<char>,
    pub cwd: Seq<char>,
}

impl View for SessionInfo {
    type V = InfoView;

    open spec fn view(&self) -> InfoView {
        InfoView {
            id: self.id@,
            label: self.label@,
            created_at: self.created_at@,
            file_path: self.file_path@,
            updated_at: self.updated_at,
            preview: self.preview@,
            cwd: self.cwd@,
        }
    }
}

/// The working directory a session file records on its first line, else
/// the project path its directory name stands for (on Windows when
/// `windows` holds).
pub open spec fn file_cwd(f: SessionFileView, windows: bool) -> Seq<char> {
    let ls = text_lines(f.content);
    if ls.len() > 0 && json_str_at(ls[0], "/cwd"@) is Some {
        json_str_at(ls[0], "/cwd"@)->0
    } else {
        decoded_name_on(f.project_dir, windows)
    }
}

/// The label of a session: the first line of its first user message, at
/// most 50 characters; without one, the first 8 characters of the id its
/// first line records; else empty.
pub open spec fn file_label(f: SessionFileView) -> Seq<char> {
    let ls = text_lines(f.content);
    let msg = first_user_from(ls, 0);
    if msg.len() > 0 {
        take_chars(first_line(msg), 50)
    } else if ls.len() > 0 && json_str_at(ls[0], "/id"@) is Some {
        take_chars(json_str_at(ls[0], "/id"@)->0, 8)
    } else {
        seq![]
    }
}

/// The list entry of a session file created at the time `created`.
pub open spec fn file_info(f: SessionFileView, created: Seq<char>, windows: bool) -> InfoView {
    InfoView {
        id: f.stem,
        label: file_label(f),
        created_at: created,
        file_path: f.path,
        updated_at: f.modified_secs,
        preview: take_chars(first_user_from(text_lines(f.content), 0), 120),
        cwd: file_cwd(f, windows),
    }
}

/// The list entry of a session file created at the time `created`.
pub fn session_info(f: &SessionFile, created: String, windows: bool) -> (r: SessionInfo)
    ensures
        r@ == file_info(f@, created@, windows),
{
    let content = chars_of(f.content.as_str());
    let ls = lines_of(&content);
    let ghost lv = views(ls@);
    let mut first: Option<String> = None;
    if ls.len() > 0 {
        assert(lv[0] == ls@[0]@);
        first = Some(string_of(&ls[0]));
    }
    let mut msg: Vec<char> = Vec::new();
    let mut i: usize = 0;
    let mut found = false;
    while i < ls.len() && !found
        invariant
            i <= ls@.len(),
            lv == views(ls@),
            !found ==> msg@.len() == 0 && first_user_from(lv, 0) == first_user_from(lv, i as int),
            found ==> msg@ == first_user_from(lv, 0),
        decreases (ls@.len() - i) * 2 + (if found { 0int } else { 1int }),
    {
        assert(lv[i as int] == ls@[i as int]@);
        let line = string_of(&ls[i]);
        match line_user_text(line.as_str()) {
            Some(t) => {
                msg = chars_of(t.as_str());
                found = true;
            },
            None => {
                i = i + 1;
            },
        }
    }
    assert(msg@ == first_user_from(lv, 0));
    let cwd = match &first {
        Some(l) => match json_str(l.as_str(), "/cwd") {
            Some(c) => c,
            None => decode_project_name_with(f.project_dir.as_str(), windows),
        },
        None => decode_project_name_with(f.project_dir.as_str(), windows),
    };
    let label = if msg.len() > 0 {
        let ml = lines_of(&msg);
        let fl = if ml.len() > 0 {
            assert(views(ml@)[0] == ml@[0]@);
            slice_chars(&ml[0], 0, ml[0].len())
        } else {
            Vec::new()
        };
        proof {
            if ml@.len() > 0 {
                assert(ml@[0]@.subrange(0, ml@[0]@.len() as int) =~= ml@[0]@);
            }
        }
        assert(fl@ == first_line(msg@));
        string_of(&take_prefix(&fl, 50))
    } else {
        match &first {
            Some(l) => match json_str(l.as_str(), "/id") {
                Some(id) => string_of(&take_prefix(&chars_of(id.as_str()), 8)),
                None => String::new(),
            },
            None => String::new(),
        }
    };
    SessionInfo {
        id: f.stem.clone(),
        label,
        created_at: created,
        file_path: f.path.clone(),
        updated_at: f.modified_secs,
        preview: string_of(&take_prefix(&msg, 120)),
        cwd,
    }
}

// ─── Order ─────────────────────────────────────────────────────────────────

/// `a` comes before `b` in character order (as `String`'s `<` orders
/// texts: UTF-8 bytes order like the characters they encode).
pub open spec fn text_lt(a: Seq<char>, b: Seq<char>) -> bool {
    lt_from(a, b, 0)
}

/// [`text_lt`] looking from position `k` on, the characters before it
/// being equal.
pub open spec fn lt_from(a: Seq<char>, b: Seq<char>, k: int) -> bool
    decreases a.len() - k,
{
    if k < 0 || k >= a.len() {
        k < b.len()
    } else if k >= b.len() {
        false
    } else if a[k] != b[k] {
        (a[k] as int) < (b[k] as int)
    } else {
        lt_from(a, b, k + 1)
    }
}

fn text_before(a: &str, b: &str) -> (r: bool)
    ensures
        r == text_lt(a@, b@),
{
    let x = chars_of(a);
    let y = chars_of(b);
    let mut k: usize = 0;
    while k < x.len() && k < y.len() && x[k] == y[k]
        invariant
            k <= x@.len(),
            k <= y@.len(),
            lt_from(x@, y@, 0) == lt_from(x@, y@, k as int),
        decreases x@.len() - k,
    {
        k = k + 1;
    }
    if k >= x.len() {
        k < y.len()
    } else if k >= y.len() {
        false
    } else {
        x[k] < y[k]
    }
}

/// Where entry `i` goes among the already ordered entries `p`, searching
/// from position `k`: before the first one it comes before.
pub open spec fn slot(before: spec_fn(int, int) -> bool, p: Seq<int>, i: int, k: int) -> int
    decreases p.len() - k,
{
    if k < 0 || k >= p.len() {
        p.len() as int
    } else if before(i, p[k]) {
        k
    } else {
        slot(before, p, i, k + 1)
    }
}

/// The order of the first `n` entries under `before`, each placed in turn
/// (a stable sort when `before` breaks ties by position).
pub open spec fn stable_upto(before: spec_fn(int, int) -> bool, n: nat) -> Seq<int>
    decreases n,
{
    if n == 0 {
        seq![]
    } else {
        let p = stable_upto(before, (n - 1) as nat);
        p.insert(slot(before, p, n - 1, 0), n - 1)
    }
}

proof fn lemma_slot_range(before: spec_fn(int, int) -> bool, p: Seq<int>, i: int, k: int)
    requires
        0 <= k <= p.len(),
    ensures
        k <= slot(before, p, i, k) <= p.len(),
        forall|m: int| k <= m < slot(before, p, i, k) ==> !before(i, #[trigger] p[m]),
        slot(before, p, i, k) < p.len() ==> before(i, p[slot(before, p, i, k)]),
    decreases p.len() - k,
{
    if k < p.len() && !before(i, p[k]) {
        lemma_slot_range(before, p, i, k + 1);
    }
}

/// The order of `n` entries has `n` positions, each below `n`.
pub proof fn lemma_stable_upto_range(before: spec_fn(int, int) -> bool, n: nat)
    ensures
        stable_upto(before, n).len() == n,
        forall|a: int| 0 <= a < n ==> 0 <= #[trigger] stable_upto(before, n)[a] < n,
    decreases n,
{
    if n > 0 {
        let m = (n - 1) as nat;
        lemma_stable_upto_range(before, m);
        let p = stable_upto(before, m);
        let pos = slot(before, p, m as int, 0);
        lemma_slot_range(before, p, m as int, 0);
        let q = p.insert(pos, m as int);
        assert(stable_upto(before, n) == q);
        assert forall|a: int| 0 <= a < n implies 0 <= #[trigger] q[a] < n by {
            if a < pos {
                assert(q[a] == p[a]);
            } else if a > pos {
                assert(q[a] == p[a - 1]);
            }
        }
    }
}

/// Session `i` is listed before session `j`: changed later, or as late and
/// created later, or tied and found first.
pub open spec fn newer(e: Seq<InfoView>) -> spec_fn(int, int) -> bool {
    |i: int, j: int|
        e[i].updated_at > e[j].updated_at
        || (e[i].updated_at == e[j].updated_at && text_lt(e[j].created_at, e[i].created_at))
        || (e[i].updated_at == e[j].updated_at && e[i].created_at == e[j].created_at && i < j)
}

/// Group `i` is listed before group `j`: its directory name comes first,
/// or the names are equal and it was found first.
pub open spec fn by_name(names: Seq<Seq<char>>) -> spec_fn(int, int) -> bool {
    |i: int, j: int| text_lt(names[i], names[j]) || (names[i] == names[j] && i < j)
}

/// Abstract entries of a list of sessions.
pub open spec fn info_views(v: Seq<SessionInfo>) -> Seq<InfoView> {
    v.map_values(|x: SessionInfo| x@)
}

fn is_newer(e: &Vec<SessionInfo>, i: usize, j: usize) -> (r: bool)
    requires
        i < e@.len(),
        j < e@.len(),
    ensures
        r == newer(info_views(e@))(i as int, j as int),
{
    let ghost v = info_views(e@);
    assert(v[i as int] == e@[i as int]@ && v[j as int] == e@[j as int]@);
    let a = &e[i];
    let b = &e[j];
    a.updated_at > b.updated_at
        || (a.updated_at == b.updated_at && text_before(b.created_at.as_str(), a.created_at.as_str()))
        || (a.updated_at == b.updated_at && same_text(a.created_at.as_str(), b.created_at.as_str()) && i < j)
}

/// Positions as integers.
pub open spec fn index_seq(p: Seq<usize>) -> Seq<int> {
    p.map_values(|k: usize| k as int)
}

fn newest_first(e: &Vec<SessionInfo>) -> (p: Vec<usize>)
    ensures
        index_seq(p@) == stable_upto(newer(info_views(e@)), e@.len()),
{
    let ghost before = newer(info_views(e@));
    let mut p: Vec<usize> = Vec::new();
    let n = e.len();
    let mut i: usize = 0;
    while i < n
        invariant
            n == e@.len(),
            i <= n,
            before == newer(info_views(e@)),
            index_seq(p@) == stable_upto(before, i as nat),
            forall|a: int| 0 <= a < p@.len() ==> p@[a] < i,
        decreases n - i,
    {
        let mut k: usize = 0;
        while k < p.len() && !is_newer(e, i, p[k])
            invariant
                n == e@.len(),
                i < n,
                k <= p@.len(),
                before == newer(info_views(e@)),
                forall|a: int| 0 <= a < p@.len() ==> p@[a] < i,
                slot(before, index_seq(p@), i as int, 0) == slot(before, index_seq(p@), i as int, k as int),
            decreases p@.len() - k,
        {
            k = k + 1;
        }
        let ghost old_p = p@;
        p.insert(k, i);
        proof {
            assert(index_seq(p@) =~= index_seq(old_p).insert(k as int, i as int));
            assert forall|a: int| 0 <= a < p@.len() implies p@[a] < i + 1 by {
                if a < k {
                    assert(p@[a] == old_p[a]);
                } else if a > k {
                    assert(p@[a] == old_p[a - 1]);
                }
            }
        }
        i = i + 1;
    }
    p
}

fn name_order(names: &Vec<String>) -> (p: Vec<usize>)
    ensures
        index_seq(p@) == stable_upto(by_name(texts(names@)), names@.len()),
{
    let ghost before = by_name(texts(names@));
    let mut p: Vec<usize> = Vec::new();
    let n = names.len();
    let mut i: usize = 0;
    while i < n
        invariant
            n == names@.len(),
            i <= n,
            before == by_name(texts(names@)),
            index_seq(p@) == stable_upto(before, i as nat),
            forall|a: int| 0 <= a < p@.len() ==> p@[a] < i,
        decreases n - i,
    {
        let mut k: usize = 0;
        while k < p.len()
            && !(text_before(names[i].as_str(), names[p[k]].as_str())
                || (same_text(names[i].as_str(), names[p[k]].as_str()) && i < p[k]))
            invariant
                n == names@.len(),
                i < n,
                k <= p@.len(),
                before == by_name(texts(names@)),
                forall|a: int| 0 <= a < p@.len() ==> p@[a] < i,
                slot(before, index_seq(p@), i as int, 0) == slot(before, index_seq(p@), i as int, k as int),
            decreases p@.len() - k,
        {
            assert(texts(names@)[i as int] == names@[i as int]@);
            assert(texts(names@)[p@[k as int] as int] == names@[p@[k as int] as int]@);
            k = k + 1;
        }
        proof {
            if k < p@.len() {
                assert(texts(names@)[i as int] == names@[i as int]@);
                assert(texts(names@)[p@[k as int] as int] == names@[p@[k as int] as int]@);
            }
        }
        let ghost old_p = p@;
        p.insert(k, i);
        proof {
            assert(index_seq(p@) =~= index_seq(old_p).insert(k as int, i as int));
            assert forall|a: int| 0 <= a < p@.len() implies p@[a] < i + 1 by {
                if a < k {
                    assert(p@[a] == old_p[a]);
                } else if a > k {
                    assert(p@[a] == old_p[a - 1]);
                }
            }
        }
        i = i + 1;
    }
    p
}

// ─── Directory names ───────────────────────────────────────────────────────

/// A path part that names something: not empty and not `.`.
pub open spec fn is_name_part(c: Seq<char>) -> bool {
    c.len() > 0 && c != seq!['.']
}

/// The last naming part among the first `i` parts.
pub open spec fn last_name_part(parts: Seq<Seq<char>>, i: int) -> Option<Seq<char>>
    decreases i,
{
    if i <= 0 || i > parts.len() {
        None
    } else if is_name_part(parts[i - 1]) {
        Some(parts[i - 1])
    } else {
        last_name_part(parts, i - 1)
    }
}

/// The last component of a `/`-separated path as `Path::file_name` gives
/// it: none for a path that ends in `..`, the root or nothing at all.
pub open spec fn file_name(p: Seq<char>) -> Option<Seq<char>> {
    let parts = split_seq(p, '/');
    match last_name_part(parts, parts.len() as int) {
        Some(c) => if c == seq!['.', '.'] { None } else { Some(c) },
        None => None,
    }
}

/// The name a project is listed under: the last component of its path,
/// or the whole path when it has none.
pub open spec fn dir_name(p: Seq<char>) -> Seq<char> {
    match file_name(p) {
        Some(n) => n,
        None => p,
    }
}

/// The name a project is listed under (see [`dir_name`]).
pub fn project_dir_name(path: &str) -> (r: String)
    ensures
        r@ == dir_name(path@),
{
    let c = chars_of(path);
    let parts = split_chars(&c, '/');
    let ghost pv = views(parts@);
    let mut i: usize = parts.len();
    while i > 0 && !(parts[i - 1].len() > 0 && !(parts[i - 1].len() == 1 && parts[i - 1][0] == '.'))
        invariant
            i <= parts@.len(),
            pv == views(parts@),
            pv == split_seq(c@, '/'),
            last_name_part(pv, pv.len() as int) == last_name_part(pv, i as int),
        decreases i,
    {
        proof {
            assert(pv[i - 1] == parts@[i - 1]@);
            if parts@[i - 1]@.len() == 1 && parts@[i - 1]@[0] == '.' {
                assert(parts@[i - 1]@ =~= seq!['.']);
            }
        }
        i = i - 1;
    }
    if i == 0 {
        return path.to_string();
    }
    let last = &parts[i - 1];
    proof {
        assert(pv[i - 1] == last@);
        if last@ == seq!['.'] {
            assert(last@.len() == 1 && last@[0] == '.');
        }
    }
    let dots = last.len() == 2 && last[0] == '.' && last[1] == '.';
    proof {
        if last@ == seq!['.', '.'] {
            assert(last@[0] == '.' && last@[1] == '.');
        }
        if dots {
            assert(last@ =~= seq!['.', '.']);
        }
    }
    if dots {
        path.to_string()
    } else {
        string_of(last)
    }
}

// ─── Groups ────────────────────────────────────────────────────────────────

/// The working directories of a list of sessions, each once, in the order
/// they first occur.
pub open spec fn group_keys(s: Seq<InfoView>) -> Seq<Seq<char>>
    decreases s.len(),
{
    if s.len() == 0 {
        seq![]
    } else {
        let g = group_keys(s.drop_last());
        if g.contains(s.last().cwd) {
            g
        } else {
            g.push(s.last().cwd)
        }
    }
}

/// The sessions of a list that ran in the working directory `k`, in order.
pub open spec fn with_cwd(s: Seq<InfoView>, k: Seq<char>) -> Seq<InfoView>
    decreases s.len(),
{
    if s.len() == 0 {
        seq![]
    } else {
        let r = with_cwd(s.drop_last(), k);
        if s.last().cwd == k {
            r.push(s.last())
        } else {
            r
        }
    }
}

/// One project of the list: its working directory, the name it is listed
/// under and its sessions.
#[derive(Debug, Clone)]
pub struct ProjectGroup {
    pub path: String,
    pub dir_name: String,
    pub sessions: Vec<SessionInfo>,
}

/// Abstract project of the list.
pub struct GroupView {
    pub path: Seq<char>,
    pub dir_name: Seq<char>,
    pub sessions: Seq<InfoView>,
}

impl View for ProjectGroup {
    type V = GroupView;

    open spec fn view(&self) -> GroupView {
        GroupView { path: self.path@, dir_name: self.dir_name@, sessions: info_views(self.sessions@) }
    }
}

/// The session list read from the session directory.
#[derive(Debug, Clone)]
pub struct SessionsResponse {
    pub projects: Vec<ProjectGroup>,
}

/// Abstract projects of a list.
pub open spec fn group_views(v: Seq<ProjectGroup>) -> Seq<GroupView> {
    v.map_values(|g: ProjectGroup| g@)
}

/// Abstract session files.
pub open spec fn file_views(v: Seq<SessionFile>) -> Seq<SessionFileView> {
    v.map_values(|f: SessionFile| f@)
}

/// The list entries of session files created at the times `created`.
pub open spec fn file_infos(files: Seq<SessionFileView>, created: Seq<Seq<char>>, windows: bool) -> Seq<InfoView> {
    Seq::new(files.len(), |i: int| file_info(files[i], created[i], windows))
}

/// The entries in listing order: changed latest first, then created
/// latest first, then as found.
pub open spec fn newest_order(e: Seq<InfoView>) -> Seq<InfoView> {
    stable_upto(newer(e), e.len()).map_values(|k: int| e[k])
}

/// The session list of session files created at the times `created`: the
/// sessions in listing order, grouped by working directory, the groups
/// ordered by the name they are listed under (ties in the order their
/// first session is listed).
pub open spec fn file_listing(files: Seq<SessionFileView>, created: Seq<Seq<char>>, windows: bool) -> Seq<GroupView> {
    let s = newest_order(file_infos(files, created, windows));
    let ks = group_keys(s);
    let names = ks.map_values(|k: Seq<char>| dir_name(k));
    let q = stable_upto(by_name(names), ks.len());
    Seq::new(q.len(), |t: int| GroupView { path: ks[q[t]], dir_name: names[q[t]], sessions: with_cwd(s, ks[q[t]]) })
}

fn copy_info(x: &SessionInfo) -> (r: SessionInfo)
    ensures
        r@ == x@,
{
    SessionInfo {
        id: x.id.clone(),
        label: x.label.clone(),
        created_at: x.created_at.clone(),
        file_path: x.file_path.clone(),
        updated_at: x.updated_at,
        preview: x.preview.clone(),
        cwd: x.cwd.clone(),
    }
}

fn has_text(v: &Vec<String>, s: &str) -> (r: bool)
    ensures
        r == texts(v@).contains(s@),
{
    let mut k: usize = 0;
    while k < v.len()
        invariant
            k <= v@.len(),
            forall|j: int| 0 <= j < k ==> (#[trigger] v@[j])@ != s@,
        decreases v@.len() - k,
    {
        if same_text(v[k].as_str(), s) {
            assert(texts(v@)[k as int] == s@);
            return true;
        }
        k = k + 1;
    }
    assert forall|j: int| 0 <= j < texts(v@).len() implies texts(v@)[j] != s@ by {
        assert(texts(v@)[j] == v@[j]@);
    }
    false
}

fn keys_of(s: &Vec<SessionInfo>) -> (r: Vec<String>)
    ensures
        texts(r@) == group_keys(info_views(s@)),
{
    let mut keys: Vec<String> = Vec::new();
    for k in 0..s.len()
        invariant
            texts(keys@) == group_keys(info_views(s@).take(k as int)),
    {
        let ghost pre = info_views(s@).take(k as int);
        let ghost cur = info_views(s@).take(k + 1 as int);
        assert(cur.drop_last() =~= pre);
        assert(cur.last() == s@[k as int]@);
        if !has_text(&keys, s[k].cwd.as_str()) {
            let ghost before = texts(keys@);
            keys.push(s[k].cwd.clone());
            assert(texts(keys@) =~= before.push(s@[k as int].cwd@));
        }
    }
    assert(info_views(s@).take(s@.len() as int) =~= info_views(s@));
    keys
}

fn sessions_in(s: &Vec<SessionInfo>, key: &str) -> (r: Vec<SessionInfo>)
    ensures
        info_views(r@) == with_cwd(info_views(s@), key@),
{
    let mut out: Vec<SessionInfo> = Vec::new();
    for k in 0..s.len()
        invariant
            info_views(out@) == with_cwd(info_views(s@).take(k as int), key@),
    {
        let ghost pre = info_views(s@).take(k as int);
        let ghost cur = info_views(s@).take(k + 1 as int);
        assert(cur.drop_last() =~= pre);
        assert(cur.last() == s@[k as int]@);
        if same_text(s[k].cwd.as_str(), key) {
            let ghost before = info_views(out@);
            out.push(copy_info(&s[k]));
            assert(info_views(out@) =~= before.push(s@[k as int]@));
        }
    }
    assert(info_views(s@).take(s@.len() as int) =~= info_views(s@));
    out
}

/// The session list of session files, given the creation time text of
/// each (see [`file_listing`]).
pub fn sessions_listing(files: &Vec<SessionFile>, created: &Vec<String>, windows: bool) -> (r: SessionsResponse)
    requires
        created@.len() == files@.len(),
    ensures
        group_views(r.projects@) == file_listing(file_views(files@), texts(created@), windows),
{
    let ghost fv = file_views(files@);
    let mut infos: Vec<SessionInfo> = Vec::new();
    for i in 0..files.len()
        invariant
            created@.len() == files@.len(),
            fv == file_views(files@),
            info_views(infos@) == file_infos(fv, texts(created@), windows).take(i as int),
    {
        let x = session_info(&files[i], created[i].clone(), windows);
        let ghost before = info_views(infos@);
        infos.push(x);
        proof {
            assert(texts(created@)[i as int] == created@[i as int]@);
            assert(info_views(infos@) =~= before.push(x@));
            assert(info_views(infos@) =~= file_infos(fv, texts(created@), windows).take(i + 1 as int));
        }
    }
    let ghost e = file_infos(fv, texts(created@), windows);
    assert(info_views(infos@) =~= e);
    let order = newest_first(&infos);
    proof {
        lemma_stable_upto_range(newer(e), e.len());
        assert forall|a: int| 0 <= a < order@.len() implies order@[a] < infos@.len() by {
            assert(index_seq(order@)[a] == order@[a] as int);
        }
    }
    let mut sorted: Vec<SessionInfo> = Vec::new();
    for t in 0..order.len()
        invariant
            info_views(infos@) == e,
            index_seq(order@) == stable_upto(newer(e), e.len()),
            forall|a: int| 0 <= a < order@.len() ==> order@[a] < infos@.len(),
            order@.len() == e.len(),
            stable_upto(newer(e), e.len()).len() == e.len(),
            info_views(sorted@) == newest_order(e).take(t as int),
    {
        assert(index_seq(order@)[t as int] == order@[t as int] as int);
        let x = copy_info(&infos[order[t]]);
        let ghost before = info_views(sorted@);
        sorted.push(x);
        assert(info_views(infos@)[order@[t as int] as int] == infos@[order@[t as int] as int]@);
        assert(newest_order(e)[t as int] == e[order@[t as int] as int]);
        assert(info_views(sorted@) =~= before.push(x@));
        assert(info_views(sorted@) =~= newest_order(e).take(t + 1 as int));
    }
    assert(info_views(sorted@) =~= newest_order(e));
    let ghost sv = newest_order(e);
    let keys = keys_of(&sorted);
    let mut names: Vec<String> = Vec::new();
    for g in 0..keys.len()
        invariant
            texts(names@) == texts(keys@).take(g as int).map_values(|k: Seq<char>| dir_name(k)),
    {
        let ghost before = texts(names@);
        let nmg = project_dir_name(keys[g].as_str());
        names.push(nmg);
        assert(texts(keys@)[g as int] == keys@[g as int]@);
        assert(texts(names@) =~= before.push(nmg@));
        assert(texts(names@) =~= texts(keys@).take(g + 1 as int).map_values(|k: Seq<char>| dir_name(k)));
    }
    assert(texts(keys@).take(keys@.len() as int) =~= texts(keys@));
    let ghost ks = group_keys(sv);
    let ghost nm = ks.map_values(|k: Seq<char>| dir_name(k));
    assert(texts(names@) == nm);
    let q = name_order(&names);
    proof {
        lemma_stable_upto_range(by_name(nm), ks.len());
        assert forall|a: int| 0 <= a < q@.len() implies q@[a] < keys@.len() by {
            assert(index_seq(q@)[a] == q@[a] as int);
        }
    }
    let mut projects: Vec<ProjectGroup> = Vec::new();
    for t in 0..q.len()
        invariant
            info_views(sorted@) == sv,
            texts(keys@) == ks,
            texts(names@) == nm,
            names@.len() == keys@.len(),
            index_seq(q@) == stable_upto(by_name(nm), ks.len()),
            forall|a: int| 0 <= a < q@.len() ==> q@[a] < keys@.len(),
            group_views(projects@) == Seq::new(
                q@.len() as nat,
                |u: int| GroupView { path: ks[index_seq(q@)[u]], dir_name: nm[index_seq(q@)[u]], sessions: with_cwd(sv, ks[index_seq(q@)[u]]) },
            ).take(t as int),
    {
        let g = q[t];
        assert(index_seq(q@)[t as int] == g as int);
        assert(ks[g as int] == keys@[g as int]@);
        assert(nm[g as int] == names@[g as int]@);
        let grp = ProjectGroup {
            path: keys[g].clone(),
            dir_name: names[g].clone(),
            sessions: sessions_in(&sorted, keys[g].as_str()),
        };
        let ghost before = group_views(projects@);
        projects.push(grp);
        assert(group_views(projects@) =~= before.push(grp@));
    }
    let ghost whole = Seq::new(
        q@.len() as nat,
        |u: int| GroupView { path: ks[index_seq(q@)[u]], dir_name: nm[index_seq(q@)[u]], sessions: with_cwd(sv, ks[index_seq(q@)[u]]) },
    );
    assert(whole.take(q@.len() as int) =~= whole);
    assert(group_views(projects@) =~= file_listing(fv, texts(created@), windows));
    SessionsResponse { projects }
}

/// The session list of the session files the caller found: each labelled
/// by its first user message, grouped by the working directory it
/// records (or, without one, under the project path its directory name
/// stands for, decoded the Windows way when `windows` holds), sessions
/// changed latest first, projects by name. A creation time chrono cannot
/// hold is shown as the current time.
pub fn build_sessions_response(files: Vec<SessionFile>, windows: bool) -> (r: SessionsResponse)
    ensures
        exists|created: Seq<Seq<char>>| {
            &&& created.len() == files@.len()
            &&& forall|i: int| 0 <= i < files@.len() ==>
                (rfc3339_of_secs(#[trigger] files@[i].created_secs) matches Some(t) ==> created[i] == t)
            &&& group_views(r.projects@) == #[trigger] file_listing(file_views(files@), created, windows)
        },
{
    let mut created: Vec<String> = Vec::new();
    for i in 0..files.len()
        invariant
            created@.len() == i,
            forall|j: int| 0 <= j < i ==>
                (rfc3339_of_secs(#[trigger] files@[j].created_secs) matches Some(t) ==> created@[j]@ == t),
    {
        created.push(created_text(files[i].created_secs));
    }
    let r = sessions_listing(&files, &created, windows);
    assert forall|j: int| 0 <= j < files@.len() implies
        (rfc3339_of_secs(#[trigger] files@[j].created_secs) matches Some(t) ==> texts(created@)[j] == t) by {
        assert(texts(created@)[j] == created@[j]@);
    }
    r
}

// ─── What the list promises ────────────────────────────────────────────────

proof fn lemma_lt_irreflexive(a: Seq<char>, k: int)
    requires
        0 <= k,
    ensures
        !lt_from(a, a, k),
    decreases a.len() - k,
{
    if k < a.len() {
        lemma_lt_irreflexive(a, k + 1);
    }
}

proof fn lemma_lt_asymmetric(a: Seq<char>, b: Seq<char>, k: int)
    requires
        0 <= k,
        lt_from(a, b, k),
    ensures
        !lt_from(b, a, k),
    decreases a.len() - k,
{
    if k < a.len() && k < b.len() && a[k] == b[k] {
        lemma_lt_asymmetric(a, b, k + 1);
    }
}

proof fn lemma_lt_transitive(a: Seq<char>, b: Seq<char>, c: Seq<char>, k: int)
    requires
        0 <= k,
        lt_from(a, b, k),
        lt_from(b, c, k),
    ensures
        lt_from(a, c, k),
    decreases a.len() - k,
{
    if k < a.len() && k < b.len() && k < c.len() && a[k] == b[k] && b[k] == c[k] {
        lemma_lt_transitive(a, b, c, k + 1);
    }
}

proof fn lemma_lt_total(a: Seq<char>, b: Seq<char>, k: int)
    requires
        0 <= k <= a.len(),
        k <= b.len(),
        forall|m: int| 0 <= m < k ==> a[m] == b[m],
        a != b,
    ensures
        lt_from(a, b, k) || lt_from(b, a, k),
    decreases a.len() - k,
{
    if k == a.len() && k == b.len() {
        assert(a =~= b);
    } else if k < a.len() && k < b.len() {
        if a[k] == b[k] {
            lemma_lt_total(a, b, k + 1);
        } else {
            assert((a[k] as int) != (b[k] as int));
        }
    }
}

/// Character order on texts is a strict total order.
pub proof fn lemma_text_order(a: Seq<char>, b: Seq<char>, c: Seq<char>)
    ensures
        !text_lt(a, a),
        text_lt(a, b) ==> !text_lt(b, a),
        text_lt(a, b) && text_lt(b, c) ==> text_lt(a, c),
        a != b ==> text_lt(a, b) || text_lt(b, a),
{
    lemma_lt_irreflexive(a, 0);
    if text_lt(a, b) {
        lemma_lt_asymmetric(a, b, 0);
        if text_lt(b, c) {
            lemma_lt_transitive(a, b, c, 0);
        }
    }
    if a != b {
        lemma_lt_total(a, b, 0);
    }
}

/// `before` orders the positions below `n` strictly and totally.
pub open spec fn strict_total(before: spec_fn(int, int) -> bool, n: int) -> bool {
    &&& forall|i: int, j: int| 0 <= i < n && 0 <= j < n && i != j ==> #[trigger] before(i, j) || #[trigger] before(j, i)
    &&& forall|i: int, j: int, k: int| 0 <= i < n && 0 <= j < n && 0 <= k < n && #[trigger] before(i, j) && #[trigger] before(j, k) ==> before(i, k)
}

/// Placing each entry in turn lists every position below `n` once, each
/// before every later one in the order.
pub proof fn lemma_stable_sorted(before: spec_fn(int, int) -> bool, n: nat)
    requires
        strict_total(before, n as int),
    ensures
        stable_upto(before, n).len() == n,
        forall|a: int| 0 <= a < n ==> 0 <= #[trigger] stable_upto(before, n)[a] < n,
        forall|a: int, b: int| 0 <= a < b < n
            ==> before(#[trigger] stable_upto(before, n)[a], #[trigger] stable_upto(before, n)[b]),
    decreases n,
{
    lemma_stable_upto_range(before, n);
    if n > 0 {
        let m = (n - 1) as nat;
        assert(strict_total(before, m as int));
        lemma_stable_sorted(before, m);
        let p = stable_upto(before, m);
        let i = m as int;
        let pos = slot(before, p, i, 0);
        lemma_slot_range(before, p, i, 0);
        let q = p.insert(pos, i);
        assert(stable_upto(before, n) == q);
        assert forall|a: int, b: int| 0 <= a < b < n implies before(#[trigger] q[a], #[trigger] q[b]) by {
            if b < pos {
                assert(q[a] == p[a] && q[b] == p[b]);
            } else if b == pos {
                assert(q[a] == p[a]);
                assert(!before(i, p[a]));
                assert(p[a] != i);
                assert(before(p[a], i) || before(i, p[a]));
            } else if a < pos {
                assert(q[a] == p[a] && q[b] == p[b - 1]);
            } else if a == pos {
                assert(q[b] == p[b - 1]);
                assert(before(i, p[pos]));
                if b - 1 > pos {
                    assert(before(p[pos], p[b - 1]));
                }
            } else {
                assert(q[a] == p[a - 1] && q[b] == p[b - 1]);
            }
        }
    }
}

/// Session `a` is not older than session `b`: changed later, or as late
/// and not created earlier.
pub open spec fn not_older(a: InfoView, b: InfoView) -> bool {
    a.updated_at > b.updated_at || (a.updated_at == b.updated_at && !text_lt(a.created_at, b.created_at))
}

proof fn lemma_newer_total(e: Seq<InfoView>)
    ensures
        strict_total(newer(e), e.len() as int),
{
    assert forall|i: int, j: int| 0 <= i < e.len() && 0 <= j < e.len() && i != j implies
        #[trigger] newer(e)(i, j) || #[trigger] newer(e)(j, i) by {
        lemma_text_order(e[i].created_at, e[j].created_at, e[i].created_at);
    }
    assert forall|i: int, j: int, k: int| 0 <= i < e.len() && 0 <= j < e.len() && 0 <= k < e.len()
        && #[trigger] newer(e)(i, j) && #[trigger] newer(e)(j, k) implies newer(e)(i, k) by {
        lemma_text_order(e[k].created_at, e[j].created_at, e[i].created_at);
        lemma_text_order(e[i].created_at, e[k].created_at, e[j].created_at);
        lemma_text_order(e[j].created_at, e[i].created_at, e[k].created_at);
    }
}

proof fn lemma_by_name_total(names: Seq<Seq<char>>)
    ensures
        strict_total(by_name(names), names.len() as int),
{
    assert forall|i: int, j: int| 0 <= i < names.len() && 0 <= j < names.len() && i != j implies
        #[trigger] by_name(names)(i, j) || #[trigger] by_name(names)(j, i) by {
        lemma_text_order(names[i], names[j], names[i]);
    }
    assert forall|i: int, j: int, k: int| 0 <= i < names.len() && 0 <= j < names.len() && 0 <= k < names.len()
        && #[trigger] by_name(names)(i, j) && #[trigger] by_name(names)(j, k) implies by_name(names)(i, k) by {
        lemma_text_order(names[i], names[j], names[k]);
    }
}

proof fn lemma_with_cwd_order(s: Seq<InfoView>, k: Seq<char>)
    requires
        forall|i: int, j: int| 0 <= i < j < s.len() ==> not_older(#[trigger] s[i], #[trigger] s[j]),
    ensures
        forall|a: int| 0 <= a < with_cwd(s, k).len() ==> (#[trigger] with_cwd(s, k)[a]).cwd == k,
        forall|a: int| 0 <= a < with_cwd(s, k).len() ==> exists|i: int| 0 <= i < s.len() && s[i] == #[trigger] with_cwd(s, k)[a],
        forall|a: int, b: int| 0 <= a < b < with_cwd(s, k).len()
            ==> not_older(#[trigger] with_cwd(s, k)[a], #[trigger] with_cwd(s, k)[b]),
    decreases s.len(),
{
    if s.len() > 0 {
        let t = s.drop_last();
        assert forall|i: int, j: int| 0 <= i < j < t.len() implies not_older(#[trigger] t[i], #[trigger] t[j]) by {
            assert(t[i] == s[i] && t[j] == s[j]);
        }
        lemma_with_cwd_order(t, k);
        let w = with_cwd(t, k);
        assert forall|a: int| 0 <= a < w.len() implies exists|i: int| 0 <= i < s.len() && s[i] == #[trigger] w[a] by {
            let i = choose|i: int| 0 <= i < t.len() && t[i] == w[a];
            assert(s[i] == t[i]);
        }
        if s.last().cwd == k {
            let w2 = w.push(s.last());
            assert(with_cwd(s, k) == w2);
            assert forall|a: int| 0 <= a < w2.len() implies exists|i: int| 0 <= i < s.len() && s[i] == #[trigger] w2[a] by {
                if a == w.len() {
                    assert(s[s.len() - 1] == w2[a]);
                } else {
                    assert(w2[a] == w[a]);
                }
            }
            assert forall|a: int, b: int| 0 <= a < b < w2.len() implies not_older(#[trigger] w2[a], #[trigger] w2[b]) by {
                if b == w.len() {
                    assert(w2[a] == w[a]);
                    let i = choose|i: int| 0 <= i < t.len() && t[i] == w[a];
                    assert(s[i] == t[i]);
                    assert(not_older(s[i], s[s.len() - 1]));
                } else {
                    assert(w2[a] == w[a] && w2[b] == w[b]);
                }
            }
            assert forall|a: int| 0 <= a < w2.len() implies (#[trigger] w2[a]).cwd == k by {
                if a < w.len() {
                    assert(w2[a] == w[a]);
                }
            }
        }
    }
}

/// The projects of a list come in the order of the names they are listed
/// under.
pub open spec fn projects_by_name(r: Seq<GroupView>) -> bool {
    forall|t: int, u: int| 0 <= t < u < r.len() ==> !text_lt(#[trigger] r[u].dir_name, #[trigger] r[t].dir_name)
}

/// A project holds only sessions run in its directory, and lists them
/// changed latest first, then created latest first.
pub open spec fn group_newest_first(g: GroupView) -> bool {
    &&& forall|a: int| 0 <= a < g.sessions.len() ==> (#[trigger] g.sessions[a]).cwd == g.path
    &&& forall|a: int, b: int| 0 <= a < b < g.sessions.len()
        ==> not_older(#[trigger] g.sessions[a], #[trigger] g.sessions[b])
}

/// Every project of a list is in order (see [`group_newest_first`]).
pub open spec fn sessions_newest_first(r: Seq<GroupView>) -> bool {
    forall|t: int| 0 <= t < r.len() ==> #[trigger] group_newest_first(r[t])
}

/// The session list read from the session directory is ordered as
/// promised: projects by the name they are listed under, and within each
/// project (which holds only the sessions run in its directory) the
/// sessions changed latest first, then created latest first.
pub proof fn lemma_listing_in_order(files: Seq<SessionFileView>, created: Seq<Seq<char>>, windows: bool)
    ensures
        projects_by_name(file_listing(files, created, windows)),
        sessions_newest_first(file_listing(files, created, windows)),
{
    let e = file_infos(files, created, windows);
    lemma_newer_total(e);
    lemma_stable_sorted(newer(e), e.len());
    let o = stable_upto(newer(e), e.len());
    let s = newest_order(e);
    assert forall|i: int, j: int| 0 <= i < j < s.len() implies not_older(#[trigger] s[i], #[trigger] s[j]) by {
        assert(newer(e)(o[i], o[j]));
        assert(s[i] == e[o[i]] && s[j] == e[o[j]]);
        lemma_text_order(e[o[i]].created_at, e[o[j]].created_at, e[o[i]].created_at);
    }
    let ks = group_keys(s);
    let names = ks.map_values(|k: Seq<char>| dir_name(k));
    lemma_by_name_total(names);
    lemma_stable_sorted(by_name(names), ks.len());
    let q = stable_upto(by_name(names), ks.len());
    let r = file_listing(files, created, windows);
    assert forall|t: int, u: int| 0 <= t < u < r.len() implies !text_lt(#[trigger] r[u].dir_name, #[trigger] r[t].dir_name) by {
        assert(by_name(names)(q[t], q[u]));
        lemma_text_order(names[q[t]], names[q[u]], names[q[t]]);
    }
    assert forall|t: int| 0 <= t < r.len() implies #[trigger] group_newest_first(r[t]) by {
        lemma_with_cwd_order(s, ks[q[t]]);
    }
}

} // verus!
