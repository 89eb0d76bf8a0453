//! File trees of a workspace (path to size, mtime, line count) and the
//! snapshot diff that turns two trees into per-file artifacts.

use vstd::prelude::*;
use crate::text::chars_of;

verus! {

/// Code point lexicographic order on texts (the order of `String` keys in
/// a `BTreeMap`, since UTF-8 byte order and code point order agree).
pub open spec fn lex_lt(a: Seq<char>, b: Seq<char>) -> bool
    decreases a.len(),
{
    if a.len() == 0 {
        b.len() > 0
    } else if b.len() == 0 {
        false
    } else if a[0] != b[0] {
        a[0] < b[0]
    } else {
        lex_lt(a.drop_first(), b.drop_first())
    }
}

/// `lex_lt` is irreflexive.
pub proof fn lemma_lex_irreflexive(a: Seq<char>)
    ensures
        !lex_lt(a, a),
    decreases a.len(),
{
    if a.len() > 0 {
        lemma_lex_irreflexive(a.drop_first());
    }
}

/// `lex_lt` is transitive.
pub proof fn lemma_lex_transitive(a: Seq<char>, b: Seq<char>, c: Seq<char>)
    requires
        lex_lt(a, b),
        lex_lt(b, c),
    ensures
        lex_lt(a, c),
    decreases a.len(),
{
    if a.len() > 0 && b.len() > 0 && c.len() > 0 {
        if a[0] == b[0] && b[0] == c[0] {
            lemma_lex_transitive(a.drop_first(), b.drop_first(), c.drop_first());
        }
    }
}

/// Any two different texts are ordered one way or the other, never both.
pub proof fn lemma_lex_total(a: Seq<char>, b: Seq<char>)
    ensures
        a == b || lex_lt(a, b) || lex_lt(b, a),
        !(lex_lt(a, b) && lex_lt(b, a)),
    decreases a.len(),
{
    if a.len() > 0 && b.len() > 0 {
        lemma_lex_total(a.drop_first(), b.drop_first());
        if a[0] == b[0] && a.drop_first() == b.drop_first() {
            assert(a =~= seq![a[0]] + a.drop_first());
            assert(b =~= seq![b[0]] + b.drop_first());
        }
    } else if a.len() == 0 && b.len() == 0 {
        assert(a =~= b);
    }
}

/// Three-way comparison result.
#[derive(Debug, Clone, Copy, PartialEq, Eq, Structural)]
pub enum Order3 {
    Less,
    Equal,
    Greater,
}

/// Compares two texts in [`lex_lt`] order.
pub fn compare_text(a: &[char], b: &[char]) -> (r: Order3)
    ensures
        r == Order3::Less <==> lex_lt(a@, b@),
        r == Order3::Equal <==> a@ == b@,
        r == Order3::Greater <==> lex_lt(b@, a@),
{
    proof {
        lemma_lex_total(a@, b@);
        lemma_lex_irreflexive(a@);
    }
    assert(a@.subrange(0, a@.len() as int) =~= a@);
    assert(b@.subrange(0, b@.len() as int) =~= b@);
    let mut k: usize = 0;
    while k < a.len() && k < b.len()
        invariant
            0 <= k <= a@.len(),
            k <= b@.len(),
            forall|m: int| 0 <= m < k ==> a@[m] == b@[m],
            lex_lt(a@, b@) == lex_lt(a@.subrange(k as int, a@.len() as int), b@.subrange(k as int, b@.len() as int)),
            lex_lt(b@, a@) == lex_lt(b@.subrange(k as int, b@.len() as int), a@.subrange(k as int, a@.len() as int)),
        decreases a.len() - k,
    {
        let x = a[k];
        let y = b[k];
        let ghost sa = a@.subrange(k as int, a@.len() as int);
        let ghost sb = b@.subrange(k as int, b@.len() as int);
        if x != y {
            assert(sa[0] == x && sb[0] == y);
            if x < y {
                return Order3::Less;
            } else {
                assert(a@ != b@) by {
                    assert(a@[k as int] != b@[k as int]);
                }
                return Order3::Greater;
            }
        }
        assert(sa.drop_first() =~= a@.subrange(k + 1, a@.len() as int));
        assert(sb.drop_first() =~= b@.subrange(k + 1, b@.len() as int));
        k = k + 1;
    }
    let ghost sa = a@.subrange(k as int, a@.len() as int);
    let ghost sb = b@.subrange(k as int, b@.len() as int);
    if a.len() == b.len() {
        assert(a@ =~= b@);
        Order3::Equal
    } else if a.len() < b.len() {
        assert(sa.len() == 0 && sb.len() > 0);
        Order3::Less
    } else {
        assert(sb.len() == 0 && sa.len() > 0);
        assert(a@.len() != b@.len());
        Order3::Greater
    }
}

/// One file of a tree: relative path, size, mtime (ms) and line count.
#[derive(Debug, Clone)]
pub struct TreeEntry {
    pub path: String,
    pub size: i64,
    pub mtime: i64,
    pub lines: i64,
}

/// The (size, mtime, lines) triple of an entry.
pub open spec fn entry_value(e: TreeEntry) -> (i64, i64, i64) {
    (e.size, e.mtime, e.lines)
}

/// Entries strictly ordered by path.
pub open spec fn sorted_entries(s: Seq<TreeEntry>) -> bool {
    forall|a: int, b: int| 0 <= a < b < s.len() ==> lex_lt(#[trigger] s[a].path@, #[trigger] s[b].path@)
}

/// The path to (size, mtime, lines) map of a list of entries.
pub open spec fn entries_map(s: Seq<TreeEntry>) -> Map<Seq<char>, (i64, i64, i64)> {
    Map::new(
        |p: Seq<char>| exists|k: int| 0 <= k < s.len() && #[trigger] s[k].path@ == p,
        |p: Seq<char>| entry_value(s[index_of_path(s, p)]),
    )
}

/// The position of `p` in `s` (meaningful when `p` occurs).
pub open spec fn index_of_path(s: Seq<TreeEntry>, p: Seq<char>) -> int {
    choose|k: int| 0 <= k < s.len() && #[trigger] s[k].path@ == p
}

proof fn lemma_sorted_unique(s: Seq<TreeEntry>, a: int, b: int)
    requires
        sorted_entries(s),
        0 <= a < s.len(),
        0 <= b < s.len(),
        s[a].path@ == s[b].path@,
    ensures
        a == b,
{
    if a < b {
        lemma_lex_irreflexive(s[a].path@);
    } else if b < a {
        lemma_lex_irreflexive(s[a].path@);
    }
}

proof fn lemma_entries_map_at(s: Seq<TreeEntry>, k: int)
    requires
        sorted_entries(s),
        0 <= k < s.len(),
    ensures
        entries_map(s).contains_key(s[k].path@),
        entries_map(s)[s[k].path@] == entry_value(s[k]),
{
    let p = s[k].path@;
    assert(exists|m: int| 0 <= m < s.len() && #[trigger] s[m].path@ == p);
    let c = index_of_path(s, p);
    lemma_sorted_unique(s, c, k);
}

/// A file tree: each relative path at most once, kept in path order.
#[derive(Debug, Clone)]
pub struct FileTree {
    entries: Vec<TreeEntry>,
}

impl View for FileTree {
    type V = Map<Seq<char>, (i64, i64, i64)>;

    closed spec fn view(&self) -> Map<Seq<char>, (i64, i64, i64)> {
        entries_map(self.entries@)
    }
}

/// A tree after uploads: each file recorded in turn, a later one for the
/// same path replacing an earlier one.
pub open spec fn with_uploads(
    m: Map<Seq<char>, (i64, i64, i64)>,
    files: Seq<(String, (i64, i64, i64))>,
) -> Map<Seq<char>, (i64, i64, i64)>
    decreases files.len(),
{
    if files.len() == 0 {
        m
    } else {
        with_uploads(m, files.drop_last()).insert(files.last().0@, files.last().1)
    }
}

impl FileTree {
    /// The tree's internal order holds.
    pub closed spec fn wf(&self) -> bool {
        sorted_entries(self.entries@)
    }

    /// The empty tree.
    pub fn new() -> (t: Self)
        ensures
            t.wf(),
            t@ == Map::<Seq<char>, (i64, i64, i64)>::empty(),
    {
        let t = FileTree { entries: Vec::new() };
        assert(t@ =~= Map::<Seq<char>, (i64, i64, i64)>::empty());
        t
    }

    /// Number of files.
    pub fn len(&self) -> (n: usize)
        requires
            self.wf(),
        ensures
            n == self@.len(),
    {
        proof {
            self.lemma_len();
        }
        self.entries.len()
    }

    proof fn lemma_len(&self)
        requires
            self.wf(),
        ensures
            self@.dom().finite(),
            self@.len() == self.entries@.len(),
    {
        let s = self.entries@;
        let keys = s.map_values(|e: TreeEntry| e.path@);
        assert(self@.dom() =~= keys.to_set()) by {
            assert forall|p: Seq<char>| self@.dom().contains(p) implies keys.to_set().contains(p) by {
                let k = choose|k: int| 0 <= k < s.len() && #[trigger] s[k].path@ == p;
                assert(keys[k] == p);
            }
            assert forall|p: Seq<char>| keys.to_set().contains(p) implies self@.dom().contains(p) by {
                let k = choose|k: int| 0 <= k < keys.len() && keys[k] == p;
                assert(s[k].path@ == p);
            }
        }
        assert(keys.no_duplicates()) by {
            assert forall|a: int, b: int| 0 <= a < keys.len() && 0 <= b < keys.len() && a != b
                implies keys[a] != keys[b] by {
                if keys[a] == keys[b] {
                    lemma_sorted_unique(s, a, b);
                }
            }
        }
        keys.unique_seq_to_set();
    }

    /// The value recorded for `path`, if any.
    pub fn get(&self, path: &str) -> (r: Option<(i64, i64, i64)>)
        requires
            self.wf(),
        ensures
            r is Some <==> self@.contains_key(path@),
            r matches Some(v) ==> v == self@[path@],
    {
        let p = chars_of(path);
        let n = self.entries.len();
        for k in 0..n
            invariant
                n == self.entries@.len(),
                p@ == path@,
                sorted_entries(self.entries@),
                forall|m: int| 0 <= m < k ==> self.entries@[m].path@ != path@,
        {
            let e = &self.entries[k];
            let ek = chars_of(e.path.as_str());
            if compare_text(&ek, &p) == Order3::Equal {
                proof {
                    lemma_entries_map_at(self.entries@, k as int);
                }
                return Some((e.size, e.mtime, e.lines));
            }
        }
        None
    }

    /// Takes uploaded files into a snapshot baseline: each (path, (size,
    /// mtime, lines)) is recorded in turn, so the next turn's diff does not
    /// count them as the agent's work.
    pub fn note_uploads(&mut self, files: &[(String, (i64, i64, i64))])
        requires
            old(self).wf(),
        ensures
            final(self).wf(),
            final(self)@ == with_uploads(old(self)@, files@),
    {
        let ghost start = self@;
        for k in 0..files.len()
            invariant
                self.wf(),
                self@ == with_uploads(start, files@.subrange(0, k as int)),
        {
            assert(files@.subrange(0, k + 1).drop_last() =~= files@.subrange(0, k as int));
            self.insert(files[k].0.clone(), files[k].1);
        }
        assert(files@.subrange(0, files@.len() as int) =~= files@);
    }

    /// Records `value` for `path`, replacing an earlier value.
    pub fn insert(&mut self, path: String, value: (i64, i64, i64))
        requires
            old(self).wf(),
        ensures
            final(self).wf(),
            final(self)@ == old(self)@.insert(path@, value),
    {
        let p = chars_of(path.as_str());
        let n = self.entries.len();
        let mut k: usize = 0;
        let mut done = false;
        while k < n && !done
            invariant
                n == self.entries@.len(),
                self.entries@ == old(self).entries@,
                p@ == path@,
                sorted_entries(self.entries@),
                0 <= k <= n,
                forall|m: int| 0 <= m < k ==> lex_lt(#[trigger] self.entries@[m].path@, path@),
                done ==> k < n && !lex_lt(self.entries@[k as int].path@, path@),
            decreases n - k + (if done { 0int } else { 1int }),
        {
            let ek = chars_of(self.entries[k].path.as_str());
            if compare_text(&ek, &p) != Order3::Less {
                done = true;
            } else {
                k = k + 1;
            }
        }
        let ghost s = self.entries@;
        let entry = TreeEntry { path, size: value.0, mtime: value.1, lines: value.2 };
        let same = if k < n {
            let ek = chars_of(self.entries[k].path.as_str());
            compare_text(&ek, &p) == Order3::Equal
        } else {
            false
        };
        proof {
            if k < n && !same {
                lemma_lex_total(s[k as int].path@, path@);
            }
        }
        if same {
            self.entries.set(k, entry);
            let ghost t = self.entries@;
            assert(t == s.update(k as int, entry));
            assert(sorted_entries(t)) by {
                assert forall|a: int, b: int| 0 <= a < b < t.len()
                    implies lex_lt(#[trigger] t[a].path@, #[trigger] t[b].path@) by {
                    assert(s[a].path@ == t[a].path@ || a == k);
                    if a == k {
                        assert(lex_lt(s[a].path@, s[b].path@));
                    }
                    if b == k {
                        assert(lex_lt(s[a].path@, s[b].path@));
                    }
                }
            }
            assert(entries_map(t) =~= entries_map(s).insert(path@, value)) by {
                assert forall|q: Seq<char>| #[trigger] entries_map(t).contains_key(q)
                    <==> entries_map(s).insert(path@, value).contains_key(q) by {
                    if entries_map(s).contains_key(q) {
                        let m = choose|m: int| 0 <= m < s.len() && #[trigger] s[m].path@ == q;
                        assert(t[m].path@ == q);
                    }
                    if entries_map(t).contains_key(q) {
                        let m = choose|m: int| 0 <= m < t.len() && #[trigger] t[m].path@ == q;
                        assert(s[m].path@ == q);
                    }
                    assert(t[k as int].path@ == path@);
                }
                assert forall|q: Seq<char>| #[trigger] entries_map(t).contains_key(q)
                    implies entries_map(t)[q] == entries_map(s).insert(path@, value)[q] by {
                    let m = choose|m: int| 0 <= m < t.len() && #[trigger] t[m].path@ == q;
                    lemma_entries_map_at(t, m);
                    if m != k {
                        lemma_entries_map_at(s, m);
                    }
                }
            }
        } else {
            self.entries.insert(k, entry);
            let ghost t = self.entries@;
            assert(t == s.insert(k as int, entry));
            assert(sorted_entries(t)) by {
                assert forall|a: int, b: int| 0 <= a < b < t.len()
                    implies lex_lt(#[trigger] t[a].path@, #[trigger] t[b].path@) by {
                    if b < k {
                        assert(t[a] == s[a] && t[b] == s[b]);
                    } else if b == k {
                        assert(t[a] == s[a]);
                    } else if a == k {
                        assert(t[b] == s[b - 1]);
                        if b - 1 > k {
                            lemma_lex_transitive(path@, s[k as int].path@, s[b - 1].path@);
                        }
                    } else if a < k {
                        assert(t[a] == s[a] && t[b] == s[b - 1]);
                    } else {
                        assert(t[a] == s[a - 1] && t[b] == s[b - 1]);
                    }
                }
            }
            assert(entries_map(t) =~= entries_map(s).insert(path@, value)) by {
                assert forall|q: Seq<char>| #[trigger] entries_map(t).contains_key(q)
                    <==> entries_map(s).insert(path@, value).contains_key(q) by {
                    if entries_map(s).contains_key(q) {
                        let m = choose|m: int| 0 <= m < s.len() && #[trigger] s[m].path@ == q;
                        if m < k {
                            assert(t[m].path@ == q);
                        } else {
                            assert(t[m + 1].path@ == q);
                        }
                    }
                    if entries_map(t).contains_key(q) {
                        let m = choose|m: int| 0 <= m < t.len() && #[trigger] t[m].path@ == q;
                        if m < k {
                            assert(s[m].path@ == q);
                        } else if m > k {
                            assert(s[m - 1].path@ == q);
                        }
                    }
                    assert(t[k as int].path@ == path@);
                }
                assert forall|q: Seq<char>| #[trigger] entries_map(t).contains_key(q)
                    implies entries_map(t)[q] == entries_map(s).insert(path@, value)[q] by {
                    let m = choose|m: int| 0 <= m < t.len() && #[trigger] t[m].path@ == q;
                    lemma_entries_map_at(t, m);
                    lemma_lex_irreflexive(path@);
                    if m < k {
                        lemma_entries_map_at(s, m);
                        assert(t[m] == s[m]);
                        assert(lex_lt(s[m].path@, path@));
                    } else if m > k {
                        lemma_entries_map_at(s, m - 1);
                        assert(t[m] == s[m - 1]);
                        if m - 1 > k {
                            assert(lex_lt(s[k as int].path@, s[m - 1].path@));
                            lemma_lex_transitive(path@, s[k as int].path@, s[m - 1].path@);
                        }
                        assert(lex_lt(path@, s[m - 1].path@));
                    } else {
                        assert(entry_value(t[m]) == value);
                    }
                }
            }
        }
    }
}

} // verus!

verus! {

/// What happened to a file between two snapshots.
#[derive(Debug, Clone, Copy, PartialEq, Eq, Structural)]
pub enum ArtifactOp {
    New,
    Modified,
    Deleted,
}

/// The name an operation is stored and sent under.
pub open spec fn op_text(op: ArtifactOp) -> Seq<char> {
    match op {
        ArtifactOp::New => "new"@,
        ArtifactOp::Modified => "modified"@,
        ArtifactOp::Deleted => "deleted"@,
    }
}

/// The largest of `x` and 0.
pub open spec fn clamp0(x: int) -> int {
    if x > 0 { x } else { 0 }
}

/// The artifact recorded for path `p` when the tree `om` became `nm`:
/// operation, size, lines added, lines deleted; `None` when unchanged.
/// A new file counts all its lines as added, a deleted file all its lines
/// as deleted; a modified file the net change of its line count.
pub open spec fn diff_of(
    om: Map<Seq<char>, (i64, i64, i64)>,
    nm: Map<Seq<char>, (i64, i64, i64)>,
    p: Seq<char>,
) -> Option<(ArtifactOp, i64, int, int)> {
    if nm.contains_key(p) && !om.contains_key(p) {
        Some((ArtifactOp::New, nm[p].0, nm[p].2 as int, 0))
    } else if nm.contains_key(p) && om.contains_key(p) && om[p] != nm[p] {
        Some((ArtifactOp::Modified, nm[p].0, clamp0(nm[p].2 - om[p].2), clamp0(om[p].2 - nm[p].2)))
    } else if om.contains_key(p) && !nm.contains_key(p) {
        Some((ArtifactOp::Deleted, om[p].0, 0, om[p].2 as int))
    } else {
        None
    }
}

/// A diff row `(path, op, size, lines_added, lines_deleted)` agrees with [`diff_of`].
pub open spec fn diff_row_ok(
    om: Map<Seq<char>, (i64, i64, i64)>,
    nm: Map<Seq<char>, (i64, i64, i64)>,
    e: (String, &'static str, i64, i64, i64),
) -> bool {
    match diff_of(om, nm, e.0@) {
        Some(d) => e.1@ == op_text(d.0) && e.2 == d.1 && e.3 == d.2 && e.4 == d.3,
        None => false,
    }
}

/// The line-count differences of files present in both trees with
/// different values fit in an `i64`.
pub open spec fn line_deltas_fit(
    om: Map<Seq<char>, (i64, i64, i64)>,
    nm: Map<Seq<char>, (i64, i64, i64)>,
) -> bool {
    forall|p: Seq<char>| #[trigger] om.contains_key(p) && nm.contains_key(p) && om[p] != nm[p]
        ==> i64::MIN <= nm[p].2 - om[p].2 <= i64::MAX && i64::MIN <= om[p].2 - nm[p].2 <= i64::MAX
}

impl FileTree {
    /// The files in path order as `(path, (size, mtime, lines))`.
    pub fn entries(&self) -> (r: Vec<(String, (i64, i64, i64))>)
        requires
            self.wf(),
        ensures
            r@.len() == self@.len(),
            forall|k: int| 0 <= k < r@.len() ==> self@.contains_key(#[trigger] r@[k].0@)
                && self@[r@[k].0@] == r@[k].1,
            forall|a: int, b: int| 0 <= a < b < r@.len() ==> lex_lt(#[trigger] r@[a].0@, #[trigger] r@[b].0@),
    {
        proof {
            self.lemma_len();
        }
        let mut r: Vec<(String, (i64, i64, i64))> = Vec::new();
        let n = self.entries.len();
        for k in 0..n
            invariant
                n == self.entries@.len(),
                sorted_entries(self.entries@),
                r@.len() == k,
                forall|m: int| 0 <= m < k ==> (#[trigger] r@[m]).0@ == self.entries@[m].path@
                    && r@[m].1 == entry_value(self.entries@[m]),
        {
            let e = &self.entries[k];
            r.push((e.path.clone(), (e.size, e.mtime, e.lines)));
        }
        proof {
            assert forall|k: int| 0 <= k < r@.len() implies self@.contains_key(#[trigger] r@[k].0@)
                && self@[r@[k].0@] == r@[k].1 by {
                lemma_entries_map_at(self.entries@, k);
            }
        }
        r
    }
}

/// Diffs two file trees into `(path, op, size, lines_added, lines_deleted)`
/// rows, one per changed path, ordered by path: `new` for paths only in
/// `new`, `deleted` for paths only in `old`, `modified` for paths in both
/// with a different (size, mtime, lines) value.
pub fn diff_trees(old: &FileTree, new: &FileTree) -> (r: Vec<(String, &'static str, i64, i64, i64)>)
    requires
        old.wf(),
        new.wf(),
        line_deltas_fit(old@, new@),
    ensures
        forall|k: int| 0 <= k < r@.len() ==> diff_row_ok(old@, new@, #[trigger] r@[k]),
        forall|p: Seq<char>| #[trigger] diff_of(old@, new@, p) is Some
            ==> exists|k: int| 0 <= k < r@.len() && r@[k].0@ == p,
        forall|a: int, b: int| 0 <= a < b < r@.len() ==> lex_lt(#[trigger] r@[a].0@, #[trigger] r@[b].0@),
{
    let ghost om = old@;
    let ghost nm = new@;
    let ghost os = old.entries@;
    let ghost ns = new.entries@;
    let on = old.entries.len();
    let nn = new.entries.len();
    let mut out: Vec<(String, &'static str, i64, i64, i64)> = Vec::new();
    let mut i: usize = 0;
    let mut j: usize = 0;
    while i < on || j < nn
        invariant
            on == os.len(),
            nn == ns.len(),
            os == old.entries@,
            ns == new.entries@,
            om == entries_map(os),
            nm == entries_map(ns),
            sorted_entries(os),
            sorted_entries(ns),
            line_deltas_fit(om, nm),
            0 <= i <= on,
            0 <= j <= nn,
            forall|a: int, b: int| 0 <= a < i && j <= b < nn ==> lex_lt(#[trigger] os[a].path@, #[trigger] ns[b].path@),
            forall|a: int, b: int| 0 <= b < j && i <= a < on ==> lex_lt(#[trigger] ns[b].path@, #[trigger] os[a].path@),
            forall|k: int| 0 <= k < out@.len() ==> diff_row_ok(om, nm, #[trigger] out@[k]),
            forall|k: int| #![trigger out@[k]] 0 <= k < out@.len() ==> (exists|a: int| 0 <= a < i && #[trigger] os[a].path@ == out@[k].0@)
                || (exists|b: int| 0 <= b < j && #[trigger] ns[b].path@ == out@[k].0@),
            forall|k: int, a: int| 0 <= k < out@.len() && i <= a < on ==> lex_lt(#[trigger] out@[k].0@, #[trigger] os[a].path@),
            forall|k: int, b: int| 0 <= k < out@.len() && j <= b < nn ==> lex_lt(#[trigger] out@[k].0@, #[trigger] ns[b].path@),
            forall|a: int| 0 <= a < i && (#[trigger] diff_of(om, nm, os[a].path@)) is Some
                ==> exists|k: int| 0 <= k < out@.len() && out@[k].0@ == os[a].path@,
            forall|b: int| 0 <= b < j && (#[trigger] diff_of(om, nm, ns[b].path@)) is Some
                ==> exists|k: int| 0 <= k < out@.len() && out@[k].0@ == ns[b].path@,
            forall|x: int, y: int| 0 <= x < y < out@.len() ==> lex_lt(#[trigger] out@[x].0@, #[trigger] out@[y].0@),
        decreases on - i + nn - j,
    {
        let ghost prev = out@;
        let ord = if i == on {
            Order3::Greater
        } else if j == nn {
            Order3::Less
        } else {
            let a = chars_of(old.entries[i].path.as_str());
            let b = chars_of(new.entries[j].path.as_str());
            compare_text(&a, &b)
        };
        if ord == Order3::Less {
            // old[i] is the smallest remaining key: only in `old`.
            let e = &old.entries[i];
            let ghost p = os[i as int].path@;
            proof {
                lemma_entries_map_at(os, i as int);
                lemma_lex_irreflexive(p);
                assert(!nm.contains_key(p)) by {
                    if nm.contains_key(p) {
                        let b = index_of_path(ns, p);
                        if b < j {
                            assert(lex_lt(ns[b].path@, os[i as int].path@));
                        } else {
                            if b > j {
                                lemma_lex_transitive(p, ns[j as int].path@, ns[b].path@);
                            }
                        }
                    }
                }
            }
            out.push((e.path.clone(), "deleted", e.size, 0, e.lines));
            proof {
                let row = out@[out@.len() - 1];
                assert(row.0@ == p);
                assert(diff_row_ok(om, nm, row));
                assert forall|k: int, a: int| 0 <= k < out@.len() && i + 1 <= a < on
                    implies lex_lt(#[trigger] out@[k].0@, #[trigger] os[a].path@) by {
                    if k < prev.len() {
                        assert(out@[k] == prev[k]);
                    }
                }
                assert forall|k: int, b: int| 0 <= k < out@.len() && j <= b < nn
                    implies lex_lt(#[trigger] out@[k].0@, #[trigger] ns[b].path@) by {
                    if k < prev.len() {
                        assert(out@[k] == prev[k]);
                    } else {
                        if b > j {
                            lemma_lex_transitive(p, ns[j as int].path@, ns[b].path@);
                        }
                    }
                }
                assert forall|a: int, b: int| 0 <= a < i + 1 && j <= b < nn
                    implies lex_lt(#[trigger] os[a].path@, #[trigger] ns[b].path@) by {
                    if a == i && b > j {
                        lemma_lex_transitive(p, ns[j as int].path@, ns[b].path@);
                    }
                }
                assert forall|k: int| #![trigger out@[k]] 0 <= k < out@.len() implies (exists|a: int| 0 <= a < i + 1 && #[trigger] os[a].path@ == out@[k].0@)
                    || (exists|b: int| 0 <= b < j && #[trigger] ns[b].path@ == out@[k].0@) by {
                    if k < prev.len() {
                        assert(out@[k] == prev[k]);
                    } else {
                        assert(os[i as int].path@ == out@[k].0@);
                    }
                }
                assert forall|a: int| 0 <= a < i + 1 && (#[trigger] diff_of(om, nm, os[a].path@)) is Some
                    implies exists|k: int| 0 <= k < out@.len() && out@[k].0@ == os[a].path@ by {
                    if a < i {
                        let k = choose|k: int| 0 <= k < prev.len() && prev[k].0@ == os[a].path@;
                        assert(out@[k] == prev[k]);
                    } else {
                        assert(out@[out@.len() - 1].0@ == os[a].path@);
                    }
                }
                assert forall|b: int| 0 <= b < j && (#[trigger] diff_of(om, nm, ns[b].path@)) is Some
                    implies exists|k: int| 0 <= k < out@.len() && out@[k].0@ == ns[b].path@ by {
                    let k = choose|k: int| 0 <= k < prev.len() && prev[k].0@ == ns[b].path@;
                    assert(out@[k] == prev[k]);
                }
            }
            i = i + 1;
        } else if ord == Order3::Greater {
            // new[j] is the smallest remaining key: only in `new`.
            let e = &new.entries[j];
            let ghost p = ns[j as int].path@;
            proof {
                lemma_entries_map_at(ns, j as int);
                lemma_lex_irreflexive(p);
                assert(!om.contains_key(p)) by {
                    if om.contains_key(p) {
                        let a = index_of_path(os, p);
                        if a < i {
                            assert(lex_lt(os[a].path@, ns[j as int].path@));
                        } else {
                            if a > i {
                                lemma_lex_transitive(p, os[i as int].path@, os[a].path@);
                            }
                        }
                    }
                }
            }
            out.push((e.path.clone(), "new", e.size, e.lines, 0));
            proof {
                let row = out@[out@.len() - 1];
                assert(row.0@ == p);
                assert(diff_row_ok(om, nm, row));
                assert forall|k: int, b: int| 0 <= k < out@.len() && j + 1 <= b < nn
                    implies lex_lt(#[trigger] out@[k].0@, #[trigger] ns[b].path@) by {
                    if k < prev.len() {
                        assert(out@[k] == prev[k]);
                    }
                }
                assert forall|k: int, a: int| 0 <= k < out@.len() && i <= a < on
                    implies lex_lt(#[trigger] out@[k].0@, #[trigger] os[a].path@) by {
                    if k < prev.len() {
                        assert(out@[k] == prev[k]);
                    } else {
                        if a > i {
                            lemma_lex_transitive(p, os[i as int].path@, os[a].path@);
                        }
                    }
                }
                assert forall|a: int, b: int| 0 <= b < j + 1 && i <= a < on
                    implies lex_lt(#[trigger] ns[b].path@, #[trigger] os[a].path@) by {
                    if b == j && a > i {
                        lemma_lex_transitive(p, os[i as int].path@, os[a].path@);
                    }
                }
                assert forall|k: int| #![trigger out@[k]] 0 <= k < out@.len() implies (exists|a: int| 0 <= a < i && #[trigger] os[a].path@ == out@[k].0@)
                    || (exists|b: int| 0 <= b < j + 1 && #[trigger] ns[b].path@ == out@[k].0@) by {
                    if k < prev.len() {
                        assert(out@[k] == prev[k]);
                    } else {
                        assert(ns[j as int].path@ == out@[k].0@);
                    }
                }
                assert forall|b: int| 0 <= b < j + 1 && (#[trigger] diff_of(om, nm, ns[b].path@)) is Some
                    implies exists|k: int| 0 <= k < out@.len() && out@[k].0@ == ns[b].path@ by {
                    if b < j {
                        let k = choose|k: int| 0 <= k < prev.len() && prev[k].0@ == ns[b].path@;
                        assert(out@[k] == prev[k]);
                    } else {
                        assert(out@[out@.len() - 1].0@ == ns[b].path@);
                    }
                }
                assert forall|a: int| 0 <= a < i && (#[trigger] diff_of(om, nm, os[a].path@)) is Some
                    implies exists|k: int| 0 <= k < out@.len() && out@[k].0@ == os[a].path@ by {
                    let k = choose|k: int| 0 <= k < prev.len() && prev[k].0@ == os[a].path@;
                    assert(out@[k] == prev[k]);
                }
            }
            j = j + 1;
        } else {
            // Same path in both trees.
            let eo = &old.entries[i];
            let en = &new.entries[j];
            let ghost p = os[i as int].path@;
            proof {
                lemma_entries_map_at(os, i as int);
                lemma_entries_map_at(ns, j as int);
                lemma_lex_irreflexive(p);
            }
            let changed = eo.size != en.size || eo.mtime != en.mtime || eo.lines != en.lines;
            if changed {
                assert(om.contains_key(p) && nm.contains_key(p) && om[p] != nm[p]);
                let added = if en.lines - eo.lines > 0 { en.lines - eo.lines } else { 0 };
                let deleted = if eo.lines - en.lines > 0 { eo.lines - en.lines } else { 0 };
                out.push((en.path.clone(), "modified", en.size, added, deleted));
                proof {
                    let row = out@[out@.len() - 1];
                    assert(row.0@ == p);
                    assert(diff_row_ok(om, nm, row));
                }
            } else {
                assert(om[p] == nm[p]);
                assert(diff_of(om, nm, p) is None);
            }
            proof {
                assert forall|k: int, a: int| 0 <= k < out@.len() && i + 1 <= a < on
                    implies lex_lt(#[trigger] out@[k].0@, #[trigger] os[a].path@) by {
                    if k < prev.len() {
                        assert(out@[k] == prev[k]);
                    }
                }
                assert forall|k: int, b: int| 0 <= k < out@.len() && j + 1 <= b < nn
                    implies lex_lt(#[trigger] out@[k].0@, #[trigger] ns[b].path@) by {
                    if k < prev.len() {
                        assert(out@[k] == prev[k]);
                    } else {
                        assert(ns[j as int].path@ == p);
                    }
                }
                assert forall|a: int, b: int| 0 <= a < i + 1 && j + 1 <= b < nn
                    implies lex_lt(#[trigger] os[a].path@, #[trigger] ns[b].path@) by {
                    if a == i {
                        assert(ns[j as int].path@ == p);
                    }
                }
                assert forall|a: int, b: int| 0 <= b < j + 1 && i + 1 <= a < on
                    implies lex_lt(#[trigger] ns[b].path@, #[trigger] os[a].path@) by {
                    if b == j {
                        assert(ns[j as int].path@ == p);
                    }
                }
                assert forall|k: int| #![trigger out@[k]] 0 <= k < out@.len() implies (exists|a: int| 0 <= a < i + 1 && #[trigger] os[a].path@ == out@[k].0@)
                    || (exists|b: int| 0 <= b < j + 1 && #[trigger] ns[b].path@ == out@[k].0@) by {
                    if k < prev.len() {
                        assert(out@[k] == prev[k]);
                    } else {
                        assert(os[i as int].path@ == out@[k].0@);
                    }
                }
                assert forall|a: int| 0 <= a < i + 1 && (#[trigger] diff_of(om, nm, os[a].path@)) is Some
                    implies exists|k: int| 0 <= k < out@.len() && out@[k].0@ == os[a].path@ by {
                    if a < i {
                        let k = choose|k: int| 0 <= k < prev.len() && prev[k].0@ == os[a].path@;
                        assert(out@[k] == prev[k]);
                    } else {
                        assert(out@[out@.len() - 1].0@ == os[a].path@);
                    }
                }
                assert forall|b: int| 0 <= b < j + 1 && (#[trigger] diff_of(om, nm, ns[b].path@)) is Some
                    implies exists|k: int| 0 <= k < out@.len() && out@[k].0@ == ns[b].path@ by {
                    if b < j {
                        let k = choose|k: int| 0 <= k < prev.len() && prev[k].0@ == ns[b].path@;
                        assert(out@[k] == prev[k]);
                    } else {
                        assert(ns[j as int].path@ == p);
                        assert(out@[out@.len() - 1].0@ == ns[b].path@);
                    }
                }
            }
            i = i + 1;
            j = j + 1;
        }
    }
    proof {
        assert forall|p: Seq<char>| #[trigger] diff_of(om, nm, p) is Some
            implies exists|k: int| 0 <= k < out@.len() && out@[k].0@ == p by {
            if om.contains_key(p) {
                let a = index_of_path(os, p);
                assert(diff_of(om, nm, os[a].path@) is Some);
            } else {
                let b = index_of_path(ns, p);
                assert(diff_of(om, nm, ns[b].path@) is Some);
            }
        }
    }
    out
}

} // verus!

verus! {

/// A file a turn created, changed or removed.
#[derive(Debug, Clone)]
pub struct ArtifactRow {
    pub id: String,
    pub workspace_id: String,
    /// Instance id of the session whose turn it was.
    pub session_id: String,
    pub turn_id: i64,
    /// Path inside the workspace, `/`-separated.
    pub rel_path: String,
    /// `new`, `modified` or `deleted`.
    pub op: String,
    pub size: i64,
    pub lines_added: i64,
    pub lines_deleted: i64,
    /// `snapshot` or `live`.
    pub source: String,
    pub deliverable: bool,
    /// RFC 3339 creation time.
    pub created_at: String,
}

/// The file tree a session's next turn is compared with.
#[derive(Debug, Clone)]
pub struct WorkspaceSnapshotRow {
    pub session_id: String,
    pub tree_json: String,
    pub updated_at: String,
}

/// An artifact id: `art_`, eight random hex digits, `_` and the row's
/// position.
pub open spec fn artifact_id_ok(id: Seq<char>, k: int) -> bool {
    &&& id.len() == 13 + crate::system::decimal(k as nat).len()
    &&& id.subrange(0, 4) == "art_"@
    &&& forall|j: int| 4 <= j < 12 ==> crate::lan_auth::is_lower_hex(#[trigger] id[j])
    &&& id[12] == '_'
    &&& id.subrange(13, id.len() as int) == crate::system::decimal(k as nat)
}

/// The path is listed.
pub open spec fn listed_path(marked: Seq<String>, p: Seq<char>) -> bool {
    exists|j: int| 0 <= j < marked.len() && (#[trigger] marked[j])@ == p
}

fn is_listed(marked: &[String], p: &str) -> (r: bool)
    ensures
        r == listed_path(marked@, p@),
{
    let mut j: usize = 0;
    while j < marked.len()
        invariant
            j <= marked@.len(),
            forall|i: int| 0 <= i < j ==> (#[trigger] marked@[i])@ != p@,
        decreases marked@.len() - j,
    {
        if crate::text::same_text(marked[j].as_str(), p) {
            return true;
        }
        j = j + 1;
    }
    false
}

fn artifact_id(k: usize) -> (r: String)
    ensures
        artifact_id_ok(r@, k as int),
{
    proof {
        reveal_strlit("art_");
    }
    let hex = crate::lan_auth::random_uuid_hex();
    let h = chars_of(hex.as_str());
    let mut v: Vec<char> = chars_of("art_");
    let mut j: usize = 0;
    while j < 8
        invariant
            h@ == hex@,
            h@.len() == 32,
            forall|i: int| 0 <= i < 32 ==> crate::lan_auth::is_lower_hex(#[trigger] h@[i]),
            j <= 8,
            v@.len() == 4 + j,
            v@.subrange(0, 4) == "art_"@,
            forall|i: int| 4 <= i < 4 + j ==> crate::lan_auth::is_lower_hex(#[trigger] v@[i]),
        decreases 8 - j,
    {
        let ghost before = v@;
        v.push(h[j]);
        assert(v@.subrange(0, 4) =~= before.subrange(0, 4));
        j = j + 1;
    }
    let ghost v8 = v@;
    v.push('_');
    assert forall|i: int| 4 <= i < 12 implies crate::lan_auth::is_lower_hex(#[trigger] v@[i]) by {
        assert(v@[i] == v8[i]);
    }
    assert(v@.subrange(0, 4) =~= v8.subrange(0, 4));
    let d = crate::system::decimal_text(k as u64);
    let r = crate::text::concat_chars(&v, &d);
    assert forall|i: int| 0 <= i < 13 implies r@[i] == v@[i] by {}
    assert(r@.subrange(0, 4) =~= v@.subrange(0, 4));
    assert(r@.subrange(13, r@.len() as int) =~= d@);
    crate::text::string_of(&r)
}

/// The artifact rows of a turn: one per path the turn changed (see
/// [`diff_of`]), in path order, each with a fresh id, the given
/// workspace, session, turn, source and time; a row is a deliverable when
/// its path is under `output/` or marked.
pub open spec fn turn_rows(
    om: Map<Seq<char>, (i64, i64, i64)>,
    nm: Map<Seq<char>, (i64, i64, i64)>,
    workspace_id: Seq<char>,
    session_id: Seq<char>,
    turn_id: i64,
    source: Seq<char>,
    marked: Seq<String>,
    now: Seq<char>,
    r: Seq<ArtifactRow>,
) -> bool {
    &&& forall|k: int| 0 <= k < r.len() ==> {
        let a = #[trigger] r[k];
        &&& match diff_of(om, nm, a.rel_path@) {
            Some(d) => a.op@ == op_text(d.0) && a.size == d.1 && a.lines_added == d.2 && a.lines_deleted == d.3,
            None => false,
        }
        &&& artifact_id_ok(a.id@, k)
        &&& a.workspace_id@ == workspace_id
        &&& a.session_id@ == session_id
        &&& a.turn_id == turn_id
        &&& a.source@ == source
        &&& a.created_at@ == now
        &&& a.deliverable == (crate::text::starts_with(a.rel_path@, "output/"@) || listed_path(marked, a.rel_path@))
    }
    &&& forall|p: Seq<char>| #[trigger] diff_of(om, nm, p) is Some ==> exists|k: int| 0 <= k < r.len() && r[k].rel_path@ == p
    &&& forall|a: int, b: int| 0 <= a < b < r.len() ==> lex_lt(#[trigger] r[a].rel_path@, #[trigger] r[b].rel_path@)
}

/// The artifact rows of a turn: one per path the turn changed (see
/// [`diff_trees`]), in path order, each with a fresh id, the given
/// workspace, session, turn, source and time; a row is a deliverable when
/// its path is under `output/` or marked.
pub fn artifact_rows(
    old: &FileTree,
    new: &FileTree,
    workspace_id: &str,
    session_id: &str,
    turn_id: i64,
    source: &str,
    marked: &[String],
    now: &str,
) -> (r: Vec<ArtifactRow>)
    requires
        old.wf(),
        new.wf(),
        line_deltas_fit(old@, new@),
    ensures
        turn_rows(old@, new@, workspace_id@, session_id@, turn_id, source@, marked@, now@, r@),
{
    let diffs = diff_trees(old, new);
    let mut rows: Vec<ArtifactRow> = Vec::new();
    for k in 0..diffs.len()
        invariant
            rows@.len() == k,
            forall|i: int| 0 <= i < k ==> {
                let a = #[trigger] rows@[i];
                &&& a.rel_path@ == diffs@[i].0@
                &&& a.op@ == diffs@[i].1@
                &&& a.size == diffs@[i].2
                &&& a.lines_added == diffs@[i].3
                &&& a.lines_deleted == diffs@[i].4
                &&& artifact_id_ok(a.id@, i)
                &&& a.workspace_id@ == workspace_id@
                &&& a.session_id@ == session_id@
                &&& a.turn_id == turn_id
                &&& a.source@ == source@
                &&& a.created_at@ == now@
                &&& a.deliverable == (crate::text::starts_with(a.rel_path@, "output/"@) || listed_path(marked@, a.rel_path@))
            },
    {
        let (path, op, size, added, deleted) = &diffs[k];
        let deliverable = crate::paths::is_output_path(path.as_str()) || is_listed(marked, path.as_str());
        rows.push(ArtifactRow {
            id: artifact_id(k),
            workspace_id: workspace_id.to_string(),
            session_id: session_id.to_string(),
            turn_id: turn_id,
            rel_path: path.clone(),
            op: (*op).to_string(),
            size: *size,
            lines_added: *added,
            lines_deleted: *deleted,
            source: source.to_string(),
            deliverable: deliverable,
            created_at: now.to_string(),
        });
    }
    proof {
        assert forall|p: Seq<char>| #[trigger] diff_of(old@, new@, p) is Some implies exists|k: int| 0 <= k < rows@.len() && rows@[k].rel_path@ == p by {
            let k = choose|k: int| 0 <= k < diffs@.len() && diffs@[k].0@ == p;
            assert(rows@[k].rel_path@ == p);
        }
        assert forall|a: int, b: int| 0 <= a < b < rows@.len() implies lex_lt(#[trigger] rows@[a].rel_path@, #[trigger] rows@[b].rel_path@) by {
            assert(lex_lt(diffs@[a].0@, diffs@[b].0@));
        }
        assert forall|k: int| 0 <= k < rows@.len() implies match diff_of(old@, new@, (#[trigger] rows@[k]).rel_path@) {
            Some(d) => rows@[k].op@ == op_text(d.0) && rows@[k].size == d.1 && rows@[k].lines_added == d.2 && rows@[k].lines_deleted == d.3,
            None => false,
        } by {
            assert(diff_row_ok(old@, new@, diffs@[k]));
        }
    }
    rows
}

/// What the end of a turn records for a session: with no baseline yet,
/// nothing (the scan only becomes the baseline, so files that were there
/// before are not taken for the turn's work); with one, the artifact rows
/// of the scan against it (see [`turn_rows`]).
pub fn capture_turn(
    baseline: Option<&FileTree>,
    scan: &FileTree,
    workspace_id: &str,
    session_id: &str,
    turn_id: i64,
    source: &str,
    marked: &[String],
    now: &str,
) -> (r: Vec<ArtifactRow>)
    requires
        scan.wf(),
        baseline matches Some(b) ==> b.wf() && line_deltas_fit(b@, scan@),
    ensures
        match baseline {
            None => r@.len() == 0,
            Some(b) => turn_rows(b@, scan@, workspace_id@, session_id@, turn_id, source@, marked@, now@, r@),
        },
{
    match baseline {
        None => Vec::new(),
        Some(b) => artifact_rows(b, scan, workspace_id, session_id, turn_id, source, marked, now),
    }
}

/// Milliseconds since the epoch of an RFC 3339 time, if it is one.
pub uninterp spec fn rfc3339_millis_of(s: Seq<char>) -> Option<i64>;

/// `chrono::DateTime::parse_from_rfc3339(s)` and, when it parses, the
/// time's `timestamp_millis()`. The result is named, not described.
#[verifier::external_body]
fn rfc3339_millis(s: &str) -> (r: Option<i64>)
    ensures
        r == rfc3339_millis_of(s@),
{
    match chrono::DateTime::parse_from_rfc3339(s) {
        Ok(dt) => Some(dt.timestamp_millis()),
        Err(_) => None,
    }
}

/// An artifact as clients see it: its creation time in epoch
/// milliseconds (0 when the stored time does not parse).
#[derive(Debug, Clone)]
pub struct ArtifactView {
    pub id: String,
    pub workspace_id: String,
    pub session_id: String,
    pub turn_id: i64,
    pub path: String,
    pub op: String,
    pub size: i64,
    pub lines_added: i64,
    pub lines_deleted: i64,
    pub source: String,
    pub deliverable: bool,
    pub created_at: i64,
}

/// An artifact row as clients see it.
pub fn artifact_view(r: &ArtifactRow) -> (v: ArtifactView)
    ensures
        v.id@ == r.id@,
        v.workspace_id@ == r.workspace_id@,
        v.session_id@ == r.session_id@,
        v.turn_id == r.turn_id,
        v.path@ == r.rel_path@,
        v.op@ == r.op@,
        v.size == r.size,
        v.lines_added == r.lines_added,
        v.lines_deleted == r.lines_deleted,
        v.source@ == r.source@,
        v.deliverable == r.deliverable,
        v.created_at == match rfc3339_millis_of(r.created_at@) {
            Some(t) => t,
            None => 0,
        },
{
    ArtifactView {
        id: r.id.clone(),
        workspace_id: r.workspace_id.clone(),
        session_id: r.session_id.clone(),
        turn_id: r.turn_id,
        path: r.rel_path.clone(),
        op: r.op.clone(),
        size: r.size,
        lines_added: r.lines_added,
        lines_deleted: r.lines_deleted,
        source: r.source.clone(),
        deliverable: r.deliverable,
        created_at: match rfc3339_millis(r.created_at.as_str()) {
            Some(t) => t,
            None => 0,
        },
    }
}

/// A turn that changes no file produces no artifact.
pub proof fn lemma_unchanged_tree_no_artifacts(m: Map<Seq<char>, (i64, i64, i64)>, p: Seq<char>)
    ensures
        diff_of(m, m, p) is None,
{
}

/// After uploads, the baseline holds each uploaded path with the value of
/// its last upload.
pub proof fn lemma_upload_recorded(m: Map<Seq<char>, (i64, i64, i64)>, files: Seq<(String, (i64, i64, i64))>, k: int)
    requires
        0 <= k < files.len(),
        forall|j: int| k < j < files.len() ==> (#[trigger] files[j]).0@ != files[k].0@,
    ensures
        with_uploads(m, files).contains_key(files[k].0@),
        with_uploads(m, files)[files[k].0@] == files[k].1,
    decreases files.len(),
{
    if k < files.len() - 1 {
        let rest = files.drop_last();
        assert forall|j: int| k < j < rest.len() implies (#[trigger] rest[j]).0@ != rest[k].0@ by {
            assert(rest[j] == files[j]);
        }
        lemma_upload_recorded(m, rest, k);
        assert(files.last() == files[files.len() - 1]);
    }
}

/// Uploads leave every other path of the baseline as it was.
pub proof fn lemma_upload_keeps_others(m: Map<Seq<char>, (i64, i64, i64)>, files: Seq<(String, (i64, i64, i64))>, p: Seq<char>)
    requires
        forall|k: int| 0 <= k < files.len() ==> (#[trigger] files[k]).0@ != p,
    ensures
        with_uploads(m, files).contains_key(p) == m.contains_key(p),
        m.contains_key(p) ==> with_uploads(m, files)[p] == m[p],
    decreases files.len(),
{
    if files.len() > 0 {
        let rest = files.drop_last();
        assert forall|k: int| 0 <= k < rest.len() implies (#[trigger] rest[k]).0@ != p by {
            assert(rest[k] == files[k]);
        }
        lemma_upload_keeps_others(m, rest, p);
        assert(files.last() == files[files.len() - 1]);
    }
}

/// Some row has this path.
pub open spec fn has_row_for(rows: Seq<ArtifactRow>, p: Seq<char>) -> bool {
    exists|k: int| 0 <= k < rows.len() && (#[trigger] rows[k]).rel_path@ == p
}

/// The marks (path, time marked) whose path no row has, in order.
pub open spec fn unlisted_marks(rows: Seq<ArtifactRow>, marks: Seq<(String, String)>) -> Seq<(String, String)>
    decreases marks.len(),
{
    if marks.len() == 0 {
        seq![]
    } else {
        let before = unlisted_marks(rows, marks.drop_last());
        if has_row_for(rows, marks.last().0@) {
            before
        } else {
            before.push(marks.last())
        }
    }
}

/// The row standing for a manual mark that no turn produced.
pub open spec fn mark_row_ok(a: ArtifactRow, mark: (String, String), workspace_id: Seq<char>, now_ms: u64) -> bool {
    &&& a.id@ == "mark:"@ + crate::system::decimal(now_ms as nat)
    &&& a.workspace_id@ == workspace_id
    &&& a.session_id@.len() == 0
    &&& a.turn_id == 0
    &&& a.rel_path@ == mark.0@
    &&& a.op@ == "new"@
    &&& a.size == 0 && a.lines_added == 0 && a.lines_deleted == 0
    &&& a.source@ == "manual"@
    &&& a.deliverable
    &&& a.created_at@ == mark.1@
}

/// The deliverables list: the deliverable rows as given, then a row for
/// each manual mark (path, time marked) whose path none of them has,
/// stamped `mark:<now_ms>`.
pub fn deliverables_with_marks(
    rows: Vec<ArtifactRow>,
    marks: &[(String, String)],
    workspace_id: &str,
    now_ms: u64,
) -> (r: Vec<ArtifactRow>)
    ensures
        r@.len() == rows@.len() + unlisted_marks(rows@, marks@).len(),
        r@.subrange(0, rows@.len() as int) == rows@,
        forall|k: int| 0 <= k < unlisted_marks(rows@, marks@).len() ==> mark_row_ok(
            #[trigger] r@[rows@.len() + k],
            unlisted_marks(rows@, marks@)[k],
            workspace_id@,
            now_ms,
        ),
{
    let ghost given = rows@;
    let n = rows.len();
    let prefix: [char; 5] = ['m', 'a', 'r', 'k', ':'];
    let id_chars = crate::text::concat_chars(&prefix, &crate::system::decimal_text(now_ms));
    proof {
        reveal_strlit("mark:");
        assert(prefix@ =~= "mark:"@);
    }
    let mut out = rows;
    for k in 0..marks.len()
        invariant
            out@.len() == n + unlisted_marks(given, marks@.subrange(0, k as int)).len(),
            n == given.len(),
            out@.subrange(0, n as int) == given,
            id_chars@ == "mark:"@ + crate::system::decimal(now_ms as nat),
            forall|j: int| 0 <= j < unlisted_marks(given, marks@.subrange(0, k as int)).len() ==> mark_row_ok(
                #[trigger] out@[n + j],
                unlisted_marks(given, marks@.subrange(0, k as int))[j],
                workspace_id@,
                now_ms,
            ),
    {
        assert(marks@.subrange(0, k + 1).drop_last() =~= marks@.subrange(0, k as int));
        assert(marks@.subrange(0, k + 1).last() == marks@[k as int]);
        let listed = {
            let mut found = false;
            let mut j: usize = 0;
            while j < n
                invariant
                    j <= n,
                    k < marks@.len(),
                    n == given.len(),
                    out@.subrange(0, n as int) == given,
                    n <= out@.len(),
                    found == exists|i: int| 0 <= i < j && (#[trigger] given[i]).rel_path@ == marks@[k as int].0@,
                decreases n - j,
            {
                assert(out@[j as int] == given[j as int]);
                if crate::text::same_text(out[j].rel_path.as_str(), marks[k].0.as_str()) {
                    found = true;
                }
                j = j + 1;
            }
            found
        };
        if !listed {
            let ghost before = out@;
            let ghost um = unlisted_marks(given, marks@.subrange(0, k as int));
            let row = ArtifactRow {
                id: crate::text::string_of(&id_chars),
                workspace_id: workspace_id.to_string(),
                session_id: String::new(),
                turn_id: 0,
                rel_path: marks[k].0.clone(),
                op: "new".to_string(),
                size: 0,
                lines_added: 0,
                lines_deleted: 0,
                source: "manual".to_string(),
                deliverable: true,
                created_at: marks[k].1.clone(),
            };
            out.push(row);
            assert(out@.subrange(0, n as int) =~= before.subrange(0, n as int));
            assert(unlisted_marks(given, marks@.subrange(0, k + 1)) == um.push(marks@[k as int]));
            assert forall|j: int| 0 <= j < um.len() + 1 implies mark_row_ok(
                #[trigger] out@[n + j],
                um.push(marks@[k as int])[j],
                workspace_id@,
                now_ms,
            ) by {
                if j < um.len() {
                    assert(out@[n + j] == before[n + j]);
                }
            }
        }
    }
    assert(marks@.subrange(0, marks@.len() as int) =~= marks@);
    out
}

} // verus!

verus! {

/// A workspace as listed: its project row, its file statistics and its
/// write-boundary mode.
#[derive(Debug, Clone)]
pub struct Workspace {
    pub id: String,
    pub name: String,
    /// Its directory (absolute).
    pub cwd: String,
    /// Epoch milliseconds.
    pub created_at: i64,
    pub updated_at: i64,
    pub file_count: i64,
    pub size_bytes: i64,
    /// `ask`, `allow` or `deny`.
    pub mode: String,
}

/// A node of a workspace's file list (path relative to the workspace).
#[derive(Debug, Clone)]
pub struct FileEntry {
    pub path: String,
    /// `dir` or `file`.
    pub kind: String,
    pub size: i64,
    /// Epoch milliseconds.
    pub mtime: i64,
    pub is_deliverable: bool,
}

/// Directory names a workspace scan does not enter.
pub open spec fn scan_skips(name: Seq<char>) -> bool {
    name == ".git"@ || name == "node_modules"@ || name == ".pi"@
}

/// Whether a workspace scan skips a directory of this name.
pub fn skip_in_scan(name: &str) -> (r: bool)
    ensures
        r == scan_skips(name@),
{
    crate::text::same_text(name, ".git") || crate::text::same_text(name, "node_modules")
        || crate::text::same_text(name, ".pi")
}

/// The list node of a scanned path: a directory has no size and is never a
/// deliverable; a file is one when it is under `output/` or marked.
pub fn file_entry(is_dir: bool, rel: &str, size: i64, mtime: i64, marked: bool) -> (r: FileEntry)
    ensures
        r.path@ == rel@,
        r.kind@ == if is_dir { "dir"@ } else { "file"@ },
        r.size == if is_dir { 0 } else { size },
        r.mtime == mtime,
        r.is_deliverable == (!is_dir && (marked || crate::text::starts_with(rel@, "output/"@))),
{
    if is_dir {
        FileEntry { path: rel.to_string(), kind: "dir".to_string(), size: 0, mtime, is_deliverable: false }
    } else {
        FileEntry {
            path: rel.to_string(),
            kind: "file".to_string(),
            size,
            mtime,
            is_deliverable: marked || crate::paths::is_output_path(rel),
        }
    }
}

} // verus!

verus! {

/// Entry `i` of a file list comes before entry `j`: its path is smaller,
/// or the paths are equal and it was first.
pub open spec fn path_before(paths: Seq<Seq<char>>, i: int, j: int) -> bool {
    lex_lt(paths[i], paths[j]) || (paths[i] == paths[j] && i < j)
}

/// Where entry `i` goes among the already ordered entries `p`, searching
/// from position `k`.
pub open spec fn path_insert_at(paths: Seq<Seq<char>>, p: Seq<int>, i: int, k: int) -> int
    decreases p.len() - k,
{
    if k >= p.len() {
        p.len() as int
    } else if path_before(paths, i, p[k]) {
        k
    } else {
        path_insert_at(paths, p, i, k + 1)
    }
}

/// The path order of the first `n` entries, each placed in turn.
pub open spec fn path_order_upto(paths: Seq<Seq<char>>, n: nat) -> Seq<int>
    decreases n,
{
    if n == 0 {
        seq![]
    } else {
        let p = path_order_upto(paths, (n - 1) as nat);
        p.insert(path_insert_at(paths, p, n - 1, 0), n - 1)
    }
}

proof fn lemma_path_insert_range(paths: Seq<Seq<char>>, p: Seq<int>, i: int, k: int)
    requires
        0 <= k <= p.len(),
    ensures
        k <= path_insert_at(paths, p, i, k) <= p.len(),
        forall|m: int| k <= m < path_insert_at(paths, p, i, k) ==> !path_before(paths, i, #[trigger] p[m]),
        path_insert_at(paths, p, i, k) < p.len() ==> path_before(paths, i, p[path_insert_at(paths, p, i, k)]),
    decreases p.len() - k,
{
    if k < p.len() && !path_before(paths, i, p[k]) {
        lemma_path_insert_range(paths, p, i, k + 1);
    }
}

/// The path order lists every entry once, by path (equal paths in their
/// original order).
pub proof fn lemma_path_order(paths: Seq<Seq<char>>, n: nat)
    requires
        n <= paths.len(),
    ensures
        path_order_upto(paths, n).len() == n,
        forall|a: int| 0 <= a < n ==> 0 <= #[trigger] path_order_upto(paths, n)[a] < n,
        forall|a: int, b: int| 0 <= a < b < n
            ==> path_before(paths, #[trigger] path_order_upto(paths, n)[a], #[trigger] path_order_upto(paths, n)[b]),
    decreases n,
{
    if n > 0 {
        let m = (n - 1) as nat;
        lemma_path_order(paths, m);
        let p = path_order_upto(paths, m);
        let i = m as int;
        let pos = path_insert_at(paths, p, i, 0);
        lemma_path_insert_range(paths, p, i, 0);
        let q = p.insert(pos, i);
        assert(path_order_upto(paths, n) == q);
        assert forall|a: int| 0 <= a < n implies 0 <= #[trigger] q[a] < n by {
            if a < pos {
                assert(q[a] == p[a]);
            } else if a > pos {
                assert(q[a] == p[a - 1]);
            }
        }
        assert forall|a: int, b: int| 0 <= a < b < n implies path_before(paths, #[trigger] q[a], #[trigger] q[b]) by {
            if b < pos {
                assert(q[a] == p[a] && q[b] == p[b]);
            } else if b == pos {
                assert(q[a] == p[a]);
                assert(!path_before(paths, i, p[a]));
                lemma_lex_total(paths[i], paths[p[a]]);
            } else if a < pos {
                assert(q[a] == p[a] && q[b] == p[b - 1]);
            } else if a == pos {
                assert(q[b] == p[b - 1]);
                if b - 1 > pos {
                    assert(path_before(paths, p[pos], p[b - 1]));
                    if lex_lt(paths[i], paths[p[pos]]) && lex_lt(paths[p[pos]], paths[p[b - 1]]) {
                        lemma_lex_transitive(paths[i], paths[p[pos]], paths[p[b - 1]]);
                    }
                }
            } else {
                assert(q[a] == p[a - 1] && q[b] == p[b - 1]);
            }
        }
    }
}

/// The paths of a file list.
pub open spec fn entry_paths(v: Seq<FileEntry>) -> Seq<Seq<char>> {
    v.map_values(|e: FileEntry| e.path@)
}

fn entry_before(entries: &Vec<FileEntry>, i: usize, j: usize) -> (r: bool)
    requires
        i < entries@.len(),
        j < entries@.len(),
    ensures
        r == path_before(entry_paths(entries@), i as int, j as int),
{
    let o = compare_text(&chars_of(entries[i].path.as_str()), &chars_of(entries[j].path.as_str()));
    match o {
        Order3::Less => true,
        Order3::Equal => i < j,
        Order3::Greater => false,
    }
}

fn copy_entry(e: &FileEntry) -> (r: FileEntry)
    ensures
        r == *e,
{
    FileEntry { path: e.path.clone(), kind: e.kind.clone(), size: e.size, mtime: e.mtime, is_deliverable: e.is_deliverable }
}

/// A file list ordered by path (equal paths keep their order), as the
/// workspace file view shows it.
pub fn sort_entries_by_path(entries: &Vec<FileEntry>) -> (r: Vec<FileEntry>)
    ensures
        r@ == path_order_upto(entry_paths(entries@), entries@.len()).map_values(|k: int| entries@[k]),
{
    let ghost paths = entry_paths(entries@);
    let n = entries.len();
    let mut p: Vec<usize> = Vec::new();
    let mut i: usize = 0;
    while i < n
        invariant
            n == entries@.len(),
            paths == entry_paths(entries@),
            i <= n,
            p@.map_values(|k: usize| k as int) == path_order_upto(paths, i as nat),
            forall|a: int| 0 <= a < p@.len() ==> p@[a] < i,
        decreases n - i,
    {
        proof {
            lemma_path_order(paths, i as nat);
        }
        let mut k: usize = 0;
        while k < p.len() && !entry_before(entries, i, p[k])
            invariant
                n == entries@.len(),
                paths == entry_paths(entries@),
                i < n,
                k <= p@.len(),
                forall|a: int| 0 <= a < p@.len() ==> p@[a] < i,
                path_insert_at(paths, p@.map_values(|k: usize| k as int), i as int, 0)
                    == path_insert_at(paths, p@.map_values(|k: usize| k as int), i as int, k as int),
            decreases p@.len() - k,
        {
            k = k + 1;
        }
        let ghost before = p@;
        p.insert(k, i);
        proof {
            assert(p@.map_values(|k: usize| k as int) =~= before.map_values(|k: usize| k as int).insert(k as int, i as int));
            assert forall|a: int| 0 <= a < p@.len() implies p@[a] < i + 1 by {
                if a < k {
                    assert(p@[a] == before[a]);
                } else if a > k {
                    assert(p@[a] == before[a - 1]);
                }
            }
        }
        i = i + 1;
    }
    proof {
        lemma_path_order(paths, n as nat);
    }
    let mut out: Vec<FileEntry> = Vec::new();
    for j in 0..p.len()
        invariant
            n == entries@.len(),
            p@.len() == n,
            p@.map_values(|k: usize| k as int) == path_order_upto(paths, n as nat),
            forall|a: int| 0 <= a < n ==> 0 <= #[trigger] path_order_upto(paths, n as nat)[a] < n,
            out@.len() == j,
            forall|a: int| 0 <= a < j ==> #[trigger] out@[a] == entries@[p@[a] as int],
    {
        assert(p@.map_values(|k: usize| k as int)[j as int] == p@[j as int] as int);
        out.push(copy_entry(&entries[p[j]]));
    }
    assert(out@ =~= path_order_upto(entry_paths(entries@), entries@.len()).map_values(|k: int| entries@[k])) by {
        assert forall|a: int| 0 <= a < out@.len() implies out@[a] == path_order_upto(paths, n as nat).map_values(|k: int| entries@[k])[a] by {
            assert(p@.map_values(|k: usize| k as int)[a] == p@[a] as int);
        }
    }
    out
}

} // verus!
