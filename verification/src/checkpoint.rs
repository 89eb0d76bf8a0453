//! Checkpoints of a session's working tree, taken when the agent ends a
//! turn and used to roll files back when a message is recalled. The caller
//! runs git and copies files; this module decides which files.

use vstd::prelude::*;
use crate::paths::{exclude_path, is_component, is_excluded_dir};
use crate::text::same_text;

verus! {

/// A checkpoint as stored.
#[derive(Debug, Clone)]
pub struct CheckpointRow {
    pub id: i64,
    /// Instance id of the session.
    pub session_id: String,
    /// Completed turns when it was taken.
    pub turn_seq: i32,
    /// Commit-ish from `git stash create`.
    pub git_ref: String,
    /// JSON list of the untracked files copied: `{"path", "snapshot"}`.
    pub manifest: String,
    /// Epoch milliseconds.
    pub created_at_ms: i64,
}

/// Checkpoints kept per session.
pub const KEEP_CHECKPOINTS: usize = 20;

/// The path lies under an excluded directory (dependencies, build output).
pub open spec fn path_excluded(rel: Seq<char>) -> bool {
    exists|a: int, b: int| #[trigger] is_component(rel, a, b) && is_excluded_dir(rel.subrange(a, b))
}

/// The texts of a list of strings.
pub open spec fn texts(v: Seq<String>) -> Seq<Seq<char>> {
    v.map_values(|s: String| s@)
}

/// The untracked paths whose files are copied into a checkpoint: those not
/// under an excluded directory, in order.
pub open spec fn snapshot_paths(untracked: Seq<Seq<char>>) -> Seq<Seq<char>>
    decreases untracked.len(),
{
    if untracked.len() == 0 {
        seq![]
    } else {
        let rest = snapshot_paths(untracked.drop_last());
        if path_excluded(untracked.last()) {
            rest
        } else {
            rest.push(untracked.last())
        }
    }
}

/// The dependency and build directories whose files are never copied into
/// a checkpoint.
pub open spec fn build_tree_names() -> Seq<Seq<char>> {
    seq![".git"@, "node_modules"@, "target"@, "dist"@, "build"@, ".venv"@, "venv"@, "__pycache__"@,
        ".next"@, ".cache"@, ".turbo"@, "coverage"@]
}

proof fn lemma_excluded_dir_names(comp: Seq<char>)
    ensures
        is_excluded_dir(comp) <==> build_tree_names().contains(comp),
{
    let names = build_tree_names();
    if is_excluded_dir(comp) {
        if comp == ".git"@ { assert(names[0] == comp); }
        else if comp == "node_modules"@ { assert(names[1] == comp); }
        else if comp == "target"@ { assert(names[2] == comp); }
        else if comp == "dist"@ { assert(names[3] == comp); }
        else if comp == "build"@ { assert(names[4] == comp); }
        else if comp == ".venv"@ { assert(names[5] == comp); }
        else if comp == "venv"@ { assert(names[6] == comp); }
        else if comp == "__pycache__"@ { assert(names[7] == comp); }
        else if comp == ".next"@ { assert(names[8] == comp); }
        else if comp == ".cache"@ { assert(names[9] == comp); }
        else if comp == ".turbo"@ { assert(names[10] == comp); }
        else { assert(names[11] == comp); }
    }
    if names.contains(comp) {
        let k = choose|k: int| 0 <= k < names.len() && names[k] == comp;
        assert(0 <= k < 12);
    }
}

/// A checkpoint copies an untracked path exactly when it is among the
/// untracked paths and none of its `/`-separated components is one of the
/// [`build_tree_names`] (so `dist/bundle.js` or `a/node_modules/b` never,
/// `notes.md` or `distribution/x` always).
pub proof fn lemma_snapshot_membership(untracked: Seq<Seq<char>>, p: Seq<char>)
    ensures
        snapshot_paths(untracked).contains(p) <==> untracked.contains(p) && !exists|a: int, b: int|
            #[trigger] is_component(p, a, b) && build_tree_names().contains(p.subrange(a, b)),
    decreases untracked.len(),
{
    assert(path_excluded(p) <==> exists|a: int, b: int|
        #[trigger] is_component(p, a, b) && build_tree_names().contains(p.subrange(a, b))) by {
        if path_excluded(p) {
            let (a, b) = choose|a: int, b: int| #[trigger] is_component(p, a, b) && is_excluded_dir(p.subrange(a, b));
            lemma_excluded_dir_names(p.subrange(a, b));
        }
        if exists|a: int, b: int| #[trigger] is_component(p, a, b) && build_tree_names().contains(p.subrange(a, b)) {
            let (a, b) = choose|a: int, b: int| #[trigger] is_component(p, a, b) && build_tree_names().contains(p.subrange(a, b));
            lemma_excluded_dir_names(p.subrange(a, b));
        }
    }
    if untracked.len() > 0 {
        let u = untracked.drop_last();
        lemma_snapshot_membership(u, p);
        let rest = snapshot_paths(u);
        assert(untracked =~= u.push(untracked.last()));
        assert(untracked.contains(p) <==> u.contains(p) || untracked.last() == p) by {
            if untracked.contains(p) {
                let k = choose|k: int| 0 <= k < untracked.len() && untracked[k] == p;
                if k < u.len() {
                    assert(u[k] == p);
                }
            }
            if u.contains(p) {
                let k = choose|k: int| 0 <= k < u.len() && u[k] == p;
                assert(untracked[k] == p);
            }
            if untracked.last() == p {
                assert(untracked[untracked.len() - 1] == p);
            }
        }
        if !path_excluded(untracked.last()) {
            let r2 = rest.push(untracked.last());
            assert(r2.contains(p) <==> rest.contains(p) || untracked.last() == p) by {
                if r2.contains(p) {
                    let k = choose|k: int| 0 <= k < r2.len() && r2[k] == p;
                    if k < rest.len() {
                        assert(rest[k] == p);
                    }
                }
                if rest.contains(p) {
                    let k = choose|k: int| 0 <= k < rest.len() && rest[k] == p;
                    assert(r2[k] == p);
                }
                if untracked.last() == p {
                    assert(r2[r2.len() - 1] == p);
                }
            }
        }
    }
}

/// The untracked paths to copy into a checkpoint (see [`snapshot_paths`]).
pub fn snapshot_candidates(untracked: &[String]) -> (r: Vec<String>)
    ensures
        texts(r@) == snapshot_paths(texts(untracked@)),
{
    let ghost u = texts(untracked@);
    let mut out: Vec<String> = Vec::new();
    for k in 0..untracked.len()
        invariant
            u == texts(untracked@),
            texts(out@) == snapshot_paths(u.subrange(0, k as int)),
    {
        assert(u.subrange(0, k + 1).drop_last() =~= u.subrange(0, k as int));
        assert(u.subrange(0, k + 1).last() == untracked@[k as int]@);
        if !exclude_path(untracked[k].as_str()) {
            let ghost before = texts(out@);
            out.push(untracked[k].clone());
            assert(texts(out@) =~= before.push(untracked@[k as int]@));
        }
    }
    assert(u.subrange(0, u.len() as int) =~= u);
    out
}

/// The untracked paths a rollback removes: those the checkpoint did not
/// copy (created after it), in order.
pub open spec fn stale_paths(untracked: Seq<Seq<char>>, known: Seq<Seq<char>>) -> Seq<Seq<char>>
    decreases untracked.len(),
{
    if untracked.len() == 0 {
        seq![]
    } else {
        let rest = stale_paths(untracked.drop_last(), known);
        if known.contains(untracked.last()) {
            rest
        } else {
            rest.push(untracked.last())
        }
    }
}

fn is_known(known: &[String], p: &str) -> (r: bool)
    ensures
        r == texts(known@).contains(p@),
{
    let mut j: usize = 0;
    while j < known.len()
        invariant
            j <= known@.len(),
            forall|i: int| 0 <= i < j ==> (#[trigger] known@[i])@ != p@,
        decreases known@.len() - j,
    {
        if same_text(known[j].as_str(), p) {
            assert(texts(known@)[j as int] == p@);
            return true;
        }
        j = j + 1;
    }
    assert forall|i: int| 0 <= i < texts(known@).len() implies texts(known@)[i] != p@ by {
        assert(texts(known@)[i] == known@[i]@);
    }
    false
}

/// The untracked paths to remove when rolling back to a checkpoint whose
/// manifest lists `known` (see [`stale_paths`]).
pub fn stale_untracked(untracked: &[String], known: &[String]) -> (r: Vec<String>)
    ensures
        texts(r@) == stale_paths(texts(untracked@), texts(known@)),
{
    let ghost u = texts(untracked@);
    let mut out: Vec<String> = Vec::new();
    for k in 0..untracked.len()
        invariant
            u == texts(untracked@),
            texts(out@) == stale_paths(u.subrange(0, k as int), texts(known@)),
    {
        assert(u.subrange(0, k + 1).drop_last() =~= u.subrange(0, k as int));
        assert(u.subrange(0, k + 1).last() == untracked@[k as int]@);
        if !is_known(known, untracked[k].as_str()) {
            let ghost before = texts(out@);
            out.push(untracked[k].clone());
            assert(texts(out@) =~= before.push(untracked@[k as int]@));
        }
    }
    assert(u.subrange(0, u.len() as int) =~= u);
    out
}

} // verus!
