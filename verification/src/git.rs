//! Reading the output of the git commands behind message rollback:
//! `git stash create`, `git status --porcelain -uall` and `git restore`.
//! The commands themselves are run by the caller.

use vstd::prelude::*;
use crate::text::{
    chars_of, has_prefix, skip_chars, slice_chars, split_chars, split_seq, starts_with, string_of, trim, trim_chars,
    views, lemma_split_nonempty,
};

verus! {

/// A line without its trailing carriage return.
pub open spec fn without_cr(l: Seq<char>) -> Seq<char> {
    if l.len() > 0 && l.last() == '\r' {
        l.drop_last()
    } else {
        l
    }
}

/// The lines of a text as `str::lines` gives them: split at newlines, no
/// empty last line for a final newline, carriage returns dropped.
pub open spec fn text_lines(s: Seq<char>) -> Seq<Seq<char>> {
    let parts = split_seq(s, '\n');
    let kept = if parts.last().len() == 0 {
        parts.drop_last()
    } else {
        parts
    };
    kept.map_values(|l: Seq<char>| without_cr(l))
}

/// The porcelain marker of an untracked file.
pub open spec fn untracked_marker() -> Seq<char> {
    seq!['?', '?', ' ']
}

/// A line with every leading marker removed.
pub open spec fn strip_markers(l: Seq<char>) -> Seq<char>
    decreases l.len(),
{
    if starts_with(l, untracked_marker()) {
        strip_markers(l.skip(3))
    } else {
        l
    }
}

/// The untracked paths listed by porcelain lines, in order.
pub open spec fn untracked_of(lines: Seq<Seq<char>>) -> Seq<Seq<char>>
    decreases lines.len(),
{
    if lines.len() == 0 {
        seq![]
    } else {
        let rest = untracked_of(lines.drop_last());
        let l = lines.last();
        let p = trim(strip_markers(l));
        if starts_with(l, untracked_marker()) && p.len() > 0 {
            rest.push(p)
        } else {
            rest
        }
    }
}

/// The abstract values of a list of strings.
pub open spec fn texts(v: Seq<String>) -> Seq<Seq<char>> {
    v.map_values(|s: String| s@)
}

fn lines_of(s: &str) -> (r: Vec<Vec<char>>)
    ensures
        views(r@) == text_lines(s@),
{
    let c = chars_of(s);
    let mut parts = split_chars(&c, '\n');
    proof {
        lemma_split_nonempty(s@, '\n');
    }
    let n = parts.len();
    if parts[n - 1].len() == 0 {
        let ghost before = parts@;
        parts.pop();
        assert(views(parts@) =~= views(before).drop_last());
    }
    let ghost kept = views(parts@);
    let mut out: Vec<Vec<char>> = Vec::new();
    for k in 0..parts.len()
        invariant
            kept == views(parts@),
            out@.len() == k,
            forall|j: int| 0 <= j < k ==> (#[trigger] out@[j])@ == without_cr(kept[j]),
    {
        let l = &parts[k];
        if l.len() > 0 && l[l.len() - 1] == '\r' {
            let t = slice_chars(l, 0, l.len() - 1);
            assert(t@ =~= l@.drop_last());
            out.push(t);
        } else {
            out.push(slice_chars(l, 0, l.len()));
            assert(l@.subrange(0, l@.len() as int) =~= l@);
        }
    }
    assert(views(out@) =~= text_lines(s@));
    out
}

fn strip_all_markers(l: &Vec<char>) -> (r: Vec<char>)
    ensures
        r@ == strip_markers(l@),
{
    let marker: [char; 3] = ['?', '?', ' '];
    assert(marker@ =~= untracked_marker());
    let mut cur = slice_chars(l, 0, l.len());
    assert(l@.subrange(0, l@.len() as int) =~= l@);
    while has_prefix(&cur, &marker)
        invariant
            marker@ == untracked_marker(),
            strip_markers(cur@) == strip_markers(l@),
        decreases cur@.len(),
    {
        cur = skip_chars(&cur, 3);
    }
    cur
}

/// The ref captured by `git stash create`: its trimmed output, none when
/// the command failed or printed nothing (nothing to snapshot).
pub fn stash_ref(success: bool, stdout: &str) -> (r: Option<String>)
    ensures
        !success ==> r is None,
        success && trim(stdout@).len() == 0 ==> r is None,
        success && trim(stdout@).len() > 0 ==> (r matches Some(s) && s@ == trim(stdout@)),
{
    if !success {
        return None;
    }
    let t = trim_chars(&chars_of(stdout));
    if t.len() == 0 {
        None
    } else {
        Some(string_of(&t))
    }
}

/// The untracked paths of a `git status --porcelain -uall` output: the
/// `?? ` lines without their marker, trimmed, empty ones dropped; nothing
/// when the command failed.
pub fn untracked_paths(success: bool, stdout: &str) -> (r: Vec<String>)
    ensures
        !success ==> r@.len() == 0,
        success ==> texts(r@) == untracked_of(text_lines(stdout@)),
{
    let mut out: Vec<String> = Vec::new();
    if !success {
        return out;
    }
    let lines = lines_of(stdout);
    let ghost ls = views(lines@);
    let marker: [char; 3] = ['?', '?', ' '];
    assert(marker@ =~= untracked_marker());
    for k in 0..lines.len()
        invariant
            ls == views(lines@),
            marker@ == untracked_marker(),
            texts(out@) == untracked_of(ls.subrange(0, k as int)),
    {
        let ghost pre = ls.subrange(0, k as int);
        assert(ls.subrange(0, k + 1).drop_last() =~= pre);
        assert(ls.subrange(0, k + 1).last() == lines@[k as int]@);
        if has_prefix(&lines[k], &marker) {
            let p = trim_chars(&strip_all_markers(&lines[k]));
            if p.len() > 0 {
                let ghost before = texts(out@);
                out.push(string_of(&p));
                assert(texts(out@) =~= before.push(p@));
            }
        }
    }
    assert(ls.subrange(0, ls.len() as int) =~= ls);
    out
}

/// The outcome of `git restore`: success, or the trimmed error output.
pub fn restore_outcome(success: bool, stderr: &str) -> (r: Result<(), String>)
    ensures
        success ==> r is Ok,
        !success ==> (r matches Err(e) && e@ == trim(stderr@)),
{
    if success {
        Ok(())
    } else {
        Err(string_of(&trim_chars(&chars_of(stderr))))
    }
}

} // verus!
