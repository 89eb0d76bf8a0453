//! Serving the web apps: which app a path belongs to, the redirects of
//! bare directory pages, and the file it asks for (never outside the app).

use vstd::prelude::*;
use crate::text::{chars_of, has_prefix, same_chars, split_chars, split_seq, starts_with, string_of, views};

verus! {

/// What a request path outside the API is answered with.
#[derive(Debug, Clone)]
pub enum SpaRoute {
    /// A redirect to this path.
    Redirect { to: String },
    /// The work app is asked for but not installed.
    NotDeployed,
    /// The path tries to leave the app's directory.
    InvalidPath,
    /// A file of the work app (or of the chat app), relative to its
    /// directory; a missing file is answered with the app's `index.html`.
    Serve { work: bool, rel: String },
}

/// The non-empty parts, in order.
pub open spec fn nonempty_parts(parts: Seq<Seq<char>>) -> Seq<Seq<char>>
    decreases parts.len(),
{
    if parts.len() == 0 {
        seq![]
    } else if parts.last().len() == 0 {
        nonempty_parts(parts.drop_last())
    } else {
        nonempty_parts(parts.drop_last()).push(parts.last())
    }
}

/// Parts joined with `/`.
pub open spec fn slash_joined(parts: Seq<Seq<char>>) -> Seq<char>
    decreases parts.len(),
{
    if parts.len() == 0 {
        seq![]
    } else if parts.len() == 1 {
        parts[0]
    } else {
        slash_joined(parts.drop_last()) + seq!['/'] + parts.last()
    }
}

/// A part that would leave the directory.
pub open spec fn bad_part(p: Seq<char>) -> bool {
    p == ".."@ || p.contains('\\')
}

/// Some part would leave the directory.
pub open spec fn has_bad_part(parts: Seq<Seq<char>>) -> bool {
    exists|k: int| 0 <= k < parts.len() && bad_part(#[trigger] parts[k])
}

/// The path belongs to the work app.
pub open spec fn is_work_path(path: Seq<char>) -> bool {
    starts_with(path, "/work"@) || starts_with(path, "/workspaces"@)
}

/// The answer for a request path: `/` goes to the chat app, `/work/` and
/// `/chat/` to their pages without the slash; paths under `/work` belong
/// to the work app (when installed), others to the chat app; the file is
/// the path's non-empty parts without the app's prefix part, refused when
/// a part is `..` or holds a backslash.
pub open spec fn spa_route_of(path: Seq<char>, work_deployed: bool) -> SpaRouteView {
    if path == "/"@ {
        SpaRouteView::Redirect("/chat"@)
    } else if path == "/work/"@ {
        SpaRouteView::Redirect("/work"@)
    } else if path == "/chat/"@ {
        SpaRouteView::Redirect("/chat"@)
    } else if is_work_path(path) && !work_deployed {
        SpaRouteView::NotDeployed
    } else {
        let work = is_work_path(path);
        let strip = work || starts_with(path, "/chat"@);
        let parts = nonempty_parts(split_seq(path, '/'));
        let kept = if strip && parts.len() > 0 { parts.drop_first() } else { parts };
        if has_bad_part(kept) {
            SpaRouteView::InvalidPath
        } else {
            SpaRouteView::Serve(work, slash_joined(kept))
        }
    }
}

/// Abstract route.
pub enum SpaRouteView {
    Redirect(Seq<char>),
    NotDeployed,
    InvalidPath,
    Serve(bool, Seq<char>),
}

/// The abstract value of a route.
pub open spec fn route_view(r: SpaRoute) -> SpaRouteView {
    match r {
        SpaRoute::Redirect { to } => SpaRouteView::Redirect(to@),
        SpaRoute::NotDeployed => SpaRouteView::NotDeployed,
        SpaRoute::InvalidPath => SpaRouteView::InvalidPath,
        SpaRoute::Serve { work, rel } => SpaRouteView::Serve(work, rel@),
    }
}

fn is_bad_part(p: &Vec<char>) -> (r: bool)
    ensures
        r == bad_part(p@),
{
    let dots: [char; 2] = ['.', '.'];
    assert(dots@ =~= ".."@) by {
        reveal_strlit("..");
    }
    if same_chars(p, &dots) {
        return true;
    }
    let mut k: usize = 0;
    while k < p.len()
        invariant
            k <= p@.len(),
            forall|j: int| 0 <= j < k ==> p@[j] != '\\',
        decreases p@.len() - k,
    {
        if p[k] == '\\' {
            assert(p@[k as int] == '\\');
            return true;
        }
        k = k + 1;
    }
    false
}

fn text_eq(a: &str, b: &str) -> (r: bool)
    ensures
        r == (a@ == b@),
{
    crate::text::same_text(a, b)
}

/// The answer for a request path (see [`spa_route_of`]).
#[verifier::loop_isolation(false)]
pub fn spa_route(path: &str, work_deployed: bool) -> (r: SpaRoute)
    ensures
        route_view(r) == spa_route_of(path@, work_deployed),
{
    if text_eq(path, "/") {
        return SpaRoute::Redirect { to: "/chat".to_string() };
    }
    if text_eq(path, "/work/") {
        return SpaRoute::Redirect { to: "/work".to_string() };
    }
    if text_eq(path, "/chat/") {
        return SpaRoute::Redirect { to: "/chat".to_string() };
    }
    let c = chars_of(path);
    let work = has_prefix(&c, &chars_of("/work")) || has_prefix(&c, &chars_of("/workspaces"));
    if work && !work_deployed {
        return SpaRoute::NotDeployed;
    }
    let strip = work || has_prefix(&c, &chars_of("/chat"));
    let parts = split_chars(&c, '/');
    let ghost all = views(parts@);
    let mut kept: Vec<Vec<char>> = Vec::new();
    let mut seen_first = false;
    let mut k: usize = 0;
    while k < parts.len()
        invariant
            all == views(parts@),
            all == split_seq(path@, '/'),
            k <= parts@.len(),
            seen_first == (nonempty_parts(all.subrange(0, k as int)).len() > 0),
            views(kept@) == if strip && seen_first {
                nonempty_parts(all.subrange(0, k as int)).drop_first()
            } else {
                nonempty_parts(all.subrange(0, k as int))
            },
        decreases parts@.len() - k,
    {
        let ghost pre = all.subrange(0, k as int);
        assert(all.subrange(0, k + 1).drop_last() =~= pre);
        assert(all.subrange(0, k + 1).last() == parts@[k as int]@);
        let part = &parts[k];
        if part.len() > 0 {
            let ghost before = views(kept@);
            if strip && !seen_first {
                assert(nonempty_parts(all.subrange(0, k + 1)) =~= seq![part@]);
                assert(views(kept@) =~= nonempty_parts(all.subrange(0, k + 1)).drop_first());
            } else {
                let copy = crate::text::slice_chars(part, 0, part.len());
                assert(part@.subrange(0, part@.len() as int) =~= part@);
                kept.push(copy);
                assert(views(kept@) =~= before.push(part@));
                if strip {
                    assert(nonempty_parts(all.subrange(0, k + 1)).drop_first() =~= nonempty_parts(pre).drop_first().push(part@));
                }
            }
            seen_first = true;
        }
        k = k + 1;
    }
    assert(all.subrange(0, all.len() as int) =~= all);
    let ghost kv = views(kept@);
    let mut rel: Vec<char> = Vec::new();
    let mut j: usize = 0;
    while j < kept.len()
        invariant
            kv == views(kept@),
            j <= kept@.len(),
            rel@ == slash_joined(kv.subrange(0, j as int)),
            forall|m: int| 0 <= m < j ==> !bad_part(#[trigger] kv[m]),
        decreases kept@.len() - j,
    {
        if is_bad_part(&kept[j]) {
            assert(bad_part(kv[j as int]));
            return SpaRoute::InvalidPath;
        }
        let ghost before = rel@;
        assert(kv.subrange(0, j + 1).drop_last() =~= kv.subrange(0, j as int));
        if j > 0 {
            rel.push('/');
        }
        rel = crate::text::concat_chars(&rel, &kept[j]);
        proof {
            if j == 0 {
                assert(kv.subrange(0, 1)[0] == kv[0]);
            }
        }
        j = j + 1;
    }
    assert(kv.subrange(0, kv.len() as int) =~= kv);
    SpaRoute::Serve { work, rel: string_of(&rel) }
}

} // verus!
