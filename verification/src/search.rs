//! Cross-session message search: how a query is turned into a full-text or
//! `LIKE` pattern, and the snippet shown around a hit.

use vstd::prelude::*;
use crate::text::{chars_of, lowercase_text, slice_chars, str_lowercase, string_of, trim, trim_chars};

verus! {

/// A message ready for the search index.
#[derive(Debug, Clone)]
pub struct IndexedMessage {
    pub role: String,
    pub content: String,
    pub entry_id: Option<String>,
    /// Epoch milliseconds.
    pub timestamp: Option<i64>,
}

/// One search hit.
#[derive(Debug, Clone)]
pub struct SearchHit {
    pub session_id: String,
    pub project_name: Option<String>,
    pub label: Option<String>,
    pub role: String,
    /// Context around the first match, ready for display.
    pub snippet: String,
    pub entry_id: Option<String>,
    /// Epoch milliseconds.
    pub timestamp: Option<i64>,
}

/// Characters of context on each side of a match.
pub const SNIPPET_RADIUS: usize = 60;

/// Length of the snippet of a text without a match.
pub const SNIPPET_PLAIN_LEN: usize = 160;

/// The first position from `k` on where `n` occurs in `h`.
pub open spec fn match_from(h: Seq<char>, n: Seq<char>, k: int) -> Option<int>
    decreases h.len() + 1 - k,
{
    if k < 0 || k + n.len() > h.len() {
        None
    } else if h.subrange(k, k + n.len()) == n {
        Some(k)
    } else {
        match_from(h, n, k + 1)
    }
}

/// The first `n` characters, with an ellipsis when some were cut.
pub open spec fn truncated(s: Seq<char>, n: int) -> Seq<char> {
    if s.len() > n {
        s.take(n).push('…')
    } else {
        s
    }
}

/// The snippet shown for a hit: when the query occurs in the text (case
/// ignored), up to sixty characters on either side of its first occurrence,
/// with an ellipsis on each cut side; otherwise the text's beginning.
pub open spec fn snippet_of(content: Seq<char>, q: Seq<char>) -> Seq<char> {
    match match_from(lowercase_text(content), lowercase_text(q), 0) {
        None => truncated(content, SNIPPET_PLAIN_LEN as int),
        Some(pos) => {
            let total = content.len() as int;
            let start = if pos >= SNIPPET_RADIUS { pos - SNIPPET_RADIUS } else { 0 };
            let end = if pos + q.len() + SNIPPET_RADIUS <= total { pos + q.len() + SNIPPET_RADIUS } else { total };
            let body = if start < end { content.subrange(start, end) } else { seq![] };
            (if start > 0 { seq!['…'] } else { seq![] }) + body + (if end < total { seq!['…'] } else { seq![] })
        },
    }
}

/// The first position where `n` occurs in `h`.
pub fn find_text(h: &[char], n: &[char]) -> (r: Option<usize>)
    ensures
        match r {
            Some(p) => match_from(h@, n@, 0) == Some(p as int),
            None => match_from(h@, n@, 0) is None,
        },
{
    let hl = h.len();
    let nl = n.len();
    if nl > hl {
        return None;
    }
    let mut k: usize = 0;
    while k <= hl - nl
        invariant
            hl == h@.len(),
            nl == n@.len(),
            nl <= hl,
            k <= hl - nl + 1,
            match_from(h@, n@, 0) == match_from(h@, n@, k as int),
        decreases hl - nl + 1 - k,
    {
        let mut j: usize = 0;
        let mut same = true;
        while j < nl
            invariant
                hl == h@.len(),
                nl == n@.len(),
                k + nl <= hl,
                j <= nl,
                same == forall|m: int| 0 <= m < j ==> h@[k + m] == n@[m],
            decreases nl - j,
        {
            if h[k + j] != n[j] {
                same = false;
            }
            j = j + 1;
        }
        proof {
            if same {
                assert(h@.subrange(k as int, k + n@.len()) =~= n@);
            } else {
                let m = choose|m: int| 0 <= m < n@.len() && h@[k + m] != n@[m];
                assert(h@.subrange(k as int, k + n@.len())[m] != n@[m]);
            }
        }
        if same {
            return Some(k);
        }
        k = k + 1;
    }
    None
}

/// The first `n` characters of a text, with an ellipsis when it is longer.
pub fn truncate_chars(s: &str, n: usize) -> (r: String)
    ensures
        r@ == truncated(s@, n as int),
{
    let c = chars_of(s);
    if c.len() > n {
        let mut t = slice_chars(&c, 0, n);
        t.push('…');
        string_of(&t)
    } else {
        string_of(&c)
    }
}

/// The snippet shown for a hit (see [`snippet_of`]).
pub fn make_snippet(content: &str, q: &str) -> (r: String)
    ensures
        r@ == snippet_of(content@, q@),
{
    let lower = chars_of(str_lowercase(content).as_str());
    let needle = chars_of(str_lowercase(q).as_str());
    let pos = match find_text(&lower, &needle) {
        Some(p) => p,
        None => {
            return truncate_chars(content, SNIPPET_PLAIN_LEN);
        },
    };
    let c = chars_of(content);
    let qn = chars_of(q).len();
    let total = c.len();
    let start: usize = if pos >= SNIPPET_RADIUS { pos - SNIPPET_RADIUS } else { 0 };
    proof {
        lemma_match_in_range(lowercase_text(content@), lowercase_text(q@), 0);
    }
    let end: usize = if (pos as u128) + (qn as u128) + (SNIPPET_RADIUS as u128) <= total as u128 {
        pos + qn + SNIPPET_RADIUS
    } else {
        total
    };
    let mut out: Vec<char> = Vec::new();
    if start > 0 {
        out.push('…');
    }
    let body = if start < end { slice_chars(&c, start, end) } else { Vec::new() };
    let mut joined = crate::text::concat_chars(&out, &body);
    if end < total {
        joined.push('…');
    }
    proof {
        let pre: Seq<char> = if start > 0 { seq!['…'] } else { seq![] };
        assert(out@ =~= pre);
    }
    string_of(&joined)
}

/// The text `n` occurs in `h`.
pub open spec fn contains_text(h: Seq<char>, n: Seq<char>) -> bool {
    exists|j: int| 0 <= j && j + n.len() <= h.len() && #[trigger] h.subrange(j, j + n.len()) == n
}

/// The search finds an occurrence exactly when there is one from `k` on.
pub proof fn lemma_match_exists(h: Seq<char>, n: Seq<char>, k: int)
    requires
        k >= 0,
    ensures
        (match_from(h, n, k) is Some) == exists|j: int| k <= j && j + n.len() <= h.len() && #[trigger] h.subrange(j, j + n.len()) == n,
    decreases h.len() + 1 - k,
{
    if k + n.len() > h.len() {
    } else if h.subrange(k, k + n.len()) == n {
    } else {
        lemma_match_exists(h, n, k + 1);
        if exists|j: int| k <= j && j + n.len() <= h.len() && #[trigger] h.subrange(j, j + n.len()) == n {
            let j = choose|j: int| k <= j && j + n.len() <= h.len() && #[trigger] h.subrange(j, j + n.len()) == n;
            assert(j != k);
        }
    }
}

/// A match lies inside the text.
pub proof fn lemma_match_in_range(h: Seq<char>, n: Seq<char>, k: int)
    ensures
        match_from(h, n, k) matches Some(p) ==> k <= p && p + n.len() <= h.len(),
    decreases h.len() + 1 - k,
{
    if !(k < 0 || k + n.len() > h.len()) && h.subrange(k, k + n.len()) != n {
        lemma_match_in_range(h, n, k + 1);
    }
}

// ─── Queries ───────────────────────────────────────────────────────────────

/// How a search runs: the trimmed query, whether the full-text index is
/// used, the pattern handed to it, and the number of hits asked for.
#[derive(Debug, Clone)]
pub struct SearchPlan {
    pub query: String,
    pub use_fts: bool,
    pub pattern: String,
    pub limit: u32,
}

/// A full-text phrase: the query in double quotes, inner quotes doubled.
pub open spec fn fts_phrase(q: Seq<char>) -> Seq<char> {
    seq!['"'] + quote_doubled(q) + seq!['"']
}

/// Double quotes doubled.
pub open spec fn quote_doubled(q: Seq<char>) -> Seq<char>
    decreases q.len(),
{
    if q.len() == 0 {
        seq![]
    } else {
        quote_doubled(q.drop_last()) + if q.last() == '"' { seq!['"', '"'] } else { seq![q.last()] }
    }
}

/// `LIKE` wildcards and the escape character escaped with a backslash.
pub open spec fn like_escaped(q: Seq<char>) -> Seq<char>
    decreases q.len(),
{
    if q.len() == 0 {
        seq![]
    } else {
        let c = q.last();
        like_escaped(q.drop_last()) + if c == '\\' || c == '%' || c == '_' { seq!['\\', c] } else { seq![c] }
    }
}

/// A `LIKE` pattern matching the query anywhere.
pub open spec fn like_pattern(q: Seq<char>) -> Seq<char> {
    seq!['%'] + like_escaped(q) + seq!['%']
}

/// The search for a query: none for a query shorter than two characters
/// once trimmed; the full-text index for three characters or more when it
/// is available, a `LIKE` scan otherwise; between 1 and 200 hits.
pub open spec fn plan_of(q: Seq<char>, limit: u32, fts_available: bool) -> Option<(Seq<char>, bool, Seq<char>, u32)> {
    let t = trim(q);
    if t.len() < 2 {
        None
    } else {
        let use_fts = fts_available && t.len() >= 3;
        Some((
            t,
            use_fts,
            if use_fts { fts_phrase(t) } else { like_pattern(t) },
            if limit < 1 { 1 } else if limit > 200 { 200 } else { limit },
        ))
    }
}

fn map_quotes(t: &[char], like: bool) -> (r: Vec<char>)
    ensures
        r@ == if like { like_escaped(t@) } else { quote_doubled(t@) },
{
    let mut out: Vec<char> = Vec::new();
    for k in 0..t.len()
        invariant
            out@ == if like { like_escaped(t@.subrange(0, k as int)) } else { quote_doubled(t@.subrange(0, k as int)) },
    {
        let ghost pre = t@.subrange(0, k as int);
        assert(t@.subrange(0, k + 1).drop_last() =~= pre);
        let c = t[k];
        let ghost before = out@;
        if like {
            if c == '\\' || c == '%' || c == '_' {
                out.push('\\');
            }
            out.push(c);
        } else {
            if c == '"' {
                out.push('"');
            }
            out.push(c);
        }
        assert(out@ =~= before + if like {
            if c == '\\' || c == '%' || c == '_' { seq!['\\', c] } else { seq![c] }
        } else {
            if c == '"' { seq!['"', '"'] } else { seq![c] }
        });
    }
    assert(t@.subrange(0, t@.len() as int) =~= t@);
    out
}

/// How to run a search (see [`plan_of`]).
pub fn search_plan(q: &str, limit: u32, fts_available: bool) -> (r: Option<SearchPlan>)
    ensures
        match r {
            Some(p) => plan_of(q@, limit, fts_available) == Some((p.query@, p.use_fts, p.pattern@, p.limit)),
            None => plan_of(q@, limit, fts_available) is None,
        },
{
    let t = trim_chars(&chars_of(q));
    if t.len() < 2 {
        return None;
    }
    let use_fts = fts_available && t.len() >= 3;
    let inner = map_quotes(&t, !use_fts);
    let mut pattern: Vec<char> = Vec::new();
    pattern.push(if use_fts { '"' } else { '%' });
    let mut pattern = crate::text::concat_chars(&pattern, &inner);
    pattern.push(if use_fts { '"' } else { '%' });
    proof {
        if use_fts {
            assert(pattern@ =~= fts_phrase(t@));
        } else {
            assert(pattern@ =~= like_pattern(t@));
        }
    }
    let lim = if limit < 1 { 1 } else if limit > 200 { 200 } else { limit };
    Some(SearchPlan { query: string_of(&t), use_fts: use_fts, pattern: string_of(&pattern), limit: lim })
}

} // verus!
