//! Extension bookkeeping: where an extension name is looked for, how a
//! package's glob list becomes a regular expression, and how the global
//! and project-local candidates are merged.

use vstd::prelude::*;
use crate::paths::{join, join_path};
use crate::pattern::{regex_is_match, regex_match_of};
use crate::text::{chars_of, concat_chars, has_prefix, replace_char, replace_chars, skip_chars, slice_chars, starts_with, string_of};

verus! {

// ─── Globs ─────────────────────────────────────────────────────────────────

/// The text has a glob character (`*`, `?` or `[`).
pub open spec fn has_glob(s: Seq<char>) -> bool {
    s.contains('*') || s.contains('?') || s.contains('[')
}

/// Whether a pattern holds a glob character.
pub fn has_glob_chars(s: &str) -> (r: bool)
    ensures
        r == has_glob(s@),
{
    let c = chars_of(s);
    let mut k: usize = 0;
    while k < c.len()
        invariant
            c@ == s@,
            k <= c@.len(),
            forall|j: int| 0 <= j < k ==> c@[j] != '*' && c@[j] != '?' && c@[j] != '[',
        decreases c@.len() - k,
    {
        if c[k] == '*' || c[k] == '?' || c[k] == '[' {
            assert(c@[k as int] == c@[k as int]);
            return true;
        }
        k = k + 1;
    }
    false
}

/// Characters a regular expression would read as operators.
pub open spec fn is_regex_special(c: char) -> bool {
    c == '.' || c == '(' || c == ')' || c == '+' || c == '|' || c == '^' || c == '$' || c == '{' || c == '}'
        || c == '\\'
}

/// The regular expression a glob must match a whole relative path by.
pub open spec fn glob_anchored(glob: Seq<char>) -> Seq<char> {
    seq!['^'] + glob_regex(glob) + seq!['$']
}

/// Whether a relative path (`/`-separated) is selected by a glob: the
/// glob's expression, anchored at both ends, matches it; a glob whose
/// expression does not compile selects nothing.
pub fn glob_matches(glob: &str, rel: &str) -> (r: bool)
    ensures
        r == (regex_match_of(glob_anchored(glob@), rel@) == Some(true)),
{
    let head: [char; 1] = ['^'];
    let tail: [char; 1] = ['$'];
    let re = chars_of(glob_to_regex(glob).as_str());
    let full = concat_chars(&concat_chars(&head, &re), &tail);
    assert(full@ =~= glob_anchored(glob@));
    let pattern = string_of(&full);
    match regex_is_match(pattern.as_str(), rel) {
        Some(b) => b,
        None => false,
    }
}

/// A glob character (`*`, `?` or `[`).
pub open spec fn is_glob_char(c: char) -> bool {
    c == '*' || c == '?' || c == '['
}

/// Index of the first glob character from `i` on (`p.len()` if none).
pub open spec fn glob_pos(p: Seq<char>, i: int) -> int
    decreases p.len() - i,
{
    if i >= p.len() {
        p.len() as int
    } else if is_glob_char(p[i]) {
        i
    } else {
        glob_pos(p, i + 1)
    }
}

/// Index of the last `/` before `n` (`-1` if none).
pub open spec fn slash_before(p: Seq<char>, n: int) -> int
    decreases n,
{
    if n <= 0 {
        -1
    } else if p[n - 1] == '/' {
        n - 1
    } else {
        slash_before(p, n - 1)
    }
}

/// A glob path split into the directory to walk and the glob to match
/// below it: `\` read as `/`; the directory is what comes before the last
/// `/` ahead of the first glob character (`.` when there is none), the
/// glob what follows it; none without a glob character.
pub open spec fn glob_split_of(path: Seq<char>) -> Option<(Seq<char>, Seq<char>)> {
    let p = replace_char(path, '\\', '/');
    let g = glob_pos(p, 0);
    if g >= p.len() {
        None
    } else {
        let i = slash_before(p, g);
        if i >= 0 {
            let base = p.subrange(0, i);
            Some((if base.len() == 0 { seq!['.'] } else { base }, p.subrange(i + 1, p.len() as int)))
        } else {
            Some((seq!['.'], p))
        }
    }
}

/// Splits a glob path (see [`glob_split_of`]).
pub fn glob_split(path: &str) -> (r: Option<(String, String)>)
    ensures
        match r {
            Some((b, g)) => glob_split_of(path@) == Some((b@, g@)),
            None => glob_split_of(path@) is None,
        },
{
    let p = replace_chars(&chars_of(path), '\\', '/');
    let n = p.len();
    let mut g: usize = 0;
    while g < n && !(p[g] == '*' || p[g] == '?' || p[g] == '[')
        invariant
            n == p@.len(),
            g <= n,
            glob_pos(p@, 0) == glob_pos(p@, g as int),
        decreases n - g,
    {
        g = g + 1;
    }
    if g >= n {
        return None;
    }
    let mut i: usize = g;
    while i > 0 && p[i - 1] != '/'
        invariant
            i <= g < n,
            n == p@.len(),
            slash_before(p@, g as int) == slash_before(p@, i as int),
        decreases i,
    {
        i = i - 1;
    }
    let dot: [char; 1] = ['.'];
    if i > 0 {
        let base = slice_chars(&p, 0, i - 1);
        let rest = slice_chars(&p, i, n);
        let b = if base.len() == 0 {
            assert(dot@ =~= seq!['.']);
            string_of(&dot)
        } else {
            string_of(&base)
        };
        Some((b, string_of(&rest)))
    } else {
        assert(dot@ =~= seq!['.']);
        Some((string_of(&dot), string_of(&p)))
    }
}

/// An entry of a package's `pi.extensions` list, relative to the package:
/// a leading `./` is dropped.
pub fn manifest_path(entry: &str) -> (r: String)
    ensures
        r@ == if starts_with(entry@, seq!['.', '/']) {
            entry@.skip(2)
        } else {
            entry@
        },
{
    let c = chars_of(entry);
    let dot_slash: [char; 2] = ['.', '/'];
    assert(dot_slash@ =~= seq!['.', '/']);
    if has_prefix(&c, &dot_slash) {
        string_of(&skip_chars(&c, 2))
    } else {
        entry.to_string()
    }
}

/// Index of the last `.` in `s` (`-1` if none).
pub open spec fn last_dot(s: Seq<char>) -> int
    decreases s.len(),
{
    if s.len() == 0 {
        -1
    } else if s.last() == '.' {
        s.len() - 1
    } else {
        last_dot(s.drop_last())
    }
}

/// A file name with extension `ts` or `js`, the extension being what
/// follows the last `.` when that is not the name's first character (as
/// `Path::extension` reads it).
pub open spec fn is_script_name(name: Seq<char>) -> bool {
    let k = last_dot(name);
    &&& k > 0
    &&& (name.skip(k + 1) == seq!['t', 's'] || name.skip(k + 1) == seq!['j', 's'])
}

proof fn lemma_last_dot(s: Seq<char>, k: int)
    requires
        -1 <= k < s.len(),
        forall|j: int| k < j < s.len() ==> s[j] != '.',
        k == -1 || s[k] == '.',
    ensures
        last_dot(s) == k,
    decreases s.len(),
{
    if s.len() > 0 && s.last() != '.' {
        lemma_last_dot(s.drop_last(), k);
    }
}

/// Whether a file is a script entry of a package directory (see
/// [`is_script_name`]).
pub fn is_script_file(name: &str) -> (r: bool)
    ensures
        r == is_script_name(name@),
{
    let c = chars_of(name);
    let n = c.len();
    let mut k: usize = n;
    while k > 0 && c[k - 1] != '.'
        invariant
            k <= n,
            n == c@.len(),
            forall|j: int| k <= j < n ==> c@[j] != '.',
        decreases k,
    {
        k = k - 1;
    }
    proof {
        lemma_last_dot(c@, k - 1);
    }
    if k <= 1 {
        return false;
    }
    let ext = skip_chars(&c, k);
    assert(ext@ == c@.skip(k as int));
    let ts: [char; 2] = ['t', 's'];
    let js: [char; 2] = ['j', 's'];
    assert(ts@ =~= seq!['t', 's']);
    assert(js@ =~= seq!['j', 's']);
    crate::text::same_chars(&ext, &ts) || crate::text::same_chars(&ext, &js)
}

/// The text ends with `.ts`.
pub open spec fn ends_ts(s: Seq<char>) -> bool {
    s.len() >= 3 && s.subrange(s.len() - 3, s.len() as int) == seq!['.', 't', 's']
}

/// The text without every trailing `.ts` (as `trim_end_matches(".ts")`).
pub open spec fn without_ts(s: Seq<char>) -> Seq<char>
    decreases s.len(),
{
    if ends_ts(s) {
        without_ts(s.subrange(0, s.len() - 3))
    } else {
        s
    }
}

/// The extension a file of an extensions directory stands for: a
/// `<name>.ts` file stands for `<name>` (every trailing `.ts` dropped);
/// other files for none.
pub fn ts_extension_name(file_name: &str) -> (r: Option<String>)
    ensures
        match r {
            Some(n) => ends_ts(file_name@) && n@ == without_ts(file_name@),
            None => !ends_ts(file_name@),
        },
{
    let mut c = chars_of(file_name);
    let dot_ts: [char; 3] = ['.', 't', 's'];
    assert(dot_ts@ =~= seq!['.', 't', 's']);
    if !(c.len() >= 3 && crate::text::same_chars(&slice_chars(&c, c.len() - 3, c.len()), &dot_ts)) {
        return None;
    }
    while c.len() >= 3 && crate::text::same_chars(&slice_chars(&c, c.len() - 3, c.len()), &dot_ts)
        invariant
            without_ts(c@) == without_ts(file_name@),
            dot_ts@ == seq!['.', 't', 's'],
        decreases c.len(),
    {
        assert(ends_ts(c@));
        c = slice_chars(&c, 0, c.len() - 3);
    }
    Some(string_of(&c))
}

/// The source name of an npm package found under `node_modules/<dir>`:
/// `npm:<dir>/<pkg>` for a scoped directory (`@scope`), else `npm:<pkg>`.
pub fn npm_source_name(dir: &str, pkg: &str) -> (r: String)
    ensures
        r@ == seq!['n', 'p', 'm', ':'] + if dir@.len() > 0 && dir@[0] == '@' {
            dir@ + seq!['/'] + pkg@
        } else {
            pkg@
        },
{
    let d = chars_of(dir);
    let head: [char; 4] = ['n', 'p', 'm', ':'];
    assert(head@ =~= seq!['n', 'p', 'm', ':']);
    if d.len() > 0 && d[0] == '@' {
        let slash: [char; 1] = ['/'];
        assert(slash@ =~= seq!['/']);
        let inner = concat_chars(&concat_chars(&d, &slash), &chars_of(pkg));
        let r = concat_chars(&head, &inner);
        assert(r@ =~= seq!['n', 'p', 'm', ':'] + (dir@ + seq!['/'] + pkg@));
        string_of(&r)
    } else {
        string_of(&concat_chars(&head, &chars_of(pkg)))
    }
}

/// The source name of a git package at `rel` below its host directory:
/// `git:<rel>`.
pub fn git_source_name(rel: &str) -> (r: String)
    ensures
        r@ == seq!['g', 'i', 't', ':'] + rel@,
{
    let head: [char; 4] = ['g', 'i', 't', ':'];
    assert(head@ =~= seq!['g', 'i', 't', ':']);
    string_of(&concat_chars(&head, &chars_of(rel)))
}

/// What a package directory listed as an extension stands for.
#[derive(Debug, Clone, Copy, PartialEq, Eq, Structural)]
pub enum DirEntryChoice {
    /// Its `index.ts`.
    IndexTs,
    /// Its `index.js`.
    IndexJs,
    /// Every script file in it (see [`is_script_name`]), sorted.
    Scripts,
}

/// A listed directory stands for its `index.ts`, else its `index.js`,
/// else its script files.
pub fn dir_entry_choice(has_index_ts: bool, has_index_js: bool) -> (r: DirEntryChoice)
    ensures
        r == if has_index_ts {
            DirEntryChoice::IndexTs
        } else if has_index_js {
            DirEntryChoice::IndexJs
        } else {
            DirEntryChoice::Scripts
        },
{
    if has_index_ts {
        DirEntryChoice::IndexTs
    } else if has_index_js {
        DirEntryChoice::IndexJs
    } else {
        DirEntryChoice::Scripts
    }
}

/// The length of a character class at the start of `p` (which starts with
/// `[`): up to and including the first `]` after it, or all of `p`.
pub open spec fn class_len(p: Seq<char>, k: int) -> int
    recommends
        1 <= k <= p.len(),
    decreases p.len() - k,
{
    if k >= p.len() {
        p.len() as int
    } else if p[k] == ']' {
        k + 1
    } else {
        class_len(p, k + 1)
    }
}

/// The regular expression of a glob: `**` matches across directories, `*`
/// within one path segment, `?` one character but `/`; character classes
/// are kept; regex operators are escaped.
pub open spec fn glob_regex(p: Seq<char>) -> Seq<char>
    decreases p.len(),
{
    if p.len() == 0 {
        seq![]
    } else if p[0] == '*' {
        if p.len() > 1 && p[1] == '*' {
            seq!['.', '*'] + glob_regex(p.skip(2))
        } else {
            seq!['[', '^', '/', ']', '*'] + glob_regex(p.skip(1))
        }
    } else if p[0] == '?' {
        seq!['[', '^', '/', ']'] + glob_regex(p.skip(1))
    } else if is_regex_special(p[0]) {
        seq!['\\', p[0]] + glob_regex(p.skip(1))
    } else if p[0] == '[' {
        let n = class_len(p, 1);
        proof {
            lemma_class_len(p, 1);
        }
        p.subrange(0, n) + glob_regex(p.skip(n))
    } else {
        seq![p[0]] + glob_regex(p.skip(1))
    }
}

/// A character class ends at its first `]`, or runs to the end.
pub proof fn lemma_class_len(p: Seq<char>, k: int)
    requires
        1 <= k <= p.len(),
    ensures
        k <= class_len(p, k) <= p.len(),
        class_len(p, k) > k || k == p.len() || p[k] == ']',
        forall|j: int| k <= j < class_len(p, k) - 1 ==> p[j] != ']',
        class_len(p, k) < p.len() ==> p[class_len(p, k) - 1] == ']',
        class_len(p, k) == p.len() ==> (p.len() == k || p[p.len() - 1] == ']' || forall|j: int| k <= j < p.len() ==> p[j] != ']'),
    decreases p.len() - k,
{
    if k < p.len() && p[k] != ']' {
        lemma_class_len(p, k + 1);
    }
}

/// Translates a glob (relative, `/`-separated) into a regular expression.
pub fn glob_to_regex(pattern: &str) -> (r: String)
    ensures
        r@ == glob_regex(pattern@),
{
    let p = chars_of(pattern);
    let n = p.len();
    let mut out: Vec<char> = Vec::new();
    let mut i: usize = 0;
    assert(p@.skip(0) =~= p@);
    while i < n
        invariant
            n == p@.len(),
            p@ == pattern@,
            i <= n,
            out@ + glob_regex(p@.skip(i as int)) == glob_regex(p@),
        decreases n - i,
    {
        let ghost rest = p@.skip(i as int);
        let ghost before = out@;
        let c = p[i];
        assert(rest[0] == c);
        if c == '*' {
            if i + 1 < n && p[i + 1] == '*' {
                out.push('.');
                out.push('*');
                assert(rest.skip(2) =~= p@.skip(i + 2));
                i = i + 2;
            } else {
                out.push('[');
                out.push('^');
                out.push('/');
                out.push(']');
                out.push('*');
                assert(rest.skip(1) =~= p@.skip(i + 1));
                i = i + 1;
            }
        } else if c == '?' {
            out.push('[');
            out.push('^');
            out.push('/');
            out.push(']');
            assert(rest.skip(1) =~= p@.skip(i + 1));
            i = i + 1;
        } else if c == '.' || c == '(' || c == ')' || c == '+' || c == '|' || c == '^' || c == '$' || c == '{'
            || c == '}' || c == '\\' {
            out.push('\\');
            out.push(c);
            assert(rest.skip(1) =~= p@.skip(i + 1));
            i = i + 1;
        } else if c == '[' {
            out.push('[');
            let mut j: usize = i + 1;
            while j < n && p[j] != ']'
                invariant
                    n == p@.len(),
                    i < j <= n,
                    rest == p@.skip(i as int),
                    class_len(rest, 1) == class_len(rest, (j - i) as int),
                    out@ == before + p@.subrange(i as int, j as int),
                decreases n - j,
            {
                out.push(p[j]);
                assert(p@.subrange(i as int, j + 1) =~= p@.subrange(i as int, j as int).push(p@[j as int]));
                j = j + 1;
            }
            if j < n {
                out.push(']');
                assert(p@.subrange(i as int, j + 1) =~= p@.subrange(i as int, j as int).push(p@[j as int]));
                j = j + 1;
            }
            proof {
                assert(class_len(rest, 1) == (j - i) as int);
                assert(rest.subrange(0, (j - i) as int) =~= p@.subrange(i as int, j as int));
                assert(rest.skip((j - i) as int) =~= p@.skip(j as int));
            }
            i = j;
        } else {
            out.push(c);
            assert(rest.skip(1) =~= p@.skip(i + 1));
            i = i + 1;
        }
        assert(before + glob_regex(rest) == glob_regex(p@));
        assert(out@ + glob_regex(p@.skip(i as int)) =~= before + glob_regex(rest));
    }
    assert(p@.skip(n as int) =~= seq![]);
    assert(out@ + seq![] =~= out@);
    string_of(&out)
}

// ─── Candidates ────────────────────────────────────────────────────────────

/// An extension that can be enabled: its name (`npm:` and `git:` names for
/// package extensions) and its entry file, when known.
#[derive(Debug, Clone)]
pub struct ExtensionEntry {
    pub name: String,
    pub path: Option<String>,
}

/// The names of a list of entries.
pub open spec fn entry_names(v: Seq<ExtensionEntry>) -> Seq<Seq<char>> {
    v.map_values(|e: ExtensionEntry| e.name@)
}

/// The project-local entries that join the global ones: those whose name
/// is neither global nor taken by an earlier project-local entry.
pub open spec fn added_entries(global: Seq<ExtensionEntry>, project: Seq<ExtensionEntry>) -> Seq<ExtensionEntry>
    decreases project.len(),
{
    if project.len() == 0 {
        seq![]
    } else {
        let rest = added_entries(global, project.drop_last());
        let e = project.last();
        if entry_names(global).contains(e.name@) || entry_names(rest).contains(e.name@) {
            rest
        } else {
            rest.push(e)
        }
    }
}

/// Merging keeps every name once: the project-local entries added carry
/// names that are not global and pairwise distinct, and every project-local
/// name is among the merged names.
pub proof fn lemma_merge_names(global: Seq<ExtensionEntry>, project: Seq<ExtensionEntry>)
    ensures
        ({
            let added = added_entries(global, project);
            &&& forall|k: int| 0 <= k < added.len() ==> !entry_names(global).contains(#[trigger] added[k].name@)
            &&& forall|a: int, b: int| 0 <= a < b < added.len() ==> #[trigger] added[a].name@ != #[trigger] added[b].name@
            &&& forall|k: int| 0 <= k < project.len()
                ==> #[trigger] entry_names(global + added).contains(project[k].name@)
        }),
    decreases project.len(),
{
    if project.len() > 0 {
        let prev = project.drop_last();
        lemma_merge_names(global, prev);
        let rest = added_entries(global, prev);
        let e = project.last();
        let added = added_entries(global, project);
        assert forall|k: int| 0 <= k < added.len() implies !entry_names(global).contains(#[trigger] added[k].name@) by {
            if k < rest.len() {
                assert(added[k] == rest[k]);
            }
        }
        assert forall|a: int, b: int| 0 <= a < b < added.len() implies #[trigger] added[a].name@ != #[trigger] added[b].name@ by {
            if b < rest.len() {
                assert(added[a] == rest[a] && added[b] == rest[b]);
            } else {
                assert(added[a] == rest[a]);
                assert(entry_names(rest)[a] == rest[a].name@);
            }
        }
        assert forall|k: int| 0 <= k < project.len() implies #[trigger] entry_names(global + added).contains(project[k].name@) by {
            if k < prev.len() {
                assert(prev[k] == project[k]);
                assert(entry_names(global + rest).contains(prev[k].name@));
                let j = choose|j: int| 0 <= j < entry_names(global + rest).len() && entry_names(global + rest)[j] == prev[k].name@;
                assert(entry_names(global + added)[j] == entry_names(global + rest)[j]);
            } else {
                if entry_names(global).contains(e.name@) {
                    let j = choose|j: int| 0 <= j < entry_names(global).len() && entry_names(global)[j] == e.name@;
                    assert(entry_names(global + added)[j] == e.name@);
                } else if entry_names(rest).contains(e.name@) {
                    let j = choose|j: int| 0 <= j < entry_names(rest).len() && entry_names(rest)[j] == e.name@;
                    assert(entry_names(global + added)[global.len() as int + j] == e.name@);
                } else {
                    assert(entry_names(global + added)[(global.len() + rest.len()) as int] == e.name@);
                }
            }
        }
    }
}

fn name_listed(v: &Vec<ExtensionEntry>, name: &str) -> (r: bool)
    ensures
        r == entry_names(v@).contains(name@),
{
    let mut k: usize = 0;
    while k < v.len()
        invariant
            k <= v@.len(),
            forall|j: int| 0 <= j < k ==> (#[trigger] v@[j]).name@ != name@,
        decreases v@.len() - k,
    {
        if crate::text::same_text(v[k].name.as_str(), name) {
            assert(entry_names(v@)[k as int] == name@);
            return true;
        }
        k = k + 1;
    }
    assert forall|j: int| 0 <= j < entry_names(v@).len() implies entry_names(v@)[j] != name@ by {
        assert(entry_names(v@)[j] == v@[j].name@);
    }
    false
}

/// The candidates of a project: the global ones, then the project-local
/// ones whose name is new.
pub fn merge_extension_entries(global: Vec<ExtensionEntry>, project: Vec<ExtensionEntry>) -> (r: Vec<ExtensionEntry>)
    ensures
        r@ == global@ + added_entries(global@, project@),
{
    let mut added: Vec<ExtensionEntry> = Vec::new();
    let mut k: usize = 0;
    while k < project.len()
        invariant
            k <= project@.len(),
            added@ == added_entries(global@, project@.subrange(0, k as int)),
        decreases project@.len() - k,
    {
        let ghost pre = project@.subrange(0, k as int);
        assert(project@.subrange(0, k + 1).drop_last() =~= pre);
        let e = &project[k];
        if !name_listed(&global, e.name.as_str()) && !name_listed(&added, e.name.as_str()) {
            let path = match &e.path {
                Some(x) => Some(x.clone()),
                None => None,
            };
            added.push(ExtensionEntry { name: e.name.clone(), path: path });
        }
        k = k + 1;
    }
    assert(project@.subrange(0, project@.len() as int) =~= project@);
    let mut r = global;
    r.append(&mut added);
    r
}

/// Where an extension name is looked for.
pub enum ExtensionLookup {
    /// A package extension: the first of these package directories whose
    /// manifest declares an entry file.
    Package { dirs: Vec<String> },
    /// A plain extension: the first of these files that exists.
    Files { candidates: Vec<String> },
}

/// `<dir>/<name>.ts` and `<dir>/<name>/index.ts`.
pub open spec fn file_pair(dir: Seq<char>, name: Seq<char>) -> Seq<Seq<char>> {
    seq![join(dir, name + ".ts"@), join(join(dir, name), "index.ts"@)]
}

/// The places searched for an extension name, in order: for `npm:<pkg>`
/// the global then the project's npm installs, for `git:<repo>` the global
/// then the project's git checkouts; otherwise `<name>.ts` and
/// `<name>/index.ts` in the global extension directory, then in the
/// project's `.pi/extensions`.
pub open spec fn lookup_places(name: Seq<char>, cwd: Seq<char>, agent_dir: Seq<char>) -> (bool, Seq<Seq<char>>) {
    if starts_with(name, "npm:"@) {
        let pkg = name.skip(4);
        (true, seq![
            join(join(join(agent_dir, "npm"@), "node_modules"@), pkg),
            join(join(join(join(cwd, ".pi"@), "npm"@), "node_modules"@), pkg),
        ])
    } else if starts_with(name, "git:"@) {
        let repo = name.skip(4);
        (true, seq![join(join(agent_dir, "git"@), repo), join(join(join(cwd, ".pi"@), "git"@), repo)])
    } else {
        (false, file_pair(join(agent_dir, "extensions"@), name) + file_pair(
            join(join(cwd, ".pi"@), "extensions"@),
            name,
        ))
    }
}

/// The abstract values of a list of strings.
pub open spec fn texts(v: Seq<String>) -> Seq<Seq<char>> {
    v.map_values(|s: String| s@)
}

fn push_file_pair(out: &mut Vec<String>, dir: &str, name: &str)
    ensures
        texts(final(out)@) == texts(old(out)@) + file_pair(dir@, name@),
{
    let ts = string_of(&crate::text::concat_chars(&chars_of(name), &chars_of(".ts")));
    let ghost before = texts(out@);
    out.push(join_path(dir, ts.as_str()));
    let sub = join_path(dir, name);
    out.push(join_path(sub.as_str(), "index.ts"));
    assert(texts(out@) =~= before + file_pair(dir@, name@));
}

/// Where to look for an extension name (see [`lookup_places`]).
pub fn extension_lookup(name: &str, cwd: &str, agent_dir: &str) -> (r: ExtensionLookup)
    ensures
        match r {
            ExtensionLookup::Package { dirs } => lookup_places(name@, cwd@, agent_dir@) == (true, texts(dirs@)),
            ExtensionLookup::Files { candidates } => lookup_places(name@, cwd@, agent_dir@) == (false, texts(candidates@)),
        },
{
    proof {
        reveal_strlit("npm:");
        reveal_strlit("git:");
    }
    let n = chars_of(name);
    let npm = chars_of("npm:");
    let git = chars_of("git:");
    let cwd_pi = join_path(cwd, ".pi");
    if has_prefix(&n, &npm) {
        let pkg = string_of(&skip_chars(&n, 4));
        let g = join_path(join_path(agent_dir, "npm").as_str(), "node_modules");
        let l = join_path(join_path(cwd_pi.as_str(), "npm").as_str(), "node_modules");
        let mut dirs: Vec<String> = Vec::new();
        dirs.push(join_path(g.as_str(), pkg.as_str()));
        dirs.push(join_path(l.as_str(), pkg.as_str()));
        assert(texts(dirs@) =~= lookup_places(name@, cwd@, agent_dir@).1);
        ExtensionLookup::Package { dirs }
    } else if has_prefix(&n, &git) {
        let repo = string_of(&skip_chars(&n, 4));
        let g = join_path(agent_dir, "git");
        let l = join_path(cwd_pi.as_str(), "git");
        let mut dirs: Vec<String> = Vec::new();
        dirs.push(join_path(g.as_str(), repo.as_str()));
        dirs.push(join_path(l.as_str(), repo.as_str()));
        assert(texts(dirs@) =~= lookup_places(name@, cwd@, agent_dir@).1);
        ExtensionLookup::Package { dirs }
    } else {
        let mut candidates: Vec<String> = Vec::new();
        let global = join_path(agent_dir, "extensions");
        push_file_pair(&mut candidates, global.as_str(), name);
        let local = join_path(cwd_pi.as_str(), "extensions");
        push_file_pair(&mut candidates, local.as_str(), name);
        assert(texts(candidates@) =~= lookup_places(name@, cwd@, agent_dir@).1);
        ExtensionLookup::Files { candidates }
    }
}

} // verus!
