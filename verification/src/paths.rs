//! Workspace path rules: validating user supplied relative paths, anchoring
//! them in a workspace, comparing absolute paths, and the fixed layout of a
//! workspace directory.

use vstd::prelude::*;
use crate::text::{concat_chars, lowercase_text, same_chars, slice_chars, str_lowercase, chars_of, has_prefix, replace_char, replace_chars, skip_chars, starts_with, string_of, trim, trim_chars};

verus! {

/// Why a user supplied relative path was refused.
#[derive(Debug, Clone, Copy, PartialEq, Eq, Structural)]
pub enum PathError {
    Empty,
    Absolute,
    EmptyComponent,
    Traversal,
    OutputExcluded,
}

/// The message a refused path is answered with.
pub open spec fn path_error_text(e: PathError) -> Seq<char> {
    match e {
        PathError::Empty => "empty path"@,
        PathError::Absolute => "absolute path not allowed"@,
        PathError::EmptyComponent => "empty path component"@,
        PathError::Traversal => "path traversal not allowed"@,
        PathError::OutputExcluded => "output_path_excluded"@,
    }
}

impl PathError {
    /// The message for this refusal.
    pub fn message(&self) -> (s: String)
        ensures
            s@ == path_error_text(*self),
    {
        match self {
            PathError::Empty => "empty path".to_string(),
            PathError::Absolute => "absolute path not allowed".to_string(),
            PathError::EmptyComponent => "empty path component".to_string(),
            PathError::Traversal => "path traversal not allowed".to_string(),
            PathError::OutputExcluded => "output_path_excluded".to_string(),
        }
    }
}

/// The user's text trimmed, with `\` turned into `/` and one leading `./` dropped.
pub open spec fn normalized_input(raw: Seq<char>) -> Seq<char> {
    let t = replace_char(trim(raw), '\\', '/');
    if starts_with(t, seq!['.', '/']) {
        t.subrange(2, t.len() as int)
    } else {
        t
    }
}

/// The verdict on one `/`-separated component.
pub open spec fn component_verdict(comp: Seq<char>) -> Option<PathError> {
    if comp.len() == 0 {
        Some(PathError::EmptyComponent)
    } else if comp == seq!['.', '.'] {
        Some(PathError::Traversal)
    } else {
        None
    }
}

/// Scans `c` from `i`, the current component starting at `start`; yields
/// the verdict on the first bad component, if any.
pub open spec fn scan_components(c: Seq<char>, i: int, start: int) -> Option<PathError>
    decreases c.len() - i,
{
    if i >= c.len() {
        component_verdict(c.subrange(start, c.len() as int))
    } else if c[i] == '/' {
        match component_verdict(c.subrange(start, i)) {
            Some(e) => Some(e),
            None => scan_components(c, i + 1, i + 1),
        }
    } else {
        scan_components(c, i + 1, start)
    }
}

/// Whether `c` starts like a drive letter path (`X:`).
pub open spec fn has_drive_prefix(c: Seq<char>) -> bool {
    c.len() >= 2 && (c[0] as u32) < 128 && c[1] == ':'
}

/// The verdict on a normalized relative path.
pub open spec fn rel_path_verdict(c: Seq<char>) -> Option<PathError> {
    if c.len() == 0 {
        Some(PathError::Empty)
    } else if c[0] == '/' {
        Some(PathError::Absolute)
    } else if has_drive_prefix(c) {
        Some(PathError::Absolute)
    } else {
        scan_components(c, 0, 0)
    }
}

/// `c[i..j]` is one whole `/`-separated component of `c`.
pub open spec fn is_component(c: Seq<char>, i: int, j: int) -> bool {
    &&& 0 <= i <= j <= c.len()
    &&& (i == 0 || c[i - 1] == '/')
    &&& (j == c.len() || c[j] == '/')
    &&& forall|k: int| i <= k < j ==> c[k] != '/'
}

/// A safe relative path: non-empty, not absolute, no drive prefix, and
/// every component non-empty and different from `..`.
pub open spec fn is_safe_rel_path(c: Seq<char>) -> bool {
    &&& c.len() > 0
    &&& c[0] != '/'
    &&& !has_drive_prefix(c)
    &&& forall|i: int, j: int| #[trigger] is_component(c, i, j) ==> j > i && c.subrange(i, j) != seq!['.', '.']
}

proof fn lemma_scan_components_safe(c: Seq<char>, i: int, start: int)
    requires
        0 <= start <= i <= c.len(),
        start == 0 || c[start - 1] == '/',
        forall|k: int| start <= k < i ==> c[k] != '/',
        scan_components(c, i, start) is None,
    ensures
        forall|a: int, b: int| #[trigger] is_component(c, a, b) && a >= start
            ==> b > a && c.subrange(a, b) != seq!['.', '.'],
    decreases c.len() - i,
{
    if i >= c.len() {
        assert forall|a: int, b: int| #[trigger] is_component(c, a, b) && a >= start
            implies b > a && c.subrange(a, b) != seq!['.', '.'] by {
            if a > start {
                assert(c[a - 1] != '/');
            }
            if b < c.len() {
                assert(c[b] != '/');
            }
        }
    } else if c[i] == '/' {
        lemma_scan_components_safe(c, i + 1, i + 1);
        assert forall|a: int, b: int| #[trigger] is_component(c, a, b) && a >= start
            implies b > a && c.subrange(a, b) != seq!['.', '.'] by {
            if a <= i {
                if a > start {
                    assert(c[a - 1] != '/');
                }
                if b > i {
                    assert(c[i] != '/');
                }
                if b < i {
                    assert(c[b] != '/');
                }
            }
        }
    } else {
        lemma_scan_components_safe(c, i + 1, start);
    }
}

/// Whatever [`clean_rel_path`] accepts is a safe relative path: non-empty,
/// not absolute, without drive prefix, with no empty and no `..` component.
pub proof fn lemma_accepted_path_is_safe(raw: Seq<char>)
    requires
        rel_path_verdict(normalized_input(raw)) is None,
    ensures
        is_safe_rel_path(normalized_input(raw)),
{
    let c = normalized_input(raw);
    lemma_scan_components_safe(c, 0, 0);
}

proof fn lemma_safe_scan(c: Seq<char>, i: int, start: int)
    requires
        0 <= start <= i <= c.len(),
        start == 0 || c[start - 1] == '/',
        forall|k: int| start <= k < i ==> c[k] != '/',
        forall|a: int, b: int| #[trigger] is_component(c, a, b) ==> b > a && c.subrange(a, b) != seq!['.', '.'],
    ensures
        scan_components(c, i, start) is None,
    decreases c.len() - i,
{
    if i >= c.len() {
        assert(is_component(c, start, c.len() as int));
    } else if c[i] == '/' {
        assert(is_component(c, start, i));
        lemma_safe_scan(c, i + 1, i + 1);
    } else {
        lemma_safe_scan(c, i + 1, start);
    }
}

/// [`clean_rel_path`] accepts exactly the safe relative paths: a path is
/// refused if and only if, once normalized, it is empty, absolute, starts
/// with a drive, or has an empty or a `..` component. Any other component
/// (`.github`, `..x`, `.`) is allowed.
pub proof fn lemma_rel_path_accepted_iff_safe(raw: Seq<char>)
    ensures
        rel_path_verdict(normalized_input(raw)) is None <==> is_safe_rel_path(normalized_input(raw)),
{
    let c = normalized_input(raw);
    if rel_path_verdict(c) is None {
        lemma_accepted_path_is_safe(raw);
    }
    if is_safe_rel_path(c) {
        lemma_safe_scan(c, 0, 0);
    }
}

/// Checks a normalized path component by component.
fn check_components(c: &[char]) -> (r: Option<PathError>)
    ensures
        r == scan_components(c@, 0, 0),
{
    let n = c.len();
    let mut i: usize = 0;
    let mut start: usize = 0;
    while i < n
        invariant
            n == c@.len(),
            start <= i <= n,
            scan_components(c@, 0, 0) == scan_components(c@, i as int, start as int),
        decreases n - i,
    {
        if c[i] == '/' {
            let len = i - start;
            if len == 0 {
                assert(c@.subrange(start as int, i as int).len() == 0);
                return Some(PathError::EmptyComponent);
            }
            if len == 2 && c[start] == '.' && c[start + 1] == '.' {
                assert(c@.subrange(start as int, i as int) =~= seq!['.', '.']);
                return Some(PathError::Traversal);
            }
            assert(c@.subrange(start as int, i as int) != seq!['.', '.'] ) by {
                if len == 2 {
                    let s = c@.subrange(start as int, i as int);
                    assert(s[0] == c@[start as int] && s[1] == c@[start + 1]);
                }
            }
            i = i + 1;
            start = i;
        } else {
            i = i + 1;
        }
    }
    let len = n - start;
    if len == 0 {
        return Some(PathError::EmptyComponent);
    }
    if len == 2 && c[start] == '.' && c[start + 1] == '.' {
        assert(c@.subrange(start as int, n as int) =~= seq!['.', '.']);
        return Some(PathError::Traversal);
    }
    assert(c@.subrange(start as int, n as int) != seq!['.', '.'] ) by {
        if len == 2 {
            let s = c@.subrange(start as int, n as int);
            assert(s[0] == c@[start as int] && s[1] == c@[start + 1]);
        }
    }
    None
}

/// Validates and normalizes a user supplied relative path (upload, download,
/// deliverable marks): trims, turns `\` into `/`, drops one leading `./`,
/// refuses empty, absolute (`/`, `//`, drive) and traversing (`..`) paths
/// and empty components. The result uses `/` separators.
pub fn clean_rel_path(raw: &str) -> (r: Result<String, String>)
    ensures
        r is Ok <==> rel_path_verdict(normalized_input(raw@)) is None,
        r matches Ok(p) ==> p@ == normalized_input(raw@),
        r matches Err(e) ==> e@ == path_error_text(rel_path_verdict(normalized_input(raw@))->0),
{
    match check_rel_path(raw) {
        Ok(p) => Ok(p),
        Err(e) => Err(e.message()),
    }
}

/// As [`clean_rel_path`], with the refusal as a [`PathError`].
pub fn check_rel_path(raw: &str) -> (r: Result<String, PathError>)
    ensures
        r is Ok <==> rel_path_verdict(normalized_input(raw@)) is None,
        r matches Ok(p) ==> p@ == normalized_input(raw@),
        r matches Err(e) ==> rel_path_verdict(normalized_input(raw@)) == Some(e),
{
    let chars = chars_of(raw);
    let t = trim_chars(&chars);
    let t = replace_chars(&t, '\\', '/');
    let dot_slash: [char; 2] = ['.', '/'];
    let c = if has_prefix(&t, &dot_slash) {
        skip_chars(&t, 2)
    } else {
        t
    };
    proof {
        assert(dot_slash@ =~= seq!['.', '/']);
    }
    if c.len() == 0 {
        return Err(PathError::Empty);
    }
    if c[0] == '/' {
        return Err(PathError::Absolute);
    }
    if c.len() >= 2 && (c[0] as u32) < 128 && c[1] == ':' {
        return Err(PathError::Absolute);
    }
    match check_components(&c) {
        Some(e) => Err(e),
        None => Ok(string_of(&c)),
    }
}

/// Upload paths are relative paths outside the agent's `output` area.
pub fn clean_upload_path(raw: &str) -> (r: Result<String, String>)
    ensures
        rel_path_verdict(normalized_input(raw@)) is Some ==> (r matches Err(e)
            && e@ == path_error_text(rel_path_verdict(normalized_input(raw@))->0)),
        rel_path_verdict(normalized_input(raw@)) is None ==> {
            let p = normalized_input(raw@);
            if p == "output"@ || starts_with(p, "output/"@) {
                (r matches Err(e) && e@ == path_error_text(PathError::OutputExcluded))
            } else {
                (r matches Ok(q) && q@ == p)
            }
        },
{
    let rel = clean_rel_path(raw)?;
    let rc = chars_of(rel.as_str());
    let out = chars_of("output");
    let out_slash = chars_of("output/");
    if is_output_word(&rc, &out) || has_prefix(&rc, &out_slash) {
        return Err(PathError::OutputExcluded.message());
    }
    Ok(rel)
}

/// Where an upload named `raw` goes, or why the name is refused (see
/// [`clean_upload_path`]).
pub open spec fn upload_path_of(raw: Seq<char>) -> Result<Seq<char>, Seq<char>> {
    match rel_path_verdict(normalized_input(raw)) {
        Some(e) => Err(path_error_text(e)),
        None => {
            let p = normalized_input(raw);
            if p == "output"@ || starts_with(p, "output/"@) {
                Err(path_error_text(PathError::OutputExcluded))
            } else {
                Ok(p)
            }
        },
    }
}

/// Largest upload accepted: 50 MiB.
pub const MAX_UPLOAD_BYTES: u64 = 52428800;

/// What becomes of an uploaded file of `size` bytes named `raw`: its
/// place in the workspace, or why it is refused (a bad name first, then
/// `too_large`).
pub fn upload_verdict(raw: &str, size: u64) -> (r: Result<String, String>)
    ensures
        match upload_path_of(raw@) {
            Err(e) => r matches Err(x) && x@ == e,
            Ok(p) => if size > MAX_UPLOAD_BYTES {
                r matches Err(x) && x@ == "too_large"@
            } else {
                r matches Ok(q) && q@ == p
            },
        },
{
    let rel = clean_upload_path(raw)?;
    if size > MAX_UPLOAD_BYTES {
        return Err("too_large".to_string());
    }
    Ok(rel)
}

/// The `Content-Disposition` of a workspace download: an attachment named
/// after the workspace, double quotes dropped, with `.zip` added.
pub fn zip_disposition(name: &str) -> (r: String)
    ensures
        r@ == "attachment; filename=\""@ + name@.filter(|c: char| c != '"') + ".zip\""@,
{
    let c = chars_of(name);
    let mut kept: Vec<char> = Vec::new();
    for k in 0..c.len()
        invariant
            c@ == name@,
            kept@ == c@.subrange(0, k as int).filter(|x: char| x != '"'),
    {
        proof {
            reveal_with_fuel(Seq::filter, 1);
            assert(c@.subrange(0, k + 1).drop_last() =~= c@.subrange(0, k as int));
        }
        if c[k] != '"' {
            kept.push(c[k]);
        }
    }
    assert(c@.subrange(0, c@.len() as int) =~= c@);
    let head = chars_of("attachment; filename=\"");
    let tail = chars_of(".zip\"");
    string_of(&concat_chars(&concat_chars(&head, &kept), &tail))
}

/// The base path shown with a workspace's files: `/` separators and one
/// trailing `/`.
pub fn listing_base_path(dir: &str) -> (r: String)
    ensures
        ({
            let p = replace_char(dir@, '\\', '/');
            r@ == if p.len() > 0 && p.last() == '/' {
                p
            } else {
                p.push('/')
            }
        }),
{
    let mut p = replace_chars(&chars_of(dir), '\\', '/');
    if !(p.len() > 0 && p[p.len() - 1] == '/') {
        p.push('/');
    }
    string_of(&p)
}

fn is_output_word(c: &Vec<char>, out: &Vec<char>) -> (b: bool)
    ensures
        b == (c@ == out@),
{
    if c.len() != out.len() {
        return false;
    }
    let r = has_prefix(c, out);
    assert(c@ =~= c@.subrange(0, out@.len() as int));
    r
}

} // verus!

verus! {

/// `p` without a Windows verbatim prefix: `\\?\UNC\x` becomes `\\x`,
/// `\\?\x` becomes `x`, anything else is unchanged.
pub open spec fn strip_verbatim(p: Seq<char>) -> Seq<char> {
    if starts_with(p, seq!['\\', '\\', '?', '\\', 'U', 'N', 'C', '\\']) {
        seq!['\\', '\\'] + p.subrange(8, p.len() as int)
    } else if starts_with(p, seq!['\\', '\\', '?', '\\']) {
        p.subrange(4, p.len() as int)
    } else {
        p
    }
}

/// Strips the Windows verbatim path prefix (`\\?\`, `\\?\UNC\`).
pub fn strip_verbatim_prefix(path: &str) -> (r: String)
    ensures
        r@ == strip_verbatim(path@),
{
    let c = chars_of(path);
    let r = strip_verbatim_chars(&c);
    string_of(&r)
}

/// [`strip_verbatim_prefix`] on characters.
pub fn strip_verbatim_chars(c: &[char]) -> (r: Vec<char>)
    ensures
        r@ == strip_verbatim(c@),
{
    let unc: [char; 8] = ['\\', '\\', '?', '\\', 'U', 'N', 'C', '\\'];
    let verb: [char; 4] = ['\\', '\\', '?', '\\'];
    assert(unc@ =~= seq!['\\', '\\', '?', '\\', 'U', 'N', 'C', '\\']);
    assert(verb@ =~= seq!['\\', '\\', '?', '\\']);
    if has_prefix(c, &unc) {
        let two: [char; 2] = ['\\', '\\'];
        let rest = skip_chars(c, 8);
        let r = concat_chars(&two, &rest);
        assert(two@ =~= seq!['\\', '\\']);
        r
    } else if has_prefix(c, &verb) {
        skip_chars(c, 4)
    } else {
        let r = skip_chars(c, 0);
        assert(r@ =~= c@);
        r
    }
}

/// `s` without trailing `/` characters.
pub open spec fn trim_end_slashes(s: Seq<char>) -> Seq<char>
    decreases s.len(),
{
    if s.len() > 0 && s.last() == '/' {
        trim_end_slashes(s.drop_last())
    } else {
        s
    }
}

/// The comparison form of an absolute path: verbatim prefix stripped, `\`
/// turned into `/`, trailing `/` removed.
pub open spec fn cmp_form(p: Seq<char>) -> Seq<char> {
    trim_end_slashes(replace_char(strip_verbatim(p), '\\', '/'))
}

/// `target` is `base` itself or lies below it (component boundary).
pub open spec fn inside(b: Seq<char>, t: Seq<char>) -> bool {
    t == b || starts_with(t, b.push('/'))
}

fn trim_end_slash_chars(s: Vec<char>) -> (r: Vec<char>)
    ensures
        r@ == trim_end_slashes(s@),
{
    let mut r = s;
    while r.len() > 0 && r[r.len() - 1] == '/'
        invariant
            trim_end_slashes(r@) == trim_end_slashes(s@),
        decreases r.len(),
    {
        r.pop();
    }
    r
}

fn cmp_form_chars(p: &str) -> (r: Vec<char>)
    ensures
        r@ == cmp_form(p@),
{
    let c = chars_of(p);
    let s = strip_verbatim_chars(&c);
    let s = replace_chars(&s, '\\', '/');
    trim_end_slash_chars(s)
}

fn inside_chars(b: &[char], t: &[char]) -> (r: bool)
    ensures
        r == inside(b@, t@),
{
    if same_chars(t, b) {
        return true;
    }
    let mut bs: Vec<char> = Vec::new();
    for k in 0..b.len()
        invariant
            bs@ == b@.subrange(0, k as int),
    {
        bs.push(b[k]);
        assert(bs@ =~= b@.subrange(0, k + 1 as int));
    }
    bs.push('/');
    assert(bs@ =~= b@.push('/'));
    has_prefix(t, &bs)
}

/// Whether the absolute path `target` lies inside `base` (or is `base`),
/// comparing the normalized forms (verbatim prefix removed, `\` as `/`,
/// trailing `/` removed) on a component boundary.
pub fn is_inside(base: &str, target: &str) -> (r: bool)
    ensures
        r == inside(cmp_form(base@), cmp_form(target@)),
{
    let b = cmp_form_chars(base);
    let t = cmp_form_chars(target);
    inside_chars(&b, &t)
}

/// [`is_inside`] where letter case may be folded first (Windows file
/// systems compare paths case-insensitively).
pub fn is_inside_with(base: &str, target: &str, fold_case: bool) -> (r: bool)
    ensures
        !fold_case ==> r == inside(cmp_form(base@), cmp_form(target@)),
        fold_case ==> r == inside(
            lowercase_text(cmp_form(base@)),
            lowercase_text(cmp_form(target@)),
        ),
{
    if !fold_case {
        return is_inside(base, target);
    }
    let b = cmp_form_chars(base);
    let t = cmp_form_chars(target);
    let bl = str_lowercase(string_of(&b).as_str());
    let tl = str_lowercase(string_of(&t).as_str());
    let b2 = chars_of(bl.as_str());
    let t2 = chars_of(tl.as_str());
    inside_chars(&b2, &t2)
}

/// Paths under `output/` are the agent's deliverables.
pub fn is_output_path(rel: &str) -> (r: bool)
    ensures
        r == starts_with(rel@, "output/"@),
{
    let c = chars_of(rel);
    let p = chars_of("output/");
    has_prefix(&c, &p)
}

/// Directory names whose contents are never snapshotted as untracked files.
pub open spec fn is_excluded_dir(comp: Seq<char>) -> bool {
    comp == ".git"@ || comp == "node_modules"@ || comp == "target"@ || comp == "dist"@
        || comp == "build"@ || comp == ".venv"@ || comp == "venv"@ || comp == "__pycache__"@
        || comp == ".next"@ || comp == ".cache"@ || comp == ".turbo"@ || comp == "coverage"@
}

fn excluded_dir_chars(comp: &[char]) -> (r: bool)
    ensures
        r == is_excluded_dir(comp@),
{
    same_chars(comp, &chars_of(".git")) || same_chars(comp, &chars_of("node_modules"))
        || same_chars(comp, &chars_of("target")) || same_chars(comp, &chars_of("dist"))
        || same_chars(comp, &chars_of("build")) || same_chars(comp, &chars_of(".venv"))
        || same_chars(comp, &chars_of("venv")) || same_chars(comp, &chars_of("__pycache__"))
        || same_chars(comp, &chars_of(".next")) || same_chars(comp, &chars_of(".cache"))
        || same_chars(comp, &chars_of(".turbo")) || same_chars(comp, &chars_of("coverage"))
}

/// Whether some `/`-separated component of `rel` is an excluded directory
/// name (dependency and build output trees).
pub fn exclude_path(rel: &str) -> (r: bool)
    ensures
        r == exists|a: int, b: int| #[trigger] is_component(rel@, a, b)
            && is_excluded_dir(rel@.subrange(a, b)),
{
    let c = chars_of(rel);
    let n = c.len();
    let mut start: usize = 0;
    let mut i: usize = 0;
    while i < n
        invariant
            n == c@.len(),
            c@ == rel@,
            start <= i <= n,
            start == 0 || c@[start - 1] == '/',
            forall|k: int| start <= k < i ==> c@[k] != '/',
            forall|a: int, b: int| #[trigger] is_component(c@, a, b) && a < start
                ==> !is_excluded_dir(c@.subrange(a, b)),
        decreases n - i,
    {
        if c[i] == '/' {
            let comp = slice_chars(&c, start, i);
            if excluded_dir_chars(&comp) {
                assert(is_component(c@, start as int, i as int));
                assert(is_excluded_dir(c@.subrange(start as int, i as int)));
                return true;
            }
            assert forall|a: int, b: int| #[trigger] is_component(c@, a, b) && a < i + 1
                implies !is_excluded_dir(c@.subrange(a, b)) by {
                if a >= start {
                    if a > start {
                        assert(c@[a - 1] != '/');
                    }
                    if b < i {
                        assert(c@[b] != '/');
                    }
                    if b > i {
                        assert(c@[i as int] != '/');
                    }
                }
            }
            start = i + 1;
        }
        i = i + 1;
    }
    let comp = slice_chars(&c, start, n);
    let last = excluded_dir_chars(&comp);
    assert(is_component(c@, start as int, n as int));
    assert forall|a: int, b: int| #[trigger] is_component(c@, a, b) && a >= start
        implies a == start && b == n by {
        if a > start {
            assert(c@[a - 1] != '/');
        }
        if b < n {
            assert(c@[b] != '/');
        }
    }
    last
}

} // verus!

verus! {

/// `base` joined with `comp` as `PathBuf::push` does on Unix: an absolute
/// `comp` replaces `base`; otherwise a `/` is inserted when `base` is
/// non-empty and does not already end with one.
pub open spec fn join(base: Seq<char>, comp: Seq<char>) -> Seq<char> {
    if comp.len() > 0 && comp[0] == '/' {
        comp
    } else if base.len() > 0 && base.last() != '/' {
        base.push('/') + comp
    } else {
        base + comp
    }
}

/// Joins two path strings (see [`join`]).
pub fn join_path(base: &str, comp: &str) -> (r: String)
    ensures
        r@ == join(base@, comp@),
{
    let b = chars_of(base);
    let c = chars_of(comp);
    if c.len() > 0 && c[0] == '/' {
        return string_of(&c);
    }
    if b.len() > 0 && b[b.len() - 1] != '/' {
        let sep: [char; 1] = ['/'];
        let bs = concat_chars(&b, &sep);
        assert(bs@ =~= b@.push('/'));
        string_of(&concat_chars(&bs, &c))
    } else {
        string_of(&concat_chars(&b, &c))
    }
}

/// The directory workspaces are kept under: the configured one when it is
/// set (not blank) and writable; else the installation directory when
/// writable; else the data directory.
pub fn workspace_base(
    configured: &str,
    configured_writable: bool,
    static_dir: &str,
    static_writable: bool,
    data_dir: &str,
) -> (r: String)
    ensures
        r@ == if trim(configured@).len() > 0 && configured_writable {
            configured@
        } else if static_writable {
            static_dir@
        } else {
            data_dir@
        },
{
    if trim_chars(&chars_of(configured)).len() > 0 && configured_writable {
        configured.to_string()
    } else if static_writable {
        static_dir.to_string()
    } else {
        data_dir.to_string()
    }
}

/// `<data_dir>/workspaces`
pub fn workspaces_dir(data_dir: &str) -> (r: String)
    ensures
        r@ == join(data_dir@, "workspaces"@),
{
    join_path(data_dir, "workspaces")
}

/// `<data_dir>/workspaces/<id>`
pub fn workspace_dir(data_dir: &str, id: &str) -> (r: String)
    ensures
        r@ == join(join(data_dir@, "workspaces"@), id@),
{
    let w = workspaces_dir(data_dir);
    join_path(w.as_str(), id)
}

/// The boundary configuration read by the constraint extension:
/// `<real_dir>/.pi/workspace.json`.
pub fn boundary_config_file(real_dir: &str) -> (r: String)
    ensures
        r@ == join(join(real_dir@, ".pi"@), "workspace.json"@),
{
    let p = join_path(real_dir, ".pi");
    join_path(p.as_str(), "workspace.json")
}

/// The approval list of absolute paths: `<real_dir>/.pi/approvals.json`.
pub fn approvals_file(real_dir: &str) -> (r: String)
    ensures
        r@ == join(join(real_dir@, ".pi"@), "approvals.json"@),
{
    let p = join_path(real_dir, ".pi");
    join_path(p.as_str(), "approvals.json")
}

/// The database file: `<data_dir>/piter.db`.
pub fn db_path(data_dir: &str) -> (r: String)
    ensures
        r@ == join(data_dir@, "piter.db"@),
{
    join_path(data_dir, "piter.db")
}

/// The persisted migration queue: `<data_dir>/migration-queue.json`.
pub fn queue_path(data_dir: &str) -> (r: String)
    ensures
        r@ == join(data_dir@, "migration-queue.json"@),
{
    join_path(data_dir, "migration-queue.json")
}

/// Where pi extension packages put their executables:
/// `<home>/.pi/agent/npm/node_modules/.bin`.
pub fn pi_extension_npm_bin_dir(home: &str) -> (r: String)
    ensures
        r@ == join(join(join(join(join(home@, ".pi"@), "agent"@), "npm"@), "node_modules"@), ".bin"@),
{
    let p = join_path(home, ".pi");
    let p = join_path(p.as_str(), "agent");
    let p = join_path(p.as_str(), "npm");
    let p = join_path(p.as_str(), "node_modules");
    join_path(p.as_str(), ".bin")
}

/// Content type served for a static file with the given extension.
pub open spec fn mime_of(ext: Seq<char>) -> Seq<char> {
    if ext == "html"@ {
        "text/html; charset=utf-8"@
    } else if ext == "js"@ || ext == "mjs"@ {
        "application/javascript; charset=utf-8"@
    } else if ext == "css"@ {
        "text/css; charset=utf-8"@
    } else if ext == "json"@ {
        "application/json; charset=utf-8"@
    } else if ext == "map"@ {
        "application/json"@
    } else if ext == "svg"@ {
        "image/svg+xml"@
    } else if ext == "png"@ {
        "image/png"@
    } else if ext == "jpg"@ || ext == "jpeg"@ {
        "image/jpeg"@
    } else if ext == "gif"@ {
        "image/gif"@
    } else if ext == "webp"@ {
        "image/webp"@
    } else if ext == "ico"@ {
        "image/x-icon"@
    } else if ext == "wasm"@ {
        "application/wasm"@
    } else if ext == "woff"@ {
        "font/woff"@
    } else if ext == "woff2"@ {
        "font/woff2"@
    } else if ext == "ttf"@ {
        "font/ttf"@
    } else if ext == "otf"@ {
        "font/otf"@
    } else if ext == "md"@ {
        "text/markdown; charset=utf-8"@
    } else if ext == "txt"@ {
        "text/plain; charset=utf-8"@
    } else {
        "application/octet-stream"@
    }
}

/// The content type for a file extension (`""` when the file has none).
pub fn mime_for_extension(ext: &str) -> (r: String)
    ensures
        r@ == mime_of(ext@),
{
    let e = chars_of(ext);
    if same_chars(&e, &chars_of("html")) {
        "text/html; charset=utf-8".to_string()
    } else if same_chars(&e, &chars_of("js")) || same_chars(&e, &chars_of("mjs")) {
        "application/javascript; charset=utf-8".to_string()
    } else if same_chars(&e, &chars_of("css")) {
        "text/css; charset=utf-8".to_string()
    } else if same_chars(&e, &chars_of("json")) {
        "application/json; charset=utf-8".to_string()
    } else if same_chars(&e, &chars_of("map")) {
        "application/json".to_string()
    } else if same_chars(&e, &chars_of("svg")) {
        "image/svg+xml".to_string()
    } else if same_chars(&e, &chars_of("png")) {
        "image/png".to_string()
    } else if same_chars(&e, &chars_of("jpg")) || same_chars(&e, &chars_of("jpeg")) {
        "image/jpeg".to_string()
    } else if same_chars(&e, &chars_of("gif")) {
        "image/gif".to_string()
    } else if same_chars(&e, &chars_of("webp")) {
        "image/webp".to_string()
    } else if same_chars(&e, &chars_of("ico")) {
        "image/x-icon".to_string()
    } else if same_chars(&e, &chars_of("wasm")) {
        "application/wasm".to_string()
    } else if same_chars(&e, &chars_of("woff")) {
        "font/woff".to_string()
    } else if same_chars(&e, &chars_of("woff2")) {
        "font/woff2".to_string()
    } else if same_chars(&e, &chars_of("ttf")) {
        "font/ttf".to_string()
    } else if same_chars(&e, &chars_of("otf")) {
        "font/otf".to_string()
    } else if same_chars(&e, &chars_of("md")) {
        "text/markdown; charset=utf-8".to_string()
    } else if same_chars(&e, &chars_of("txt")) {
        "text/plain; charset=utf-8".to_string()
    } else {
        "application/octet-stream".to_string()
    }
}

} // verus!
