//! Names derived from other names: pi's session directory name for a
//! project path (and back), and the `--model` argument of a model.

use vstd::prelude::*;
use crate::rpc::opt_view;
use crate::text::{chars_of, concat_chars, replace_char, replace_chars, slice_chars, string_of};

verus! {

/// Two dashes, which frame an encoded directory name.
pub open spec fn dashes() -> Seq<char> {
    seq!['-', '-']
}

/// The project path of a session directory name: the framing dashes are
/// dropped and every dash becomes a path separator under `/`.
pub open spec fn decoded_name(e: Seq<char>) -> Seq<char> {
    let t = if e.len() >= 4 && e.subrange(0, 2) == dashes() && e.subrange(e.len() - 2, e.len() as int) == dashes() {
        e.subrange(2, e.len() - 2)
    } else {
        e
    };
    seq!['/'] + replace_char(t, '-', '/')
}

/// The session directory name of a project path: without its leading `/`,
/// separators become dashes, framed by two dashes on each side.
pub open spec fn encoded_name(p: Seq<char>) -> Seq<char> {
    let stripped = if p.len() > 0 && p[0] == '/' { p.drop_first() } else { p };
    dashes() + replace_char(stripped, '/', '-') + dashes()
}

/// The project path a session directory name stands for.
pub fn decode_project_name(encoded: &str) -> (r: String)
    ensures
        r@ == decoded_name(encoded@),
{
    let e = chars_of(encoded);
    let n = e.len();
    let framed = n >= 4 && e[0] == '-' && e[1] == '-' && e[n - 2] == '-' && e[n - 1] == '-';
    proof {
        if n >= 4 {
            assert(framed == (e@.subrange(0, 2) == dashes() && e@.subrange(n - 2, n as int) == dashes())) by {
                if e@.subrange(0, 2) == dashes() {
                    assert(e@.subrange(0, 2)[0] == e@[0] && e@.subrange(0, 2)[1] == e@[1]);
                }
                if e@.subrange(n - 2, n as int) == dashes() {
                    assert(e@.subrange(n - 2, n as int)[0] == e@[n - 2]);
                    assert(e@.subrange(n - 2, n as int)[1] == e@[n - 1]);
                }
                if framed {
                    assert(e@.subrange(0, 2) =~= dashes());
                    assert(e@.subrange(n - 2, n as int) =~= dashes());
                }
            }
        }
    }
    let t = if framed {
        slice_chars(&e, 2, n - 2)
    } else {
        e
    };
    let body = replace_chars(&t, '-', '/');
    let slash: [char; 1] = ['/'];
    let r = concat_chars(&slash, &body);
    assert(slash@ =~= seq!['/']);
    string_of(&r)
}

/// The session directory name of a project path.
pub fn encode_project_name(path: &str) -> (r: String)
    ensures
        r@ == encoded_name(path@),
{
    let p = chars_of(path);
    let stripped = if p.len() > 0 && p[0] == '/' {
        let s = slice_chars(&p, 1, p.len());
        assert(s@ =~= p@.drop_first());
        s
    } else {
        p
    };
    let body = replace_chars(&stripped, '/', '-');
    let d: [char; 2] = ['-', '-'];
    assert(d@ =~= dashes());
    let r = concat_chars(&concat_chars(&d, &body), &d);
    string_of(&r)
}

/// An absolute path without dashes comes back from its directory name.
pub proof fn lemma_project_name_round_trip(p: Seq<char>)
    requires
        p.len() > 0,
        p[0] == '/',
        !p.contains('-'),
    ensures
        decoded_name(encoded_name(p)) == p,
{
    let body = replace_char(p.drop_first(), '/', '-');
    let e = encoded_name(p);
    assert(e == dashes() + body + dashes());
    assert(e.subrange(0, 2) =~= dashes());
    assert(e.subrange(e.len() - 2, e.len() as int) =~= dashes());
    assert(e.subrange(2, e.len() - 2) =~= body);
    assert forall|k: int| 0 <= k < p.len() - 1 implies #[trigger] p.drop_first()[k] != '-' by {
        assert(p.drop_first()[k] == p[k + 1]);
    }
    assert(replace_char(body, '-', '/') =~= p.drop_first());
    assert(seq!['/'] + p.drop_first() =~= p);
}

/// A directory name without the two dashes that frame it on each side
/// (unchanged when it is not framed).
pub open spec fn unframed(e: Seq<char>) -> Seq<char> {
    if e.len() >= 4 && e.subrange(0, 2) == dashes() && e.subrange(e.len() - 2, e.len() as int) == dashes() {
        e.subrange(2, e.len() - 2)
    } else {
        e
    }
}

/// The first position from `i` on where two dashes follow each other, or
/// -1 when there is none.
pub open spec fn first_dashes_from(s: Seq<char>, i: int) -> int
    decreases s.len() - i,
{
    if i < 0 || i + 1 >= s.len() {
        -1
    } else if s[i] == '-' && s[i + 1] == '-' {
        i
    } else {
        first_dashes_from(s, i + 1)
    }
}

/// The project path of a session directory name on Windows or elsewhere.
/// On Windows the first double dash stands for the drive separator `:\`
/// and every other dash for `\`; elsewhere see [`decoded_name`].
pub open spec fn decoded_name_on(e: Seq<char>, windows: bool) -> Seq<char> {
    if !windows {
        decoded_name(e)
    } else {
        let t = unframed(e);
        let pos = first_dashes_from(t, 0);
        if pos >= 0 {
            t.take(pos) + seq![':', '\\'] + replace_char(t.skip(pos + 2), '-', '\\')
        } else {
            replace_char(t, '-', '\\')
        }
    }
}

/// A path with every drive separator `:\` (read left to right) turned
/// into two dashes.
pub open spec fn drive_seps_dashed(p: Seq<char>) -> Seq<char>
    decreases p.len(),
{
    if p.len() == 0 {
        seq![]
    } else if p.len() >= 2 && p[0] == ':' && p[1] == '\\' {
        dashes() + drive_seps_dashed(p.skip(2))
    } else {
        seq![p[0]] + drive_seps_dashed(p.drop_first())
    }
}

/// The session directory name of a project path on Windows or elsewhere.
/// On Windows the drive separator `:\` becomes two dashes and every other
/// `\` one, framed by two dashes on each side; elsewhere see
/// [`encoded_name`].
pub open spec fn encoded_name_on(p: Seq<char>, windows: bool) -> Seq<char> {
    if !windows {
        encoded_name(p)
    } else {
        dashes() + replace_char(drive_seps_dashed(p), '\\', '-') + dashes()
    }
}

/// The project path a session directory name stands for, on Windows when
/// `windows` holds (see [`decoded_name_on`]).
pub fn decode_project_name_with(encoded: &str, windows: bool) -> (r: String)
    ensures
        r@ == decoded_name_on(encoded@, windows),
{
    if !windows {
        return decode_project_name(encoded);
    }
    let e = chars_of(encoded);
    let n = e.len();
    let framed = n >= 4 && e[0] == '-' && e[1] == '-' && e[n - 2] == '-' && e[n - 1] == '-';
    proof {
        if n >= 4 {
            if e@.subrange(0, 2) == dashes() {
                assert(e@.subrange(0, 2)[0] == e@[0] && e@.subrange(0, 2)[1] == e@[1]);
            }
            if e@.subrange(n - 2, n as int) == dashes() {
                assert(e@.subrange(n - 2, n as int)[0] == e@[n - 2]);
                assert(e@.subrange(n - 2, n as int)[1] == e@[n - 1]);
            }
            if framed {
                assert(e@.subrange(0, 2) =~= dashes());
                assert(e@.subrange(n - 2, n as int) =~= dashes());
            }
        }
    }
    let t = if framed {
        slice_chars(&e, 2, n - 2)
    } else {
        e
    };
    assert(t@ == unframed(encoded@));
    let m = t.len();
    let mut i: usize = 0;
    while i < m && i + 1 < m && !(t[i] == '-' && t[i + 1] == '-')
        invariant
            m == t@.len(),
            i <= m,
            first_dashes_from(t@, 0) == first_dashes_from(t@, i as int),
        decreases m - i,
    {
        i = i + 1;
    }
    if i < m && i + 1 < m {
        let drive = slice_chars(&t, 0, i);
        let rest = slice_chars(&t, i + 2, m);
        let body = replace_chars(&rest, '-', '\\');
        let sep: [char; 2] = [':', '\\'];
        assert(sep@ =~= seq![':', '\\']);
        let r = concat_chars(&concat_chars(&drive, &sep), &body);
        assert(drive@ =~= t@.take(i as int));
        assert(rest@ =~= t@.skip(i + 2));
        string_of(&r)
    } else {
        string_of(&replace_chars(&t, '-', '\\'))
    }
}

/// The session directory name of a project path, on Windows when `windows`
/// holds (see [`encoded_name_on`]).
pub fn encode_project_name_with(path: &str, windows: bool) -> (r: String)
    ensures
        r@ == encoded_name_on(path@, windows),
{
    if !windows {
        return encode_project_name(path);
    }
    let p = chars_of(path);
    let n = p.len();
    let mut out: Vec<char> = Vec::new();
    let mut i: usize = 0;
    assert(p@.skip(0) =~= p@);
    assert(out@ + drive_seps_dashed(p@) =~= drive_seps_dashed(p@));
    while i < n
        invariant
            n == p@.len(),
            i <= n,
            drive_seps_dashed(p@) == out@ + drive_seps_dashed(p@.skip(i as int)),
        decreases n - i,
    {
        let ghost rest = p@.skip(i as int);
        if i + 1 < n && p[i] == ':' && p[i + 1] == '\\' {
            out.push('-');
            out.push('-');
            assert(rest.skip(2) =~= p@.skip(i + 2));
            i = i + 2;
        } else {
            out.push(p[i]);
            assert(rest.drop_first() =~= p@.skip(i + 1));
            i = i + 1;
        }
        assert(drive_seps_dashed(p@) =~= out@ + drive_seps_dashed(p@.skip(i as int)));
    }
    assert(drive_seps_dashed(p@.skip(n as int)) =~= seq![]);
    assert(out@ =~= drive_seps_dashed(p@));
    let body = replace_chars(&out, '\\', '-');
    let d: [char; 2] = ['-', '-'];
    assert(d@ =~= dashes());
    let r = concat_chars(&concat_chars(&d, &body), &d);
    string_of(&r)
}

/// The `--model` argument for a model: `provider/id`, or the id alone
/// when no provider is known; none without an id.
pub fn format_model_arg(model_id: &Option<String>, model_provider: &Option<String>) -> (r: Option<String>)
    ensures
        opt_view(r) == match (opt_view(*model_id), opt_view(*model_provider)) {
            (Some(id), Some(provider)) => Some(provider + seq!['/'] + id),
            (Some(id), None) => Some(id),
            _ => None,
        },
{
    match (model_id, model_provider) {
        (Some(id), Some(provider)) => {
            let slash: [char; 1] = ['/'];
            assert(slash@ =~= seq!['/']);
            let r = concat_chars(&concat_chars(&chars_of(provider.as_str()), &slash), &chars_of(id.as_str()));
            Some(string_of(&r))
        },
        (Some(id), None) => Some(id.clone()),
        _ => None,
    }
}

} // verus!
