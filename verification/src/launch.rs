//! How a pi process is started and spoken to: its command line, its
//! working directory, and the framing of the lines exchanged with it.

use vstd::prelude::*;
use crate::paths::{strip_verbatim, strip_verbatim_prefix};
use crate::text::{chars_of, string_of, trim, trim_chars};

verus! {

/// The `-e <path>` flags of the extensions, in order.
pub open spec fn extension_flags(exts: Seq<Seq<char>>) -> Seq<Seq<char>>
    decreases exts.len(),
{
    if exts.len() == 0 {
        seq![]
    } else {
        extension_flags(exts.drop_last()) + seq!["-e"@, exts.last()]
    }
}

/// The command line of a pi process: RPC mode with only the listed
/// extensions; a session file to resume, or no session file at all for an
/// instance that is not kept; the extensions; the model.
pub open spec fn pi_args(
    session_path: Option<Seq<char>>,
    persistent: bool,
    exts: Seq<Seq<char>>,
    model: Option<Seq<char>>,
) -> Seq<Seq<char>> {
    seq!["--mode"@, "rpc"@, "--no-extensions"@] + match session_path {
        Some(s) => seq!["--session"@, s],
        None => if persistent {
            seq![]
        } else {
            seq!["--no-session"@]
        },
    } + extension_flags(exts) + match model {
        Some(m) => seq!["--model"@, m],
        None => seq![],
    }
}

/// The abstract values of a list of strings.
pub open spec fn texts(v: Seq<String>) -> Seq<Seq<char>> {
    v.map_values(|s: String| s@)
}

/// The command line of a pi process (see [`pi_args`]).
pub fn pi_cli_args(session_path: Option<&str>, persistent: bool, extensions: &[String], model: Option<&str>) -> (r: Vec<String>)
    ensures
        texts(r@) == pi_args(
            match session_path {
                Some(s) => Some(s@),
                None => None,
            },
            persistent,
            texts(extensions@),
            match model {
                Some(m) => Some(m@),
                None => None,
            },
        ),
{
    let mut args: Vec<String> = Vec::new();
    args.push("--mode".to_string());
    args.push("rpc".to_string());
    args.push("--no-extensions".to_string());
    let ghost head = texts(args@);
    assert(head =~= seq!["--mode"@, "rpc"@, "--no-extensions"@]);
    match session_path {
        Some(sp) => {
            args.push("--session".to_string());
            args.push(sp.to_string());
        },
        None => {
            if !persistent {
                args.push("--no-session".to_string());
            }
        },
    }
    let ghost with_session = texts(args@);
    assert(with_session =~= head + match session_path {
        Some(s) => seq!["--session"@, s@],
        None => if persistent {
            seq![]
        } else {
            seq!["--no-session"@]
        },
    });
    for k in 0..extensions.len()
        invariant
            texts(args@) == with_session + extension_flags(texts(extensions@.subrange(0, k as int))),
    {
        let ghost before = texts(args@);
        args.push("-e".to_string());
        args.push(extensions[k].clone());
        proof {
            let pre = texts(extensions@.subrange(0, k as int));
            let post = texts(extensions@.subrange(0, k + 1));
            assert(post.drop_last() =~= pre);
            assert(post.last() == extensions@[k as int]@);
            assert(texts(args@) =~= before + seq!["-e"@, extensions@[k as int]@]);
        }
    }
    assert(extensions@.subrange(0, extensions@.len() as int) =~= extensions@);
    let ghost with_exts = texts(args@);
    match model {
        Some(m) => {
            args.push("--model".to_string());
            args.push(m.to_string());
        },
        None => {},
    }
    assert(texts(args@) =~= with_exts + match model {
        Some(m) => seq!["--model"@, m@],
        None => seq![],
    });
    args
}

/// The directory a pi process runs in: the given one without a Windows
/// verbatim prefix, or `.` when none is given.
pub fn spawn_cwd(cwd: Option<&str>) -> (r: String)
    ensures
        r@ == match cwd {
            Some(c) => strip_verbatim(c@),
            None => "."@,
        },
{
    match cwd {
        Some(c) => strip_verbatim_prefix(c),
        None => ".".to_string(),
    }
}

/// A command as written to pi's stdin: terminated by a newline (one is
/// added only when missing).
pub fn stdin_line(cmd: &str) -> (r: String)
    ensures
        cmd@.len() > 0 && cmd@.last() == '\n' ==> r@ == cmd@,
        !(cmd@.len() > 0 && cmd@.last() == '\n') ==> r@ == cmd@.push('\n'),
{
    let mut c = chars_of(cmd);
    if c.len() > 0 && c[c.len() - 1] == '\n' {
        string_of(&c)
    } else {
        c.push('\n');
        string_of(&c)
    }
}

/// A line of pi's stdout worth reading: trimmed, and none when blank.
pub fn event_line(line: &str) -> (r: Option<String>)
    ensures
        match r {
            Some(t) => t@ == trim(line@) && t@.len() > 0,
            None => trim(line@).len() == 0,
        },
{
    let t = trim_chars(&chars_of(line));
    if t.len() == 0 {
        None
    } else {
        Some(string_of(&t))
    }
}

} // verus!

verus! {

/// The tool directories a pi process also gets on its `PATH`: the usual
/// system ones, and under the home directory pi's npm binaries, the
/// user's local, bun, cargo and mise directories, then the given nvm node
/// binary directories.
pub open spec fn extra_dirs(home: Option<Seq<char>>, nvm_bins: Seq<Seq<char>>) -> Seq<Seq<char>> {
    seq!["/opt/homebrew/bin"@, "/opt/homebrew/sbin"@, "/usr/local/bin"@, "/usr/local/sbin"@, "/usr/bin"@, "/bin"@]
        + match home {
        Some(h) => seq![
            crate::paths::join(
                crate::paths::join(
                    crate::paths::join(crate::paths::join(crate::paths::join(h, ".pi"@), "agent"@), "npm"@),
                    "node_modules"@,
                ),
                ".bin"@,
            ),
            crate::paths::join(h, ".local/bin"@),
            crate::paths::join(h, ".bun/bin"@),
            crate::paths::join(h, ".cargo/bin"@),
            crate::paths::join(h, ".local/share/mise/shims"@),
        ] + nvm_bins,
        None => seq![],
    }
}

/// `dirs` with each of `extras` appended unless already there.
pub open spec fn with_extras(dirs: Seq<Seq<char>>, extras: Seq<Seq<char>>) -> Seq<Seq<char>>
    decreases extras.len(),
{
    if extras.len() == 0 {
        dirs
    } else {
        let before = with_extras(dirs, extras.drop_last());
        if before.contains(extras.last()) {
            before
        } else {
            before.push(extras.last())
        }
    }
}

fn contains_text(v: &Vec<String>, s: &str) -> (r: bool)
    ensures
        r == texts(v@).contains(s@),
{
    let mut k: usize = 0;
    while k < v.len()
        invariant
            k <= v@.len(),
            forall|j: int| 0 <= j < k ==> (#[trigger] v@[j])@ != s@,
        decreases v@.len() - k,
    {
        if crate::text::same_text(v[k].as_str(), s) {
            assert(texts(v@)[k as int] == s@);
            return true;
        }
        k = k + 1;
    }
    assert forall|j: int| 0 <= j < texts(v@).len() implies texts(v@)[j] != s@ by {
        assert(texts(v@)[j] == v@[j]@);
    }
    false
}

/// The directories of a pi process's `PATH`: the current ones, then the
/// tool directories (see [`extra_dirs`]) not already among them.
pub fn augmented_path_dirs(path_dirs: &[String], home: Option<&str>, nvm_bins: &[String]) -> (r: Vec<String>)
    ensures
        texts(r@) == with_extras(
            texts(path_dirs@),
            extra_dirs(
                match home {
                    Some(h) => Some(h@),
                    None => None,
                },
                texts(nvm_bins@),
            ),
        ),
{
    let mut extras: Vec<String> = Vec::new();
    extras.push("/opt/homebrew/bin".to_string());
    extras.push("/opt/homebrew/sbin".to_string());
    extras.push("/usr/local/bin".to_string());
    extras.push("/usr/local/sbin".to_string());
    extras.push("/usr/bin".to_string());
    extras.push("/bin".to_string());
    let ghost system = texts(extras@);
    assert(system =~= seq!["/opt/homebrew/bin"@, "/opt/homebrew/sbin"@, "/usr/local/bin"@, "/usr/local/sbin"@, "/usr/bin"@, "/bin"@]);
    match home {
        Some(h) => {
            extras.push(crate::paths::pi_extension_npm_bin_dir(h));
            extras.push(crate::paths::join_path(h, ".local/bin"));
            extras.push(crate::paths::join_path(h, ".bun/bin"));
            extras.push(crate::paths::join_path(h, ".cargo/bin"));
            extras.push(crate::paths::join_path(h, ".local/share/mise/shims"));
            let ghost mid = texts(extras@);
            for k in 0..nvm_bins.len()
                invariant
                    texts(extras@) == mid + texts(nvm_bins@.subrange(0, k as int)),
            {
                let ghost before = texts(extras@);
                extras.push(nvm_bins[k].clone());
                assert(texts(nvm_bins@.subrange(0, k + 1)) =~= texts(nvm_bins@.subrange(0, k as int)).push(nvm_bins@[k as int]@));
                assert(texts(extras@) =~= before.push(nvm_bins@[k as int]@));
            }
            assert(nvm_bins@.subrange(0, nvm_bins@.len() as int) =~= nvm_bins@);
        },
        None => {},
    }
    assert(texts(extras@) =~= extra_dirs(
        match home {
            Some(h) => Some(h@),
            None => None,
        },
        texts(nvm_bins@),
    ));
    let ghost ex = texts(extras@);
    let mut dirs: Vec<String> = Vec::new();
    for k in 0..path_dirs.len()
        invariant
            texts(dirs@) == texts(path_dirs@.subrange(0, k as int)),
    {
        let ghost before = texts(dirs@);
        dirs.push(path_dirs[k].clone());
        assert(texts(path_dirs@.subrange(0, k + 1)) =~= texts(path_dirs@.subrange(0, k as int)).push(path_dirs@[k as int]@));
        assert(texts(dirs@) =~= before.push(path_dirs@[k as int]@));
    }
    assert(path_dirs@.subrange(0, path_dirs@.len() as int) =~= path_dirs@);
    let ghost base = texts(dirs@);
    for k in 0..extras.len()
        invariant
            ex == texts(extras@),
            texts(dirs@) == with_extras(base, ex.subrange(0, k as int)),
    {
        assert(ex.subrange(0, k + 1).drop_last() =~= ex.subrange(0, k as int));
        assert(ex.subrange(0, k + 1).last() == extras@[k as int]@);
        if !contains_text(&dirs, extras[k].as_str()) {
            let ghost before = texts(dirs@);
            dirs.push(extras[k].clone());
            assert(texts(dirs@) =~= before.push(extras@[k as int]@));
        }
    }
    assert(ex.subrange(0, ex.len() as int) =~= ex);
    dirs
}

/// A Windows drive on its own: a letter and a colon.
pub open spec fn is_bare_drive(b: Seq<char>) -> bool {
    b.len() == 2 && b[1] == ':' && (('a' <= b[0] && b[0] <= 'z') || ('A' <= b[0] && b[0] <= 'Z'))
}

/// `base` joined with the relative part `comp` as `PathBuf::push` does on
/// Windows: a `\` is inserted unless `base` is empty, ends with `\` or
/// `/`, or is a drive on its own.
pub open spec fn win_join(base: Seq<char>, comp: Seq<char>) -> Seq<char> {
    if base.len() > 0 && base.last() != '\\' && base.last() != '/' && !is_bare_drive(base) {
        base.push('\\') + comp
    } else {
        base + comp
    }
}

/// Joins a relative part to a path the Windows way (see [`win_join`]).
pub fn win_join_path(base: &str, comp: &str) -> (r: String)
    ensures
        r@ == win_join(base@, comp@),
{
    let b = chars_of(base);
    let c = chars_of(comp);
    let n = b.len();
    let drive = n == 2 && b[1] == ':' && (('a' <= b[0] && b[0] <= 'z') || ('A' <= b[0] && b[0] <= 'Z'));
    if n > 0 && b[n - 1] != '\\' && b[n - 1] != '/' && !drive {
        let sep: [char; 1] = ['\\'];
        let bs = crate::text::concat_chars(&b, &sep);
        assert(bs@ =~= b@.push('\\'));
        string_of(&crate::text::concat_chars(&bs, &c))
    } else {
        string_of(&crate::text::concat_chars(&b, &c))
    }
}

/// The tool directories a pi process also gets on its `PATH` on Windows:
/// npm's under `APPDATA`, and under the home directory pi's npm binaries
/// and the cargo, bun and scoop directories.
pub open spec fn windows_extra_dirs(appdata: Option<Seq<char>>, home: Option<Seq<char>>) -> Seq<Seq<char>> {
    (match appdata {
        Some(a) => seq![win_join(a, "npm"@)],
        None => seq![],
    }) + match home {
        Some(h) => seq![
            win_join(win_join(win_join(win_join(win_join(h, ".pi"@), "agent"@), "npm"@), "node_modules"@), ".bin"@),
            win_join(win_join(h, ".cargo"@), "bin"@),
            win_join(win_join(h, ".bun"@), "bin"@),
            win_join(win_join(h, "scoop"@), "shims"@),
        ],
        None => seq![],
    }
}

/// The directories of a pi process's `PATH` on Windows: the current ones,
/// then the tool directories (see [`windows_extra_dirs`]) not already
/// among them. `home` is `USERPROFILE`, else `HOME`.
pub fn augmented_path_dirs_windows(path_dirs: &[String], appdata: Option<&str>, home: Option<&str>) -> (r: Vec<String>)
    ensures
        texts(r@) == with_extras(
            texts(path_dirs@),
            windows_extra_dirs(
                match appdata {
                    Some(a) => Some(a@),
                    None => None,
                },
                match home {
                    Some(h) => Some(h@),
                    None => None,
                },
            ),
        ),
{
    let mut extras: Vec<String> = Vec::new();
    match appdata {
        Some(a) => {
            extras.push(win_join_path(a, "npm"));
        },
        None => {},
    }
    match home {
        Some(h) => {
            let pi = win_join_path(win_join_path(win_join_path(win_join_path(h, ".pi").as_str(), "agent").as_str(), "npm").as_str(), "node_modules");
            extras.push(win_join_path(pi.as_str(), ".bin"));
            extras.push(win_join_path(win_join_path(h, ".cargo").as_str(), "bin"));
            extras.push(win_join_path(win_join_path(h, ".bun").as_str(), "bin"));
            extras.push(win_join_path(win_join_path(h, "scoop").as_str(), "shims"));
        },
        None => {},
    }
    let ghost ex = texts(extras@);
    assert(ex =~= windows_extra_dirs(
        match appdata {
            Some(a) => Some(a@),
            None => None,
        },
        match home {
            Some(h) => Some(h@),
            None => None,
        },
    ));
    let mut dirs: Vec<String> = Vec::new();
    for k in 0..path_dirs.len()
        invariant
            texts(dirs@) == texts(path_dirs@.subrange(0, k as int)),
    {
        let ghost before = texts(dirs@);
        dirs.push(path_dirs[k].clone());
        assert(texts(path_dirs@.subrange(0, k + 1)) =~= texts(path_dirs@.subrange(0, k as int)).push(path_dirs@[k as int]@));
        assert(texts(dirs@) =~= before.push(path_dirs@[k as int]@));
    }
    assert(path_dirs@.subrange(0, path_dirs@.len() as int) =~= path_dirs@);
    let ghost base = texts(dirs@);
    for k in 0..extras.len()
        invariant
            ex == texts(extras@),
            texts(dirs@) == with_extras(base, ex.subrange(0, k as int)),
    {
        assert(ex.subrange(0, k + 1).drop_last() =~= ex.subrange(0, k as int));
        assert(ex.subrange(0, k + 1).last() == extras@[k as int]@);
        if !contains_text(&dirs, extras[k].as_str()) {
            let ghost before = texts(dirs@);
            dirs.push(extras[k].clone());
            assert(texts(dirs@) =~= before.push(extras@[k as int]@));
        }
    }
    assert(ex.subrange(0, ex.len() as int) =~= ex);
    dirs
}

} // verus!
