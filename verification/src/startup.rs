//! What the application decides when it starts: where its libraries are
//! searched, which log files go, and with which directories it begins.

use crate::directories::{build_directory_configs, default_configs};
use crate::models::DirectoryConfig;
use crate::paths::{join_path, path_join};
use crate::text::{
    chars_of, eq_ignore_ascii_case, equals_ignoring_ascii_case, find_char, find_char_in,
    has_prefix, opt_str, opt_text, starts_with, string_of,
};
use vstd::prelude::*;
use vstd::string::*;

verus! {

/// How old a log file may get before it is removed, in seconds: three days.
pub const LOG_RETENTION_SECS: u64 = 3 * 24 * 60 * 60;

/// Whether a log file of the given age is removed.
pub fn log_is_stale(age_secs: u64) -> (r: bool)
    ensures
        r == (age_secs > LOG_RETENTION_SECS),
{
    age_secs > LOG_RETENTION_SECS
}

/// The path list in which libraries are searched: the resource directory,
/// its `src` directory, then what the list held, when it held anything.
pub open spec fn search_path(
    resource_dir: Seq<char>,
    src_dir: Seq<char>,
    current: Seq<char>,
    separator: char,
) -> Seq<char> {
    if current.len() == 0 {
        resource_dir + seq![separator] + src_dir
    } else {
        resource_dir + seq![separator] + src_dir + seq![separator] + current
    }
}

/// Puts the resource directories in front of a path list.
pub fn library_search_path(resource_dir: &str, src_dir: &str, current: &str, windows: bool) -> (r:
    String)
    ensures
        r@ == search_path(resource_dir@, src_dir@, current@, if windows {
            ';'
        } else {
            ':'
        }),
{
    proof {
        reveal_strlit(";");
        reveal_strlit(":");
    }
    let sep = if windows {
        ";"
    } else {
        ":"
    };
    let mut out = resource_dir.to_owned();
    out.append(sep);
    out.append(src_dir);
    if current.unicode_len() > 0 {
        out.append(sep);
        out.append(current);
    }
    assert(out@ =~= search_path(resource_dir@, src_dir@, current@, if windows {
        ';'
    } else {
        ':'
    }));
    out
}

/// The loader paths that the application begins with.
pub open spec fn startup_paths() -> Seq<Seq<char>> {
    seq![
        "C:/Users/Public/Documents/Steam/RUNE"@,
        "C:/Users/Public/Documents/Steam/CODEX"@,
        "C:/ProgramData/Steam/RLD!"@,
        "C:/Users/Public/Documents/OnlineFix"@,
    ]
}

/// The drive `C:` of the Wine prefix of a user, given the home directory.
pub fn startup_drive_c(home: &str) -> (r: String)
    ensures
        r@ == path_join(home@, ".wine/drive_c"@),
{
    join_path(home, ".wine/drive_c")
}

/// The directories that the application begins with, before what the user
/// saved is merged in.
pub fn startup_directory_configs(windows: bool, drive_c: &str) -> (configs: Vec<DirectoryConfig>)
    ensures
        configs.deep_view() == default_configs(startup_paths(), windows, drive_c@),
{
    let mut paths: Vec<String> = Vec::new();
    paths.push("C:/Users/Public/Documents/Steam/RUNE".to_owned());
    paths.push("C:/Users/Public/Documents/Steam/CODEX".to_owned());
    paths.push("C:/ProgramData/Steam/RLD!".to_owned());
    paths.push("C:/Users/Public/Documents/OnlineFix".to_owned());
    assert(paths.deep_view() =~= startup_paths());
    build_directory_configs(paths.as_slice(), windows, drive_c)
}

/// The pieces of `s` between the separators, without the empty ones.
pub open spec fn filled_pieces(s: Seq<char>, sep: char) -> Seq<Seq<char>>
    decreases s.len(),
{
    let cut = find_char(s, sep) as int;
    let first = s.take(cut);
    let rest = if cut >= s.len() {
        Seq::<Seq<char>>::empty()
    } else {
        filled_pieces(s.skip(cut + 1), sep)
    };
    if first.len() > 0 {
        seq![first] + rest
    } else {
        rest
    }
}

/// Each directory with the file name adjoined.
pub open spec fn files_in(directories: Seq<Seq<char>>, file: Seq<char>) -> Seq<Seq<char>> {
    Seq::new(directories.len(), |i: int| path_join(directories[i], file))
}

/// Where the runtime library of the Steam client is looked for on Linux,
/// in order: beside the executable, in the directories of the library path
/// list, then in the usual places of the system.
pub open spec fn runtime_candidates(exe_dir: Option<Seq<char>>, ld_path: Option<Seq<char>>) -> Seq<
    Seq<char>,
> {
    let beside = match exe_dir {
        Some(dir) => seq![path_join(dir, "libsteam_api.so"@)],
        None => Seq::empty(),
    };
    let listed = match ld_path {
        Some(list) => files_in(filled_pieces(list, ':'), "libsteam_api.so"@),
        None => Seq::empty(),
    };
    beside + listed + seq![
        "/usr/lib/libsteam_api.so"@,
        "/usr/lib64/libsteam_api.so"@,
        "/usr/lib/x86_64-linux-gnu/libsteam_api.so"@,
        "/lib/x86_64-linux-gnu/libsteam_api.so"@,
        "/usr/local/lib/libsteam_api.so"@,
    ]
}

/// The pieces of a path list, without the empty ones.
pub fn split_path_list(list: &str, sep: char) -> (pieces: Vec<String>)
    ensures
        pieces.deep_view() == filled_pieces(list@, sep),
{
    let chars = chars_of(list);
    let n = chars.len();
    let mut pieces: Vec<String> = Vec::new();
    let mut pos: usize = 0;
    proof {
        assert(chars@.skip(0) == chars@);
    }
    loop
        invariant
            pos <= n == chars.len(),
            chars@ == list@,
            filled_pieces(chars@, sep) == pieces.deep_view() + filled_pieces(
                chars@.skip(pos as int),
                sep,
            ),
        decreases n - pos,
    {
        let cut = find_char_in(&chars, pos, n, sep);
        let ghost rest = chars@.skip(pos as int);
        let ghost before = pieces.deep_view();
        proof {
            assert(rest == chars@.subrange(pos as int, n as int));
            assert(rest.take(cut - pos) == chars@.subrange(pos as int, cut as int));
        }
        if cut > pos {
            let piece = string_of(&chars, pos, cut);
            pieces.push(piece);
            assert(pieces.deep_view() == before.push(piece@));
        }
        if cut >= n {
            proof {
                assert(pieces.deep_view() + Seq::<Seq<char>>::empty() == pieces.deep_view());
            }
            return pieces;
        }
        proof {
            assert(rest.skip(cut - pos + 1) == chars@.skip(cut + 1));
            let tail = filled_pieces(chars@.skip(cut + 1), sep);
            if cut > pos {
                assert(before + (seq![rest.take(cut - pos)] + tail) =~= before.push(
                    rest.take(cut - pos),
                ) + tail);
            }
        }
        pos = cut + 1;
    }
}

/// The places where the runtime library of the Steam client is looked for
/// on Linux.
pub fn linux_runtime_library_candidates(exe_dir: Option<&str>, ld_path: Option<&str>) -> (r: Vec<
    String,
>)
    ensures
        r.deep_view() == runtime_candidates(opt_str(exe_dir), opt_str(ld_path)),
{
    let mut out: Vec<String> = Vec::new();
    match exe_dir {
        Some(dir) => {
            out.push(join_path(dir, "libsteam_api.so"));
        },
        None => {},
    }
    let ghost beside = out.deep_view();
    proof {
        assert(beside =~= match opt_str(exe_dir) {
            Some(dir) => seq![path_join(dir, "libsteam_api.so"@)],
            None => Seq::empty(),
        });
    }
    let ghost mut listed: Seq<Seq<char>> = Seq::empty();
    match ld_path {
        Some(list) => {
            let dirs = split_path_list(list, ':');
            let ghost want = files_in(dirs.deep_view(), "libsteam_api.so"@);
            let mut i: usize = 0;
            while i < dirs.len()
                invariant
                    i <= dirs.len(),
                    want == files_in(dirs.deep_view(), "libsteam_api.so"@),
                    out.deep_view() == beside + want.take(i as int),
                decreases dirs.len() - i,
            {
                let ghost sofar = out.deep_view();
                let file = join_path(dirs[i].as_str(), "libsteam_api.so");
                out.push(file);
                proof {
                    assert(file@ == want[i as int]);
                    assert(out.deep_view() =~= sofar.push(file@));
                    assert(beside + want.take(i + 1) =~= (beside + want.take(i as int)).push(
                        want[i as int],
                    ));
                }
                i += 1;
            }
            proof {
                assert(want.take(i as int) == want);
                listed = want;
            }
        },
        None => {
            proof {
                assert(beside + listed =~= beside);
            }
        },
    }
    let ghost sofar = out.deep_view();
    out.push("/usr/lib/libsteam_api.so".to_owned());
    out.push("/usr/lib64/libsteam_api.so".to_owned());
    out.push("/usr/lib/x86_64-linux-gnu/libsteam_api.so".to_owned());
    out.push("/lib/x86_64-linux-gnu/libsteam_api.so".to_owned());
    out.push("/usr/local/lib/libsteam_api.so".to_owned());
    assert(out.deep_view() =~= sofar + seq![
        "/usr/lib/libsteam_api.so"@,
        "/usr/lib64/libsteam_api.so"@,
        "/usr/lib/x86_64-linux-gnu/libsteam_api.so"@,
        "/lib/x86_64-linux-gnu/libsteam_api.so"@,
        "/usr/local/lib/libsteam_api.so"@,
    ]);
    out
}

/// Where the runtime library of the Steam client is looked for on Windows:
/// beside the executable, under its current and under its former name.
pub fn windows_runtime_library_candidates(exe_dir: &str) -> (r: Vec<String>)
    ensures
        r.deep_view() == seq![
            path_join(exe_dir@, "steam_api64.dll"@),
            path_join(exe_dir@, "steam_api64_windows_x64.dll"@),
        ],
{
    let mut out: Vec<String> = Vec::new();
    out.push(join_path(exe_dir, "steam_api64.dll"));
    out.push(join_path(exe_dir, "steam_api64_windows_x64.dll"));
    assert(out.deep_view() =~= seq![
        path_join(exe_dir@, "steam_api64.dll"@),
        path_join(exe_dir@, "steam_api64_windows_x64.dll"@),
    ]);
    out
}

/// Whether one of the pieces of a path list is the directory, in any case
/// of ASCII letters.
pub open spec fn lists_directory(list: Seq<char>, sep: char, dir: Seq<char>) -> bool
    decreases list.len(),
{
    let cut = find_char(list, sep) as int;
    eq_ignore_ascii_case(list.take(cut), dir) || (cut < list.len() && lists_directory(
        list.skip(cut + 1),
        sep,
        dir,
    ))
}

/// Whether a path list names the directory.
pub fn path_list_names(list: &str, sep: char, dir: &str) -> (r: bool)
    ensures
        r == lists_directory(list@, sep, dir@),
{
    let chars = chars_of(list);
    let n = chars.len();
    let mut pos: usize = 0;
    proof {
        assert(chars@.skip(0) == chars@);
    }
    loop
        invariant
            pos <= n == chars.len(),
            chars@ == list@,
            lists_directory(chars@, sep, dir@) == lists_directory(chars@.skip(pos as int), sep, dir@),
        decreases n - pos,
    {
        let cut = find_char_in(&chars, pos, n, sep);
        let ghost rest = chars@.skip(pos as int);
        proof {
            assert(rest == chars@.subrange(pos as int, n as int));
            assert(rest.take(cut - pos) == chars@.subrange(pos as int, cut as int));
        }
        let piece = string_of(&chars, pos, cut);
        if equals_ignoring_ascii_case(piece.as_str(), dir) {
            return true;
        }
        if cut >= n {
            return false;
        }
        proof {
            assert(rest.skip(cut - pos + 1) == chars@.skip(cut + 1));
        }
        pos = cut + 1;
    }
}

/// The Windows path list with a directory put in front, unless the list
/// names the directory already: then there is nothing to change.
pub fn windows_path_with(path_var: &str, dir: &str) -> (r: Option<String>)
    ensures
        opt_text(r) == if lists_directory(path_var@, ';', dir@) {
            None
        } else {
            Some(dir@ + seq![';'] + path_var@)
        },
{
    if path_list_names(path_var, ';', dir) {
        return None;
    }
    proof {
        reveal_strlit(";");
    }
    let mut out = dir.to_owned();
    out.append(";");
    out.append(path_var);
    assert(out@ =~= dir@ + seq![';'] + path_var@);
    Some(out)
}

/// Whether the Steam integration can be used, and if not, why. On Windows
/// it needs the runtime library as well as a session; elsewhere a session
/// is enough.
pub open spec fn availability_reason(
    windows: bool,
    has_runtime_library: bool,
    initialized: bool,
    init_error: Option<Seq<char>>,
) -> Option<Seq<char>> {
    let available = if windows {
        has_runtime_library && initialized
    } else {
        initialized
    };
    if available {
        None
    } else if windows && !has_runtime_library {
        Some("Steam runtime library not found in install folder or configured path"@)
    } else if !initialized {
        Some(
            match init_error {
                Some(e) => e,
                None => "Steamworks initialization failed (Steam client may not be running)"@,
            },
        )
    } else {
        Some("Steam integration unavailable"@)
    }
}

/// Why the Steam integration cannot be used; `None` when it can.
pub fn steam_unavailable_reason(
    windows: bool,
    has_runtime_library: bool,
    initialized: bool,
    init_error: Option<String>,
) -> (r: Option<String>)
    ensures
        opt_text(r) == availability_reason(
            windows,
            has_runtime_library,
            initialized,
            opt_text(init_error),
        ),
{
    let available = if windows {
        has_runtime_library && initialized
    } else {
        initialized
    };
    if available {
        None
    } else if windows && !has_runtime_library {
        Some("Steam runtime library not found in install folder or configured path".to_owned())
    } else if !initialized {
        Some(
            match init_error {
                Some(e) => e,
                None => "Steamworks initialization failed (Steam client may not be running)".to_owned(),
            },
        )
    } else {
        Some("Steam integration unavailable".to_owned())
    }
}

/// Whether a selected path stands for the Steam client itself rather than
/// for a directory.
pub fn is_steam_path(path: &str) -> (r: bool)
    ensures
        r == starts_with(path@, "steam://"@),
{
    let chars = chars_of(path);
    has_prefix(&chars, "steam://")
}

} // verus!
