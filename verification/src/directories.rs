//! The list of monitored directories: the defaults of a platform, the
//! merging of what the user saved, and the change to another Wine prefix.

use crate::models::{DirectoryConfig, DirectoryModel};
use crate::monitor::{first_index, lemma_first_index_is, with_path};
use crate::paths::{file_name_of, join_path, path_file_name, path_join};
use crate::text::{
    after_last, after_last_start, chars_of, contains_text, occurs_at, eq_ignore_ascii_case,
    equals_ignoring_ascii_case, find_text, first_occurrence, has_prefix,
    lemma_first_occurrence_is, opt_str, starts_with, string_of, text_equals, trim, trimmed,
};
use vstd::prelude::*;
use vstd::string::*;

verus! {

/// The user whose save directory is monitored: the first of the candidates
/// other than `steamuser`, in any case of letters, and `steamuser` when
/// there is no such candidate.
pub open spec fn gse_user(candidates: Seq<Seq<char>>) -> Seq<char>
    decreases candidates.len(),
{
    if candidates.len() == 0 {
        "steamuser"@
    } else if !eq_ignore_ascii_case(candidates[0], "steamuser"@) {
        candidates[0]
    } else {
        gse_user(candidates.skip(1))
    }
}

/// The directories that loaders write to, as the loaders name them.
pub open spec fn default_paths(user: Seq<char>) -> Seq<Seq<char>> {
    seq![
        "C:/Users/Public/Documents/Steam/RUNE"@,
        "C:/Users/Public/Documents/Steam/CODEX"@,
        "C:/ProgramData/Steam/RLD!"@,
        "C:/Users/Public/Documents/OnlineFix"@,
        "C:/users/"@ + user + "/AppData/Roaming/GSE Saves"@,
    ]
}

/// What follows the drive in a path that begins with `C:/`.
pub open spec fn without_drive(p: Seq<char>) -> Seq<char> {
    if starts_with(p, "C:/"@) {
        p.skip(3)
    } else {
        p
    }
}

/// The default directory for a loader path. Its name is what follows the
/// last `/`. On Windows its path is the loader path itself; elsewhere the
/// path lies under the drive `C:` of the Wine prefix.
pub open spec fn default_config(p: Seq<char>, windows: bool, drive_c: Seq<char>) -> DirectoryModel {
    DirectoryModel {
        path: if windows {
            p
        } else {
            path_join(drive_c, without_drive(p))
        },
        name: after_last(p, '/'),
        enabled: true,
        is_default: true,
    }
}

/// The default directories for a list of loader paths.
pub open spec fn default_configs(paths: Seq<Seq<char>>, windows: bool, drive_c: Seq<char>) -> Seq<
    DirectoryModel,
> {
    Seq::new(paths.len(), |i: int| default_config(paths[i], windows, drive_c))
}

/// The Wine prefix to use: the given one, trimmed, unless it is missing or
/// blank; then `~/.wine`.
pub open spec fn chosen_prefix(prefix: Option<Seq<char>>) -> Seq<char> {
    match prefix {
        Some(p) => if trim(p).len() > 0 {
            trim(p)
        } else {
            "~/.wine"@
        },
        None => "~/.wine"@,
    }
}

/// The drive `C:` of an expanded Wine prefix: the prefix itself when its
/// final component is `drive_c`, else `drive_c` under it.
pub open spec fn drive_c_of(expanded_prefix: Seq<char>) -> Seq<char> {
    if path_file_name(expanded_prefix) == Some("drive_c"@) {
        expanded_prefix
    } else {
        path_join(expanded_prefix, "drive_c"@)
    }
}

/// A saved path that points into a Wine prefix, brought back to its Windows
/// form: what follows the first `drive_c/`, on drive `C:`.
pub open spec fn legacy_wine_fix(path: Seq<char>) -> Seq<char> {
    if contains_text(path, ".wine/drive_c"@) && contains_text(path, "drive_c/"@) {
        "C:/"@ + path.skip(first_occurrence(path, "drive_c/"@) + 8)
    } else {
        path
    }
}

/// The list after one saved directory was merged in. A directory that is
/// listed under the saved path takes over the saved `enabled`. Otherwise a
/// directory that the user added is put at the end, and a saved default is
/// dropped.
pub open spec fn merge_one(configs: Seq<DirectoryModel>, saved: DirectoryModel) -> Seq<
    DirectoryModel,
> {
    let i = first_index(configs, with_path(saved.path)) as int;
    if i < configs.len() {
        configs.update(i, DirectoryModel { enabled: saved.enabled, ..configs[i] })
    } else if !saved.is_default {
        configs.push(saved)
    } else {
        configs
    }
}

/// A saved directory as it is merged: on Windows with its path fixed.
pub open spec fn as_merged(saved: DirectoryModel, windows: bool) -> DirectoryModel {
    if windows {
        DirectoryModel { path: legacy_wine_fix(saved.path), ..saved }
    } else {
        saved
    }
}

/// The list after the saved directories were merged in, in order.
pub open spec fn merge_saved(
    configs: Seq<DirectoryModel>,
    saved: Seq<DirectoryModel>,
    windows: bool,
) -> Seq<DirectoryModel>
    decreases saved.len(),
{
    if saved.len() == 0 {
        configs
    } else {
        merge_one(
            merge_saved(configs, saved.drop_last(), windows),
            as_merged(saved.last(), windows),
        )
    }
}

/// Whether the last default directory named `name` is enabled, if there is
/// a default directory of that name.
pub open spec fn default_enabled(current: Seq<DirectoryModel>, name: Seq<char>) -> Option<bool>
    decreases current.len(),
{
    if current.len() == 0 {
        None
    } else if current.last().is_default && current.last().name == name {
        Some(current.last().enabled)
    } else {
        default_enabled(current.drop_last(), name)
    }
}

/// The directories that the user added, in order.
pub open spec fn customs(current: Seq<DirectoryModel>) -> Seq<DirectoryModel>
    decreases current.len(),
{
    if current.len() == 0 {
        Seq::empty()
    } else {
        let before = customs(current.drop_last());
        if current.last().is_default {
            before
        } else {
            before.push(current.last())
        }
    }
}

/// A new default directory with the `enabled` of the current default
/// directory of the same name, if there is one.
pub open spec fn carried_over(current: Seq<DirectoryModel>, d: DirectoryModel) -> DirectoryModel {
    match default_enabled(current, d.name) {
        Some(enabled) => DirectoryModel { enabled, ..d },
        None => d,
    }
}

/// The list after a change of the defaults: the new defaults, each enabled
/// as the current default of its name was, then the directories that the
/// user added.
pub open spec fn rebased(current: Seq<DirectoryModel>, defaults: Seq<DirectoryModel>) -> Seq<
    DirectoryModel,
> {
    Seq::new(defaults.len(), |i: int| carried_over(current, defaults[i])) + customs(current)
}

/// Why a Wine prefix cannot be set.
#[derive(Debug, Clone, Copy, PartialEq, Eq, Structural)]
pub enum DirectoryError {
    /// A Wine prefix has a meaning on Linux only.
    NotLinux,
    /// The prefix is empty or blank.
    EmptyPrefix,
}

/// Picks the user whose save directory is monitored. `candidates` are the
/// users that have such a directory, in the order in which they were found.
pub fn resolve_gse_user(candidates: &[String]) -> (user: String)
    ensures
        user@ == gse_user(candidates.deep_view()),
{
    let ghost all = candidates.deep_view();
    let mut i: usize = 0;
    proof {
        assert(all.skip(0) == all);
    }
    while i < candidates.len()
        invariant
            i <= candidates.len(),
            all == candidates.deep_view(),
            gse_user(all) == gse_user(all.skip(i as int)),
        decreases candidates.len() - i,
    {
        proof {
            assert(all.skip(i as int)[0] == candidates[i as int]@);
            assert(all.skip(i as int).skip(1) == all.skip(i + 1));
        }
        if !equals_ignoring_ascii_case(candidates[i].as_str(), "steamuser") {
            return candidates[i].clone();
        }
        i += 1;
    }
    "steamuser".to_owned()
}

/// The loader paths, with the save directory of `user`.
pub fn default_directory_paths(user: &str) -> (paths: Vec<String>)
    ensures
        paths.deep_view() == default_paths(user@),
{
    let mut gse = "C:/users/".to_owned();
    gse.append(user);
    gse.append("/AppData/Roaming/GSE Saves");
    let mut paths: Vec<String> = Vec::new();
    paths.push("C:/Users/Public/Documents/Steam/RUNE".to_owned());
    paths.push("C:/Users/Public/Documents/Steam/CODEX".to_owned());
    paths.push("C:/ProgramData/Steam/RLD!".to_owned());
    paths.push("C:/Users/Public/Documents/OnlineFix".to_owned());
    paths.push(gse);
    assert(paths.deep_view() =~= default_paths(user@));
    paths
}

/// The default directory for one loader path.
pub fn default_directory(p: &str, windows: bool, drive_c: &str) -> (config: DirectoryConfig)
    ensures
        config@ == default_config(p@, windows, drive_c@),
{
    let chars = chars_of(p);
    let from = after_last_start(&chars, '/');
    let name = string_of(&chars, from, chars.len());
    assert(chars@.subrange(from as int, chars.len() as int) == after_last(p@, '/'));
    let path = if windows {
        p.to_owned()
    } else if has_prefix(&chars, "C:/") {
        proof {
            reveal_strlit("C:/");
        }
        let rest = string_of(&chars, 3, chars.len());
        assert(chars@.subrange(3, chars.len() as int) == p@.skip(3));
        join_path(drive_c, rest.as_str())
    } else {
        join_path(drive_c, p)
    };
    DirectoryConfig { path, name, enabled: true, is_default: true }
}

/// The default directories for the loader paths `paths`.
pub fn build_directory_configs(paths: &[String], windows: bool, drive_c: &str) -> (configs: Vec<
    DirectoryConfig,
>)
    ensures
        configs.deep_view() == default_configs(paths.deep_view(), windows, drive_c@),
{
    let mut configs: Vec<DirectoryConfig> = Vec::new();
    let mut i: usize = 0;
    while i < paths.len()
        invariant
            i <= paths.len(),
            configs.len() == i,
            forall|k: int|
                0 <= k < i ==> (#[trigger] configs[k])@ == default_config(
                    paths[k]@,
                    windows,
                    drive_c@,
                ),
        decreases paths.len() - i,
    {
        configs.push(default_directory(paths[i].as_str(), windows, drive_c));
        i += 1;
    }
    assert(configs.deep_view() =~= default_configs(paths.deep_view(), windows, drive_c@));
    configs
}

/// The default directories of a platform: on Windows where the loaders put
/// them, elsewhere under the drive `C:` of a Wine prefix. `user` is the user
/// whose save directory is monitored.
pub fn build_default_directory_configs(windows: bool, drive_c: &str, user: &str) -> (configs: Vec<
    DirectoryConfig,
>)
    ensures
        configs.deep_view() == default_configs(default_paths(user@), windows, drive_c@),
{
    let paths = default_directory_paths(user);
    build_directory_configs(paths.as_slice(), windows, drive_c)
}

/// The Wine prefix to use, before expansion.
pub fn wine_prefix_or_default(prefix: Option<&str>) -> (r: String)
    ensures
        r@ == chosen_prefix(opt_str(prefix)),
{
    match prefix {
        Some(p) => {
            let t = trimmed(p);
            if t.as_str().unicode_len() > 0 {
                t
            } else {
                "~/.wine".to_owned()
            }
        },
        None => "~/.wine".to_owned(),
    }
}

/// The drive `C:` of an expanded Wine prefix.
pub fn wine_drive_c(expanded_prefix: &str) -> (r: String)
    ensures
        r@ == drive_c_of(expanded_prefix@),
{
    let is_drive = match file_name_of(expanded_prefix) {
        Some(name) => text_equals(name.as_str(), "drive_c"),
        None => false,
    };
    if is_drive {
        expanded_prefix.to_owned()
    } else {
        join_path(expanded_prefix, "drive_c")
    }
}

/// Checks a Wine prefix that the user entered, and trims it.
pub fn checked_wine_prefix(path: &str, linux: bool) -> (r: Result<String, DirectoryError>)
    ensures
        match r {
            Ok(p) => linux && p@ == trim(path@) && p@.len() > 0,
            Err(DirectoryError::NotLinux) => !linux,
            Err(DirectoryError::EmptyPrefix) => linux && trim(path@).len() == 0,
        },
{
    if !linux {
        return Err(DirectoryError::NotLinux);
    }
    let t = trimmed(path);
    if t.as_str().unicode_len() == 0 {
        return Err(DirectoryError::EmptyPrefix);
    }
    Ok(t)
}

/// A saved path that points into a Wine prefix, in its Windows form.
pub fn fix_legacy_wine_path(path: &str) -> (r: String)
    ensures
        r@ == legacy_wine_fix(path@),
{
    let chars = chars_of(path);
    let marker = chars_of(".wine/drive_c");
    let needle = chars_of("drive_c/");
    proof {
        reveal_strlit("drive_c/");
    }
    if find_text(&chars, &marker).is_some() {
        match find_text(&chars, &needle) {
            Some(at) => {
                proof {
                    lemma_first_occurrence_is(path@, "drive_c/"@, at as int);
                    assert(needle@ == "drive_c/"@);
                    assert("drive_c/"@.len() == 8);
                    assert(occurs_at(chars@, needle@, at as int));
                    assert(at + 8 <= chars.len());
                }
                let rest = string_of(&chars, at + 8, chars.len());
                assert(chars@.subrange(at + 8, chars.len() as int) == path@.skip(at + 8));
                let mut fixed = "C:/".to_owned();
                fixed.append(rest.as_str());
                return fixed;
            },
            None => {},
        }
    }
    path.to_owned()
}

/// Where the first directory with the given path stands, or the number of
/// directories.
fn position_of_path(configs: &Vec<DirectoryConfig>, path: &String) -> (i: usize)
    ensures
        i == first_index(configs.deep_view(), with_path(path@)),
        i <= configs.len(),
{
    let mut i: usize = 0;
    while i < configs.len()
        invariant
            i <= configs.len(),
            forall|j: int| 0 <= j < i ==> !with_path(path@)(#[trigger] configs.deep_view()[j]),
        decreases configs.len() - i,
    {
        assert(configs.deep_view()[i as int] == configs[i as int]@);
        if configs[i].path == *path {
            proof {
                lemma_first_index_is(configs.deep_view(), with_path(path@), i as int);
            }
            return i;
        }
        i += 1;
    }
    proof {
        lemma_first_index_is(configs.deep_view(), with_path(path@), i as int);
    }
    i
}

/// Merges the directories that the user saved into the defaults, in order.
pub fn merge_saved_configs(
    defaults: Vec<DirectoryConfig>,
    saved: Vec<DirectoryConfig>,
    windows: bool,
) -> (configs: Vec<DirectoryConfig>)
    ensures
        configs.deep_view() == merge_saved(defaults.deep_view(), saved.deep_view(), windows),
{
    let mut configs = defaults;
    let ghost start = configs.deep_view();
    let ghost all = saved.deep_view();
    let mut i: usize = 0;
    while i < saved.len()
        invariant
            i <= saved.len(),
            all == saved.deep_view(),
            configs.deep_view() == merge_saved(start, all.take(i as int), windows),
        decreases saved.len() - i,
    {
        let item = &saved[i];
        let ghost before = configs.deep_view();
        proof {
            assert(all.take(i + 1).drop_last() == all.take(i as int));
            assert(all.take(i + 1).last() == item@);
        }
        let path = if windows {
            fix_legacy_wine_path(item.path.as_str())
        } else {
            item.path.clone()
        };
        let at = position_of_path(&configs, &path);
        if at < configs.len() {
            configs[at].enabled = item.enabled;
            assert(configs.deep_view() =~= before.update(
                at as int,
                DirectoryModel { enabled: item.enabled, ..before[at as int] },
            ));
        } else if !item.is_default {
            let added = DirectoryConfig {
                path,
                name: item.name.clone(),
                enabled: item.enabled,
                is_default: false,
            };
            configs.push(added);
            assert(configs.deep_view() =~= before.push(as_merged(item@, windows)));
        }
        i += 1;
    }
    assert(all.take(i as int) == all);
    configs
}

/// Whether the last default directory named `name` is enabled.
fn enabled_of_default(current: &[DirectoryConfig], name: &String) -> (r: Option<bool>)
    ensures
        r == default_enabled(current.deep_view(), name@),
{
    let ghost all = current.deep_view();
    let mut i: usize = current.len();
    proof {
        assert(all.take(i as int) == all);
    }
    while i > 0
        invariant
            i <= current.len(),
            all == current.deep_view(),
            default_enabled(all, name@) == default_enabled(all.take(i as int), name@),
        decreases i,
    {
        proof {
            assert(all.take(i as int).last() == current[i - 1]@);
            assert(all.take(i as int).drop_last() == all.take(i - 1));
        }
        if current[i - 1].is_default && current[i - 1].name == *name {
            return Some(current[i - 1].enabled);
        }
        i -= 1;
    }
    None
}

/// Replaces the default directories by new ones. Each new default is enabled
/// as the current default of its name was, and the directories that the user
/// added follow.
pub fn rebase_directories(current: &[DirectoryConfig], defaults: Vec<DirectoryConfig>) -> (next:
    Vec<DirectoryConfig>)
    ensures
        next.deep_view() == rebased(current.deep_view(), defaults.deep_view()),
{
    let mut next = defaults;
    let ghost fresh = next.deep_view();
    let ghost all = current.deep_view();
    let mut i: usize = 0;
    while i < next.len()
        invariant
            i <= next.len() == fresh.len(),
            all == current.deep_view(),
            forall|k: int| 0 <= k < i ==> (#[trigger] next[k])@ == carried_over(all, fresh[k]),
            forall|k: int| i <= k < next.len() ==> (#[trigger] next[k])@ == fresh[k],
        decreases next.len() - i,
    {
        match enabled_of_default(current, &next[i].name) {
            Some(enabled) => {
                next[i].enabled = enabled;
            },
            None => {},
        }
        i += 1;
    }
    let ghost carried = next.deep_view();
    assert(carried =~= Seq::new(fresh.len(), |k: int| carried_over(all, fresh[k])));
    let mut j: usize = 0;
    while j < current.len()
        invariant
            j <= current.len(),
            all == current.deep_view(),
            next.deep_view() == carried + customs(all.take(j as int)),
        decreases current.len() - j,
    {
        let ghost before = next.deep_view();
        proof {
            assert(all.take(j + 1).drop_last() == all.take(j as int));
            assert(all.take(j + 1).last() == current[j as int]@);
        }
        if !current[j].is_default {
            let kept = current[j].clone();
            next.push(kept);
            assert(next.deep_view() =~= before.push(kept@));
            assert(before.push(kept@) =~= carried + customs(all.take(j as int)).push(kept@));
        }
        j += 1;
    }
    assert(all.take(j as int) == all);
    next
}

} // verus!
