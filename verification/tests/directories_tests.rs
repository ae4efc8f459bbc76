use achievement_sync::directories::{
    build_default_directory_configs, build_directory_configs, checked_wine_prefix,
    default_directory_paths, fix_legacy_wine_path, merge_saved_configs, rebase_directories,
    resolve_gse_user, wine_drive_c, wine_prefix_or_default, DirectoryError,
};
use achievement_sync::models::DirectoryConfig;
use std::path::Path;

fn dir(path: &str, name: &str, enabled: bool, is_default: bool) -> DirectoryConfig {
    DirectoryConfig { path: path.to_string(), name: name.to_string(), enabled, is_default }
}

fn names(list: &[&str]) -> Vec<String> {
    list.iter().map(|s| s.to_string()).collect()
}

#[test]
fn user_of_the_save_directory() {
    assert_eq!(resolve_gse_user(&[]), "steamuser");
    assert_eq!(resolve_gse_user(&names(&["steamuser"])), "steamuser");
    assert_eq!(resolve_gse_user(&names(&["SteamUser", "alice", "bob"])), "alice");
    assert_eq!(resolve_gse_user(&names(&["bob", "steamuser"])), "bob");
    assert_eq!(resolve_gse_user(&names(&["STEAMUSER", "steamuser"])), "steamuser");
}

#[test]
fn loader_paths() {
    assert_eq!(
        default_directory_paths("alice"),
        vec![
            "C:/Users/Public/Documents/Steam/RUNE",
            "C:/Users/Public/Documents/Steam/CODEX",
            "C:/ProgramData/Steam/RLD!",
            "C:/Users/Public/Documents/OnlineFix",
            "C:/users/alice/AppData/Roaming/GSE Saves",
        ]
    );
}

#[test]
fn defaults_on_windows() {
    let got = build_default_directory_configs(true, "ignored", "steamuser");
    assert_eq!(got.len(), 5);
    assert_eq!(got[0], dir("C:/Users/Public/Documents/Steam/RUNE", "RUNE", true, true));
    assert_eq!(got[2], dir("C:/ProgramData/Steam/RLD!", "RLD!", true, true));
    assert_eq!(got[4], dir("C:/users/steamuser/AppData/Roaming/GSE Saves", "GSE Saves", true, true));
}

#[test]
fn defaults_under_a_wine_prefix() {
    let got = build_default_directory_configs(false, "/home/u/.wine/drive_c", "bob");
    assert_eq!(got.len(), 5);
    assert_eq!(got[1].name, "CODEX");
    assert_eq!(
        Path::new(&got[1].path),
        Path::new("/home/u/.wine/drive_c").join("Users/Public/Documents/Steam/CODEX")
    );
    assert_eq!(
        Path::new(&got[4].path),
        Path::new("/home/u/.wine/drive_c").join("users/bob/AppData/Roaming/GSE Saves")
    );
    assert!(got.iter().all(|d| d.enabled && d.is_default));
    let odd = build_directory_configs(&names(&["D:/x/y", "plain", "trailing/"]), false, "/c");
    assert_eq!(Path::new(&odd[0].path), Path::new("/c").join("D:/x/y"));
    assert_eq!((odd[0].name.as_str(), odd[1].name.as_str(), odd[2].name.as_str()), ("y", "plain", ""));
}

#[test]
fn wine_prefixes() {
    assert_eq!(wine_prefix_or_default(None), "~/.wine");
    assert_eq!(wine_prefix_or_default(Some("")), "~/.wine");
    assert_eq!(wine_prefix_or_default(Some("   ")), "~/.wine");
    assert_eq!(wine_prefix_or_default(Some("  /opt/prefix ")), "/opt/prefix");
    assert_eq!(Path::new(&wine_drive_c("/opt/prefix")), Path::new("/opt/prefix").join("drive_c"));
    assert_eq!(wine_drive_c("/opt/prefix/drive_c"), "/opt/prefix/drive_c");
    assert_eq!(Path::new(&wine_drive_c("/opt/prefix/drive_c/")), Path::new("/opt/prefix/drive_c/"));
    assert_eq!(Path::new(&wine_drive_c("/opt/prefix/Drive_C")), Path::new("/opt/prefix/Drive_C").join("drive_c"));
    assert_eq!(checked_wine_prefix(" /p ", true), Ok("/p".to_string()));
    assert_eq!(checked_wine_prefix(" \t ", true), Err(DirectoryError::EmptyPrefix));
    assert_eq!(checked_wine_prefix("/p", false), Err(DirectoryError::NotLinux));
    assert_eq!(checked_wine_prefix("", false), Err(DirectoryError::NotLinux));
}

#[test]
fn legacy_paths() {
    assert_eq!(fix_legacy_wine_path("/home/u/.wine/drive_c/Users/Public/x"), "C:/Users/Public/x");
    assert_eq!(fix_legacy_wine_path("/home/u/.wine/drive_c"), "/home/u/.wine/drive_c");
    assert_eq!(fix_legacy_wine_path("/drive_c/a/.wine/drive_c/b"), "C:/a/.wine/drive_c/b");
    assert_eq!(fix_legacy_wine_path("/home/u/prefix/drive_c/x"), "/home/u/prefix/drive_c/x");
    assert_eq!(fix_legacy_wine_path("C:/Games"), "C:/Games");
    assert_eq!(fix_legacy_wine_path("/.wine/drive_c/"), "C:/");
}

#[test]
fn saved_directories_are_merged() {
    let defaults = vec![dir("/d/RUNE", "RUNE", true, true), dir("/d/CODEX", "CODEX", true, true)];
    let saved = vec![
        dir("/d/CODEX", "old name", false, true),
        dir("/custom", "custom", false, false),
        dir("/gone/default", "gone", true, true),
        dir("/custom", "again", true, false),
    ];
    let got = merge_saved_configs(defaults, saved, false);
    assert_eq!(
        got,
        vec![dir("/d/RUNE", "RUNE", true, true), dir("/d/CODEX", "CODEX", false, true), dir("/custom", "custom", true, false)]
    );
}

#[test]
fn saved_directories_are_fixed_on_windows() {
    let defaults = vec![dir("C:/Users/Public/Documents/Steam/RUNE", "RUNE", true, true)];
    let saved = vec![
        dir("/home/u/.wine/drive_c/Users/Public/Documents/Steam/RUNE", "RUNE", false, true),
        dir("/home/u/.wine/drive_c/Games", "Games", true, false),
    ];
    let got = merge_saved_configs(defaults, saved, true);
    assert_eq!(
        got,
        vec![dir("C:/Users/Public/Documents/Steam/RUNE", "RUNE", false, true), dir("C:/Games", "Games", true, false)]
    );
    let kept = merge_saved_configs(vec![], vec![dir("/home/u/.wine/drive_c/Games", "Games", true, false)], false);
    assert_eq!(kept, vec![dir("/home/u/.wine/drive_c/Games", "Games", true, false)]);
}

#[test]
fn defaults_are_replaced_and_customs_kept() {
    let current = vec![
        dir("/old/RUNE", "RUNE", false, true),
        dir("/mine", "mine", false, false),
        dir("/old/CODEX", "CODEX", true, true),
        dir("/old/RUNE2", "RUNE", true, true),
        dir("/other", "CODEX", true, false),
    ];
    let fresh = vec![dir("/new/RUNE", "RUNE", true, true), dir("/new/CODEX", "CODEX", false, true), dir("/new/X", "X", true, true)];
    let got = rebase_directories(&current, fresh);
    assert_eq!(
        got,
        vec![
            dir("/new/RUNE", "RUNE", true, true),
            dir("/new/CODEX", "CODEX", true, true),
            dir("/new/X", "X", true, true),
            dir("/mine", "mine", false, false),
            dir("/other", "CODEX", true, false),
        ]
    );
    assert_eq!(rebase_directories(&[], vec![]), vec![]);
}
