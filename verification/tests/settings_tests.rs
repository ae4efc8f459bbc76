use achievement_sync::backup::RestoreSettingsPreview;
use achievement_sync::models::DirectoryConfig;
use achievement_sync::settings::{
    merge_backup_settings, merge_settings, no_settings_preview, settings_key_statuses,
    settings_preview, KeyStatus, SettingsError,
};
use achievement_sync::startup::{
    is_steam_path, library_search_path, linux_runtime_library_candidates, log_is_stale,
    path_list_names, split_path_list, startup_directory_configs, startup_drive_c,
    steam_unavailable_reason, windows_path_with, windows_runtime_library_candidates,
    LOG_RETENTION_SECS,
};
use achievement_sync::steam_integration::SteamIntegration;
use std::path::Path;

fn json(text: &str) -> serde_json::Value {
    serde_json::from_str(text).unwrap()
}

#[test]
fn new_settings_are_written_over_stored_ones() {
    let stored = r#"{"language":"en-US","enableCache":true,"nested":{"a":1}}"#;
    let merged = merge_settings(Some(stored), r#"{"language":"pt-BR","steamId":"7","nested":{"b":2.5}}"#).unwrap();
    assert_eq!(
        json(&merged),
        json(r#"{"language":"pt-BR","enableCache":true,"nested":{"b":2.5},"steamId":"7"}"#)
    );
    assert!(merged.contains('\n'));
}

#[test]
fn settings_without_usable_stored_ones() {
    for stored in [None, Some("broken {"), Some("{}")] {
        let merged = merge_settings(stored, r#"{"a":[1,2,{"b":null}]}"#).unwrap();
        assert_eq!(json(&merged), json(r#"{"a":[1,2,{"b":null}]}"#));
    }
}

#[test]
fn settings_that_are_no_objects_replace() {
    assert_eq!(json(&merge_settings(Some(r#"[1,2]"#), r#"{"a":1}"#).unwrap()), json(r#"{"a":1}"#));
    assert_eq!(json(&merge_settings(Some(r#"{"a":1}"#), r#"[3]"#).unwrap()), json("[3]"));
    assert_eq!(json(&merge_settings(None, "7.5").unwrap()), json("7.5"));
    assert_eq!(merge_settings(Some("{}"), "not json"), Err(SettingsError::InvalidJson));
}

#[test]
fn members_of_backup_settings_are_compared() {
    let backup = r#"{"a":1,"b":"x","c":[1,2],"d":{"e":1.5},"f":null}"#;
    let current = r#"{"a":1,"b":"y","d":{"e":1.5},"f":0,"z":true}"#;
    let got = settings_key_statuses(backup, Some(current)).unwrap();
    let mut by_key: Vec<(&str, KeyStatus)> = json(backup)
        .as_object()
        .unwrap()
        .keys()
        .map(|k| match k.as_str() {
            "a" => ("a", KeyStatus::Same),
            "b" => ("b", KeyStatus::Different),
            "c" => ("c", KeyStatus::Missing),
            "d" => ("d", KeyStatus::Same),
            _ => ("f", KeyStatus::Different),
        })
        .collect();
    by_key.sort_by_key(|(k, _)| *k);
    let want: Vec<KeyStatus> = json(backup)
        .as_object()
        .unwrap()
        .keys()
        .map(|k| by_key.iter().find(|(name, _)| name == k).unwrap().1)
        .collect();
    assert_eq!(got, want);
    assert_eq!(
        settings_preview(&got),
        RestoreSettingsPreview { included: true, total_keys: 5, conflicting_keys: 2, missing_keys: 1 }
    );
}

#[test]
fn comparison_with_missing_or_odd_current_settings() {
    let backup = r#"{"a":1,"b":2}"#;
    assert_eq!(settings_key_statuses(backup, None), Ok(vec![KeyStatus::Missing, KeyStatus::Missing]));
    assert_eq!(settings_key_statuses(backup, Some("[1]")), Ok(vec![KeyStatus::Missing, KeyStatus::Missing]));
    assert_eq!(settings_key_statuses(backup, Some("{")), Err(SettingsError::InvalidJson));
    assert_eq!(settings_key_statuses("[1]", None), Err(SettingsError::NotAnObject));
    assert_eq!(settings_key_statuses("nope", None), Err(SettingsError::InvalidJson));
    assert_eq!(settings_key_statuses("{}", None), Ok(vec![]));
}

#[test]
fn previews() {
    assert_eq!(
        no_settings_preview(),
        RestoreSettingsPreview { included: false, total_keys: 0, conflicting_keys: 0, missing_keys: 0 }
    );
    assert_eq!(
        settings_preview(&[]),
        RestoreSettingsPreview { included: true, total_keys: 0, conflicting_keys: 0, missing_keys: 0 }
    );
    let p = settings_preview(&[KeyStatus::Same, KeyStatus::Missing, KeyStatus::Missing, KeyStatus::Different]);
    assert_eq!((p.total_keys, p.conflicting_keys, p.missing_keys), (4, 1, 2));
}

#[test]
fn backup_settings_fill_in_what_is_missing() {
    let merged = merge_backup_settings(r#"{"a":1,"b":{"x":1},"c":"new"}"#, Some(r#"{"a":2,"b":null}"#)).unwrap();
    assert_eq!(json(&merged), json(r#"{"a":2,"b":null,"c":"new"}"#));
    let merged = merge_backup_settings(r#"{"a":1}"#, None).unwrap();
    assert_eq!(json(&merged), json(r#"{"a":1}"#));
    assert_eq!(merge_backup_settings(r#"{"a":1}"#, Some("[]")), Err(SettingsError::CurrentNotAnObject));
    assert_eq!(merge_backup_settings(r#"{"a":1}"#, Some("{")), Err(SettingsError::InvalidJson));
    assert_eq!(merge_backup_settings("1", Some("{}")), Err(SettingsError::NotAnObject));
    assert_eq!(merge_backup_settings("", Some("{}")), Err(SettingsError::InvalidJson));
}

#[test]
fn old_logs() {
    assert_eq!(LOG_RETENTION_SECS, 259_200);
    assert!(!log_is_stale(0));
    assert!(!log_is_stale(259_200));
    assert!(log_is_stale(259_201));
}

#[test]
fn search_paths() {
    assert_eq!(library_search_path("/res", "/res/src", "", false), "/res:/res/src");
    assert_eq!(library_search_path("/res", "/res/src", "/usr/lib", false), "/res:/res/src:/usr/lib");
    assert_eq!(library_search_path("C:\\res", "C:\\res\\src", "C:\\w", true), "C:\\res;C:\\res\\src;C:\\w");
    assert_eq!(split_path_list("/a::/b:", ':'), vec!["/a", "/b"]);
    assert_eq!(split_path_list("", ':'), Vec::<String>::new());
    assert_eq!(split_path_list(":::", ':'), Vec::<String>::new());
    assert_eq!(split_path_list("one", ':'), vec!["one"]);
    let want: Vec<&str> = "/a::/b:".split(':').filter(|d| !d.is_empty()).collect();
    assert_eq!(split_path_list("/a::/b:", ':'), want);
}

#[test]
fn runtime_library_candidates() {
    let got = linux_runtime_library_candidates(Some("/opt/app"), Some("/x::/y"));
    let got: Vec<&Path> = got.iter().map(|p| Path::new(p.as_str())).collect();
    assert_eq!(
        got,
        vec![
            Path::new("/opt/app/libsteam_api.so"),
            Path::new("/x/libsteam_api.so"),
            Path::new("/y/libsteam_api.so"),
            Path::new("/usr/lib/libsteam_api.so"),
            Path::new("/usr/lib64/libsteam_api.so"),
            Path::new("/usr/lib/x86_64-linux-gnu/libsteam_api.so"),
            Path::new("/lib/x86_64-linux-gnu/libsteam_api.so"),
            Path::new("/usr/local/lib/libsteam_api.so"),
        ]
    );
    assert_eq!(linux_runtime_library_candidates(None, None).len(), 5);
}

#[test]
fn steam_availability() {
    let missing = Some("Steam runtime library not found in install folder or configured path".to_string());
    let default = Some("Steamworks initialization failed (Steam client may not be running)".to_string());
    assert_eq!(steam_unavailable_reason(true, true, true, None), None);
    assert_eq!(steam_unavailable_reason(false, false, true, Some("x".to_string())), None);
    assert_eq!(steam_unavailable_reason(true, false, true, None), missing);
    assert_eq!(steam_unavailable_reason(true, false, false, Some("x".to_string())), missing);
    assert_eq!(steam_unavailable_reason(true, true, false, Some("x".to_string())), Some("x".to_string()));
    assert_eq!(steam_unavailable_reason(false, true, false, None), default);
    assert!(is_steam_path("steam://730"));
    assert!(is_steam_path("steam://"));
    assert!(!is_steam_path("Steam://730"));
    assert!(!is_steam_path("/steam://"));
}

#[test]
fn directories_at_startup() {
    assert_eq!(Path::new(&startup_drive_c("/home/u")), Path::new("/home/u").join(".wine/drive_c"));
    let windows = startup_directory_configs(true, "unused");
    assert_eq!(windows.len(), 4);
    assert_eq!(
        windows[3],
        DirectoryConfig {
            path: "C:/Users/Public/Documents/OnlineFix".to_string(),
            name: "OnlineFix".to_string(),
            enabled: true,
            is_default: true,
        }
    );
    let wine = startup_directory_configs(false, "/home/u/.wine/drive_c");
    assert_eq!(wine.len(), 4);
    assert_eq!(wine[2].name, "RLD!");
    assert_eq!(Path::new(&wine[2].path), Path::new("/home/u/.wine/drive_c").join("ProgramData/Steam/RLD!"));
}

#[test]
fn windows_search_path() {
    assert!(path_list_names("C:\\a;C:\\Steam;D:\\b", ';', "c:\\steam"));
    assert!(!path_list_names("C:\\a;C:\\Steam2", ';', "C:\\Steam"));
    assert!(path_list_names("a;;b", ';', ""));
    assert!(path_list_names("", ';', ""));
    assert!(!path_list_names("", ';', "x"));
    assert!(path_list_names("x", ';', "X"));
    assert_eq!(windows_path_with("C:\\a;C:\\b", "C:\\steam"), Some("C:\\steam;C:\\a;C:\\b".to_string()));
    assert_eq!(windows_path_with("C:\\a;C:\\STEAM", "C:\\steam"), None);
    let got = windows_runtime_library_candidates("/app");
    assert_eq!(got.len(), 2);
    assert_eq!(Path::new(&got[0]), Path::new("/app").join("steam_api64.dll"));
    assert_eq!(Path::new(&got[1]), Path::new("/app").join("steam_api64_windows_x64.dll"));
}

#[test]
fn library_folders_as_written() {
    assert_eq!(SteamIntegration::library_path("D:\\\\Games\\\\Steam", true), "D:\\Games\\Steam");
    assert_eq!(SteamIntegration::library_path("D:\\\\Games\\\\Steam", false), "D:\\\\Games\\\\Steam");
    assert_eq!(SteamIntegration::library_path("/mnt/games", true), "/mnt/games");
}
