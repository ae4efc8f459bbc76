use achievement_sync::backup::{
    backup_game_entry, backup_output_path, build_preview_item, build_resolution_map,
    check_backup_content, check_backup_version, decode_backup_content, default_backup_version,
    detect_game_file_format, encode_backup_content, entry_has_conflict, is_selected,
    parse_conflict_strategy, parse_settings_strategy, read_existing_achievements, restore_entry,
    restore_step, select_backup_games, should_write_json, strategy_for, try_encode_backup_content,
    BackupError, BackupGameEntry, ConflictStrategy, GameConflictResolution, Resolution,
    RestoreStep, SettingsStrategy,
};
use achievement_sync::models::{AchievementEntry, GameAchievements};
use achievement_sync::parser::{FileProbe, ParseError};
use std::path::Path;

fn entry(name: &str, achieved: bool, unlock_time: i64) -> AchievementEntry {
    AchievementEntry { name: name.to_string(), achieved, unlock_time }
}

fn item(format: &str, achievements: Vec<AchievementEntry>) -> BackupGameEntry {
    BackupGameEntry {
        game_id: "100".to_string(),
        directory: "/games".to_string(),
        file_format: format.to_string(),
        last_modified: 7,
        achievements,
    }
}

fn game(id: &str) -> GameAchievements {
    GameAchievements {
        game_id: id.to_string(),
        achievements: vec![entry("A", true, 1)],
        last_modified: 3,
        directory: "/games".to_string(),
    }
}

#[test]
fn envelope_of_a_backup() {
    assert_eq!(encode_backup_content("hello world~"), "HAMB64:aGVsbG8gd29ybGR+");
    assert_eq!(encode_backup_content(""), "HAMB64:");
    assert_eq!(encode_backup_content("{\"a\":1}"), "HAMB64:eyJhIjoxfQ==");
    assert_eq!(try_encode_backup_content("é"), Some("HAMB64:w6k=".to_string()));
}

#[test]
fn document_of_a_backup() {
    assert_eq!(decode_backup_content("HAMB64:aGVsbG8gd29ybGR+"), Ok("hello world~".to_string()));
    assert_eq!(decode_backup_content("  HAMB64:eyJhIjoxfQ==\n"), Ok("{\"a\":1}".to_string()));
    assert_eq!(decode_backup_content("HAMB64:"), Ok(String::new()));
    assert_eq!(decode_backup_content(" {\"plain\": true} "), Ok(" {\"plain\": true} ".to_string()));
    assert_eq!(decode_backup_content("hamb64:aGVsbG8="), Ok("hamb64:aGVsbG8=".to_string()));
    assert_eq!(decode_backup_content("HAMB64:not base64!"), Err(BackupError::InvalidBase64));
    assert_eq!(decode_backup_content("HAMB64:eyJhIjoxfQ"), Err(BackupError::InvalidBase64));
    assert_eq!(decode_backup_content("HAMB64:/w=="), Err(BackupError::InvalidUtf8));
}

#[test]
fn envelope_and_back() {
    for text in ["", "{}", "{\"games\":[{\"gameId\":\"1\"}]}", "ünïcödé ✓", "  spaces  "] {
        assert_eq!(decode_backup_content(&encode_backup_content(text)), Ok(text.to_string()));
    }
}

#[test]
fn versions() {
    assert_eq!(default_backup_version(), 1);
    assert_eq!(check_backup_version(1), Ok(()));
    assert_eq!(check_backup_version(2), Ok(()));
    assert_eq!(check_backup_version(0), Err(BackupError::UnsupportedVersion));
    assert_eq!(check_backup_version(3), Err(BackupError::UnsupportedVersion));
}

#[test]
fn strategies_are_read_in_any_case() {
    assert_eq!(parse_conflict_strategy("backup"), Ok(ConflictStrategy::Backup));
    assert_eq!(parse_conflict_strategy("Current"), Ok(ConflictStrategy::Current));
    assert_eq!(parse_conflict_strategy("CANCEL"), Ok(ConflictStrategy::Cancel));
    assert_eq!(parse_conflict_strategy("merge"), Err(BackupError::InvalidConflictStrategy));
    assert_eq!(parse_conflict_strategy(" backup"), Err(BackupError::InvalidConflictStrategy));
    assert_eq!(parse_conflict_strategy("bac\u{212a}up"), Ok(ConflictStrategy::Backup));
    assert_eq!(parse_settings_strategy("Backup"), Ok(SettingsStrategy::Backup));
    assert_eq!(parse_settings_strategy("current"), Ok(SettingsStrategy::Current));
    assert_eq!(parse_settings_strategy("MERGE"), Ok(SettingsStrategy::Merge));
    assert_eq!(parse_settings_strategy("cancel"), Err(BackupError::InvalidSettingsStrategy));
    assert_eq!(parse_settings_strategy(""), Err(BackupError::InvalidSettingsStrategy));
}

#[test]
fn resolutions() {
    let given = vec![
        GameConflictResolution { index: 2, strategy: "current".to_string() },
        GameConflictResolution { index: 0, strategy: "Cancel".to_string() },
        GameConflictResolution { index: 2, strategy: "backup".to_string() },
    ];
    let map = build_resolution_map(&given).unwrap();
    assert_eq!(
        map,
        vec![
            Resolution { index: 2, strategy: ConflictStrategy::Current },
            Resolution { index: 0, strategy: ConflictStrategy::Cancel },
            Resolution { index: 2, strategy: ConflictStrategy::Backup },
        ]
    );
    assert_eq!(strategy_for(&map, 0), ConflictStrategy::Cancel);
    assert_eq!(strategy_for(&map, 2), ConflictStrategy::Backup);
    assert_eq!(strategy_for(&map, 1), ConflictStrategy::Backup);
    assert_eq!(strategy_for(&[], 1), ConflictStrategy::Backup);
    let bad = vec![
        GameConflictResolution { index: 0, strategy: "backup".to_string() },
        GameConflictResolution { index: 1, strategy: "whatever".to_string() },
    ];
    assert_eq!(build_resolution_map(&bad), Err(BackupError::InvalidConflictStrategy));
    assert_eq!(build_resolution_map(&[]), Ok(vec![]));
}

#[test]
fn selection_and_steps() {
    assert!(is_selected(&[], 5));
    assert!(is_selected(&[1, 5], 5));
    assert!(!is_selected(&[1, 5], 2));
    assert_eq!(restore_step(ConflictStrategy::Backup, true), RestoreStep::Restore);
    assert_eq!(restore_step(ConflictStrategy::Current, true), RestoreStep::Skip);
    assert_eq!(restore_step(ConflictStrategy::Cancel, true), RestoreStep::Cancel);
    for s in [ConflictStrategy::Backup, ConflictStrategy::Current, ConflictStrategy::Cancel] {
        assert_eq!(restore_step(s, false), RestoreStep::Restore);
    }
}

#[test]
fn preview_counts() {
    let backup = item("ini", vec![entry("A", true, 5), entry("B", false, 0), entry("C", true, 9), entry("D", true, 1)]);
    let existing = vec![entry("A", true, 5), entry("B", true, 3), entry("C", false, 9), entry("X", true, 1)];
    let p = build_preview_item(4, &backup, &existing);
    assert_eq!(p.index, 4);
    assert_eq!((p.game_id.as_str(), p.directory.as_str(), p.file_format.as_str()), ("100", "/games", "ini"));
    assert_eq!(p.backup_achievements, 4);
    assert_eq!(p.existing_achievements, 4);
    assert_eq!(p.overlapping_achievements, 3);
    assert_eq!(p.changed_achievements, 2);
    assert_eq!(p.unchanged_achievements, 1);
    assert_eq!(p.new_achievements, 1);
    assert!(p.will_replace);
    let fresh = build_preview_item(0, &backup, &[]);
    assert_eq!((fresh.overlapping_achievements, fresh.changed_achievements, fresh.new_achievements), (0, 0, 4));
    assert!(!fresh.will_replace);
}

#[test]
fn preview_uses_the_last_entry_of_a_name() {
    let backup = item("ini", vec![entry("A", true, 5)]);
    let p = build_preview_item(0, &backup, &[entry("A", false, 0), entry("A", true, 5)]);
    assert_eq!((p.overlapping_achievements, p.changed_achievements, p.unchanged_achievements), (1, 0, 1));
    let p = build_preview_item(0, &backup, &[entry("A", true, 5), entry("A", true, 6)]);
    assert_eq!((p.overlapping_achievements, p.changed_achievements, p.unchanged_achievements), (1, 1, 0));
}

#[test]
fn conflicts() {
    let backup = item("ini", vec![entry("A", true, 5), entry("B", false, 0)]);
    assert!(!entry_has_conflict(&backup, &[]));
    assert!(!entry_has_conflict(&backup, &[entry("A", true, 5), entry("C", true, 1)]));
    assert!(entry_has_conflict(&backup, &[entry("A", true, 6)]));
    assert!(entry_has_conflict(&backup, &[entry("B", true, 0)]));
    assert!(!entry_has_conflict(&item("ini", vec![]), &[entry("B", true, 0)]));
}

#[test]
fn entries_on_disk() {
    let ini = FileProbe { stats_ini: false, ini: true, json: true };
    assert_eq!(read_existing_achievements(ini, "[A]\nAchieved=1"), Ok(vec![entry("A", true, 0)]));
    let json = FileProbe { stats_ini: true, ini: false, json: true };
    assert_eq!(read_existing_achievements(json, r#"{"A":{"earned":true}}"#), Ok(vec![entry("A", true, 0)]));
    assert_eq!(read_existing_achievements(json, "[A]"), Err(ParseError::InvalidJson));
    let none = FileProbe { stats_ini: true, ini: false, json: false };
    assert_eq!(read_existing_achievements(none, "[A]"), Ok(vec![]));
    assert_eq!(detect_game_file_format(true), "json");
    assert_eq!(detect_game_file_format(false), "ini");
}

#[test]
fn form_of_a_restore() {
    assert!(should_write_json("/games", true, true, "ini"));
    assert!(should_write_json("/games", false, true, "ini"));
    assert!(!should_write_json("/x/GSE Saves", true, false, "json"));
    assert!(should_write_json("/x/GSE Saves", false, false, "ini"));
    assert!(should_write_json("/games", false, false, "JSON"));
    assert!(!should_write_json("/games", false, false, "ini"));
    assert!(!should_write_json("/games", false, false, ""));
}

#[test]
fn restore_plans() {
    let backup = item("ini", vec![entry("A", true, 5)]);
    let ini = Path::new("/games").join("100").join("achievements.ini");
    let json = Path::new("/games").join("100").join("achievements.json");
    let plan = restore_entry(&backup, "/games", true, false, None).unwrap();
    assert_eq!(Path::new(&plan.path), ini);
    assert_eq!(plan.delete, None);
    assert_eq!(plan.content, "[A]\nAchieved=1\nUnlockTime=5\n\n");
    let plan = restore_entry(&backup, "/games", true, true, Some(r#"{"B":{"earned":true}}"#)).unwrap();
    assert_eq!(Path::new(&plan.path), json);
    assert_eq!(plan.delete.as_deref().map(Path::new), Some(ini.as_path()));
    let got: serde_json::Value = serde_json::from_str(&plan.content).unwrap();
    let want: serde_json::Value =
        serde_json::from_str(r#"{"A":{"earned":true,"earned_time":5},"B":{"earned":true}}"#).unwrap();
    assert_eq!(got, want);
    let plan = restore_entry(&item("json", vec![]), "/games", false, false, None).unwrap();
    assert_eq!(Path::new(&plan.path), json);
    assert_eq!(plan.delete, None);
    assert_eq!(plan.content, "{}");
}

#[test]
fn games_of_a_backup() {
    let games = vec![game("1"), game("2"), game("3"), game("2")];
    let all = select_backup_games(vec![game("1"), game("2"), game("3"), game("2")], &[]);
    assert_eq!(all, games);
    let some = select_backup_games(games, &["2".to_string(), "9".to_string()]);
    assert_eq!(some, vec![game("2"), game("2")]);
    assert_eq!(select_backup_games(vec![], &["2".to_string()]), vec![]);
    assert_eq!(check_backup_content(0, false), Err(BackupError::NothingToBackUp));
    assert_eq!(check_backup_content(0, true), Ok(()));
    assert_eq!(check_backup_content(2, false), Ok(()));
    let e = backup_game_entry(game("1"), true);
    assert_eq!((e.game_id.as_str(), e.directory.as_str(), e.file_format.as_str(), e.last_modified), ("1", "/games", "json", 3));
    assert_eq!(e.achievements, vec![entry("A", true, 1)]);
    assert_eq!(backup_game_entry(game("1"), false).file_format, "ini");
}

#[test]
fn path_of_a_backup() {
    assert_eq!(Path::new(&backup_output_path("/out/save.ham")), Path::new("/out/save.ham"));
    assert_eq!(Path::new(&backup_output_path("/out/save")), Path::new("/out/save.ham"));
    assert_eq!(Path::new(&backup_output_path("/out/save.json")), Path::new("/out/save.ham"));
    assert_eq!(Path::new(&backup_output_path("/out/save.HAM")), Path::new("/out/save.ham"));
    assert_eq!(Path::new(&backup_output_path("/out/save.tar.gz")), Path::new("/out/save.tar.ham"));
}
