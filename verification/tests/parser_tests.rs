use achievement_sync::models::{AchievementEntry, GameAchievements};
use std::path::Path;
use achievement_sync::parser::{
    AchievementFileKind, AchievementParser, DirectoryListing, FileProbe, GameFolder, ParseError,
};

fn entry(name: &str, achieved: bool, unlock_time: i64) -> AchievementEntry {
    AchievementEntry { name: name.to_string(), achieved, unlock_time }
}

fn folder(game_id: &str, probe: FileProbe, content: Option<&str>, modified: Option<u64>) -> GameFolder {
    GameFolder {
        game_id: game_id.to_string(),
        probe,
        content: content.map(|c| c.to_string()),
        modified,
    }
}

const INI_ONLY: FileProbe = FileProbe { stats_ini: false, ini: true, json: false };
const JSON_ONLY: FileProbe = FileProbe { stats_ini: false, ini: false, json: true };
const NOTHING: FileProbe = FileProbe { stats_ini: false, ini: false, json: false };

#[test]
fn ini_two_sections() {
    let text = "[A]\nAchieved=1\nUnlockTime=1700000000\n\n[B]\nAchieved=0\nUnlockTime=0\n";
    let got = AchievementParser::parse_ini_achievements(text);
    assert_eq!(got, vec![entry("A", true, 1700000000), entry("B", false, 0)]);
}

#[test]
fn ini_empty_text_has_no_entries() {
    assert_eq!(AchievementParser::parse_ini_achievements(""), vec![]);
    assert_eq!(AchievementParser::parse_ini_achievements("\n\n  \n"), vec![]);
}

#[test]
fn ini_one_entry_per_header() {
    let text = "[One]\n[Two]\nAchieved=1\n[Three]\n";
    let got = AchievementParser::parse_ini_achievements(text);
    assert_eq!(got.len(), 3);
    assert_eq!(got, vec![entry("One", false, 0), entry("Two", true, 0), entry("Three", false, 0)]);
}

#[test]
fn ini_key_outside_section_is_ignored() {
    let text = "Achieved=1\nUnlockTime=5\n[A]\n";
    assert_eq!(AchievementParser::parse_ini_achievements(text), vec![entry("A", false, 0)]);
}

#[test]
fn ini_unknown_keys_are_ignored() {
    let text = "[A]\nColour=red\nAchieved=1\nnothing here\n";
    assert_eq!(AchievementParser::parse_ini_achievements(text), vec![entry("A", true, 0)]);
}

#[test]
fn ini_achieved_is_true_only_for_one() {
    for (value, want) in [("1", true), ("0", false), ("true", false), ("", false), ("11", false)] {
        let text = format!("[A]\nAchieved={}\n", value);
        assert_eq!(
            AchievementParser::parse_ini_achievements(&text),
            vec![entry("A", want, 0)],
            "value {:?}",
            value
        );
    }
}

#[test]
fn ini_unlock_time_unparsable_is_zero() {
    for (value, want) in [
        ("12", 12i64),
        ("+7", 7),
        ("-3", -3),
        ("abc", 0),
        ("", 0),
        ("1.5", 0),
        ("9223372036854775807", i64::MAX),
        ("-9223372036854775808", i64::MIN),
        ("9223372036854775808", 0),
        ("0000000000000000000000042", 42),
        ("-", 0),
    ] {
        let text = format!("[A]\nUnlockTime={}\n", value);
        assert_eq!(
            AchievementParser::parse_ini_achievements(&text),
            vec![entry("A", false, want)],
            "value {:?}",
            value
        );
    }
}

#[test]
fn ini_whitespace_and_carriage_returns_are_trimmed() {
    let text = "  [A]  \r\n  Achieved = 1 \r\n\tUnlockTime\t=\t99\r\n";
    assert_eq!(AchievementParser::parse_ini_achievements(text), vec![entry("A", true, 99)]);
}

#[test]
fn ini_last_assignment_counts() {
    let text = "[A]\nAchieved=1\nAchieved=0\nUnlockTime=1\nUnlockTime=2";
    assert_eq!(AchievementParser::parse_ini_achievements(text), vec![entry("A", false, 2)]);
}

#[test]
fn ini_value_may_hold_equal_signs() {
    let text = "[A=B]\nAchieved=1=1\n";
    assert_eq!(AchievementParser::parse_ini_achievements(text), vec![entry("A=B", false, 0)]);
}

#[test]
fn ini_agrees_with_std_on_lines() {
    let text = "[A]\nAchieved=1\r\n\r\n[B]\n UnlockTime= 4 \n[ C ]";
    let mut want: Vec<AchievementEntry> = Vec::new();
    for line in text.lines() {
        let line = line.trim();
        if line.starts_with('[') && line.ends_with(']') {
            want.push(entry(&line[1..line.len() - 1], false, 0));
        } else if let Some((key, value)) = line.split_once('=') {
            if let Some(last) = want.last_mut() {
                match key.trim() {
                    "Achieved" => last.achieved = value.trim() == "1",
                    "UnlockTime" => last.unlock_time = value.trim().parse().unwrap_or(0),
                    _ => {}
                }
            }
        }
    }
    assert_eq!(AchievementParser::parse_ini_achievements(text), want);
    assert_eq!(want.len(), 3);
}

#[test]
fn json_two_members() {
    let text = r#"{"X":{"earned":true,"earned_time":5},"Y":{"earned":false,"earned_time":0}}"#;
    let got = AchievementParser::parse_gse_achievement_json(text).unwrap();
    assert_eq!(got.len(), 2);
    assert!(got.contains(&entry("X", true, 5)));
    assert!(got.contains(&entry("Y", false, 0)));
}

#[test]
fn json_defaults_for_missing_or_mistyped_fields() {
    let text = r#"{"A":{},"B":{"earned":"yes","earned_time":"5"},"C":{"earned":true,"earned_time":1.5}}"#;
    let got = AchievementParser::parse_gse_achievement_json(text).unwrap();
    assert_eq!(got.len(), 3);
    assert!(got.contains(&entry("A", false, 0)));
    assert!(got.contains(&entry("B", false, 0)));
    assert!(got.contains(&entry("C", true, 0)));
}

#[test]
fn json_member_that_is_no_object_is_left_out() {
    let text = r#"{"A":{"earned":true},"B":3,"C":null,"D":[1]}"#;
    let got = AchievementParser::parse_gse_achievement_json(text).unwrap();
    assert_eq!(got, vec![entry("A", true, 0)]);
}

#[test]
fn json_root_must_be_an_object() {
    assert_eq!(AchievementParser::parse_gse_achievement_json("[1,2]"), Err(ParseError::NotAnObject));
    assert_eq!(AchievementParser::parse_gse_achievement_json("null"), Err(ParseError::NotAnObject));
    assert_eq!(AchievementParser::parse_gse_achievement_json("7"), Err(ParseError::NotAnObject));
}

#[test]
fn json_malformed_text_is_an_error() {
    assert_eq!(AchievementParser::parse_gse_achievement_json("{"), Err(ParseError::InvalidJson));
    assert_eq!(AchievementParser::parse_gse_achievement_json(""), Err(ParseError::InvalidJson));
    assert_eq!(
        AchievementParser::parse_gse_achievement_json("{} trailing"),
        Err(ParseError::InvalidJson)
    );
}

#[test]
fn json_empty_object_has_no_entries() {
    assert_eq!(AchievementParser::parse_gse_achievement_json("{}"), Ok(vec![]));
}

#[test]
fn file_form_follows_the_extension() {
    let json = r#"{"X":{"earned":true,"earned_time":5}}"#;
    assert_eq!(
        AchievementParser::parse_achievement_file("/g/1/achievements.json", json),
        Ok(vec![entry("X", true, 5)])
    );
    assert_eq!(
        AchievementParser::parse_achievement_file("/g/1/ACHIEVEMENTS.JSON", json),
        Ok(vec![entry("X", true, 5)])
    );
    assert_eq!(AchievementParser::parse_achievement_file("/g/1/achievements.ini", json), Ok(vec![]));
    assert_eq!(
        AchievementParser::parse_achievement_file("/g/1/achievements.ini", "[A]\nAchieved=1"),
        Ok(vec![entry("A", true, 0)])
    );
    assert_eq!(
        AchievementParser::parse_achievement_file("/g/1/achievements.json", "[A]"),
        Err(ParseError::InvalidJson)
    );
    assert_eq!(AchievementParser::parse_achievement_file("/g/json", "[A]"), Ok(vec![entry("A", false, 0)]));
}

#[test]
fn online_fix_root_is_told_by_its_name() {
    assert!(AchievementParser::is_online_fix_root("/home/u/Documents/OnlineFix"));
    assert!(AchievementParser::is_online_fix_root("OnlineFix"));
    assert!(!AchievementParser::is_online_fix_root("/home/u/Documents/onlinefix"));
    assert!(!AchievementParser::is_online_fix_root("/home/u/OnlineFix/games"));
    assert!(!AchievementParser::is_online_fix_root("/"));
}

#[test]
fn file_resolution_order() {
    let all = FileProbe { stats_ini: true, ini: true, json: true };
    assert_eq!(AchievementParser::resolve_achievement_file(true, all), Some(AchievementFileKind::StatsIni));
    assert_eq!(AchievementParser::resolve_achievement_file(false, all), Some(AchievementFileKind::Ini));
    assert_eq!(AchievementParser::resolve_achievement_file(false, JSON_ONLY), Some(AchievementFileKind::Json));
    assert_eq!(AchievementParser::resolve_achievement_file(true, JSON_ONLY), None);
    assert_eq!(AchievementParser::resolve_achievement_file(true, INI_ONLY), None);
    assert_eq!(AchievementParser::resolve_achievement_file(false, NOTHING), None);
    let stats_only = FileProbe { stats_ini: true, ini: false, json: false };
    assert_eq!(AchievementParser::resolve_achievement_file(false, stats_only), None);
}

#[test]
fn file_paths_follow_the_layout() {
    let ini = AchievementParser::achievement_file_path("/games", "100", AchievementFileKind::Ini);
    assert_eq!(Path::new(&ini), Path::new("/games").join("100").join("achievements.ini"));
    let json = AchievementParser::achievement_file_path("/games", "100", AchievementFileKind::Json);
    assert_eq!(Path::new(&json), Path::new("/games").join("100").join("achievements.json"));
    let stats = AchievementParser::achievement_file_path("/d/OnlineFix", "7", AchievementFileKind::StatsIni);
    assert_eq!(
        Path::new(&stats),
        Path::new("/d/OnlineFix").join("7").join("Stats").join("achievements.ini")
    );
}

#[test]
fn scan_of_one_ini_game() {
    let text = "[A]\nAchieved=1\nUnlockTime=1700000000\n\n[B]\nAchieved=0\nUnlockTime=0\n";
    let folders = vec![folder("100", INI_ONLY, Some(text), Some(1234))];
    let got = AchievementParser::parse_directory("/games", &folders);
    assert_eq!(
        got,
        vec![GameAchievements {
            game_id: "100".to_string(),
            achievements: vec![entry("A", true, 1700000000), entry("B", false, 0)],
            last_modified: 1234,
            directory: "/games".to_string(),
        }]
    );
}

#[test]
fn scan_of_one_json_game() {
    let text = r#"{"X":{"earned":true,"earned_time":5},"Y":{"earned":false,"earned_time":0}}"#;
    let folders = vec![folder("200", JSON_ONLY, Some(text), None)];
    let got = AchievementParser::parse_directory("/games", &folders);
    assert_eq!(got.len(), 1);
    assert_eq!(got[0].game_id, "200");
    assert_eq!(got[0].last_modified, 0);
    assert_eq!(got[0].directory, "/games");
    assert_eq!(got[0].achievements.len(), 2);
    assert!(got[0].achievements.contains(&entry("X", true, 5)));
    assert!(got[0].achievements.contains(&entry("Y", false, 0)));
}

#[test]
fn scan_leaves_out_games_without_entries() {
    let folders = vec![
        folder("empty-ini", INI_ONLY, Some("\n\n"), Some(1)),
        folder("empty-json", JSON_ONLY, Some("{}"), Some(1)),
        folder("no-file", NOTHING, None, None),
        folder("unreadable", INI_ONLY, None, Some(1)),
        folder("broken-json", JSON_ONLY, Some("{"), Some(1)),
        folder("not-object", JSON_ONLY, Some("[]"), Some(1)),
        folder("good", INI_ONLY, Some("[A]"), Some(9)),
    ];
    let got = AchievementParser::parse_directory("/games", &folders);
    assert_eq!(got.len(), 1);
    assert_eq!(got[0].game_id, "good");
    let without_empty: Vec<GameFolder> = vec![folder("good", INI_ONLY, Some("[A]"), Some(9))];
    assert_eq!(got, AchievementParser::parse_directory("/games", &without_empty));
}

#[test]
fn scan_prefers_ini_over_json() {
    let both = FileProbe { stats_ini: false, ini: true, json: true };
    let folders = vec![folder("1", both, Some("[A]\nAchieved=1"), None)];
    let got = AchievementParser::parse_directory("/games", &folders);
    assert_eq!(got[0].achievements, vec![entry("A", true, 0)]);
}

#[test]
fn scan_of_online_fix_root_needs_the_stats_file() {
    let stats = FileProbe { stats_ini: true, ini: false, json: false };
    let folders = vec![
        folder("1", stats, Some("[A]\nAchieved=1"), Some(3)),
        folder("2", INI_ONLY, Some("[B]"), Some(3)),
        folder("3", JSON_ONLY, Some(r#"{"C":{}}"#), Some(3)),
    ];
    let got = AchievementParser::parse_directory("/docs/OnlineFix", &folders);
    assert_eq!(got.len(), 1);
    assert_eq!(got[0].game_id, "1");
    let elsewhere = AchievementParser::parse_directory("/docs/Other", &folders);
    assert_eq!(elsewhere.len(), 2);
    assert_eq!(elsewhere[0].game_id, "2");
    assert_eq!(elsewhere[1].game_id, "3");
}

#[test]
fn scan_keeps_a_large_modification_time_as_it_wraps() {
    let folders = vec![folder("1", INI_ONLY, Some("[A]"), Some(u64::MAX))];
    let got = AchievementParser::parse_directory("/games", &folders);
    assert_eq!(got[0].last_modified, -1);
}

#[test]
fn scan_of_several_roots_concatenates() {
    let listings = vec![
        DirectoryListing {
            path: "/a".to_string(),
            folders: vec![folder("1", INI_ONLY, Some("[A]"), Some(1)), folder("2", INI_ONLY, Some(""), Some(1))],
        },
        DirectoryListing { path: "/missing".to_string(), folders: vec![] },
        DirectoryListing { path: "/b".to_string(), folders: vec![folder("1", INI_ONLY, Some("[B]"), Some(2))] },
    ];
    let got = AchievementParser::parse_directories(&listings);
    assert_eq!(got.len(), 2);
    assert_eq!((got[0].game_id.as_str(), got[0].directory.as_str()), ("1", "/a"));
    assert_eq!((got[1].game_id.as_str(), got[1].directory.as_str()), ("1", "/b"));
    assert_eq!(AchievementParser::parse_directories(&[]), vec![]);
}
