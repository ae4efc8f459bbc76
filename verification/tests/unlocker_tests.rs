use achievement_sync::models::{
    AchievementEntry, AchievementToUnlock, TimeFormat, Timestamp, UnlockMode, UnlockOptions,
};
use achievement_sync::parser::AchievementParser;
use achievement_sync::unlocker::{
    AchievementUnlocker, AchievementWriter, CivilTime, UnlockError, MAX_YEAR, MIN_YEAR,
};
use std::path::Path;

fn entry(name: &str, achieved: bool, unlock_time: i64) -> AchievementEntry {
    AchievementEntry { name: name.to_string(), achieved, unlock_time }
}

fn stamp(day: &str, month: &str, year: &str, hour: &str, minute: &str, ampm: Option<&str>) -> Timestamp {
    Timestamp {
        day: day.to_string(),
        month: month.to_string(),
        year: year.to_string(),
        hour: hour.to_string(),
        minute: minute.to_string(),
        ampm: ampm.map(|s| s.to_string()),
    }
}

fn civil(year: i32, month: u32, day: u32, hour: u32, minute: u32) -> CivilTime {
    CivilTime { year, month, day, hour, minute }
}

fn blank() -> Timestamp {
    stamp("", "", "", "", "", None)
}

#[test]
fn ini_text_of_entries() {
    let text = AchievementWriter::render_achievement_file(&[entry("A", true, 1700000000), entry("B", false, 0)]);
    assert_eq!(text, "[A]\nAchieved=1\nUnlockTime=1700000000\n\n[B]\nAchieved=0\nUnlockTime=0\n\n");
    assert_eq!(AchievementWriter::render_achievement_file(&[]), "");
    assert_eq!(
        AchievementWriter::render_achievement_file(&[entry("", false, -12)]),
        "[]\nAchieved=0\nUnlockTime=-12\n\n"
    );
}

#[test]
fn written_ini_reads_back() {
    let entries = vec![
        entry("ACH_WIN", true, 1700000000),
        entry(" spaced name ", false, i64::MIN),
        entry("with=equals", true, i64::MAX),
        entry("[brackets]", false, 0),
        entry("", true, -1),
        entry("ACH_WIN", false, 3),
    ];
    let text = AchievementWriter::render_achievement_file(&entries);
    assert_eq!(AchievementParser::parse_ini_achievements(&text), entries);
}

#[test]
fn civil_time_of_a_timestamp() {
    assert_eq!(AchievementWriter::civil_time(&stamp("15", "03", "2024", "14", "30", None)), civil(2024, 3, 15, 14, 30));
    assert_eq!(AchievementWriter::civil_time(&blank()), civil(2024, 1, 1, 0, 0));
    assert_eq!(AchievementWriter::civil_time(&stamp("x", "y", "z", "h", "m", None)), civil(2024, 1, 1, 0, 0));
    assert_eq!(AchievementWriter::civil_time(&stamp("+5", "+6", "+2020", "7", "8", None)), civil(2020, 6, 5, 7, 8));
}

#[test]
fn twelve_hour_clock() {
    let at = |hour: &str, half: &str| AchievementWriter::civil_time(&stamp("1", "1", "2024", hour, "0", Some(half))).hour;
    assert_eq!(at("12", "AM"), 0);
    assert_eq!(at("1", "AM"), 1);
    assert_eq!(at("11", "AM"), 11);
    assert_eq!(at("12", "PM"), 12);
    assert_eq!(at("1", "PM"), 13);
    assert_eq!(at("11", "PM"), 23);
    assert_eq!(at("13", "PM"), 0);
    assert_eq!(at("5", "pm"), 5);
    assert_eq!(at("5", ""), 5);
    assert_eq!(at("4294967295", "PM"), 0);
}

#[test]
fn dates_that_do_not_exist_become_the_epoch_day() {
    assert_eq!(AchievementWriter::civil_time(&stamp("31", "4", "2023", "10", "5", None)), civil(1970, 1, 1, 10, 5));
    assert_eq!(AchievementWriter::civil_time(&stamp("29", "2", "2023", "0", "0", None)), civil(1970, 1, 1, 0, 0));
    assert_eq!(AchievementWriter::civil_time(&stamp("29", "2", "2024", "0", "0", None)), civil(2024, 2, 29, 0, 0));
    assert_eq!(AchievementWriter::civil_time(&stamp("29", "2", "1900", "0", "0", None)), civil(1970, 1, 1, 0, 0));
    assert_eq!(AchievementWriter::civil_time(&stamp("29", "2", "2000", "0", "0", None)), civil(2000, 2, 29, 0, 0));
    assert_eq!(AchievementWriter::civil_time(&stamp("29", "2", "-4", "0", "0", None)), civil(-4, 2, 29, 0, 0));
    assert_eq!(AchievementWriter::civil_time(&stamp("0", "1", "2024", "0", "0", None)), civil(1970, 1, 1, 0, 0));
    assert_eq!(AchievementWriter::civil_time(&stamp("1", "13", "2024", "0", "0", None)), civil(1970, 1, 1, 0, 0));
    assert_eq!(AchievementWriter::civil_time(&stamp("1", "1", "262142", "0", "0", None)), civil(262142, 1, 1, 0, 0));
    assert_eq!(AchievementWriter::civil_time(&stamp("1", "1", "262143", "0", "0", None)), civil(1970, 1, 1, 0, 0));
    assert_eq!(AchievementWriter::civil_time(&stamp("1", "1", "-262143", "0", "0", None)), civil(-262143, 1, 1, 0, 0));
    assert_eq!(AchievementWriter::civil_time(&stamp("1", "1", "-262144", "0", "0", None)), civil(1970, 1, 1, 0, 0));
    assert_eq!((MIN_YEAR, MAX_YEAR), (-262143, 262142));
}

#[test]
fn times_that_do_not_exist_become_midnight() {
    assert_eq!(AchievementWriter::civil_time(&stamp("2", "3", "2024", "24", "10", None)), civil(2024, 3, 2, 0, 0));
    assert_eq!(AchievementWriter::civil_time(&stamp("2", "3", "2024", "23", "60", None)), civil(2024, 3, 2, 0, 0));
    assert_eq!(AchievementWriter::civil_time(&stamp("2", "3", "2024", "23", "59", None)), civil(2024, 3, 2, 23, 59));
}

#[test]
fn timestamps_show_civil_times() {
    let t = AchievementWriter::timestamp_for(civil(2024, 3, 5, 14, 7), TimeFormat::TwentyFourHour);
    assert_eq!(t, stamp("05", "03", "2024", "14", "07", None));
    let t = AchievementWriter::timestamp_for(civil(2024, 3, 5, 14, 7), TimeFormat::TwelveHour);
    assert_eq!(t, stamp("05", "03", "2024", "02", "07", Some("PM")));
    let t = AchievementWriter::timestamp_for(civil(2024, 12, 31, 0, 0), TimeFormat::TwelveHour);
    assert_eq!(t, stamp("31", "12", "2024", "12", "00", Some("AM")));
    let t = AchievementWriter::timestamp_for(civil(-5, 1, 1, 12, 59), TimeFormat::TwelveHour);
    assert_eq!(t, stamp("01", "01", "-5", "12", "59", Some("PM")));
}

#[test]
fn shown_timestamps_read_back() {
    for format in [TimeFormat::TwelveHour, TimeFormat::TwentyFourHour] {
        for hour in 0..24 {
            let c = civil(2023, 11, 9, hour, 59 - hour);
            assert_eq!(AchievementWriter::civil_time(&AchievementWriter::timestamp_for(c, format)), c);
        }
    }
}

#[test]
fn unix_time_follows_the_local_clock() {
    let noon = AchievementWriter::timestamp_to_unix(&stamp("15", "1", "2024", "12", "0", None));
    let utc_noon = 1705320000i64;
    assert!((noon - utc_noon).abs() <= 15 * 3600, "{}", noon);
    let later = AchievementWriter::timestamp_to_unix(&stamp("16", "1", "2024", "12", "0", None));
    assert!((later - noon - 86400).abs() <= 7200);
    let pm = AchievementWriter::timestamp_to_unix(&stamp("15", "1", "2024", "12", "0", Some("PM")));
    assert_eq!(pm, noon);
}

fn utc_reading(year: i32, month: u32, day: u32, hour: u32, minute: u32) -> i64 {
    chrono::NaiveDate::from_ymd_opt(year, month, day)
        .unwrap()
        .and_hms_opt(hour, minute, 0)
        .unwrap()
        .and_utc()
        .timestamp()
}

#[test]
fn unix_time_lies_within_a_day_of_the_utc_reading() {
    let dates = [
        (1970, 1, 1, 0, 0),
        (1969, 12, 31, 23, 59),
        (2000, 2, 29, 12, 30),
        (2024, 3, 31, 2, 30),
        (2024, 10, 27, 2, 30),
        (1600, 1, 1, 0, 0),
        (-4, 2, 29, 6, 0),
        (9999, 12, 31, 23, 59),
    ];
    for (year, month, day, hour, minute) in dates {
        let shown = stamp(
            &day.to_string(),
            &month.to_string(),
            &year.to_string(),
            &hour.to_string(),
            &minute.to_string(),
            None,
        );
        let local = AchievementWriter::timestamp_to_unix(&shown);
        let utc = utc_reading(year, month, day, hour, minute);
        assert!(local == 0 || (local - utc).abs() < 86400, "{:?}: {} against {}", shown, local, utc);
    }
    assert_eq!(utc_reading(2024, 1, 15, 12, 0), 1705320000);
    assert_eq!(utc_reading(1970, 1, 1, 0, 0), 0);
}

#[test]
fn a_moment_that_was_not_found_counts_as_zero() {
    assert_eq!(AchievementWriter::seconds_or_zero(None), 0);
    assert_eq!(AchievementWriter::seconds_or_zero(Some(1700000000)), 1700000000);
    assert_eq!(AchievementWriter::seconds_or_zero(Some(-5)), -5);
    assert_eq!(AchievementWriter::seconds_or_zero(Some(0)), 0);
}

#[test]
fn a_text_that_could_not_be_written_is_an_error() {
    assert_eq!(AchievementWriter::written_text(Ok("{}".to_string())), Ok("{}".to_string()));
    let failure = serde_json::from_str::<serde_json::Value>("{").unwrap_err();
    assert_eq!(AchievementWriter::written_text(Err(failure)), Err(UnlockError::Serialize));
}

#[test]
fn unix_time_at_the_ends_of_the_calendar() {
    let last = AchievementWriter::timestamp_to_unix(&stamp("31", "12", "262142", "23", "59", None));
    let first = AchievementWriter::timestamp_to_unix(&stamp("1", "1", "-262143", "0", "0", None));
    assert!(last == 0 || last > 8_000_000_000_000, "{}", last);
    assert!(first == 0 || first < -8_000_000_000_000, "{}", first);
    let epoch = AchievementWriter::timestamp_to_unix(&stamp("1", "1", "1970", "12", "0", None));
    assert!(epoch.abs() <= 27 * 3600, "{}", epoch);
}

#[test]
fn only_completed_achievements_are_processed() {
    let options = UnlockOptions {
        game_id: "1".to_string(),
        selected_path: "/games".to_string(),
        achievements: vec![
            AchievementToUnlock { name: "A".to_string(), completed: true, timestamp: stamp("15", "1", "2024", "12", "0", None) },
            AchievementToUnlock { name: "B".to_string(), completed: false, timestamp: stamp("15", "1", "2024", "12", "0", None) },
            AchievementToUnlock { name: "C".to_string(), completed: true, timestamp: blank() },
            AchievementToUnlock { name: "D".to_string(), completed: true, timestamp: stamp("15", "1", "2024", "12", "", None) },
        ],
        mode: UnlockMode::Custom,
        custom_timestamp: Some(stamp("16", "1", "2024", "12", "0", None)),
        time_format: TimeFormat::TwentyFourHour,
    };
    let entries = AchievementUnlocker::process_achievements(&options);
    let names: Vec<&str> = entries.iter().map(|e| e.name.as_str()).collect();
    assert_eq!(names, vec!["A", "C", "D"]);
    assert!(entries.iter().all(|e| e.achieved));
    let own = AchievementWriter::timestamp_to_unix(&stamp("15", "1", "2024", "12", "0", None));
    let custom = AchievementWriter::timestamp_to_unix(&stamp("16", "1", "2024", "12", "0", None));
    assert_eq!(entries[0].unlock_time, own);
    assert_eq!(entries[1].unlock_time, custom);
    assert_eq!(entries[2].unlock_time, custom);
    assert_ne!(own, custom);
}

#[test]
fn current_and_random_times_lie_in_the_past_year() {
    let mut options = UnlockOptions {
        game_id: "1".to_string(),
        selected_path: "/games".to_string(),
        achievements: vec![AchievementToUnlock { name: "A".to_string(), completed: true, timestamp: blank() }],
        mode: UnlockMode::Current,
        custom_timestamp: None,
        time_format: TimeFormat::TwelveHour,
    };
    let now = std::time::SystemTime::now().duration_since(std::time::UNIX_EPOCH).unwrap().as_secs() as i64;
    let current = AchievementUnlocker::process_achievements(&options)[0].unlock_time;
    assert!(current <= now + 7200 && current >= now - 7200, "{} against {}", current, now);
    options.mode = UnlockMode::Random;
    for format in [TimeFormat::TwelveHour, TimeFormat::TwentyFourHour] {
        options.time_format = format;
        for _ in 0..20 {
            let random = AchievementUnlocker::process_achievements(&options)[0].unlock_time;
            assert!(random == 0 || (random <= now + 7200 && random >= now - 366 * 86400), "{}", random);
        }
    }
    options.mode = UnlockMode::Custom;
    let fallback = AchievementUnlocker::process_achievements(&options)[0].unlock_time;
    assert_eq!(fallback, AchievementWriter::timestamp_to_unix(&stamp("1", "1", "2024", "0", "0", None)));
}

#[test]
fn json_text_keeps_what_the_file_held() {
    let existing = r#"{"A":{"earned":false,"earned_time":0,"progress":3},"Z":{"earned":true,"earned_time":9},"N":5}"#;
    let text = AchievementWriter::render_gse_achievement_file(
        Some(existing),
        &[entry("A", true, 100), entry("B", false, 200), entry("N", true, 7)],
    )
    .unwrap();
    let got: serde_json::Value = serde_json::from_str(&text).unwrap();
    let want: serde_json::Value = serde_json::from_str(
        r#"{"A":{"earned":true,"earned_time":100,"progress":3},"Z":{"earned":true,"earned_time":9},
            "B":{"earned":false,"earned_time":0},"N":{"earned":true,"earned_time":7}}"#,
    )
    .unwrap();
    assert_eq!(got, want);
    assert!(text.contains('\n'));
    let read = AchievementParser::parse_gse_achievement_json(&text).unwrap();
    assert_eq!(read.len(), 4);
    assert!(read.contains(&entry("A", true, 100)));
    assert!(read.contains(&entry("B", false, 0)));
}

#[test]
fn json_text_without_a_usable_file() {
    for existing in [None, Some("not json"), Some("[1]"), Some("null")] {
        let text = AchievementWriter::render_gse_achievement_file(existing, &[entry("A", true, 5)]).unwrap();
        let got: serde_json::Value = serde_json::from_str(&text).unwrap();
        let want: serde_json::Value = serde_json::from_str(r#"{"A":{"earned":true,"earned_time":5}}"#).unwrap();
        assert_eq!(got, want);
    }
    let none = AchievementWriter::render_gse_achievement_file(None, &[]).unwrap();
    assert_eq!(none, "{}");
}

#[test]
fn json_text_last_entry_of_a_name_counts() {
    let text = AchievementWriter::render_gse_achievement_file(
        Some(r#"{"A":{"x":1}}"#),
        &[entry("A", true, 5), entry("A", false, 6)],
    )
    .unwrap();
    let got: serde_json::Value = serde_json::from_str(&text).unwrap();
    let want: serde_json::Value = serde_json::from_str(r#"{"A":{"x":1,"earned":false,"earned_time":0}}"#).unwrap();
    assert_eq!(got, want);
}

#[test]
fn loader_roots_are_told_by_their_path() {
    assert!(AchievementUnlocker::path_is_gse("C:/users/me/AppData/Roaming/GSE Saves"));
    assert!(AchievementUnlocker::path_is_gse("/home/me/.wine/drive_c/users/me/gse saves/"));
    assert!(AchievementUnlocker::path_is_gse("/x/GSE SAVES/y"));
    assert!(!AchievementUnlocker::path_is_gse("/x/GSESaves"));
    assert!(!AchievementUnlocker::path_is_gse("/x/CODEX"));
}

#[test]
fn unlock_is_planned_in_the_ini_form() {
    let entries = [entry("A", true, 5)];
    let plan = AchievementUnlocker::plan_unlock(&entries, "/games/CODEX", "100", false, None).unwrap();
    let ini = Path::new("/games/CODEX").join("100").join("achievements.ini");
    assert_eq!(Path::new(&plan.path), ini);
    assert_eq!(plan.delete.as_deref().map(Path::new), Some(ini.as_path()));
    assert_eq!(plan.content, "[A]\nAchieved=1\nUnlockTime=5\n\n");
}

#[test]
fn unlock_is_planned_in_the_json_form() {
    let entries = [entry("A", true, 5)];
    let json = Path::new("/games/CODEX").join("100").join("achievements.json");
    let plan = AchievementUnlocker::plan_unlock(&entries, "/games/CODEX", "100", true, Some(r#"{"B":{}}"#)).unwrap();
    assert_eq!(Path::new(&plan.path), json);
    assert_eq!(plan.delete, None);
    let got: serde_json::Value = serde_json::from_str(&plan.content).unwrap();
    let want: serde_json::Value = serde_json::from_str(r#"{"A":{"earned":true,"earned_time":5},"B":{}}"#).unwrap();
    assert_eq!(got, want);
    let plan = AchievementUnlocker::plan_unlock(&entries, "/x/GSE Saves", "100", false, None).unwrap();
    assert_eq!(Path::new(&plan.path), Path::new("/x/GSE Saves").join("100").join("achievements.json"));
    assert_eq!(plan.delete, None);
}

#[test]
fn unlock_request_is_planned() {
    let options = UnlockOptions {
        game_id: "42".to_string(),
        selected_path: "~/games".to_string(),
        achievements: vec![
            AchievementToUnlock { name: "A".to_string(), completed: true, timestamp: blank() },
            AchievementToUnlock { name: "B".to_string(), completed: false, timestamp: blank() },
        ],
        mode: UnlockMode::Custom,
        custom_timestamp: None,
        time_format: TimeFormat::TwentyFourHour,
    };
    let plan = AchievementUnlocker::unlock_achievements(&options, "/home/u/games", false, None).unwrap();
    assert_eq!(Path::new(&plan.path), Path::new("/home/u/games").join("42").join("achievements.ini"));
    let read = AchievementParser::parse_ini_achievements(&plan.content);
    assert_eq!(read.len(), 1);
    assert_eq!(read[0].name, "A");
    assert!(read[0].achieved);
}
