use achievement_sync::api::language::{map_ui_language_to_hydra_lang, map_ui_language_to_steam_store_lang};
use achievement_sync::api::steam::{PlayerStatus, SteamAchievement};
use achievement_sync::api::{HydraAPI, SteamAPI};
use achievement_sync::exporter::{AchievementExporter, ExportedAchievement};
use achievement_sync::lookup::{
    app_details_url, direct_app_id, merge_search_results, parse_game_name, parse_search_items,
    store_search_url,
};
use achievement_sync::models::{HydraAchievement, HydraGameAchievements, SteamGameSearchResult};
use achievement_sync::parser::ParseError;
use achievement_sync::settings::{
    choose_language, export_allowed, get_saved_steam_manual_paths, read_api_settings,
    read_language_from_settings, uses_steam_api, ApiSettings, EXPORT_COOLDOWN,
};
use achievement_sync::steam_integration::{nth_field, SteamGame, SteamIntegration};
use achievement_sync::text::chars_of;

fn hydra(name: &str, description: &str, hidden: bool) -> HydraAchievement {
    HydraAchievement {
        name: name.to_string(),
        display_name: format!("{} shown", name),
        description: description.to_string(),
        icon: format!("http://icons/{}.jpg", name),
        icongray: format!("http://icons/{}_gray.jpg", name),
        hidden,
    }
}

fn steam(apiname: &str, description: Option<&str>) -> SteamAchievement {
    SteamAchievement {
        apiname: apiname.to_string(),
        achieved: 0,
        unlocktime: 0,
        name: None,
        description: description.map(|d| d.to_string()),
        icon: None,
        icongray: None,
        percent_bits: 0,
        hidden: false,
    }
}

fn hit(id: u32, name: &str) -> SteamGameSearchResult {
    SteamGameSearchResult { id, name: name.to_string(), achievements_total: 0 }
}

#[test]
fn hydra_achievement_by_name() {
    let game = HydraGameAchievements {
        game_id: "1".to_string(),
        achievements: vec![hydra("A", "first", false), hydra("B", "b", true), hydra("A", "second", false)],
    };
    assert_eq!(HydraAPI::get_achievement_by_name(&game, "A"), Some(hydra("A", "first", false)));
    assert_eq!(HydraAPI::get_achievement_by_name(&game, "B"), Some(hydra("B", "b", true)));
    assert_eq!(HydraAPI::get_achievement_by_name(&game, "a"), None);
    let empty = HydraGameAchievements { game_id: "1".to_string(), achievements: vec![] };
    assert_eq!(HydraAPI::get_achievement_by_name(&empty, "A"), None);
}

#[test]
fn hydra_address() {
    assert_eq!(
        HydraAPI::achievements_url("https://h", "730", Some("pt")),
        "https://h/games/achievements?shop=steam&objectId=730&language=pt"
    );
    assert_eq!(HydraAPI::achievements_url("https://h", "730", Some("fr")), "https://h/games/achievements?shop=steam&objectId=730");
    assert_eq!(HydraAPI::achievements_url("https://h", "730", None), "https://h/games/achievements?shop=steam&objectId=730");
    for code in ["en", "es", "ru"] {
        assert!(HydraAPI::achievements_url("b", "1", Some(code)).ends_with(&format!("&language={}", code)));
    }
}

#[test]
fn languages() {
    let store = [
        ("en-US", "english"), ("pt-BR", "portuguese"), ("fr-FR", "french"), ("it-IT", "italian"),
        ("de-DE", "german"), ("es-ES", "spanish"), ("ru-RU", "russian"), ("ja-JP", "japanese"),
        ("zh-CN", "schinese"), ("pl-PL", "polish"), ("uk-UA", "ukrainian"), ("xx-XX", "english"), ("", "english"),
    ];
    for (tag, want) in store {
        assert_eq!(map_ui_language_to_steam_store_lang(tag), want);
    }
    for (tag, want) in [("en-US", "en"), ("es-ES", "es"), ("ru-RU", "ru"), ("pt-BR", "pt"), ("fr-FR", "en"), ("pt-br", "en")] {
        assert_eq!(map_ui_language_to_hydra_lang(tag), want);
    }
    for (name, want) in [("english", "en"), ("Spanish", "es"), ("RUSSIAN", "ru"), ("portuguese", "pt"), ("Brazilian", "pt"), ("french", "en"), ("", "en")] {
        assert_eq!(SteamAPI::map_language(name), want);
    }
}

#[test]
fn steam_addresses() {
    assert_eq!(
        SteamAPI::schema_url("https://api", "KEY", 730, "english"),
        "https://api/ISteamUserStats/GetSchemaForGame/v2/?key=KEY&appid=730&l=english"
    );
    assert_eq!(
        SteamAPI::player_achievements_url("https://api", "KEY", 0, "765"),
        "https://api/ISteamUserStats/GetPlayerAchievements/v1/?key=KEY&appid=0&steamid=765"
    );
    assert_eq!(
        SteamAPI::global_percentages_url("https://api", u32::MAX),
        "https://api/ISteamUserStats/GetGlobalAchievementPercentagesForApp/v0002/?gameid=4294967295&format=json"
    );
}

#[test]
fn steam_schema() {
    let body = r#"{"game":{"availableGameStats":{"achievements":[
        {"name":"A","displayName":"Alpha","description":"d","icon":"i","icongray":"g","hidden":1},
        {"name":"B","hidden":0},
        {"displayName":7,"hidden":"1"}
    ]}}}"#;
    let got = SteamAPI::parse_schema(body).unwrap();
    assert_eq!(got.len(), 3);
    assert_eq!(
        got[0],
        SteamAchievement {
            apiname: "A".to_string(),
            achieved: 0,
            unlocktime: 0,
            name: Some("Alpha".to_string()),
            description: Some("d".to_string()),
            icon: Some("i".to_string()),
            icongray: Some("g".to_string()),
            percent_bits: 0,
            hidden: true,
        }
    );
    assert_eq!(got[1], steam("B", None));
    assert_eq!(got[2], steam("", None));
    for body in ["{}", r#"{"game":{}}"#, r#"{"game":{"availableGameStats":{"achievements":{}}}}"#, "[]", "3"] {
        assert_eq!(SteamAPI::parse_schema(body), Ok(vec![]));
    }
    assert_eq!(SteamAPI::parse_schema("<html>"), Err(ParseError::InvalidJson));
}

#[test]
fn steam_player_achievements() {
    let body = r#"{"playerstats":{"achievements":[
        {"apiname":"A","achieved":1,"unlocktime":1700000000},
        {"apiname":"B","achieved":0,"unlocktime":0},
        {"apiname":"C","achieved":4294967297,"unlocktime":"x"},
        {}
    ]}}"#;
    let got = SteamAPI::parse_player_achievements(body).unwrap();
    let status: Vec<(&str, i32, i64)> = got.iter().map(|a| (a.apiname.as_str(), a.achieved, a.unlocktime)).collect();
    assert_eq!(status, vec![("A", 1, 1700000000), ("B", 0, 0), ("C", 1, 0), ("", 0, 0)]);
    assert_eq!(SteamAPI::parse_player_achievements(r#"{"playerstats":{"error":"x"}}"#), Ok(vec![]));
    assert_eq!(SteamAPI::parse_player_achievements(""), Err(ParseError::InvalidJson));
}

#[test]
fn steam_descriptions_are_filled_in() {
    let mut list = vec![steam("A", None), steam("B", Some("  \n")), steam("C", Some("kept")), steam("D", Some(""))];
    let known = vec![hydra("A", "old a", false), hydra("C", "other c", false), hydra("B", "hydra b", false), hydra("A", "hydra a", false)];
    SteamAPI::fill_descriptions(&mut list, &known);
    let got: Vec<Option<&str>> = list.iter().map(|a| a.description.as_deref()).collect();
    assert_eq!(got, vec![Some("hydra a"), Some("hydra b"), Some("kept"), Some("")]);
}

#[test]
fn steam_status_of_the_player() {
    let mut list = vec![steam("A", None), steam("B", None)];
    let mut first = steam("A", None);
    first.achieved = 1;
    first.unlocktime = 5;
    let mut second = steam("A", None);
    second.achieved = 0;
    second.unlocktime = 9;
    SteamAPI::apply_player_status(&mut list, &[first, second]);
    assert_eq!((list[0].achieved, list[0].unlocktime), (0, 9));
    assert_eq!((list[1].achieved, list[1].unlocktime), (0, 0));
}

#[test]
fn steam_manifests() {
    let acf = "\"AppState\"\r\n{\r\n\t\"appid\"\t\t\"730\"\r\n\t\"Universe\"\t\t\"1\"\r\n\t\"name\"\t\t\"Counter-Strike 2\"\r\n}\r\n";
    assert_eq!(SteamIntegration::parse_acf_value(acf, "appid"), Some("730".to_string()));
    assert_eq!(SteamIntegration::parse_acf_value(acf, "name"), Some("Counter-Strike 2".to_string()));
    assert_eq!(SteamIntegration::parse_acf_value(acf, "NAME"), Some("Counter-Strike 2".to_string()));
    assert_eq!(SteamIntegration::parse_acf_value(acf, "Universe"), Some("1".to_string()));
    assert_eq!(SteamIntegration::parse_acf_value(acf, "missing"), None);
    assert_eq!(SteamIntegration::parse_acf_value(acf, "AppState"), None);
    assert_eq!(SteamIntegration::parse_acf_value("\"k\" \"open", "k"), Some("open".to_string()));
    assert_eq!(SteamIntegration::parse_acf_value("\"k\" x\n\"K\" \"v\"", "k"), Some("v".to_string()));
    assert_eq!(SteamIntegration::parse_acf_value("", "k"), None);
}

#[test]
fn steam_fields_of_a_line() {
    let line = chars_of("a\"b\"\"c");
    let field = |n: usize| nth_field(&line, 0, line.len(), '"', n).map(|(a, b)| line[a..b].iter().collect::<String>());
    assert_eq!(field(0), Some("a".to_string()));
    assert_eq!(field(1), Some("b".to_string()));
    assert_eq!(field(2), Some("".to_string()));
    assert_eq!(field(3), Some("c".to_string()));
    assert_eq!(field(4), None);
    let want: Vec<&str> = "a\"b\"\"c".split('"').collect();
    assert_eq!(want, vec!["a", "b", "", "c"]);
}

#[test]
fn steam_owned_games() {
    let manifest = |id: &str, name: &str| format!("\"AppState\"\n{{\n\t\"appid\"\t\"{}\"\n\t\"name\"\t\"{}\"\n}}", id, name);
    let got = SteamIntegration::get_owned_games(&[
        manifest("10", "Ten"),
        "\"appid\" \"11\"".to_string(),
        manifest("20", "Twenty"),
        manifest("10", "Ten again"),
    ]);
    let want = |id: &str, name: &str| SteamGame {
        game_id: id.to_string(),
        name: name.to_string(),
        achievements_total: 0,
        achievements_current: 0,
        source: "steam".to_string(),
    };
    assert_eq!(got, vec![want("10", "Ten"), want("20", "Twenty")]);
}

#[test]
fn steam_library_lines() {
    assert_eq!(SteamIntegration::library_path_of_line("\t\t\"path\"\t\t\"/mnt/games/Steam\""), Some("/mnt/games/Steam".to_string()));
    assert_eq!(SteamIntegration::library_path_of_line("\t\t\"label\"\t\t\"x\""), None);
    assert_eq!(SteamIntegration::library_path_of_line("\"path\""), None);
    assert_eq!(SteamIntegration::library_path_of_line("\"PATH\" \"x\""), None);
}

#[test]
fn steam_session_state() {
    let mut s = SteamIntegration::new();
    assert!(!s.is_enabled());
    assert!(s.needs_initialize());
    assert_eq!(s.get_last_init_error(), None);
    s.initialize(Some("no client".to_string()));
    assert!(!s.is_enabled());
    assert_eq!(s.get_last_init_error(), Some("no client".to_string()));
    s.initialize(None);
    assert!(s.is_enabled());
    assert!(!s.needs_initialize());
    assert_eq!(s.get_last_init_error(), None);
    s.switch_app_id();
    assert!(!s.is_enabled());
    s.initialize(Some("x".to_string()));
    s.shutdown();
    assert!(!s.is_enabled());
    assert_eq!(s.get_last_init_error(), None);
}

#[test]
fn steam_app_id_of_a_session() {
    let some = |s: &str| Some(s.to_string());
    assert_eq!(SteamIntegration::resolve_appid_for_init(&[None, None, None]), "480");
    assert_eq!(SteamIntegration::resolve_appid_for_init(&[some("  "), some(" 730\n"), some("10")]), "730");
    assert_eq!(SteamIntegration::resolve_appid_for_init(&[some("5"), some("730")]), "5");
    assert_eq!(SteamIntegration::resolve_appid_for_init(&[]), "480");
    assert!(SteamIntegration::appid_file_needs_write(None, "480"));
    assert!(SteamIntegration::appid_file_needs_write(Some("730"), "480"));
    assert!(!SteamIntegration::appid_file_needs_write(Some(" 480\n"), "480"));
}

#[test]
fn store_addresses() {
    assert_eq!(app_details_url("https://s/api", "730", "english"), "https://s/api/appdetails?appids=730&l=english");
    assert_eq!(
        store_search_url("https://s/api", "  half life 2: épisode ", "french"),
        "https://s/api/storesearch/?term=half%20life%202%3A%20%C3%A9pisode&l=french&cc=us&snr=1_4_4__12"
    );
    assert_eq!(
        store_search_url("b", "AZaz09-._~", "l"),
        "b/storesearch/?term=AZaz09-._~&l=l&cc=us&snr=1_4_4__12"
    );
    assert_eq!(direct_app_id(" 730 "), Some(730));
    assert_eq!(direct_app_id("half life"), None);
    assert_eq!(direct_app_id(""), None);
}

#[test]
fn store_game_name() {
    let body = r#"{"730":{"success":true,"data":{"name":"Counter-Strike 2"}},"10":{"success":false},"11":{"success":true,"data":{}}}"#;
    assert_eq!(parse_game_name(body, "730"), Ok(Some("Counter-Strike 2".to_string())));
    assert_eq!(parse_game_name(body, "10"), Ok(None));
    assert_eq!(parse_game_name(body, "11"), Ok(None));
    assert_eq!(parse_game_name(body, "12"), Ok(None));
    assert_eq!(parse_game_name(r#"{"730":{"success":"true","data":{"name":"x"}}}"#, "730"), Ok(None));
    assert_eq!(parse_game_name("oops", "730"), Err(ParseError::InvalidJson));
}

#[test]
fn store_search() {
    let body = r#"{"total":3,"items":[{"id":10,"name":"Ten"},{"id":"11","name":"skipped"},{"id":12},{"id":4294967306,"name":"Wrapped"},{"id":-1,"name":"neg"}]}"#;
    assert_eq!(parse_search_items(body), Ok(vec![hit(10, "Ten"), hit(10, "Wrapped")]));
    assert_eq!(parse_search_items("{}"), Ok(vec![]));
    assert_eq!(parse_search_items("{"), Err(ParseError::InvalidJson));
    let merged = merge_search_results(vec![hit(20, "Direct")], vec![hit(10, "Ten"), hit(20, "Twenty"), hit(10, "Ten too"), hit(30, "Thirty")]);
    assert_eq!(merged, vec![hit(20, "Direct"), hit(10, "Ten"), hit(30, "Thirty")]);
    let many: Vec<SteamGameSearchResult> = (0..40).map(|i| hit(i, "g")).collect();
    let first: Vec<SteamGameSearchResult> = (0..15).map(|i| hit(i, "g")).collect();
    assert_eq!(merge_search_results(vec![], many), first);
    assert_eq!(merge_search_results(vec![], vec![]), vec![]);
}

#[test]
fn settings_of_the_services() {
    let text = r#"{"selectedApi":"steam","steamApiKey":"K","steamId":"765","language":"pt-BR","enableCache":false}"#;
    let got = read_api_settings(Some(text));
    assert_eq!(
        got,
        ApiSettings {
            selected_api: "steam".to_string(),
            steam_api_key: "K".to_string(),
            steam_id: "765".to_string(),
            language: Some("pt-BR".to_string()),
        }
    );
    assert!(uses_steam_api(&got));
    let plain = ApiSettings { selected_api: "hydra".to_string(), steam_api_key: String::new(), steam_id: String::new(), language: None };
    for text in [None, Some("broken"), Some("{}"), Some(r#"{"selectedApi":1,"steamId":null}"#), Some("[]")] {
        assert_eq!(read_api_settings(text), plain);
    }
    assert!(!uses_steam_api(&plain));
    let no_key = read_api_settings(Some(r#"{"selectedApi":"steam"}"#));
    assert!(!uses_steam_api(&no_key));
    let other = read_api_settings(Some(r#"{"selectedApi":"Steam","steamApiKey":"K"}"#));
    assert!(!uses_steam_api(&other));
}

#[test]
fn settings_language_and_paths() {
    assert_eq!(read_language_from_settings(Some(r#"{"language":"de-DE"}"#)), "de-DE");
    assert_eq!(read_language_from_settings(Some(r#"{"language":5}"#)), "en-US");
    assert_eq!(read_language_from_settings(Some("{")), "en-US");
    assert_eq!(read_language_from_settings(None), "en-US");
    assert_eq!(choose_language(Some("a".to_string()), Some("b".to_string())), "a");
    assert_eq!(choose_language(None, Some("b".to_string())), "b");
    assert_eq!(choose_language(None, None), "en-US");
    let text = r#"{"steamManualVdfPath":"/v","steamManualDllPath":"/d"}"#;
    assert_eq!(get_saved_steam_manual_paths(Some(text)), (Some("/v".to_string()), Some("/d".to_string())));
    assert_eq!(get_saved_steam_manual_paths(Some(r#"{"steamManualDllPath":"/d"}"#)), (None, Some("/d".to_string())));
    assert_eq!(get_saved_steam_manual_paths(None), (None, None));
}

#[test]
fn export_cooldown() {
    assert_eq!(EXPORT_COOLDOWN, 2000);
    assert!(export_allowed(None, 0));
    assert!(!export_allowed(Some(1000), 1000));
    assert!(!export_allowed(Some(1000), 2999));
    assert!(export_allowed(Some(1000), 3000));
    assert!(export_allowed(Some(1000), 999));
    assert!(!export_allowed(Some(u64::MAX), 1998));
    assert!(export_allowed(Some(u64::MAX), 1999));
}

#[test]
fn export_list_and_progress() {
    let list = vec![hydra("A", "a", false), hydra("B", "b", true)];
    let p = AchievementExporter::progress(&list, 1);
    assert_eq!((p.current, p.total, p.name.as_str(), p.icon.as_str()), (2, 2, "B shown", "http://icons/B.jpg"));
    assert_eq!(AchievementExporter::icon_path(1), "images/1.jpg");
    assert_eq!(AchievementExporter::gray_icon_path(12), "images/12_gray.jpg");
    let got = AchievementExporter::export_achievements(&list);
    assert_eq!(
        got,
        vec![
            ExportedAchievement {
                name: "A".to_string(),
                display_name: "A shown".to_string(),
                description: "a".to_string(),
                hidden: 0,
                icon: "images/1.jpg".to_string(),
                icongray: "images/1_gray.jpg".to_string(),
            },
            ExportedAchievement {
                name: "B".to_string(),
                display_name: "B shown".to_string(),
                description: "b".to_string(),
                hidden: 1,
                icon: "images/2.jpg".to_string(),
                icongray: "images/2_gray.jpg".to_string(),
            },
        ]
    );
}

#[test]
fn status_and_hidden_names() {
    let mut first = steam("A", None);
    first.achieved = 1;
    first.unlocktime = 5;
    let mut second = steam("A", None);
    second.achieved = 0;
    second.unlocktime = 9;
    let mut other = steam("C", None);
    other.achieved = 2;
    other.unlocktime = 7;
    other.hidden = true;
    let player = vec![first, second, other];
    assert_eq!(SteamAPI::player_status(&player, &"A".to_string()), Some(PlayerStatus { achieved: false, unlock_time: 9 }));
    assert_eq!(SteamAPI::player_status(&player, &"C".to_string()), Some(PlayerStatus { achieved: true, unlock_time: 7 }));
    assert_eq!(SteamAPI::player_status(&player, &"B".to_string()), None);
    let list = vec![hydra("C", "", true), hydra("B", "", false), hydra("A", "", true)];
    assert_eq!(
        HydraAPI::player_statuses(&list, &player),
        vec![Some(PlayerStatus { achieved: true, unlock_time: 7 }), None, Some(PlayerStatus { achieved: false, unlock_time: 9 })]
    );
    assert_eq!(HydraAPI::player_statuses(&list, &[]), vec![None, None, None]);
    assert_eq!(HydraAPI::hidden_names(&list), vec!["C", "A"]);
    assert_eq!(SteamAPI::hidden_names(&player), vec!["C"]);
    assert_eq!(HydraAPI::hidden_names(&[]), Vec::<String>::new());
}
