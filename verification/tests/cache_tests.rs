use achievement_sync::cache::{
    AppCache, CacheManager, CachedGame, RarityEntry, RarityTable, MAX_CACHE_SIZE,
};

fn game(last_updated: u64) -> CachedGame {
    CachedGame { name: None, achievements_total: None, rarity: None, hidden: None, last_updated }
}

fn table(entries: &[(&str, u64)]) -> RarityTable {
    let mut t = RarityTable::new();
    for (name, bits) in entries {
        t.set(name.to_string(), *bits);
    }
    t
}

fn ids(cache: &AppCache) -> Vec<String> {
    let mut out = Vec::new();
    for i in 0..cache.len() {
        out.push(cache.id_at(i).clone());
    }
    out.sort();
    out
}

#[test]
fn update_merges_and_does_not_replace() {
    let mut cache = AppCache::new();
    cache.update_game("g1".to_string(), Some("Foo".to_string()), None, None, None, 100);
    cache.update_game("g1".to_string(), None, Some(10), None, None, 200);
    let got = cache.get("g1").unwrap();
    assert_eq!(got.name, Some("Foo".to_string()));
    assert_eq!(got.achievements_total, Some(10));
    assert_eq!(got.rarity, None);
    assert_eq!(got.hidden, None);
    assert_eq!(got.last_updated, 200);
    assert_eq!(cache.len(), 1);
}

#[test]
fn update_replaces_a_supplied_field() {
    let mut cache = AppCache::new();
    let mut rarity = RarityTable::new();
    rarity.set("A".to_string(), 12.5f64.to_bits());
    cache.update_game("g".to_string(), Some("Old".to_string()), Some(1), Some(rarity), Some(vec!["h".to_string()]), 1);
    cache.update_game("g".to_string(), Some("New".to_string()), None, None, Some(vec![]), 2);
    let got = cache.get("g").unwrap();
    assert_eq!(got.name, Some("New".to_string()));
    assert_eq!(got.achievements_total, Some(1));
    assert_eq!(got.rarity.as_ref().map(|r| r.len()), Some(1));
    assert_eq!(f64::from_bits(got.rarity.as_ref().unwrap().entry_at(0).percent_bits), 12.5);
    assert_eq!(got.hidden, Some(vec![]));
    assert_eq!(got.last_updated, 2);
}

#[test]
fn update_leaves_other_games_alone() {
    let mut cache = AppCache::new();
    cache.update_game("a".to_string(), Some("A".to_string()), None, None, None, 1);
    cache.update_game("b".to_string(), Some("B".to_string()), None, None, None, 2);
    cache.update_game("a".to_string(), None, Some(3), None, None, 3);
    assert_eq!(cache.len(), 2);
    let b = cache.get("b").unwrap();
    assert_eq!((b.name.clone(), b.achievements_total, b.last_updated), (Some("B".to_string()), None, 2));
    assert!(cache.get("c").is_none());
}

#[test]
fn insert_and_remove() {
    let mut cache = AppCache::new();
    cache.insert("a".to_string(), game(1));
    cache.insert("b".to_string(), game(2));
    cache.insert("a".to_string(), game(3));
    assert_eq!(cache.len(), 2);
    assert_eq!(cache.get("a").unwrap().last_updated, 3);
    assert_eq!(cache.remove(&"a".to_string()).map(|g| g.last_updated), Some(3));
    assert_eq!(cache.remove(&"a".to_string()), None);
    assert_eq!(ids(&cache), vec!["b".to_string()]);
}

#[test]
fn eviction_drops_the_oldest_fifth() {
    let mut cache = AppCache::new();
    let stamps = [50u64, 10, 40, 20, 30, 90, 60, 80, 70, 100];
    for (i, t) in stamps.iter().enumerate() {
        cache.insert(format!("g{}", i), game(*t));
    }
    let dropped = cache.enforce_budget(MAX_CACHE_SIZE + 1);
    assert_eq!(dropped, 2);
    assert_eq!(cache.len(), 8);
    assert!(cache.get("g1").is_none());
    assert!(cache.get("g3").is_none());
    for i in [0usize, 2, 4, 5, 6, 7, 8, 9] {
        assert_eq!(cache.get(&format!("g{}", i)).unwrap().last_updated, stamps[i]);
    }
}

#[test]
fn eviction_rounds_up() {
    for (count, want) in [(0usize, 0usize), (1, 1), (2, 1), (4, 1), (5, 1), (6, 2), (10, 2), (11, 3)] {
        let mut cache = AppCache::new();
        for i in 0..count {
            cache.insert(format!("g{}", i), game(i as u64));
        }
        assert_eq!(cache.evict_oldest(), want, "count {}", count);
        assert_eq!(cache.len(), count - want);
        for i in 0..count {
            assert_eq!(cache.get(&format!("g{}", i)).is_some(), i >= want, "count {} game {}", count, i);
        }
    }
}

#[test]
fn eviction_with_equal_ages_drops_the_right_number() {
    let mut cache = AppCache::new();
    for i in 0..10 {
        cache.insert(format!("g{}", i), game(7));
    }
    assert_eq!(cache.evict_oldest(), 2);
    assert_eq!(cache.len(), 8);
}

#[test]
fn within_the_budget_nothing_is_dropped() {
    let mut cache = AppCache::new();
    for i in 0..10 {
        cache.insert(format!("g{}", i), game(i));
    }
    assert_eq!(cache.enforce_budget(MAX_CACHE_SIZE), 0);
    assert_eq!(cache.enforce_budget(0), 0);
    assert_eq!(cache.len(), 10);
    assert_eq!(MAX_CACHE_SIZE, 134_217_728);
}

#[test]
fn caching_switch_is_read_from_settings() {
    assert!(CacheManager::is_cache_enabled(None));
    assert!(CacheManager::is_cache_enabled(Some("not json")));
    assert!(CacheManager::is_cache_enabled(Some("{}")));
    assert!(CacheManager::is_cache_enabled(Some(r#"{"enableCache": true}"#)));
    assert!(!CacheManager::is_cache_enabled(Some(r#"{"enableCache": false}"#)));
    assert!(CacheManager::is_cache_enabled(Some(r#"{"enableCache": "false"}"#)));
    assert!(CacheManager::is_cache_enabled(Some(r#"{"enableCache": 0}"#)));
    assert!(CacheManager::is_cache_enabled(Some(r#"[false]"#)));
    assert!(CacheManager::is_cache_enabled(Some(r#"{"language": "en-US"}"#)));
}

#[test]
fn the_switch_gates_reading_alone() {
    let mut cache = CacheManager::load(None);
    assert_eq!(cache.len(), 0);
    let switched_off = CacheManager::is_cache_enabled(Some(r#"{"enableCache": false}"#));
    assert!(!switched_off);
    CacheManager::update_game(&mut cache, "g".to_string(), Some("N".to_string()), None, None, None, 5);
    CacheManager::update_game(&mut cache, "g".to_string(), None, Some(3), None, None, 6);
    assert_eq!(cache.len(), 1);
    assert!(CacheManager::get_game(&cache, switched_off, "g").is_none());
    let got = CacheManager::get_game(&cache, true, "g").unwrap();
    assert_eq!((got.name, got.achievements_total, got.last_updated), (Some("N".to_string()), Some(3), 6));
    assert!(CacheManager::get_game(&cache, true, "other").is_none());
    let again = CacheManager::load(Some(cache));
    assert_eq!(again.len(), 1);
}

#[test]
fn duplicate_is_a_full_copy() {
    let g = CachedGame {
        name: Some("N".to_string()),
        achievements_total: Some(4),
        rarity: Some(table(&[("a", 1), ("b", 2)])),
        hidden: Some(vec!["x".to_string(), "y".to_string()]),
        last_updated: 9,
    };
    assert_eq!(g.duplicate(), g);
}

#[test]
fn a_name_occurs_once_in_a_rarity_table() {
    let mut t = RarityTable::new();
    assert_eq!(t.len(), 0);
    t.set("a".to_string(), 1);
    t.set("b".to_string(), 2);
    t.set("a".to_string(), 3);
    assert_eq!(t.len(), 2);
    assert_eq!(*t.entry_at(0), RarityEntry { name: "a".to_string(), percent_bits: 3 });
    assert_eq!(*t.entry_at(1), RarityEntry { name: "b".to_string(), percent_bits: 2 });
    assert_eq!(t.duplicate(), t);
}
