use arena_next::card_data::{
    import_hearthstonejson, is_valid_card_id, levenshtein, normalize_ocr_name, CardCache,
    CardCacheError, CardCacheFile, CardCacheInput, CardMetadata, CardResolution,
    HearthstoneJsonCard, Timestamp, CARD_CACHE_FORMAT_VERSION,
};

fn card(id: &str, name: &str, cost: Option<u8>, collectible: Option<bool>) -> CardMetadata {
    CardMetadata {
        id: id.to_owned(),
        name: name.to_owned(),
        cost,
        durability: None,
        card_type: None,
        classes: Vec::new(),
        collectible,
        set: None,
        dbf_id: None,
    }
}

fn cache(cards: Vec<CardMetadata>) -> CardCache {
    match CardCache::from_input(CardCacheInput::RawCards(cards)) {
        Ok(cache) => cache,
        Err(error) => panic!("{}", error.message()),
    }
}

#[test]
fn ocr_name_lookup_normalizes_apostrophes_and_spacing_but_stays_exact() {
    let mut whip = card("JAIL_503", "Blackpaw's Whip", Some(3), Some(true));
    whip.card_type = Some("WEAPON".to_owned());
    let cache = cache(vec![whip, card("TOKEN_1", "Blackpaw's Whip", None, Some(false))]);
    let matches = cache.find_collectible_by_ocr_name("  Blackpaw\u{2019}s   Whip ");
    assert_eq!(matches.len(), 1);
    assert_eq!(matches[0].id, "JAIL_503");
    assert!(cache.find_collectible_by_ocr_name("Blackpaw Whip").is_empty());
}

#[test]
fn bounded_ocr_name_lookup_repairs_one_character_only() {
    let cache = cache(vec![
        card("JAIL_703", "Gullible Guard", None, Some(true)),
        card("OTHER", "Gullible Bard", None, Some(true)),
    ]);
    let matches = cache.find_collectible_by_ocr_name_near("Gullible Guara", 1);
    assert_eq!(matches.len(), 1);
    assert_eq!(matches[0].0.id, "JAIL_703");
    assert_eq!(matches[0].1, 1);
    assert!(cache.find_collectible_by_ocr_name_near("Gullible Gxxxx", 1).is_empty());
}

#[test]
fn missing_metadata_does_not_become_a_zero_cost_card() {
    let cache = CardCache::empty();
    assert_eq!(
        cache.resolve("NEW_999"),
        CardResolution::MissingMetadata { card_id: "NEW_999".into() }
    );
    assert_eq!(
        cache.resolve("HERO_08"),
        CardResolution::NonCardEntity { entity_id: "HERO_08".into() }
    );
}

#[test]
fn unknown_lookup_is_non_mutating_even_when_repeated() {
    let cache = cache(vec![card("CS2_029", "Fireball", Some(4), None)]);
    let before = cache.len();

    assert!(cache.get("TLC_123").is_none());
    assert!(matches!(cache.resolve("TLC_123"), CardResolution::MissingMetadata { .. }));
    assert!(cache.get("TLC_123").is_none());
    assert_eq!(cache.len(), before);
}

#[test]
fn malformed_empty_name_is_missing_metadata_not_a_resolved_card() {
    let cache = cache(vec![card("TLC_123", "", Some(0), None)]);

    assert_eq!(
        cache.resolve("TLC_123"),
        CardResolution::MissingMetadata { card_id: "TLC_123".into() }
    );
    assert_eq!(cache.len(), 0);
}

fn cache_file(format_version: u32) -> CardCacheFile {
    CardCacheFile {
        format_version,
        source: "test".to_owned(),
        data_version: "1".to_owned(),
        updated_at: Timestamp { seconds: 1_767_225_600, nanoseconds: 0 },
        cards: vec![card("CS2_029", "Fireball", Some(4), None)],
    }
}

#[test]
fn accepts_cache_file_format() {
    let cache = match CardCache::from_input(CardCacheInput::Cache(cache_file(1))) {
        Ok(cache) => cache,
        Err(error) => panic!("{}", error.message()),
    };
    assert!(matches!(cache.resolve("CS2_029"), CardResolution::Resolved { .. }));
}

#[test]
fn imports_hearthstonejson_card_shapes() {
    let cache = import_hearthstonejson(
        vec![
            HearthstoneJsonCard {
                id: "EX1_116".to_owned(),
                name: "Leeroy Jenkins".to_owned(),
                cost: Some(5),
                durability: None,
                health: None,
                card_type: Some("MINION".to_owned()),
                classes: Vec::new(),
                card_class: Some("NEUTRAL".to_owned()),
                collectible: Some(true),
                set: Some("EXPERT1".to_owned()),
                dbf_id: Some(559),
            },
            HearthstoneJsonCard {
                id: "WEAPON_1".to_owned(),
                name: "Test Blade".to_owned(),
                cost: Some(3),
                durability: Some(0),
                health: Some(2),
                card_type: Some("WEAPON".to_owned()),
                classes: Vec::new(),
                card_class: Some("ROGUE".to_owned()),
                collectible: Some(true),
                set: None,
                dbf_id: None,
            },
        ],
        "https://api.hearthstonejson.com/v1/latest/enUS/cards.collectible.json".to_owned(),
        "fixture-build".to_owned(),
        Timestamp { seconds: 1_767_225_600, nanoseconds: 0 },
    );
    let CardResolution::Resolved { card } = cache.resolve("EX1_116") else {
        panic!("expected imported card");
    };
    assert_eq!(card.cost, Some(5));
    assert_eq!(card.card_type.as_deref(), Some("MINION"));
    assert_eq!(card.classes, ["NEUTRAL"]);
    let CardResolution::Resolved { card: weapon } = cache.resolve("WEAPON_1") else {
        panic!("expected imported weapon");
    };
    assert_eq!(weapon.durability, Some(2));
}

#[test]
fn a_cache_of_another_format_is_refused() {
    match CardCache::from_input(CardCacheInput::Cache(cache_file(CARD_CACHE_FORMAT_VERSION + 1))) {
        Ok(_) => panic!("a newer format must be refused"),
        Err(error) => {
            assert_eq!(error, CardCacheError::UnsupportedFormat { found: 2 });
            assert_eq!(error.message(), "unsupported card cache format 2; expected 1");
        }
    }
}

#[test]
fn names_are_folded_before_they_are_compared() {
    assert_eq!(normalize_ocr_name("  \u{c4}pfel\u{2019}s  TOP-Hat! "), "\u{e4}pfel's top hat");
    assert_eq!(levenshtein("kitten", "sitting"), 3);
    assert_eq!(levenshtein("", "abc"), 3);
    assert_eq!(levenshtein("guard", "guard"), 0);
}

#[test]
fn card_ids_are_upper_case_words() {
    assert!(is_valid_card_id("CS2_029"));
    assert!(!is_valid_card_id("cs2_029"));
    assert!(!is_valid_card_id("AB"));
    let cache = CardCache::empty();
    assert_eq!(cache.resolve(""), CardResolution::Unrevealed);
    assert_eq!(
        cache.resolve("not a card"),
        CardResolution::InvalidCardId { card_id: "not a card".into() }
    );
}

#[test]
fn a_name_is_found_in_any_letter_case() {
    let cache = cache(vec![
        card("B_2", "Fire Ball", Some(1), None),
        card("A_1", "FIRE ball", Some(2), None),
    ]);
    let found: Vec<&str> =
        cache.find_by_name(" fire BALL ").iter().map(|card| card.id.as_str()).collect();
    assert_eq!(found, ["A_1", "B_2"]);
    let file = cache.to_file(Timestamp { seconds: 7, nanoseconds: 0 });
    assert_eq!(file.format_version, CARD_CACHE_FORMAT_VERSION);
    assert_eq!(file.cards.len(), 2);
    assert_eq!(file.updated_at, Timestamp { seconds: 7, nanoseconds: 0 });
}

#[test]
fn names_read_off_the_screen_ignore_letter_case() {
    assert_eq!(normalize_ocr_name("FIREBALL 2"), normalize_ocr_name("fireball 2"));
    assert_eq!(normalize_ocr_name("Fire-Ball!"), "fire ball");
}

#[test]
fn a_cache_comes_back_from_its_file() {
    let now = Timestamp { seconds: 7, nanoseconds: 0 };
    let raw = CardCacheInput::RawCards(vec![
        card("B", "Second", Some(2), Some(true)),
        card("A", "First", None, None),
        card("B", "Second again", Some(3), Some(true)),
        card("C", "  ", Some(1), None),
    ]);
    let cache = match CardCache::from_input(raw) {
        Ok(cache) => cache,
        Err(error) => panic!("{}", error.message()),
    };
    let again = match CardCache::from_input(CardCacheInput::Cache(cache.to_file(now))) {
        Ok(cache) => cache,
        Err(error) => panic!("{}", error.message()),
    };
    assert_eq!(again.len(), 2);
    for id in ["A", "B", "C"] {
        assert_eq!(again.get(id), cache.get(id));
    }
    assert_eq!(again.get("B").unwrap().name, "Second again");
    assert_eq!(again.updated_at, Some(now));
}
