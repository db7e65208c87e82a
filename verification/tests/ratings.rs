use arena_next::card_data::Timestamp;
use arena_next::composite::CompositeRatingProvider;
use arena_next::imports::{
    changelog_from_groups, heartharena_score_label, hsreplay_bucket_class, import_firestone,
    import_heartharena_html, import_heartharena_sections, import_hsreplay, whole_value,
    FirestoneCardStats, FirestoneCardStatsRow, HearthArenaSection, HsReplayBucket,
    HsReplayCardStats, HsReplayCardStatsRow, HEARTHARENA_SECTIONS,
};
use arena_next::ratings::{
    local_rating_values, merge_local_rating_files, CardRating, LocalJsonRatingProvider,
    LocalRatingFile, LocalRatingRow, ProviderMetadata, RatingError, RatingOrigin, RatingProvider,
    RatingValue,
};
use arena_next::state::HeroClass;

fn value(number: f32) -> RatingValue {
    RatingValue { bits: number.to_bits() }
}

fn number(value: RatingValue) -> f32 {
    f32::from_bits(value.bits)
}

fn rfc3339(time: Timestamp) -> String {
    chrono::DateTime::from_timestamp(time.seconds, time.nanoseconds).unwrap().to_rfc3339()
}

fn timestamp(text: &str) -> Timestamp {
    let parsed: chrono::DateTime<chrono::Utc> = text.parse().unwrap();
    Timestamp { seconds: parsed.timestamp(), nanoseconds: parsed.timestamp_subsec_nanos() }
}

fn tier_list_page() -> String {
    let sections = [
        "death-knight",
        "demon-hunter",
        "druid",
        "hunter",
        "mage",
        "paladin",
        "priest",
        "rogue",
        "shaman",
        "warlock",
        "warrior",
        "any",
    ];
    let mut html = String::new();
    for section in sections {
        html.push_str(&format!(
            "<section class=\"tab tierlist {section}\" id=\"{section}\">"
        ));
        for index in 0..100 {
            html.push_str(&format!(
                "<dt data-card-image=\"https://cdn.heartharena.com/images/renders/enUS/CARD_{index:03}.webp\">Card {index}</dt><dd class=\"score score_95\">95</dd>"
            ));
        }
        html.push_str("</section>");
    }
    html
}

#[test]
fn heartharena_import_reads_all_classes_by_exact_card_id() {
    let mut html = tier_list_page();
    html.push_str("<h3 class=\"table-header\">7/1/26: Post-Release Update</h3>");
    let imported = import_heartharena_html(&html).unwrap();
    assert_eq!(imported.ratings.len(), 1_200);
    assert_eq!(rfc3339(imported.data_timestamp), "2026-07-01T00:00:00+00:00");
    assert_eq!(
        number(
            imported
                .ratings
                .iter()
                .find(|row| row.card_id == "CARD_000" && row.class == Some(HeroClass::Rogue))
                .unwrap()
                .value
        ),
        95.0
    );
}

#[test]
fn heartharena_import_rejects_partial_page() {
    assert!(import_heartharena_html("<html>temporarily unavailable</html>").is_err());
}

#[test]
fn a_tier_list_without_a_dated_change_is_refused() {
    assert_eq!(
        import_heartharena_html(&tier_list_page()),
        Err(RatingError::MissingChangelog)
    );
    assert!(changelog_from_groups(None).is_none());
    assert!(changelog_from_groups(Some(vec![
        None,
        Some("13/45/26".to_owned()),
        Some("Update".to_owned()),
    ]))
    .is_none());
}

fn full_sections(score: &str) -> Vec<HearthArenaSection> {
    HEARTHARENA_SECTIONS
        .iter()
        .map(|id| HearthArenaSection {
            id: (*id).to_owned(),
            scores: (0..100)
                .map(|index| (format!("CARD_{index:03}"), score.to_owned()))
                .collect(),
        })
        .collect()
}

#[test]
fn tier_list_scores_keep_their_words() {
    let file =
        import_heartharena_sections(&full_sections("100"), Some((0, "7/1/26".to_owned()))).unwrap();
    assert_eq!(file.ratings.len(), 1_200);
    assert!(file.ratings.iter().all(|row| number(row.value) == 100.0));
    assert_eq!(
        file.ratings[0].label.as_deref(),
        Some(heartharena_score_label(100))
    );
    let mut short = full_sections("100");
    short[3].scores.truncate(39);
    assert!(matches!(
        import_heartharena_sections(&short, Some((0, "7/1/26".to_owned()))),
        Err(RatingError::IncompleteSection { count: 39, .. })
    ));
    assert_eq!(number(whole_value(95)), 95.0);
    assert_eq!(number(whole_value(0)), 0.0);
    assert_eq!(number(whole_value(u16::MAX)), 65535.0);
}

fn hsreplay_row(card_id: String, rate: f32, games: u64) -> HsReplayCardStatsRow {
    HsReplayCardStatsRow { card_id, drawn_win_rate: value(rate), num_games: games }
}

#[test]
fn hsreplay_import_uses_drawn_win_rate_and_all_bucket_as_generic() {
    let mut rows: Vec<HsReplayCardStatsRow> = Vec::new();
    for index in 0..520 {
        rows.push(hsreplay_row(format!("C{index:03}"), 50.0, 100));
    }
    rows.push(hsreplay_row("C001".to_owned(), 48.0, 90));
    let stats = HsReplayCardStats {
        data: vec![
            HsReplayBucket { bucket: "ALL".to_owned(), class_in_log: None, cards: rows },
            HsReplayBucket {
                bucket: "MAGE".to_owned(),
                class_in_log: Some(HeroClass::Mage),
                cards: vec![hsreplay_row("C001".to_owned(), 48.0, 90)],
            },
        ],
        selected_params: vec!["BGT_UNDERGROUND_ARENA".to_owned(), "LAST_4_DAYS".to_owned()],
        meta_period_id: Some(16),
    };
    let imported = import_hsreplay(&stats, Timestamp { seconds: 0, nanoseconds: 0 }).unwrap();
    assert_eq!(imported.ratings.len(), 521);
    assert_eq!(imported.arena_season.as_deref(), Some("period 16"));
    assert_eq!(imported.data_version.as_deref(), Some("BGT_UNDERGROUND_ARENA + LAST_4_DAYS"));
    let generic = imported
        .ratings
        .iter()
        .find(|row| row.card_id == "C001" && row.class.is_none())
        .unwrap();
    assert_eq!(number(generic.value), 48.0);
    assert_eq!(generic.sample_size, Some(90));
    assert_eq!(generic.label.as_deref(), Some("drawn win rate"));
    let mage = imported.ratings.iter().find(|row| row.class == Some(HeroClass::Mage)).unwrap();
    assert_eq!(number(mage.value), 48.0);
    assert_eq!(mage.sample_size, Some(90));
}

#[test]
fn hsreplay_import_rejects_an_incomplete_response() {
    let stats = HsReplayCardStats {
        data: vec![HsReplayBucket {
            bucket: "ALL".to_owned(),
            class_in_log: None,
            cards: vec![hsreplay_row("C1".to_owned(), 50.0, 10)],
        }],
        selected_params: Vec::new(),
        meta_period_id: None,
    };
    assert!(import_hsreplay(&stats, Timestamp { seconds: 0, nanoseconds: 0 }).is_err());
}

#[test]
fn a_bucket_is_a_class_or_everyone() {
    assert_eq!(hsreplay_bucket_class("ALL", None), None);
    assert_eq!(hsreplay_bucket_class("MAGE", Some(HeroClass::Mage)), Some(HeroClass::Mage));
    let stats = HsReplayCardStats {
        data: vec![HsReplayBucket {
            bucket: "ALL".to_owned(),
            class_in_log: None,
            cards: (0..600).map(|index| hsreplay_row(format!("C{index}"), 150.0, 1)).collect(),
        }],
        selected_params: Vec::new(),
        meta_period_id: None,
    };
    assert!(matches!(
        import_hsreplay(&stats, Timestamp { seconds: 0, nanoseconds: 0 }),
        Err(RatingError::InvalidCard)
    ));
}

fn firestone_row(card_id: &str, played: u64, won: u64) -> FirestoneCardStatsRow {
    FirestoneCardStatsRow {
        card_id: card_id.to_owned(),
        played,
        played_win_rate: value((won as f32 / played as f32) * 100.0),
    }
}

#[test]
fn firestone_import_uses_played_win_rate_and_skips_unplayed() {
    let stats = FirestoneCardStats {
        last_updated: timestamp("2026-08-05T11:25:40Z"),
        context: "mage".to_owned(),
        class_in_log: Some(HeroClass::Mage),
        stats: vec![
            firestone_row("C1", 200, 130),
            firestone_row("C2", 0, 0),
            firestone_row("C3", 40, 40),
        ],
    };
    let imported = import_firestone(&stats).unwrap();
    assert_eq!(imported.ratings.len(), 2);
    assert_eq!(imported.provider, "Firestone");
    assert_eq!(rfc3339(imported.data_timestamp), "2026-08-05T11:25:40+00:00");
    let c1 = imported.ratings.iter().find(|row| row.card_id == "C1").unwrap();
    assert!((number(c1.value) - 65.0).abs() < 1e-4, "got {}", number(c1.value));
    assert_eq!(c1.sample_size, Some(200));
    assert_eq!(c1.class, Some(HeroClass::Mage));
    let c3 = imported.ratings.iter().find(|row| row.card_id == "C3").unwrap();
    assert!((number(c3.value) - 100.0).abs() < 1e-4, "got {}", number(c3.value));
}

#[test]
fn firestone_import_names_what_it_refuses() {
    let mut stats = FirestoneCardStats {
        last_updated: Timestamp { seconds: 0, nanoseconds: 0 },
        context: "gnome".to_owned(),
        class_in_log: None,
        stats: Vec::new(),
    };
    assert!(matches!(
        import_firestone(&stats),
        Err(RatingError::UnknownClass { context }) if context == "gnome"
    ));
    stats.context = "mage".to_owned();
    stats.class_in_log = Some(HeroClass::Mage);
    stats.stats = vec![firestone_row(" ", 4, 1)];
    assert_eq!(import_firestone(&stats), Err(RatingError::EmptyCardId));
    stats.stats = vec![firestone_row("C1", 4, 9)];
    assert!(matches!(
        import_firestone(&stats),
        Err(RatingError::InvalidWinRate { card_id }) if card_id == "C1"
    ));
}

fn rated_file(
    card_id: &str,
    class: Option<HeroClass>,
    rating: f32,
    time: &str,
) -> LocalRatingFile {
    LocalRatingFile {
        provider: "Firestone".to_owned(),
        data_timestamp: timestamp(time),
        arena_season: None,
        data_version: None,
        ratings: vec![LocalRatingRow {
            card_id: card_id.to_owned(),
            class,
            value: value(rating),
            sample_size: Some(10),
            label: None,
        }],
    }
}

#[test]
fn merging_firestone_files_keeps_newest_timestamp_and_rejects_conflicts() {
    let mage = || rated_file("C1", Some(HeroClass::Mage), 60.0, "2026-08-05T00:00:00Z");
    let hunter = rated_file("C2", Some(HeroClass::Hunter), 70.0, "2026-08-05T12:00:00Z");
    let merged = merge_local_rating_files("Firestone", vec![mage(), hunter]).unwrap();
    assert_eq!(merged.ratings.len(), 2);
    assert_eq!(rfc3339(merged.data_timestamp), "2026-08-05T12:00:00+00:00");

    let conflict = rated_file("C1", Some(HeroClass::Mage), 61.0, "2026-08-05T12:00:00Z");
    assert!(merge_local_rating_files("Firestone", vec![mage(), conflict]).is_err());
}

#[test]
fn merging_needs_a_file_and_agreeing_rows() {
    assert_eq!(merge_local_rating_files("x", Vec::new()), Err(RatingError::NoFiles));
    let twice = vec![
        rated_file("C1", None, 60.0, "2026-08-05T00:00:00Z"),
        rated_file("C1", None, 60.0, "2026-08-06T00:00:00Z"),
    ];
    assert_eq!(merge_local_rating_files("x", twice).unwrap().ratings.len(), 1);
    let apart = vec![
        rated_file("C1", None, 60.0, "2026-08-05T00:00:00Z"),
        rated_file("C1", None, 61.0, "2026-08-06T00:00:00Z"),
    ];
    assert!(matches!(
        merge_local_rating_files("x", apart),
        Err(RatingError::Conflict { card_id }) if card_id == "C1"
    ));
}

fn many(provider: &str, count: usize, rating: f32) -> LocalJsonRatingProvider {
    LocalJsonRatingProvider::from_file(LocalRatingFile {
        provider: provider.to_owned(),
        data_timestamp: timestamp("2026-01-01T00:00:00Z"),
        arena_season: None,
        data_version: None,
        ratings: (0..count)
            .map(|index| LocalRatingRow {
                card_id: format!("C{index:03}"),
                class: None,
                value: value(rating),
                sample_size: None,
                label: None,
            })
            .collect(),
    })
}

#[test]
fn composite_joins_a_card_missing_from_one_source() {
    let tier = many("HearthArena public tier list", 100, 70.0);
    let winrate = many("HSReplay Arena", 99, 50.0);
    let composite = match CompositeRatingProvider::from_providers(vec![tier, winrate]) {
        Ok(composite) => composite,
        Err(_) => panic!("two providers make a composite"),
    };

    assert!(composite.rates("C099", None));
    assert!(composite.combined_rating("C099", None, value(50.0)).is_some());
    assert_eq!(composite.provider_ratings("C099", None).len(), 1);
}

#[test]
fn a_composite_lists_its_sources_in_order() {
    let composite = match CompositeRatingProvider::from_providers(vec![
        many("HearthArena public tier list", 100, 122.5),
        many("HSReplay Arena", 100, 59.9),
    ]) {
        Ok(composite) => composite,
        Err(_) => panic!("two providers make a composite"),
    };
    let sources = composite.provider_ratings("C099", None);
    assert_eq!(sources.len(), 2);
    assert_eq!(sources[0].provider.provider, "HearthArena public tier list");
    assert_eq!(sources[1].provider.provider, "HSReplay Arena");
    assert!(number(sources[0].rating.value) > number(sources[1].rating.value));
    assert!(composite.combined_rating("C100", None, value(1.0)).is_none());
    assert_eq!(composite.len(), 2);
    assert_eq!(local_rating_values(composite.provider_at(1)).len(), 100);
    assert!(matches!(
        CompositeRatingProvider::from_providers(Vec::new()),
        Err(RatingError::NoProviders)
    ));
}

#[test]
fn class_specific_rating_wins_with_generic_fallback() {
    let provider = LocalJsonRatingProvider::from_file(LocalRatingFile {
        provider: "fixture".to_owned(),
        data_timestamp: timestamp("2026-01-01T00:00:00Z"),
        arena_season: Some("test".to_owned()),
        data_version: None,
        ratings: vec![
            LocalRatingRow {
                card_id: "CS2_029".to_owned(),
                class: None,
                value: value(1.0),
                sample_size: None,
                label: None,
            },
            LocalRatingRow {
                card_id: "CS2_029".to_owned(),
                class: Some(HeroClass::Mage),
                value: value(2.0),
                sample_size: None,
                label: None,
            },
        ],
    });
    assert_eq!(number(provider.rating("CS2_029", Some(HeroClass::Mage)).unwrap().value), 2.0);
    assert_eq!(number(provider.rating("CS2_029", Some(HeroClass::Hunter)).unwrap().value), 1.0);
}

#[test]
fn percentages_lie_between_zero_and_a_hundred() {
    assert!(value(0.0).percentage());
    assert!(value(100.0).percentage());
    assert!(!value(100.5).percentage());
    assert!(!value(f32::NAN).percentage());
    assert!(value(-0.0).percentage());
    assert!(!value(-1.0).percentage());
    assert!(value(0.0).same_as(&value(-0.0)));
    assert!(!value(f32::NAN).same_as(&value(f32::NAN)));
}

#[test]
fn each_refusal_names_its_source() {
    let conflict = RatingError::Conflict { card_id: "CS2_029".to_owned() };
    assert_eq!(
        conflict.message(RatingOrigin::HearthArena),
        "HearthArena returned conflicting scores for CS2_029"
    );
    assert_eq!(
        conflict.message(RatingOrigin::LocalFiles),
        "Conflicting scores for CS2_029 from merged rating files"
    );
    assert_eq!(
        RatingError::TooFewScores { count: 12 }.message(RatingOrigin::HsReplay),
        "HSReplay response is incomplete: only 12 unique class/card scores"
    );
    assert_eq!(
        RatingError::UnknownClass { context: "monk".to_owned() }.message(RatingOrigin::Firestone),
        "unknown Firestone class `monk`"
    );
    assert_eq!(
        RatingError::IncompleteSection { section: "mage".to_owned(), count: 3 }
            .message(RatingOrigin::HearthArena),
        "HearthArena response is incomplete: section `mage` has only 3 scores"
    );
    assert_eq!(
        RatingError::NoProviders.message(RatingOrigin::LocalFiles),
        "a composite rating provider needs at least one source"
    );
}

/// A source that rates every card alike.
struct Flat {
    metadata: ProviderMetadata,
}

impl RatingProvider for Flat {
    fn metadata(&self) -> &ProviderMetadata {
        &self.metadata
    }

    fn rating(&self, card_id: &str, _class: Option<HeroClass>) -> Option<CardRating> {
        Some(CardRating {
            card_id: card_id.to_owned(),
            value: value(1.0),
            sample_size: None,
            label: None,
        })
    }
}

#[test]
fn one_source_gives_its_own_rating() {
    let file = many("HSReplay Arena", 3, 50.0);
    let ratings = file.provider_ratings("C002", None);
    assert_eq!(ratings.len(), 1);
    assert_eq!(ratings[0].provider.provider, "HSReplay Arena");
    assert_eq!(ratings[0].rating.value, value(50.0));
    assert!(file.provider_ratings("C003", None).is_empty());

    let flat = Flat { metadata: file.metadata().clone() };
    let ratings = flat.provider_ratings("C100", None);
    assert_eq!(ratings.len(), 1);
    assert_eq!(ratings[0].provider.provider, "HSReplay Arena");
    assert_eq!(ratings[0].rating.card_id, "C100");
}
