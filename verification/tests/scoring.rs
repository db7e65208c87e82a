use arena_next::analysis::{AnalysisFactCard, AnalysisFacts, AnalysisFactsFile};
use arena_next::card_data::{CardCache, CardCacheInput, CardMetadata, Timestamp};
use arena_next::deck_profile::AnalysisInput;
use arena_next::ratings::{CardRating, ProviderMetadata, RatingProvider, RatingValue};
use arena_next::scoring::{score_offer, AdjustmentKind, OfferScore, MAX_DECK_ADJUSTMENT};
use arena_next::state::{DeckCard, HeroClass};

struct FixtureProvider {
    metadata: ProviderMetadata,
    ids: Vec<String>,
}

impl FixtureProvider {
    fn with_ratings(ids: &[&str]) -> Self {
        Self {
            metadata: ProviderMetadata {
                provider: "fixture".into(),
                data_timestamp: Timestamp { seconds: 1_767_225_600, nanoseconds: 0 },
                arena_season: Some("test".into()),
                data_version: Some("1".into()),
            },
            ids: ids.iter().map(|id| (*id).to_owned()).collect(),
        }
    }
}

impl RatingProvider for FixtureProvider {
    fn metadata(&self) -> &ProviderMetadata {
        &self.metadata
    }

    fn rating(&self, card_id: &str, _class: Option<HeroClass>) -> Option<CardRating> {
        self.ids.iter().find(|id| id.as_str() == card_id).map(|_| CardRating {
            card_id: card_id.to_owned(),
            value: RatingValue { bits: 70.0f32.to_bits() },
            sample_size: Some(100),
            label: None,
        })
    }
}

fn card(id: &str, name: &str, cost: u8, durability: Option<u8>, card_type: &str) -> CardMetadata {
    CardMetadata {
        id: id.to_owned(),
        name: name.to_owned(),
        cost: Some(cost),
        durability,
        card_type: Some(card_type.to_owned()),
        classes: Vec::new(),
        collectible: None,
        set: None,
        dbf_id: None,
    }
}

fn catalog() -> CardCache {
    match CardCache::from_input(CardCacheInput::RawCards(vec![
        card("TWO", "Board Two", 2, None, "MINION"),
        card("TWO_SPELL", "Two Spell", 2, None, "SPELL"),
        card("THREE", "Three", 3, None, "MINION"),
        card("FIVE", "Five", 5, None, "MINION"),
        card("SEVEN", "Seven", 7, None, "MINION"),
        card("SUPPORT", "Elemental", 4, None, "MINION"),
        card("PAYOFF", "Payoff", 3, None, "MINION"),
        card("MULTI", "Multi Payoff", 3, None, "MINION"),
        card("BLADE_TWO", "Short Blade", 2, Some(2), "WEAPON"),
        card("BLADE_THREE", "Long Blade", 3, Some(3), "WEAPON"),
        card("BLADE_UNKNOWN", "Unknown Blade", 3, None, "WEAPON"),
    ])) {
        Ok(cache) => cache,
        Err(error) => panic!("{}", error.message()),
    }
}

fn fact(card_id: &str, tags: &[&str]) -> AnalysisFactCard {
    AnalysisFactCard {
        card_id: card_id.to_owned(),
        tags: tags.iter().map(|tag| (*tag).to_owned()).collect(),
    }
}

fn facts() -> AnalysisFacts {
    match AnalysisFacts::from_file(AnalysisFactsFile {
        schema_version: 1,
        source: "fixture".to_owned(),
        data_version: "1".to_owned(),
        cards: vec![
            fact("TWO", &[]),
            fact("TWO_SPELL", &[]),
            fact("THREE", &[]),
            fact("FIVE", &[]),
            fact("SEVEN", &[]),
            fact("SUPPORT", &["synergy:elemental"]),
            fact("PAYOFF", &["requires:elemental"]),
            fact("MULTI", &["requires:a", "requires:b", "requires:c"]),
        ],
    }) {
        Ok(facts) => facts,
        Err(error) => panic!("{}", error.message()),
    }
}

fn input(cards: &[(&str, u8)]) -> AnalysisInput {
    AnalysisInput {
        deck: cards
            .iter()
            .map(|(card_id, count)| DeckCard { card_id: (*card_id).to_owned(), count: *count })
            .collect(),
        expected_slots: Some(30),
    }
}

fn adjustment(score: &OfferScore, kind: AdjustmentKind) -> Option<f32> {
    score.adjustments.iter().find(|item| item.kind == kind).map(|item| item.delta as f32)
}

fn base(score: &OfferScore) -> Option<f32> {
    score.base_rating.as_ref().map(|rating| f32::from_bits(rating.value.bits))
}

fn deck_score(score: &OfferScore) -> Option<f32> {
    base(score).map(|value| value + score.adjustment as f32)
}

fn deltas(score: &OfferScore) -> i64 {
    score.adjustments.iter().map(|item| item.delta).sum::<i64>()
}

#[test]
fn missing_two_drops_boosts_only_a_two_cost_board_card() {
    let provider = FixtureProvider::with_ratings(&["TWO", "TWO_SPELL"]);
    let deck = input(&[("THREE", 2), ("FIVE", 2), ("SEVEN", 1)]);
    let board_two = score_offer(&provider, None, &deck, "TWO", &catalog(), &facts());
    assert_eq!(base(&board_two), Some(70.0));
    assert_eq!(deck_score(&board_two), Some(74.0));
    assert_eq!(adjustment(&board_two, AdjustmentKind::MissingTwoDrop), Some(4.0));

    let spell = score_offer(&provider, None, &deck, "TWO_SPELL", &catalog(), &facts());
    assert_eq!(adjustment(&spell, AdjustmentKind::MissingTwoDrop), None);
}

#[test]
fn a_crowded_curve_band_is_penalized() {
    let provider = FixtureProvider::with_ratings(&["FIVE"]);
    let score = score_offer(
        &provider,
        None,
        &input(&[("FIVE", 4), ("THREE", 2)]),
        "FIVE",
        &catalog(),
        &facts(),
    );
    assert_eq!(adjustment(&score, AdjustmentKind::CrowdedCurveBand), Some(-3.0));
    assert_eq!(deck_score(&score), Some(65.0));
}

#[test]
fn excessive_weapon_pressure_counts_copies_and_base_durability() {
    let provider = FixtureProvider::with_ratings(&["BLADE_TWO", "BLADE_THREE"]);
    let score = score_offer(
        &provider,
        None,
        &input(&[("BLADE_THREE", 2)]),
        "BLADE_TWO",
        &catalog(),
        &facts(),
    );
    assert_eq!(adjustment(&score, AdjustmentKind::TooManyWeaponCharges), Some(-3.0));
    assert!(score.adjustments.iter().any(|item| {
        item.kind == AdjustmentKind::TooManyWeaponCharges
            && item.detail.contains("3 weapons")
            && item.detail.contains("8 base weapon charges")
    }));
}

#[test]
fn two_weapons_and_unknown_durability_do_not_invent_a_penalty() {
    let provider = FixtureProvider::with_ratings(&["BLADE_TWO", "BLADE_UNKNOWN"]);
    let normal = score_offer(
        &provider,
        None,
        &input(&[("BLADE_TWO", 1)]),
        "BLADE_TWO",
        &catalog(),
        &facts(),
    );
    assert_eq!(adjustment(&normal, AdjustmentKind::TooManyWeaponCharges), None);
    let unknown = score_offer(
        &provider,
        None,
        &input(&[("BLADE_THREE", 3)]),
        "BLADE_UNKNOWN",
        &catalog(),
        &facts(),
    );
    assert_eq!(adjustment(&unknown, AdjustmentKind::TooManyWeaponCharges), None);
}

#[test]
fn verified_support_and_payoff_requirements_change_the_deck_score() {
    let provider = FixtureProvider::with_ratings(&["SUPPORT", "PAYOFF"]);
    let supported_deck = input(&[("SUPPORT", 2), ("FIVE", 2)]);
    let support =
        score_offer(&provider, None, &supported_deck, "SUPPORT", &catalog(), &facts());
    assert_eq!(adjustment(&support, AdjustmentKind::VerifiedSynergy), Some(2.0));

    let payoff = score_offer(&provider, None, &supported_deck, "PAYOFF", &catalog(), &facts());
    assert_eq!(adjustment(&payoff, AdjustmentKind::SupportedPayoff), Some(3.0));

    let unsupported = score_offer(
        &provider,
        None,
        &input(&[("FIVE", 2), ("THREE", 2)]),
        "PAYOFF",
        &catalog(),
        &facts(),
    );
    assert_eq!(adjustment(&unsupported, AdjustmentKind::UnsupportedPayoff), Some(-5.0));
}

#[test]
fn missing_provider_rating_never_invents_a_base_or_deck_score() {
    let score = score_offer(
        &FixtureProvider::with_ratings(&[]),
        None,
        &input(&[("FIVE", 5)]),
        "TWO",
        &catalog(),
        &facts(),
    );
    assert!(score.base_rating.is_none());
    assert!(deck_score(&score).is_none());
    assert_eq!(score.adjustment, 0);
    assert!(score.adjustments.is_empty());
}

#[test]
fn duplicate_rows_and_counts_are_aggregated_for_repeat_adjustment() {
    let provider = FixtureProvider::with_ratings(&["SUPPORT"]);
    let score = score_offer(
        &provider,
        None,
        &input(&[("SUPPORT", 1), ("SUPPORT", 2)]),
        "SUPPORT",
        &catalog(),
        &facts(),
    );
    assert_eq!(adjustment(&score, AdjustmentKind::VerifiedSynergy), Some(3.0));
    assert_eq!(adjustment(&score, AdjustmentKind::RepeatedCard), Some(-2.0));
    assert!(score.adjustments.iter().all(|item| !item.detail.trim().is_empty()));
    assert_eq!(deltas(&score), score.adjustment);
}

#[test]
fn adjustment_limit_is_bounded_and_visible_in_the_reasons() {
    let score = score_offer(
        &FixtureProvider::with_ratings(&["MULTI"]),
        None,
        &AnalysisInput { deck: Vec::new(), expected_slots: None },
        "MULTI",
        &catalog(),
        &facts(),
    );
    assert_eq!(score.adjustment, -MAX_DECK_ADJUSTMENT);
    assert_eq!(deck_score(&score), Some(58.0));
    assert_eq!(adjustment(&score, AdjustmentKind::AdjustmentLimit), Some(3.0));
    assert_eq!(deltas(&score), score.adjustment);
}

#[test]
fn a_rating_names_the_provider_that_gave_it() {
    let score = score_offer(
        &FixtureProvider::with_ratings(&["TWO"]),
        Some(HeroClass::Mage),
        &input(&[]),
        "TWO",
        &catalog(),
        &facts(),
    );
    assert_eq!(score.provider_ratings.len(), 1);
    assert_eq!(score.provider_ratings[0].provider.provider, "fixture");
    assert_eq!(score.provider_ratings[0].rating.card_id, "TWO");
}
