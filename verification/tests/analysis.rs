use arena_next::analysis::{
    is_feature_tag, normalize_fact_tag, AnalysisFactCard, AnalysisFacts, AnalysisFactsFile,
    FactsError,
};
use arena_next::card_data::{CardCache, CardCacheInput, CardMetadata};
use arena_next::deck_profile::{analyze_deck, AnalysisInput, DeckSpeed, DeckWeakness};
use arena_next::offer::{analyze_offer, signed_delta, DraftCommitment};
use arena_next::state::DeckCard;

fn card(id: &str, name: &str, cost: u8) -> CardMetadata {
    CardMetadata {
        id: id.to_owned(),
        name: name.to_owned(),
        cost: Some(cost),
        durability: None,
        card_type: None,
        classes: Vec::new(),
        collectible: None,
        set: None,
        dbf_id: None,
    }
}

fn catalog() -> CardCache {
    match CardCache::from_input(CardCacheInput::RawCards(vec![
        card("EARLY", "Early", 2),
        card("VALUE", "Value", 5),
        card("PAYOFF", "Payoff", 3),
        card("GENERIC", "Generic", 4),
    ])) {
        Ok(cache) => cache,
        Err(error) => panic!("{}", error.message()),
    }
}

fn fact(card_id: &str, tags: &[&str]) -> AnalysisFactCard {
    AnalysisFactCard {
        card_id: card_id.to_owned(),
        tags: tags.iter().map(|tag| (*tag).to_owned()).collect(),
    }
}

fn facts_file(source: &str, data_version: &str, cards: Vec<AnalysisFactCard>) -> AnalysisFactsFile {
    AnalysisFactsFile {
        schema_version: 1,
        source: source.to_owned(),
        data_version: data_version.to_owned(),
        cards,
    }
}

fn facts() -> AnalysisFacts {
    match AnalysisFacts::from_file(facts_file(
        "fixture",
        "1",
        vec![
            fact("EARLY", &["removal", "synergy:elemental"]),
            fact("VALUE", &["card_draw", "taunt"]),
            fact("PAYOFF", &["requires:elemental", "synergy:elemental"]),
            fact("GENERIC", &[]),
        ],
    )) {
        Ok(facts) => facts,
        Err(error) => panic!("{}", error.message()),
    }
}

fn entry(card_id: &str, count: u8) -> DeckCard {
    DeckCard { card_id: card_id.into(), count }
}

#[test]
fn profile_uses_explicit_metadata_and_reports_unknowns() {
    let input = AnalysisInput {
        deck: vec![entry("EARLY", 3), entry("VALUE", 2), entry("MISSING_001", 1)],
        expected_slots: Some(8),
    };
    let profile = analyze_deck(&input, &catalog(), &facts());
    assert_eq!(profile.observed_slots, 6);
    assert_eq!(profile.mana_curve.zero_to_two, 3);
    assert_eq!(profile.mana_curve.four_to_six, 2);
    assert_eq!(profile.mana_curve.unknown_cost, 1);
    assert_eq!(profile.removal, 3);
    assert_eq!(profile.card_draw, 2);
    assert_eq!(profile.synergy_counts.get("elemental"), Some(&3));
    assert_eq!(profile.uncertainty.deck_slots_not_observed, Some(2));
    assert_eq!(profile.uncertainty.missing_metadata_ids, vec!["MISSING_001".to_owned()]);
    assert!(profile.uncertainty.missing_analysis_fact_ids.is_empty());
    assert_eq!(profile.expected_speed, DeckSpeed::Uncertain);
}

#[test]
fn counterfactual_is_deterministic_and_exposes_support_requirements() {
    let input = AnalysisInput { deck: vec![entry("EARLY", 3)], expected_slots: None };
    let cache = catalog();
    let analysis_facts = facts();
    let payoff = analyze_offer(&input, "PAYOFF", &cache, &analysis_facts);
    assert_eq!(payoff.deck_delta.three, 1);
    assert_eq!(payoff.deck_delta.synergy_counts.get("elemental"), Some(&1));
    assert_eq!(payoff.verified_synergies.len(), 1);
    assert!(payoff.verified_anti_synergies.is_empty());
    assert_eq!(payoff.draft_optionality.commitment, DraftCommitment::Moderate);
    assert_eq!(payoff.draft_optionality.future_priorities, vec!["elemental"]);

    let generic = analyze_offer(&input, "GENERIC", &cache, &analysis_facts);
    assert!(generic.draft_optionality.preserves_open_paths);
    assert_eq!(generic.draft_optionality.commitment, DraftCommitment::Open);
    assert_eq!(analyze_deck(&input, &cache, &analysis_facts).observed_slots, 3);
}

#[test]
fn missing_offer_metadata_is_explicit_not_an_invented_delta() {
    let input = AnalysisInput { deck: Vec::new(), expected_slots: None };
    let result = analyze_offer(&input, "UNKNOWN_CARD", &catalog(), &facts());
    assert_eq!(result.deck_delta.unknown_cost, 1);
    assert_eq!(result.draft_optionality.commitment, DraftCommitment::Unknown);
    assert_eq!(result.uncertainty.missing_metadata_ids, vec!["UNKNOWN_CARD".to_owned()]);
}

#[test]
fn missing_facts_withhold_semantic_claims_without_losing_curve_data() {
    let input = AnalysisInput { deck: vec![entry("GENERIC", 1)], expected_slots: None };
    let profile = analyze_deck(&input, &catalog(), &AnalysisFacts::empty());
    assert_eq!(profile.mana_curve.four_to_six, 1);
    assert_eq!(profile.uncertainty.missing_analysis_fact_ids, vec!["GENERIC"]);
    assert_eq!(profile.expected_speed, DeckSpeed::Uncertain);
    assert_eq!(
        analyze_offer(&input, "GENERIC", &catalog(), &AnalysisFacts::empty())
            .draft_optionality
            .commitment,
        DraftCommitment::Unknown
    );
}

fn fault(file: AnalysisFactsFile) -> FactsError {
    match AnalysisFacts::from_file(file) {
        Ok(_) => panic!("the facts must be refused"),
        Err(error) => error,
    }
}

#[test]
fn facts_validation_rejects_duplicate_ids_and_bad_requirement_tags() {
    assert!(AnalysisFacts::from_file(facts_file("x", "1", vec![fact("A", &[]), fact("A", &[])]))
        .is_err());
    assert!(
        AnalysisFacts::from_file(facts_file("x", "1", vec![fact("A", &["requires:"])])).is_err()
    );
}

#[test]
fn every_refusal_of_facts_says_what_is_wrong() {
    let mut newer = facts_file("x", "1", Vec::new());
    newer.schema_version = 2;
    assert!(matches!(fault(newer), FactsError::UnsupportedSchema { found: 2 }));
    assert!(matches!(fault(facts_file(" ", "1", Vec::new())), FactsError::EmptySource));
    assert!(matches!(fault(facts_file("x", "", Vec::new())), FactsError::EmptyDataVersion));
    assert!(matches!(
        fault(facts_file("x", "1", vec![fact("  ", &[])])),
        FactsError::EmptyCardId
    ));
    assert!(matches!(
        fault(facts_file("x", "1", vec![fact("A", &[" "])])),
        FactsError::EmptyTag
    ));
    assert!(matches!(
        fault(facts_file("x", "1", vec![fact("A", &["synergy:"])])),
        FactsError::InvalidCategory { .. }
    ));
    match fault(facts_file("x", "1", vec![fact("A", &[]), fact(" A ", &[])])) {
        FactsError::DuplicateCardId { card_id } => assert_eq!(card_id, "A"),
        other => panic!("{}", other.message()),
    }
}

#[test]
fn fact_tags_are_folded_and_known_ones_are_counted() {
    assert_eq!(normalize_fact_tag("  Card_Draw ").ok(), Some("card_draw".to_owned()));
    assert!(is_feature_tag("removal"));
    assert!(!is_feature_tag("synergy:elemental"));
    let facts = facts();
    assert!(facts.contains("EARLY"));
    assert!(!facts.contains("OTHER"));
    assert_eq!(facts.tags("EARLY"), ["removal", "synergy:elemental"]);
    assert_eq!(facts.len(), 4);
}

#[test]
fn differences_of_counts_saturate() {
    assert_eq!(signed_delta(7, 3), 4);
    assert_eq!(signed_delta(3, 7), -4);
    assert_eq!(signed_delta(u16::MAX, 0), i16::MAX);
    assert_eq!(signed_delta(0, u16::MAX), -i16::MAX);
}

#[test]
fn a_slow_deck_shows_its_weaknesses() {
    let input = AnalysisInput { deck: vec![entry("VALUE", 12)], expected_slots: Some(12) };
    let profile = analyze_deck(&input, &catalog(), &facts());
    assert_eq!(profile.observed_slots, 12);
    assert_eq!(profile.taunts, 12);
    assert!(profile.weaknesses.contains(&DeckWeakness::InsufficientEarlyBoardPresence));
    assert!(profile.weaknesses.contains(&DeckWeakness::LimitedRemoval));
    assert!(!profile.weaknesses.contains(&DeckWeakness::LimitedCardDraw));
}
