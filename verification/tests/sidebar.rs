use arena_next::card_data::{CardCache, CardCacheInput, CardMetadata};
use arena_next::sidebar::{
    interpret_deck_sidebar, reconcile_deck_sidebar, ReconciliationKind, SidebarDeckRead,
    SidebarDeckStatus, SidebarIssue, SidebarTextObservation,
};
use arena_next::text_map::TextMap;

fn card(id: &str, name: &str, cost: Option<u8>, collectible: bool) -> CardMetadata {
    CardMetadata {
        id: id.to_owned(),
        name: name.to_owned(),
        cost,
        durability: None,
        card_type: None,
        classes: Vec::new(),
        collectible: Some(collectible),
        set: None,
        dbf_id: None,
    }
}

fn cache() -> CardCache {
    match CardCache::from_input(CardCacheInput::RawCards(vec![
        card("TIME_003", "Portal Vanguard", Some(3), true),
        card("TIME_045", "Whelp of the Infinite", Some(3), true),
        card("END_036", "Morchie", Some(4), true),
        card("TIME_002", "Aeon Wizard", Some(5), true),
        card("TIME_004", "Conflux Crasher", Some(7), true),
        card("TOKEN_1", "Shared Name", None, false),
        card("CARD_1", "Shared Name", None, true),
        card("CARD_2", "Ambiguous", None, true),
        card("CARD_3", "Ambiguous", None, true),
    ])) {
        Ok(cache) => cache,
        Err(error) => panic!("{}", error.message()),
    }
}

fn observations(lines: &[&str]) -> Vec<SidebarTextObservation> {
    lines
        .iter()
        .map(|line| SidebarTextObservation::new((*line).to_owned(), 0.95f32.to_bits()))
        .collect()
}

fn read(lines: &[&str]) -> SidebarDeckRead {
    interpret_deck_sidebar(&observations(lines), &cache())
}

fn counts(entries: &[(&str, u8)]) -> TextMap<u8> {
    let mut map: TextMap<u8> = TextMap::new();
    for (id, count) in entries {
        map.insert((*id).to_owned(), *count);
    }
    map
}

fn same(left: &TextMap<u8>, right: &TextMap<u8>) -> bool {
    left.len() == right.len()
        && (0..left.len()).all(|i| right.get(left.key_at(i)) == Some(left.entry_at(i)))
}

#[test]
fn exact_five_card_sidebar_is_authoritative() {
    let read = read(&[
        "Your Deck",
        "Portal Vanguard",
        "Whelp of the Infinite",
        "Morchie",
        "Aeon Wizard",
        "Conflux Crasher",
        "5/30",
        "Cards",
    ]);
    assert_eq!(read.status, SidebarDeckStatus::Complete);
    assert_eq!(read.visible_quantity, 5);
    assert_eq!(read.authoritative_counts().unwrap().get("TIME_002"), Some(&1));
}

#[test]
fn quantities_are_aggregated_and_support_multiply_sign() {
    let read = read(&["YOUR   DECK", "Morchie x2", "Aeon Wizard \u{d7}2", "4 / 30"]);
    assert_eq!(read.status, SidebarDeckStatus::Complete);
    assert_eq!(read.card_counts().get("END_036"), Some(&2));
    assert_eq!(read.card_counts().get("TIME_002"), Some(&2));
}

#[test]
fn quantity_with_ocr_separated_multiplier_is_supported() {
    let read = read(&["Your Deck", "Morchie x 2", "2/30"]);
    assert_eq!(read.status, SidebarDeckStatus::Complete);
    assert_eq!(read.card_counts().get("END_036"), Some(&2));
}

#[test]
fn scrolled_sidebar_is_partial_and_not_authoritative() {
    let read = read(&["Your Deck", "Morchie x2", "Aeon Wizard", "17/30"]);
    assert_eq!(read.status, SidebarDeckStatus::Partial);
    assert!(read.authoritative_counts().is_none());
}

#[test]
fn partial_read_only_merges_lower_bounds_and_never_removes() {
    let read = read(&["Your Deck", "Morchie x2", "Aeon Wizard", "17/30"]);
    let known = counts(&[("TIME_045", 1), ("END_036", 1)]);
    let reconciled = reconcile_deck_sidebar(&known, &read);
    assert_eq!(reconciled.kind, ReconciliationKind::PartialLowerBoundMerge);
    assert_eq!(reconciled.counts.get("TIME_045"), Some(&1));
    assert_eq!(reconciled.counts.get("END_036"), Some(&2));
    assert_eq!(reconciled.counts.get("TIME_002"), Some(&1));
}

#[test]
fn partial_merge_that_would_exceed_counter_is_rejected() {
    let read = read(&["Your Deck", "Morchie x2", "5/30"]);
    let known = counts(&[("TIME_045", 2), ("TIME_002", 2), ("END_036", 1)]);
    let reconciled = reconcile_deck_sidebar(&known, &read);
    assert_eq!(reconciled.kind, ReconciliationKind::Unchanged);
    assert!(same(&reconciled.counts, &known));
}

#[test]
fn complete_read_replaces_incorrect_log_state() {
    let read = read(&["Your Deck", "Morchie", "Aeon Wizard", "2/30"]);
    let known = counts(&[("WRONG_001", 4)]);
    let reconciled = reconcile_deck_sidebar(&known, &read);
    assert_eq!(reconciled.kind, ReconciliationKind::AuthoritativeReplace);
    assert!(!reconciled.counts.contains("WRONG_001"));
    assert_eq!(reconciled.counts.len(), 2);
}

#[test]
fn missing_anchor_or_counter_cannot_change_known_state() {
    let known = counts(&[("END_036", 1)]);
    for lines in [&["Morchie", "1/30"][..], &["Your Deck", "Morchie"][..]] {
        let reconciled = reconcile_deck_sidebar(&known, &read(lines));
        assert_eq!(reconciled.kind, ReconciliationKind::Unchanged);
        assert!(same(&reconciled.counts, &known));
    }
}

#[test]
fn impossible_counter_and_overfull_visible_list_are_inconsistent() {
    let wrong_capacity = read(&["Your Deck", "Morchie", "1/40"]);
    assert_eq!(wrong_capacity.status, SidebarDeckStatus::Inconsistent);

    let overfull = read(&["Your Deck", "Morchie x2", "1/30"]);
    assert_eq!(overfull.status, SidebarDeckStatus::Inconsistent);
}

#[test]
fn collectible_candidate_wins_over_same_named_token() {
    let read = read(&["Your Deck", "Shared Name", "1/30"]);
    assert_eq!(read.status, SidebarDeckStatus::Complete);
    assert_eq!(read.visible_cards[0].card_id, "CARD_1");
}

#[test]
fn genuinely_ambiguous_name_is_not_guessed() {
    let read = read(&["Your Deck", "Ambiguous", "1/30"]);
    assert_eq!(read.status, SidebarDeckStatus::Partial);
    assert!(matches!(
        read.issues.as_slice(),
        [SidebarIssue::AmbiguousCardName { candidate_ids, .. }] if candidate_ids == &["CARD_2", "CARD_3"]
    ));
}

#[test]
fn malformed_quantity_is_not_silently_counted_as_one() {
    let read = read(&["Your Deck", "Morchie x0", "1/30"]);
    assert_eq!(read.status, SidebarDeckStatus::Partial);
    assert!(matches!(read.issues.as_slice(), [SidebarIssue::InvalidQuantity { .. }]));
}

#[test]
fn a_counter_that_is_no_number_is_an_issue() {
    let read = read(&["Your Deck", "Morchie", "l7/30"]);
    assert_eq!(read.status, SidebarDeckStatus::MissingCount);
    assert!(read.count.is_none());
    assert!(matches!(read.issues.as_slice(), [SidebarIssue::InvalidDeckCount { .. }]));
}
