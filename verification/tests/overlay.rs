use arena_next::card_data::{CardCache, CardCacheInput, CardMetadata, CardResolution, Timestamp};
use arena_next::draft_view::{
    badge_basis, badge_detail, card_badge, display_card, draft_status, rating_line, rating_metadata_line,
    recommendation_reason, redraft_capture_status, render_detection, short_provider_label,
    unresolved_draft_key, visible_draft_pick_number, BadgeBasis, BadgeFacts, DetectionTexts,
    RatingText,
};
use arena_next::live::LogStaleness;
use arena_next::overlay::{
    current_model, deck_line, demo_model, empty_popup_model, from_snapshot,
    from_snapshot_with_external_draft, hero_label, offer_item_line, popup_model, printed_model,
    staleness_label, ExternalDraftModel,
};
use arena_next::popup::{ArenaPhase, HearthstoneStatus};
use arena_next::ratings::{CardRating, ProviderMetadata, ProviderRating, RatingValue};
use arena_next::recognition::{
    AggregatedDetection, DetectedOffer, DetectionResult, DraftOfferSource, OfferCandidate,
    OfferRecommendation, RecommendationWithheldReason,
};
use arena_next::scoring::{AdjustmentKind, OfferScore, ScoreAdjustment};
use arena_next::single::Single;
use arena_next::snapshot::{
    analysis_deck, resolve_snapshot, ArenaDraftPhase, ArenaRunState, ArenaSnapshot,
    ArenaStateOrigin, DeckCompleteness, DeckState, DraftHistoryStatus, DraftState, OfferItem,
    ObserverSnapshot, PartialDeckReason, RedraftProgress, RedraftStage,
};
use arena_next::state::{DeckCard, GameMode, HeroClass};

fn cards() -> CardCache {
    let card = |id: &str, name: &str| CardMetadata {
        id: id.to_owned(),
        name: name.to_owned(),
        cost: Some(4),
        durability: None,
        card_type: None,
        classes: Vec::new(),
        collectible: Some(true),
        set: None,
        dbf_id: None,
    };
    match CardCache::from_input(CardCacheInput::RawCards(vec![
        card("CS2_029", "Fireball"),
        card("REV_840", "Suspicious Usher"),
    ])) {
        Ok(cache) => cache,
        Err(error) => panic!("{}", error.message()),
    }
}

fn no_redraft() -> RedraftProgress {
    RedraftProgress {
        stage: RedraftStage::Inactive,
        pick_rounds_required: None,
        pick_progress_known: false,
        pick_rounds_completed: 0,
        discard_count_required: None,
        discarded_card_ids: Vec::new(),
        accepts_normal_draft_capture: false,
    }
}

fn arena_snapshot() -> ArenaSnapshot {
    ArenaSnapshot {
        schema_version: 1,
        mode: GameMode::Arena,
        hero_class: Some(HeroClass::Mage),
        deck: vec![
            DeckCard { card_id: "CS2_029".into(), count: 1 },
            DeckCard { card_id: "REV_840".into(), count: 2 },
        ],
        remaining_deck: Vec::new(),
        deck_state: DeckState {
            expected_slots: None,
            observed_slots: 3,
            unobserved_slots: None,
            completeness: DeckCompleteness::Partial { reason: PartialDeckReason::Other },
        },
        run: ArenaRunState {
            draft_deck_id: Some("fixture-draft".to_owned()),
            state_origin: ArenaStateOrigin::Replay,
            draft_phase: ArenaDraftPhase::Drafting,
            phase_label: "Draft".to_owned(),
            accepts_card_offers: true,
        },
        draft: DraftState {
            history_status: DraftHistoryStatus::Complete,
            exact_phase_progress: true,
            pick_number: 1,
            phase_pick_count: 0,
            redraft: no_redraft(),
            current_offer: None,
            offers: Vec::new(),
            selected: None,
        },
        game_active: false,
    }
}

fn snapshot() -> ObserverSnapshot {
    resolve_snapshot(arena_snapshot(), &cards())
}

#[test]
fn fixture_replay_resolves_cards_and_retains_duplicates() {
    let snapshot = snapshot();
    let duplicate = snapshot.deck.iter().find(|card| card.card_id == "REV_840").unwrap();
    assert_eq!(duplicate.count, 2);
    assert!(matches!(duplicate.resolution, CardResolution::Resolved { .. }));
    assert_eq!(analysis_deck(&snapshot.deck).len(), 2);
}

#[test]
fn fixture_snapshot_renders_resolved_card_names() {
    let model = from_snapshot(&snapshot());

    assert_eq!(model.title, "ArenaNext \u{b7} Arena");
    assert!(model.lines.iter().any(|line| line == "Fireball \u{d7}1"));
}

#[test]
fn external_draft_model_overrides_unresolved_log_offer_text() {
    let model = from_snapshot_with_external_draft(
        &snapshot(),
        Some(&ExternalDraftModel {
            pick_number: 3,
            lines: vec!["Fireball \u{b7} 95% \u{b7} 82.5 Strong".to_owned()],
        }),
    );

    assert!(model.lines.iter().any(|line| line == "Draft pick 3"));
    assert!(model
        .lines
        .iter()
        .any(|line| line == "Fireball \u{b7} 95% \u{b7} 82.5 Strong"));
}

#[test]
fn discard_review_is_rendered_as_review_not_a_five_card_offer() {
    let mut snapshot = snapshot();
    snapshot.run.draft_phase = ArenaDraftPhase::Redrafting;
    snapshot.draft.redraft = RedraftProgress {
        stage: RedraftStage::AwaitingDiscardReview,
        pick_rounds_required: Some(5),
        pick_progress_known: true,
        pick_rounds_completed: 5,
        discard_count_required: Some(5),
        discarded_card_ids: Vec::new(),
        accepts_normal_draft_capture: false,
    };

    let model = from_snapshot(&snapshot);
    assert!(model
        .lines
        .iter()
        .any(|line| line == "Redraft picks complete; choose 5 cards to discard"));
    assert!(!model.lines.iter().any(|line| line.contains("five-card offer")));
}

#[test]
fn active_redraft_distinguishes_retained_cards_from_replacements() {
    let mut snapshot = snapshot();
    snapshot.run.draft_phase = ArenaDraftPhase::Redrafting;
    snapshot.deck_state.expected_slots = Some(30);
    snapshot.deck_state.observed_slots = 29;
    snapshot.deck_state.unobserved_slots = Some(1);
    snapshot.draft.redraft = RedraftProgress {
        stage: RedraftStage::PickingOffers,
        pick_rounds_required: Some(5),
        pick_progress_known: true,
        pick_rounds_completed: 4,
        discard_count_required: Some(5),
        discarded_card_ids: Vec::new(),
        accepts_normal_draft_capture: true,
    };

    let model = from_snapshot(&snapshot);
    assert_eq!(model.lines[0], "Mage \u{b7} 25 retained + 4/5 replacements");
    assert_eq!(model.lines[1], "1 Redraft replacement remaining");
}

fn unresolved_draft_snapshot() -> ObserverSnapshot {
    let mut snapshot = arena_snapshot();
    snapshot.deck.clear();
    snapshot.deck_state = DeckState {
        expected_slots: None,
        observed_slots: 0,
        unobserved_slots: None,
        completeness: DeckCompleteness::Partial { reason: PartialDeckReason::Other },
    };
    resolve_snapshot(snapshot, &cards())
}

#[test]
fn screen_recognition_tracks_normal_and_configured_redraft_pick_rounds() {
    let mut snapshot = unresolved_draft_snapshot();
    let first = unresolved_draft_key(&snapshot).expect("initial draft offer is eligible");
    assert_eq!(first.pick_number, 1);
    assert_eq!(first.phase, ArenaDraftPhase::Drafting);

    // A draft that was joined midway may not know its pick number, but the offer on the screen
    // is still safe to read.
    snapshot.draft.exact_phase_progress = false;
    snapshot.draft.pick_number = 0;
    snapshot.draft.phase_pick_count = 0;
    let resynced = unresolved_draft_key(&snapshot).expect("normal tail-resync is eligible");
    assert_eq!(resynced.pick_number, 0);
    assert_eq!(resynced.phase_pick_count, 0);
    snapshot.draft.phase_pick_count = 1;
    assert!(!resynced.same_as(&unresolved_draft_key(&snapshot).unwrap()));

    snapshot.draft.exact_phase_progress = true;
    snapshot.draft.pick_number = 1;
    snapshot.draft.phase_pick_count = 0;

    // A logged pick begins a new offer rather than ending recognition for the draft.
    snapshot.draft.selected = Some("CS2_029".to_owned());
    snapshot.draft.phase_pick_count = 1;
    snapshot.draft.pick_number = 2;
    let second = unresolved_draft_key(&snapshot).expect("second draft offer is eligible");
    assert_eq!(second.pick_number, 2);
    assert!(!first.same_as(&second));

    snapshot.run.draft_phase = ArenaDraftPhase::Redrafting;
    snapshot.draft.phase_pick_count = 0;
    snapshot.draft.pick_number = 1;
    snapshot.draft.redraft = RedraftProgress {
        stage: RedraftStage::PickingOffers,
        pick_rounds_required: Some(5),
        pick_progress_known: true,
        pick_rounds_completed: 0,
        discard_count_required: Some(5),
        discarded_card_ids: Vec::new(),
        accepts_normal_draft_capture: true,
    };
    let redraft = unresolved_draft_key(&snapshot).expect("redraft offer is eligible");
    assert_eq!(redraft.pick_number, 1);
    assert_eq!(redraft.phase, ArenaDraftPhase::Redrafting);

    snapshot.draft.exact_phase_progress = false;
    snapshot.draft.pick_number = 0;
    snapshot.draft.redraft.pick_progress_known = false;
    snapshot.draft.redraft.accepts_normal_draft_capture = false;
    assert!(unresolved_draft_key(&snapshot).is_none());
    snapshot.draft.exact_phase_progress = true;
    snapshot.draft.pick_number = 1;
    snapshot.draft.redraft.pick_progress_known = true;

    snapshot.draft.phase_pick_count = 5;
    snapshot.draft.pick_number = 6;
    snapshot.draft.redraft.pick_rounds_completed = 5;
    snapshot.draft.redraft.stage = RedraftStage::AwaitingDiscardReview;
    assert!(unresolved_draft_key(&snapshot).is_none());
    assert!(redraft_capture_status(&snapshot)
        .expect("review boundary should be visible")
        .contains("choose 5 cards to discard"));

    snapshot.run.draft_phase = ArenaDraftPhase::ActiveDeck;
    snapshot.run.accepts_card_offers = false;
    assert!(unresolved_draft_key(&snapshot).is_none());
}

fn provider(season: Option<&str>) -> ProviderMetadata {
    ProviderMetadata {
        provider: "HSReplay Arena".to_owned(),
        data_timestamp: Timestamp { seconds: 1_767_225_600, nanoseconds: 0 },
        arena_season: season.map(|season| season.to_owned()),
        data_version: Some("7".to_owned()),
    }
}

#[test]
fn ratings_say_where_they_come_from_and_when_they_are_old() {
    let day: i64 = 86_400;
    let fresh = Timestamp { seconds: 1_767_225_600 + 60 * day, nanoseconds: 0 };
    assert_eq!(
        rating_metadata_line(&provider(Some("period 16")), fresh).unwrap(),
        "Ratings: HSReplay Arena \u{b7} 2026-01-01T00:00:00+00:00 \u{b7} season period 16 \u{b7} v7"
    );
    let old = Timestamp { seconds: 1_767_225_600 + 61 * day, nanoseconds: 0 };
    assert!(rating_metadata_line(&provider(None), old)
        .unwrap()
        .ends_with(" \u{b7} STALE (61 days old)"));
    let mut never = provider(None);
    never.data_timestamp.seconds = i64::MAX;
    assert!(rating_metadata_line(&never, fresh).is_none());
    assert_eq!(rating_line(&provider(None), "now", 1), "Ratings: HSReplay Arena \u{b7} now \u{b7} v7");
}

fn single(value: f32) -> Single {
    Single { bits: value.to_bits() }
}

#[test]
fn a_detection_is_shown_card_by_card() {
    let offer = |id: &str| DetectedOffer {
        candidates: vec![OfferCandidate {
            card_id: id.to_owned(),
            confidence: single(0.95),
            distance: None,
        }],
        source: DraftOfferSource::ScreenCapture,
        crop_debug_ref: None,
    };
    let aggregate = AggregatedDetection {
        detection: DetectionResult {
            expected_offer_count: 1,
            offers: vec![offer("CS2_029")],
            minimum_confidence: single(0.8),
        },
        observed_frames: 2,
        minimum_frames: 2,
    };
    let added = DetectionTexts {
        percents: vec![95],
        ratings: Some(vec![Some(RatingText {
            value: "82.5".to_owned(),
            label: Some("Strong".to_owned()),
            sample_size: None,
        })]),
        low_confidence: "0%".to_owned(),
        required_confidence: "80%".to_owned(),
        rating_line: None,
    };
    let model = render_detection(&snapshot(), &aggregate, &added, &cards());
    assert_eq!(model.pick_number, 1);
    assert!(
        model.lines.iter().any(|line| line.contains("Fireball") && line.contains("95%")),
        "{:?}",
        model.lines
    );
}

#[test]
fn withheld_recommendations_say_why() {
    let reason = recommendation_reason(
        &OfferRecommendation::Withheld {
            reason: RecommendationWithheldReason::InsufficientObservations {
                observed: 1,
                required: 2,
            },
        },
        "",
        "",
    );
    assert!(reason.contains('1') && reason.contains('2'), "{reason}");
    assert_eq!(draft_status(4, "text".to_owned()).pick_number, 4);
    assert_eq!(visible_draft_pick_number(&snapshot()), 1);
}

#[test]
fn badges_show_the_score_or_a_dash() {
    let scored = BadgeFacts::Scored {
        base: Some("70".to_owned()),
        deck: Some("74".to_owned()),
        modifier: "+4".to_owned(),
        sources: vec![("HearthArena public tier list".to_owned(), "95".to_owned())],
        too_many_weapons: true,
    };
    assert_eq!(
        badge_detail(&scored),
        "BASE 70  \u{b7}  MOD +4  \u{b7}  HA 95  \u{b7}  WEAPONS"
    );
    let badge = card_badge(&cards(), "CS2_029", &scored);
    assert_eq!(badge.score, "74");
    assert!(badge.caption.contains("Fireball"));
    assert_eq!(
        badge_detail(&BadgeFacts::Paused { base: None }),
        "BASE \u{2014}  \u{b7}  DECK PAUSED"
    );
    assert_eq!(card_badge(&cards(), "CS2_029", &BadgeFacts::Unrated).score, "\u{2014}");
    assert_eq!(short_provider_label("Firestone"), "FS");
    assert_eq!(short_provider_label("Somebody"), "?");
    assert_eq!(display_card(&cards(), "NEW_999"), "NEW_999");
}

#[test]
fn stale_logs_and_errors_are_shown_above_everything() {
    let snapshot = snapshot();
    let live = current_model(&snapshot, None, LogStaleness::Live, &None, &None);
    assert_eq!(live.title, "ArenaNext \u{b7} Arena");
    let stale = printed_model(&snapshot, LogStaleness::Stale { age_secs: 900 });
    assert!(stale.lines.len() > live.lines.len());
    let failed = current_model(
        &snapshot,
        None,
        LogStaleness::Live,
        &Some("disk on fire".to_owned()),
        &None,
    );
    assert!(failed.lines.iter().any(|line| line.contains("disk on fire")));
    assert_eq!(staleness_label(LogStaleness::Stale { age_secs: 900 }), "stale-900s");
    assert!(!demo_model().lines.is_empty());
}

#[test]
fn the_popup_follows_the_snapshot() {
    let popup = popup_model(&snapshot(), true, false);
    assert_eq!(popup.hearthstone, HearthstoneStatus::Running);
    assert_eq!(popup.arena_phase, ArenaPhase::Draft);
    assert_eq!(popup.pick_label(), "1 / 30");
    assert!(popup.active_run && popup.overlay_visible);
    let nothing = empty_popup_model(HearthstoneStatus::PermissionRequired, false, true);
    assert_eq!(nothing.hearthstone, HearthstoneStatus::PermissionRequired);
    assert!(nothing.interaction_enabled);
}

#[test]
fn offer_items_are_named_by_kind() {
    assert_eq!(hero_label(HeroClass::DemonHunter), "Demon Hunter");
    assert_eq!(
        offer_item_line(&OfferItem::Package {
            key_card_id: "CS2_029".to_owned(),
            contents: vec!["A".to_owned(), "B".to_owned()],
        }),
        "Package: CS2_029 (+2 cards)"
    );
    assert_eq!(
        offer_item_line(&OfferItem::Unknown { label: None }),
        "Unknown offer item"
    );
    assert_eq!(deck_line(&snapshot().deck[1]), "Suspicious Usher \u{d7}2");
}

#[test]
fn a_partial_history_of_a_complete_deck_is_recovered() {
    let mut snapshot = snapshot();
    assert!(!snapshot.needs_bounded_history_recovery());
    snapshot.run.state_origin = ArenaStateOrigin::AuthoritativeResync;
    let before = snapshot.needs_bounded_history_recovery();
    snapshot.draft.history_status = DraftHistoryStatus::Complete;
    assert_eq!(before, snapshot.needs_bounded_history_recovery());
}

#[test]
fn badges_tell_the_adjustment_with_its_sign() {
    let rating = || CardRating {
        card_id: "CS2_029".to_owned(),
        value: RatingValue { bits: 95.0f32.to_bits() },
        sample_size: None,
        label: None,
    };
    let score = |adjustment: i64, kind: AdjustmentKind| OfferScore {
        card_id: "CS2_029".to_owned(),
        base_rating: Some(rating()),
        provider_ratings: vec![ProviderRating {
            provider: ProviderMetadata {
                provider: "HSReplay Arena".to_owned(),
                data_timestamp: Timestamp { seconds: 0, nanoseconds: 0 },
                arena_season: None,
                data_version: None,
            },
            rating: rating(),
        }],
        adjustment,
        adjustments: vec![ScoreAdjustment { kind, delta: adjustment, detail: String::new() }],
    };
    let shown = |adjustment: i64, kind: AdjustmentKind| {
        badge_detail(&BadgeFacts::of_score(
            &score(adjustment, kind),
            Some("95".to_owned()),
            Some("91".to_owned()),
            &vec!["95".to_owned()],
        ))
    };
    assert_eq!(
        shown(-4, AdjustmentKind::TooManyWeaponCharges),
        "BASE 95  \u{b7}  MOD -4  \u{b7}  HSR 95  \u{b7}  WEAPONS"
    );
    assert_eq!(
        shown(0, AdjustmentKind::RepeatedCard),
        "BASE 95  \u{b7}  MOD +0  \u{b7}  HSR 95"
    );
    let partial = DeckCompleteness::Partial { reason: PartialDeckReason::UnobservedSlots };
    assert_eq!(badge_basis(true, DeckCompleteness::Complete), BadgeBasis::Score);
    assert_eq!(badge_basis(true, partial), BadgeBasis::Rating);
    assert_eq!(badge_basis(false, DeckCompleteness::Complete), BadgeBasis::Nothing);
}
