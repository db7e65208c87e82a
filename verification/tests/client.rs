use arena_next::capture_workers::{
    bgra_crop_as_ppm, failure_model, CaptureFailure, DeckSidebarWorker, DraftRecognitionWorker,
    DraftStep, PictureError,
};
use arena_next::card_data::{CardCache, CardCacheInput, CardMetadata, CardResolution};
use arena_next::client::{
    attached_entry, card_art_url, catalog_status, deck_count, missing_metadata,
    next_observer_step, no_session_message, redraft_policy_from_rules, rotation_entry,
    uses_arena_rules, AppLog, CaptureAction, CaptureRequest, CommandEffect, ObserverEvent,
    ObserverStep, OverlayCommand, OverlayState, SharedObserverState,
};
use arena_next::composite::CompositeRatingProvider;
use arena_next::daemon::{
    catalog_version, may_remove_socket, next_serve_action, poll_interval_millis,
    select_serve_session, ServeAction, ServeEvent, socket_action,
    socket_refusal, temporary_state_name, write_refusal, SocketAction, SocketProbe,
};
use arena_next::draft_view::DraftKey;
use arena_next::frame::{PixelFormat, RawFrame};
use arena_next::live::{ComponentRotation, LogStaleness};
use arena_next::merge::FileIdentity;
use arena_next::observer::AttachMethod;
use arena_next::offer_ocr::{
    is_due, offer_matches, resolve_offer_ocr_slot, OcrStep, OfferDisplay, OfferOcrWorker,
    OfferTitleError,
};
use arena_next::paths::{
    component_paths, discover_macos, install_candidates, join_path, latest_log_session,
    log_root_candidates, PathFact, PathOverrides, SessionFacts,
};
use arena_next::ratings::{LocalJsonRatingProvider, LocalRatingFile, LocalRatingRow, RatingValue};
use arena_next::rules::RedraftPolicy;
use arena_next::sidebar::{interpret_deck_sidebar, SidebarTextObservation};
use arena_next::snapshot::{
    ArenaDraftPhase, ArenaRunState, ArenaStateOrigin, DeckCompleteness, DeckState,
    DraftHistoryStatus, DraftState, ObserverSnapshot, PartialDeckReason, RedraftProgress,
    RedraftStage, ResolvedDeckCard,
};
use arena_next::state::{GameMode, HeroClass};
use arena_next::text_map::TextMap;

fn card(id: &str, name: &str) -> CardMetadata {
    CardMetadata {
        id: id.to_owned(),
        name: name.to_owned(),
        cost: None,
        durability: None,
        card_type: None,
        classes: Vec::new(),
        collectible: Some(true),
        set: None,
        dbf_id: None,
    }
}

fn cache() -> CardCache {
    match CardCache::from_input(CardCacheInput::RawCards(vec![
        card("END_036", "Morchie"),
        card("TIME_002", "Aeon Wizard"),
        card("OLD_001", "Twin Name"),
        card("NEW_001", "Twin Name"),
    ])) {
        Ok(cache) => cache,
        Err(error) => panic!("{}", error.message()),
    }
}

fn snapshot() -> ObserverSnapshot {
    ObserverSnapshot {
        schema_version: 5,
        state_schema_version: 1,
        mode: GameMode::Arena,
        hero_class: Some(HeroClass::Mage),
        deck: Vec::new(),
        remaining_deck: Vec::new(),
        deck_state: DeckState {
            expected_slots: None,
            observed_slots: 0,
            unobserved_slots: None,
            completeness: DeckCompleteness::Partial { reason: PartialDeckReason::Other },
        },
        run: ArenaRunState {
            draft_deck_id: Some("run".to_owned()),
            state_origin: ArenaStateOrigin::Replay,
            draft_phase: ArenaDraftPhase::Drafting,
            phase_label: "Draft".to_owned(),
            accepts_card_offers: true,
        },
        draft: DraftState {
            history_status: DraftHistoryStatus::Complete,
            exact_phase_progress: true,
            pick_number: 1,
            phase_pick_count: 0,
            redraft: RedraftProgress {
                stage: RedraftStage::Inactive,
                pick_rounds_required: None,
                pick_progress_known: false,
                pick_rounds_completed: 0,
                discard_count_required: None,
                discarded_card_ids: Vec::new(),
                accepts_normal_draft_capture: false,
            },
            current_offer: None,
            offers: Vec::new(),
            selected: None,
        },
        game_active: false,
    }
}

#[test]
fn finds_latest_complete_session() {
    let sessions = vec![
        SessionFacts {
            path: "/logs/old".to_owned(),
            has_log: [false, true, false, false, false],
            newest_millis: Some(1_000),
        },
        SessionFacts {
            path: "/logs/current".to_owned(),
            has_log: [false, true, true, true, false],
            newest_millis: Some(1_002),
        },
    ];
    assert_eq!(latest_log_session(&sessions), Some(1));
    assert_eq!(latest_log_session(&Vec::new()), None);
}

#[test]
fn a_session_with_more_logs_wins_over_a_newer_one() {
    let sessions = vec![
        SessionFacts {
            path: "/logs/full".to_owned(),
            has_log: [true, true, true, true, false],
            newest_millis: Some(1_000),
        },
        SessionFacts {
            path: "/logs/thin".to_owned(),
            has_log: [false, true, false, false, false],
            newest_millis: Some(9_000),
        },
    ];
    assert_eq!(latest_log_session(&sessions), Some(0));
    assert_eq!(
        component_paths("/logs/full", &[false, true, false, true, false]),
        vec![
            ("Power".to_owned(), "/logs/full/Power.log".to_owned()),
            ("Arena".to_owned(), "/logs/full/Arena.log".to_owned()),
        ]
    );
}

#[test]
fn the_game_is_looked_for_where_it_is_installed() {
    let none = PathOverrides { install_dir: None, log_dir: None, log_config: None };
    assert_eq!(join_path("/a", "b"), "/a/b");
    assert!(install_candidates("/home/x", &none)
        .iter()
        .any(|path| path == "/Applications/Hearthstone.app"));
    assert!(!log_root_candidates("/home/x", &none).is_empty());
    let facts: TextMap<PathFact> = TextMap::new();
    let found = discover_macos(Some("/home/x"), &none, &facts, &Vec::new()).unwrap();
    assert!(found.install_dir.is_none() && found.log_root.is_none());
    assert!(discover_macos(None, &none, &facts, &Vec::new()).is_err());
    let mut facts: TextMap<PathFact> = TextMap::new();
    facts.insert(
        "/Applications/Hearthstone.app".to_owned(),
        PathFact { exists: true, is_dir: true, has_logs: false },
    );
    let found = discover_macos(Some("/home/x"), &none, &facts, &Vec::new()).unwrap();
    assert_eq!(found.install_dir.as_deref(), Some("/Applications/Hearthstone.app"));
}

#[test]
fn explicit_serve_session_does_not_invoke_platform_discovery() {
    let (session, log_root) =
        select_serve_session(Some("/logs/explicit".to_owned()), None, None, None).unwrap();
    assert_eq!(session, "/logs/explicit");
    assert_eq!(log_root, None);
}

#[test]
fn refuses_to_replace_an_ordinary_socket_path() {
    assert_eq!(socket_action(SocketProbe::OtherFile), SocketAction::Refuse);
    assert!(socket_refusal(SocketProbe::OtherFile, "/tmp/hearthd.sock").is_some());
}

#[test]
fn a_live_socket_is_never_displaced() {
    assert_eq!(socket_action(SocketProbe::Live), SocketAction::Refuse);
    assert!(socket_refusal(SocketProbe::Live, "/tmp/x.sock")
        .unwrap()
        .contains("refusing to displace"));
    assert_eq!(socket_action(SocketProbe::Stale), SocketAction::RemoveAndBind);
    assert_eq!(socket_action(SocketProbe::Nothing), SocketAction::Bind);
    assert!(socket_refusal(SocketProbe::Stale, "/tmp/x.sock").is_none());
    let own = FileIdentity { device: 1, inode: 2 };
    assert!(may_remove_socket(own, Some(own), true));
    assert!(!may_remove_socket(own, Some(FileIdentity { device: 1, inode: 3 }), true));
    assert!(!may_remove_socket(own, None, true));
}

#[test]
fn sessions_are_chosen_from_what_was_found() {
    assert_eq!(
        select_serve_session(
            None,
            Some("/logs".to_owned()),
            Some("/logs/new".to_owned()),
            Some("/logs/old".to_owned())
        ),
        Ok(("/logs/new".to_owned(), Some("/logs".to_owned())))
    );
    assert_eq!(
        select_serve_session(None, Some("/logs".to_owned()), None, Some("/logs/old".to_owned())),
        Ok(("/logs/old".to_owned(), Some("/logs".to_owned())))
    );
    assert!(select_serve_session(None, Some("/logs".to_owned()), None, None).is_err());
    assert!(poll_interval_millis(1) >= 1);
    assert!(temporary_state_name("state.json", 3, 4, 0).contains("state.json"));
    assert!(write_refusal("/tmp/state.json").contains("/tmp/state.json"));
    assert_eq!(catalog_version(Some("\"abc\""), "https://x"), "abc");
}

#[test]
fn the_observer_never_gives_up() {
    assert_eq!(next_observer_step(ObserverEvent::AttachFailed), (ObserverStep::Attach, 1000));
    assert_eq!(next_observer_step(ObserverEvent::Attached), (ObserverStep::Poll, 0));
    assert_eq!(next_observer_step(ObserverEvent::Polled), (ObserverStep::Poll, 250));
    assert_eq!(next_observer_step(ObserverEvent::PollFailed), (ObserverStep::Attach, 1000));
}

#[test]
fn what_is_published_replaces_the_last_error() {
    let mut shared: SharedObserverState<u8> = SharedObserverState {
        snapshot: snapshot(),
        last_error: Some("old".to_owned()),
        checkpoint_error: None,
        external_draft: None,
        offer_overlay: None,
        log_staleness: LogStaleness::NoLogs,
    };
    assert_eq!(
        shared.publish(snapshot(), None, None, Some(3), LogStaleness::Live),
        Some("log staleness no-logs -> live".to_owned())
    );
    assert!(shared.last_error.is_none());
    assert_eq!(shared.offer_overlay, Some(3));
    shared.poll_failed("broken".to_owned(), None);
    assert_eq!(shared.last_error.as_deref(), Some("broken"));
    assert!(shared.offer_overlay.is_none());
    assert!(shared.attach_failed("gone".to_owned()).is_some());
    assert_eq!(shared.log_staleness, LogStaleness::NoLogs);
}

#[test]
fn the_log_leaves_repeats_out() {
    let mut log = AppLog::new();
    assert!(log.accept("a"));
    assert!(!log.accept("a"));
    assert!(log.accept("b"));
    assert!(log.accept("a"));
    assert_eq!(
        attached_entry(AttachMethod::TailRun, LogStaleness::Live, "/logs/s"),
        "attached method=TailRun staleness=live session=/logs/s"
    );
    assert_eq!(
        rotation_entry(&ComponentRotation {
            component: "Zone.log",
            previous_bytes: 10,
            retained_bytes: 4,
        }),
        "rotated Zone.log from 10 bytes, retained 4"
    );
}

#[test]
fn the_overlay_follows_its_commands() {
    let mut overlay = OverlayState::new();
    assert!(overlay.tick(true, true).activated);
    assert!(!overlay.tick(true, true).activated);
    assert!(overlay.tick(true, true).show);
    assert!(!overlay.tick(true, false).show);
    assert_eq!(overlay.follow(OverlayCommand::ToggleVisibility), CommandEffect::Nothing);
    assert!(!overlay.tick(false, false).show);
    assert_eq!(
        overlay.follow(OverlayCommand::ToggleInteraction),
        CommandEffect::SetInteractive(true)
    );
    assert_eq!(overlay.follow(OverlayCommand::FixDeckHelp), CommandEffect::ShowFixDeckHelp);
    assert_eq!(overlay.follow(OverlayCommand::Quit), CommandEffect::Stop);
    assert!(overlay.wants_card_art("CS2_029", false));
    assert!(!overlay.wants_card_art("CS2_029", false));
    assert!(!overlay.wants_card_art("CS2_030", true));
    assert_eq!(
        card_art_url("CS2_029").unwrap(),
        "https://art.hearthstonejson.com/v1/render/latest/enUS/256x/CS2_029.png"
    );
    assert!(card_art_url("../x").is_none());
}

#[test]
fn nothing_is_captured_without_permission() {
    let request = CaptureRequest {
        request_permission: false,
        capture_window: false,
        read_deck: true,
        read_offer: false,
    };
    assert!(request.attempts_capture());
    assert_eq!(request.action(false, true), CaptureAction::PermissionRequired);
    assert_eq!(request.action(true, false), CaptureAction::NoWindow);
    assert_eq!(request.action(true, true), CaptureAction::ReadDeck);
    let asking = CaptureRequest {
        request_permission: true,
        capture_window: false,
        read_deck: false,
        read_offer: false,
    };
    assert!(!asking.attempts_capture());
    assert_eq!(asking.action(true, true), CaptureAction::ReportOnly);
    assert!(asking.permission(false, true));
}

#[test]
fn decks_are_looked_up_card_by_card() {
    let deck = vec![
        ResolvedDeckCard {
            card_id: "END_036".to_owned(),
            count: 2,
            resolution: cache().resolve("END_036"),
        },
        ResolvedDeckCard {
            card_id: "NEW_999".to_owned(),
            count: 1,
            resolution: CardResolution::MissingMetadata { card_id: "NEW_999".to_owned() },
        },
    ];
    assert_eq!(missing_metadata(&deck), vec![("NEW_999".to_owned(), 1)]);
    assert_eq!(deck_count(&deck, "END_036"), Some(2));
    assert_eq!(deck_count(&deck, "OTHER"), None);
    assert_eq!(catalog_status(&deck[1].resolution), "missing");
    assert_eq!(
        redraft_policy_from_rules(None),
        RedraftPolicy { pick_rounds: 5, discard_count: 5 }
    );
    assert_eq!(uses_arena_rules(true, true), Ok(true));
    assert_eq!(uses_arena_rules(false, false), Ok(false));
    assert!(uses_arena_rules(false, true).is_err());
    assert!(no_session_message(Some("Zone")).contains("Zone"));
}

fn key(pick_number: u8) -> DraftKey {
    DraftKey {
        draft_deck_id: Some("run".to_owned()),
        phase: ArenaDraftPhase::Drafting,
        pick_number,
        phase_pick_count: 0,
    }
}

#[test]
fn an_offer_is_confirmed_by_two_readings() {
    let mut worker = OfferOcrWorker::new();
    assert_eq!(worker.note_offer(&None), OcrStep::Idle);
    assert_eq!(worker.note_offer(&Some(key(1))), OcrStep::FindWindow);
    worker.begin_offer(key(1), true);
    assert_eq!(worker.display, OfferDisplay::Scanning);
    assert_eq!(worker.note_offer(&Some(key(1))), OcrStep::Continue);
    assert!(worker.start_capture(1_000));
    assert!(!worker.start_capture(1_500));
    assert!(!worker.take_reading(Some(vec!["A".to_owned(), "B".to_owned()])));
    assert_eq!(worker.display, OfferDisplay::Confirming);
    assert!(worker.start_capture(1_800));
    assert!(worker.take_reading(Some(vec!["A".to_owned(), "B".to_owned()])));
    assert_eq!(worker.display, OfferDisplay::Scores);
    assert!(!worker.start_capture(9_000));
    worker.withdraw_scores();
    assert_eq!(worker.display, OfferDisplay::Hidden);
    assert!(worker.start_capture(9_000));
    assert_eq!(worker.note_offer(&Some(key(2))), OcrStep::FindWindow);
    assert!(is_due(None, 5, 800));
    assert!(!is_due(Some(5), 804, 800));
    assert!(is_due(Some(5), 805, 800));
}

#[test]
fn titles_are_matched_and_only_ratings_break_ties() {
    let lines = |text: &[&str]| -> Vec<String> { text.iter().map(|line| (*line).to_owned()).collect() };
    assert_eq!(offer_matches(&lines(&["Morchie"]), &cache()), ["END_036"]);
    assert_eq!(
        resolve_offer_ocr_slot(&lines(&["Morchie"]), &cache(), None, None),
        Ok("END_036".to_owned())
    );
    assert_eq!(
        resolve_offer_ocr_slot(&lines(&["Aeon", "Wizard"]), &cache(), None, None),
        Ok("TIME_002".to_owned())
    );
    assert_eq!(
        resolve_offer_ocr_slot(&lines(&["Nobody At All"]), &cache(), None, None),
        Err(OfferTitleError::NoMatch)
    );
    assert_eq!(
        resolve_offer_ocr_slot(&lines(&["Twin Name"]), &cache(), None, None),
        Err(OfferTitleError::SeveralMatches)
    );
    let rated = LocalJsonRatingProvider::from_file(LocalRatingFile {
        provider: "fixture".to_owned(),
        data_timestamp: arena_next::card_data::Timestamp { seconds: 0, nanoseconds: 0 },
        arena_season: None,
        data_version: None,
        ratings: vec![LocalRatingRow {
            card_id: "NEW_001".to_owned(),
            class: None,
            value: RatingValue { bits: 1.0f32.to_bits() },
            sample_size: None,
            label: None,
        }],
    });
    let ratings = match CompositeRatingProvider::from_providers(vec![rated]) {
        Ok(ratings) => ratings,
        Err(_) => panic!("one provider makes a composite"),
    };
    assert_eq!(
        resolve_offer_ocr_slot(&lines(&["Twin Name"]), &cache(), Some(&ratings), None),
        Ok("NEW_001".to_owned())
    );
}

#[test]
fn a_deck_is_taken_over_after_two_equal_reads() {
    let observations: Vec<SidebarTextObservation> = ["Your Deck", "Morchie x2", "Aeon Wizard", "3/30"]
        .iter()
        .map(|line| SidebarTextObservation::new((*line).to_owned(), 0.95f32.to_bits()))
        .collect();
    let read = interpret_deck_sidebar(&observations, &cache());
    let mut worker = DeckSidebarWorker::new();
    let run = Some("run".to_owned());
    assert!(worker.start_capture(&run, 1, false, 10_000));
    assert!(worker.take_reading(Some(&read)).is_none());
    assert!(worker.take_reading(None).is_none());
    let update = worker.take_reading(Some(&read)).expect("both reads agree");
    assert_eq!(update.observed_slots, 3);
    assert_eq!(update.expected_slots, 30);
    let mut ids = update.card_ids.expect("the whole deck is known");
    ids.sort();
    assert_eq!(ids, ["END_036", "END_036", "TIME_002"]);
}

#[test]
fn recognition_captures_only_open_offers() {
    let mut worker = DraftRecognitionWorker::new();
    let mut snapshot = snapshot();
    assert!(matches!(worker.step(&snapshot, 1_000), DraftStep::Capture));
    assert!(!matches!(worker.step(&snapshot, 1_100), DraftStep::Capture));
    snapshot.run.draft_phase = ArenaDraftPhase::ActiveDeck;
    snapshot.run.accepts_card_offers = false;
    assert!(matches!(worker.step(&snapshot, 9_000), DraftStep::Hide));
    let failure = failure_model(3, &CaptureFailure::Unusable("too dark".to_owned()));
    assert_eq!(failure.pick_number, 3);
    assert!(failure.lines.iter().any(|line| line.contains("too dark")));
    let text = |failure: CaptureFailure| failure_model(1, &failure).lines[0].clone();
    assert!(text(CaptureFailure::PermissionRequired).contains("--request-screen-recording"));
    assert_eq!(
        text(CaptureFailure::NoWindow),
        "No shareable Hearthstone window is available for draft detection."
    );
    assert_eq!(
        text(CaptureFailure::Unavailable("busy".to_owned())),
        "Draft capture unavailable: busy"
    );
    assert_eq!(
        text(CaptureFailure::Rejected("odd".to_owned())),
        "Draft evidence was rejected: odd"
    );
    assert_eq!(
        text(CaptureFailure::Incomplete("none".to_owned())),
        "Draft evidence is incomplete: none"
    );
}

#[test]
fn a_crop_becomes_a_picture() {
    let frame = RawFrame {
        width: 2,
        height: 2,
        bytes_per_row: 8,
        pixel_format: PixelFormat::Bgra8,
        pixels: vec![1, 2, 3, 0, 4, 5, 6, 0, 7, 8, 9, 0, 10, 11, 12, 0],
    };
    assert_eq!(
        bgra_crop_as_ppm(&frame, 1, 0, 1, 2).unwrap(),
        b"P6\n1 2\n255\n\x06\x05\x04\x0c\x0b\x0a"
    );
    assert_eq!(
        bgra_crop_as_ppm(&frame, 1, 1, 9, 9).unwrap(),
        b"P6\n1 1\n255\n\x0c\x0b\x0a"
    );
    assert!(matches!(
        bgra_crop_as_ppm(&frame, 2, 0, 1, 1),
        Err(PictureError::OutsideTheFrame)
    ));
    let mut short = frame;
    short.pixels.truncate(12);
    assert!(matches!(
        bgra_crop_as_ppm(&short, 0, 0, 2, 2),
        Err(PictureError::BeyondTheBuffer)
    ));
}

#[test]
fn a_service_publishes_news_and_outlives_every_failure() {
    let after = |event| next_serve_action(event);
    assert_eq!(after(ServeEvent::Ticked { newer_session: true }), ServeAction::AttachNext);
    assert_eq!(after(ServeEvent::NextNotReady), ServeAction::Poll);
    assert_eq!(after(ServeEvent::NextAttached), ServeAction::PublishAndPoll);
    assert_eq!(after(ServeEvent::Ticked { newer_session: false }), ServeAction::Poll);
    assert_eq!(after(ServeEvent::Polled { changed: true }), ServeAction::Publish);
    assert_eq!(after(ServeEvent::Polled { changed: false }), ServeAction::Wait);
    assert_eq!(after(ServeEvent::PollFailed), ServeAction::Replay);
    assert_eq!(after(ServeEvent::Replayed), ServeAction::Publish);
    assert_eq!(after(ServeEvent::ReplayFailed), ServeAction::Wait);
}
