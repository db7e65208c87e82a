use arena_next::card_data::Timestamp;
use arena_next::checkpoint::{
    restore_checkpoint, validate_checkpoint, CheckpointFault, CheckpointRestoreStatus,
    ObserverCheckpoint, ResumeContext, SessionPlace, StoredCheckpoint, CHECKPOINT_CATCH_UP_BYTES,
};
use arena_next::live::{
    newest_live_session, rotate_component_log, rotate_overlarge_component_logs,
    session_activity_time, session_staleness, switches_session, AttachAttempt, LogStaleness,
    PollAction, PollEvent, PollResult, ReadAttempt, SessionCandidate, ROTATE_AT_BYTES,
    ROTATION_KEEP_BYTES,
};
use arena_next::log_component::{ComponentMap, LogComponent, REQUIRED_COMPONENTS};
use arena_next::log_parser::settle_picks;
use arena_next::log_reader::{LogCursor, ReadError};
use arena_next::merge::{fnv1a64, FileIdentity, LogFile, SourcedLine};
use arena_next::observer::{
    AttachMethod, Attached, BaselineError, FileCheckpoint, ObserverError, ReplayReason, SessionObserver,
    OBSERVER_CHECKPOINT_SCHEMA_VERSION,
};
use arena_next::state::{EventSource, GameEvent};
use arena_next::tail_attach::{TailAttached, TAIL_SNAPSHOT_SUFFIX_BYTES};

const STATE_SCHEMA: u32 = 3;

fn arena_line(message: &str) -> String {
    format!("D 12:00:00.0000000 {message}\n")
}

fn sample_component_lines(count: usize) -> Vec<u8> {
    (0..count)
        .flat_map(|index| format!("D 12:00:00.0000000 record {index}\n").into_bytes())
        .collect()
}

fn arena_snapshot(deck_id: &str, card_id: &str, mode: &str) -> String {
    format!(
        "D 12:00:00.0000000 Draft Deck ID: {deck_id}, Hero Card = HERO_08\n\
         D 12:00:01.0000000 Draft deck contains card {card_id}\n\
         D 12:00:02.0000000 SetDraftMode - {mode}\n"
    )
}

/// Files by component. A file that is written over keeps its identity.
#[derive(Clone)]
struct Session {
    files: Vec<(LogComponent, u64, Vec<u8>)>,
}

impl Session {
    fn new(files: &[(LogComponent, &str)]) -> Self {
        Session {
            files: files
                .iter()
                .map(|(component, text)| {
                    (*component, component.index() as u64 + 1, text.as_bytes().to_vec())
                })
                .collect(),
        }
    }

    fn write(&mut self, component: LogComponent, text: &str) {
        match self.files.iter_mut().find(|file| file.0 == component) {
            Some(file) => file.2 = text.as_bytes().to_vec(),
            None => {
                self.files.push((component, component.index() as u64 + 1, text.as_bytes().to_vec()))
            }
        }
    }

    fn append(&mut self, component: LogComponent, text: &str) {
        match self.files.iter_mut().find(|file| file.0 == component) {
            Some(file) => file.2.extend_from_slice(text.as_bytes()),
            None => panic!("only a file that is there grows"),
        }
    }

    fn length(&self, component: LogComponent) -> u64 {
        match self.files.iter().find(|file| file.0 == component) {
            Some(file) => file.2.len() as u64,
            None => 0,
        }
    }

    fn logs(&self) -> ComponentMap<LogFile> {
        let mut map: ComponentMap<LogFile> = ComponentMap::new();
        for (component, inode, bytes) in &self.files {
            map.insert(
                *component,
                LogFile {
                    identity: FileIdentity { device: 1, inode: *inode },
                    bytes: bytes.clone(),
                },
            );
        }
        map
    }
}

fn events(lines: &[SourcedLine]) -> Vec<GameEvent> {
    lines
        .iter()
        .flat_map(|line| {
            let real = line.events.iter().all(|event| {
                !matches!(event, GameEvent::ArenaPick { card_id } if card_id.starts_with("HERO_"))
            });
            settle_picks(line.events.clone(), real)
        })
        .collect()
}

fn sources(lines: &[SourcedLine]) -> Vec<EventSource> {
    lines.iter().map(|line| line.source.clone()).collect()
}

fn picks(events: &[GameEvent]) -> usize {
    events.iter().filter(|event| matches!(event, GameEvent::ArenaPick { .. })).count()
}

fn deck_cards(events: &[GameEvent]) -> Vec<String> {
    let mut cards: Vec<String> = Vec::new();
    for event in events {
        match event {
            GameEvent::ArenaDeckSnapshotCard { card_id } => cards.push(card_id.clone()),
            GameEvent::ArenaPick { card_id } => cards.push(card_id.clone()),
            GameEvent::ArenaAuthoritativeResync { card_ids, .. } => {
                cards.extend(card_ids.iter().cloned())
            }
            _ => {}
        }
    }
    cards
}

fn attach(session: &Session) -> (SessionObserver, Vec<SourcedLine>) {
    match SessionObserver::attach("session", true, &session.logs(), &session.logs()) {
        Ok(attached) => (attached.observer, attached.lines),
        Err(error) => panic!("{error:?}"),
    }
}

fn attach_current(session: &Session) -> Result<TailAttached, ObserverError> {
    let plan = SessionObserver::plan_current_state("session", true, &session.logs())?;
    let run_identified = match &plan.run {
        Some(run) => events(&run.lines)
            .iter()
            .any(|event| matches!(event, GameEvent::ArenaRunStarted { .. })),
        None => false,
    };
    SessionObserver::attach_current_state(
        "session",
        &session.logs(),
        &session.logs(),
        plan,
        run_identified,
    )
}

fn tail_events(attached: &TailAttached) -> Vec<GameEvent> {
    let mut all: Vec<GameEvent> = attached.resync.iter().cloned().collect();
    all.extend(events(&attached.lines));
    all
}

fn attached_now(session: &Session) -> TailAttached {
    match attach_current(session) {
        Ok(attached) => attached,
        Err(error) => panic!("{error:?}"),
    }
}

fn save(observer: &SessionObserver) -> ObserverCheckpoint {
    match ObserverCheckpoint::from_observer(observer, "/logs/session", STATE_SCHEMA) {
        Some(mut checkpoint) => {
            checkpoint.integrity_hash = 77;
            checkpoint
        }
        None => panic!("each cursor has a file"),
    }
}

fn context(sources: Vec<EventSource>) -> ResumeContext {
    ResumeContext {
        place: SessionPlace {
            path: "/logs/session".to_owned(),
            canonical: "/logs/session".to_owned(),
            id: "session".to_owned(),
            is_dir: true,
        },
        state_schema_version: STATE_SCHEMA,
        expected_hash: 77,
        sources,
        reducer_valid: true,
    }
}

fn resume(
    checkpoint: ObserverCheckpoint,
    sources: Vec<EventSource>,
    session: &Session,
) -> (Option<Attached>, CheckpointRestoreStatus) {
    let stored = StoredCheckpoint::Found { checkpoint, context: context(sources) };
    SessionObserver::attach_with_checkpoint(stored, &session.logs(), &session.logs()).unwrap()
}

fn attempt(attached: &Result<TailAttached, ObserverError>) -> AttachAttempt {
    match attached {
        Ok(_) => AttachAttempt::Attached,
        Err(error) if error.is_replay_required() => AttachAttempt::ReplayRequired,
        Err(_) => AttachAttempt::Failed,
    }
}

/// One poll of an observer that attaches afresh where the logs have to be read again, and goes
/// over to a newer session where there is one.
fn live_poll_over(
    observer: &mut SessionObserver,
    session: &Session,
    newer: Option<&Session>,
) -> (PollResult, Vec<GameEvent>) {
    let mut seen = Vec::new();
    let mut followed = session;
    let mut result = PollResult::default();
    let mut event = PollEvent::Begun { newer_session: newer.is_some() };
    loop {
        event = match (result.next_action(event), newer) {
            (PollAction::AttachNext, Some(newer)) => {
                let attached = attach_current(newer);
                let tried = attempt(&attached);
                if let Ok(attached) = attached {
                    seen = tail_events(&attached);
                    *observer = attached.observer;
                    followed = newer;
                }
                PollEvent::Switched(tried)
            }
            (PollAction::ReadOn, _) => {
                let outcome = observer.poll(&followed.logs(), &followed.logs());
                seen.extend(events(&outcome.lines));
                PollEvent::Read(match outcome.result {
                    Ok(changed) => ReadAttempt::Read { changed },
                    Err(error) if error.is_replay_required() => ReadAttempt::ReplayRequired,
                    Err(_) => ReadAttempt::Failed,
                })
            }
            (PollAction::AttachAgain, _) => {
                let attached = attach_current(followed);
                let tried = attempt(&attached);
                if let Ok(attached) = attached {
                    seen = tail_events(&attached);
                    *observer = attached.observer;
                }
                PollEvent::Recovered(tried)
            }
            (PollAction::Finish(result), _) => return (result, seen),
            _ => panic!("the poll failed"),
        };
    }
}

fn live_poll(
    observer: &mut SessionObserver,
    session: &Session,
) -> (PollResult, Vec<GameEvent>) {
    live_poll_over(observer, session, None)
}

#[test]
fn staleness_distinguishes_live_stale_and_missing_sessions() {
    let now = Timestamp { seconds: 1_000, nanoseconds: 5 };
    assert_eq!(
        session_staleness(session_activity_time(&Vec::new()), now, 60_000_000_000),
        LogStaleness::NoLogs
    );

    let newest = session_activity_time(&vec![
        Timestamp { seconds: 999, nanoseconds: 999_999_999 },
        Timestamp { seconds: 700, nanoseconds: 0 },
    ]);
    assert_eq!(session_staleness(newest, now, 3_600_000_000_000), LogStaleness::Live);
    // Any log is stale by a threshold of nothing.
    assert!(matches!(session_staleness(newest, now, 0), LogStaleness::Stale { .. }));
    assert_eq!(
        session_staleness(Timestamp { seconds: 100, nanoseconds: 0 }, now, 60_000_000_000),
        LogStaleness::Stale { age_secs: 900 }
    );
}

#[test]
fn rotation_trims_an_overlarge_component_to_a_newline_aligned_tail() {
    let bytes = sample_component_lines(500_000);
    assert!(bytes.len() > ROTATE_AT_BYTES as usize);

    let rotated = rotate_component_log(&bytes).expect("the log is too long");
    assert!(rotated.len() < bytes.len());
    assert!(rotated.len() <= ROTATION_KEEP_BYTES as usize);
    assert!(rotated.first() == Some(&b'D'));
    assert_eq!(rotated.last(), Some(&b'\n'));
    let tail_text = String::from_utf8(rotated).unwrap();
    assert!(tail_text.ends_with("record 499999\n"));
    assert!(tail_text.lines().count() > 1);
    for line in tail_text.lines() {
        assert!(line.starts_with("D 12:00:00.0000000 record "));
    }
}

#[test]
fn rotation_leaves_small_and_missing_component_logs_untouched() {
    let small = sample_component_lines(3);
    assert_eq!(rotate_component_log(&small), None);

    let mut files: ComponentMap<Vec<u8>> = ComponentMap::new();
    files.insert(LogComponent::Arena, small.clone());
    let outcome = rotate_overlarge_component_logs(&mut files);
    assert!(outcome.rotations.is_empty());
    assert_eq!(files.get(LogComponent::Arena), Some(&small));
    assert!(files.get(LogComponent::Zone).is_none());
}

#[test]
fn rotate_overlarge_component_logs_skips_components_without_a_file_and_reports_rotations() {
    let bytes = sample_component_lines(500_000);
    let mut files: ComponentMap<Vec<u8>> = ComponentMap::new();
    files.insert(LogComponent::Zone, bytes.clone());
    files.insert(LogComponent::Arena, b"D 12:00:00.0000000 keep\n".to_vec());

    let outcome = rotate_overlarge_component_logs(&mut files);
    assert!(outcome.failures.is_empty());
    let zone_rotation = outcome
        .rotations
        .iter()
        .find(|rotation| rotation.component == LogComponent::Zone.filename())
        .unwrap();
    assert_eq!(zone_rotation.previous_bytes, bytes.len() as u64);
    let zone = files.get(LogComponent::Zone).unwrap();
    assert_eq!(zone_rotation.retained_bytes as usize, zone.len());
    assert_eq!(
        files.get(LogComponent::Arena).unwrap().as_slice(),
        b"D 12:00:00.0000000 keep\n"
    );
    let tail = String::from_utf8(zone.clone()).unwrap();
    assert!(tail.ends_with("record 499999\n"));
}

#[test]
fn arena_log_is_never_rotated_even_when_overlarge() {
    let bytes = sample_component_lines(500_000);
    let mut files: ComponentMap<Vec<u8>> = ComponentMap::new();
    files.insert(LogComponent::Arena, bytes.clone());

    let outcome = rotate_overlarge_component_logs(&mut files);
    assert!(outcome.rotations.is_empty());
    assert!(outcome.failures.is_empty());
    assert_eq!(files.get(LogComponent::Arena).unwrap().len(), bytes.len());
}

#[test]
fn complete_sidebar_baseline_replaces_previews_and_enables_only_later_picks() {
    let mut session = Session::new(&[(
        LogComponent::Arena,
        "D 12:00:00.0000000 OnBegin - Got new draft deck with ID: 42\n\
         D 12:00:01.0000000 Client chooses: Preview (EX1_116)\n",
    )]);
    let (mut observer, lines) = attach(&session);
    assert_eq!(deck_cards(&events(&lines)).len(), 0);
    assert!(!observer.arena_picks_enabled());

    let cards: Vec<String> = vec!["CS2_029".into(), "CS2_024".into(), "CS2_024".into()];
    let (event, opened) = observer
        .apply_complete_sidebar_baseline(cards.clone(), true, true, 3, 30)
        .unwrap();
    assert!(opened);
    assert_eq!(event, GameEvent::DeckList { card_ids: cards });
    assert!(observer.arena_picks_enabled());

    let checkpoint = save(&observer);
    let mut observer = match resume(checkpoint, sources(&lines), &session) {
        (Some(attached), CheckpointRestoreStatus::Restored) => attached.observer,
        _ => panic!("the saved state still fits"),
    };
    assert!(observer.arena_picks_enabled());

    session.append(
        LogComponent::Arena,
        "D 12:00:02.0000000 Client chooses: Later Pick (EX1_116)\n",
    );
    let outcome = observer.poll(&session.logs(), &session.logs());
    assert_eq!(outcome.result, Ok(true));
    assert_eq!(
        events(&outcome.lines),
        vec![GameEvent::ArenaPick { card_id: "EX1_116".into() }]
    );
}

#[test]
fn cold_replay_recovers_package_plus_all_logged_picks() {
    let mut lines = String::from(
        "D 12:00:00.0000000 DraftManager.OnChoicesAndContents - Draft Deck ID: 42, Hero Card = HERO_03\n",
    );
    for card_id in ["END_036", "TIME_002", "TIME_003", "TIME_004", "TIME_045"] {
        lines.push_str(&format!(
            "D 12:00:00.1000000 DraftManager.OnChoicesAndContents - Draft deck contains card {card_id}\n"
        ));
    }
    lines.push_str("D 12:00:01.0000000 SetDraftMode - DRAFTING\n");
    for index in 0..25 {
        lines.push_str(&format!(
            "D 12:00:{:02}.0000000 Client chooses: Pick {index} (PICK_{index:02})\n",
            index + 2
        ));
    }
    lines.push_str("D 12:00:30.0000000 SetDraftMode - ACTIVE_DRAFT_DECK\n");
    let session = Session::new(&[(LogComponent::Arena, lines.as_str())]);

    let (observer, lines) = attach(&session);
    assert_eq!(deck_cards(&events(&lines)).len(), 30);
    assert_eq!(picks(&events(&lines)), 25);

    let checkpoint = save(&observer);
    match resume(checkpoint, sources(&lines), &session) {
        (Some(attached), CheckpointRestoreStatus::Restored) => assert!(attached.lines.is_empty()),
        _ => panic!("the saved state still fits"),
    }
}

#[test]
fn partial_sidebar_baseline_is_rejected_without_mutating_or_opening_gate() {
    let session = Session::new(&[(
        LogComponent::Arena,
        "D 12:00:00.0000000 OnBegin - Got new draft deck with ID: 42\n",
    )]);
    let (mut observer, lines) = attach(&session);
    assert_eq!(
        observer.apply_complete_sidebar_baseline(vec!["CS2_029".into()], true, true, 5, 30),
        Err(BaselineError::Partial { visible: 1, observed: 5 })
    );
    assert_eq!(deck_cards(&events(&lines)).len(), 0);
    assert!(!observer.arena_picks_enabled());
}

#[test]
fn a_baseline_needs_a_run_and_real_cards_that_fit() {
    let session = Session::new(&[(LogComponent::Arena, "D 12:00:00.0000000 nothing\n")]);
    let (mut observer, _) = attach(&session);
    assert_eq!(
        observer.apply_complete_sidebar_baseline(vec!["A".into()], true, false, 1, 30),
        Err(BaselineError::NoRun)
    );
    assert_eq!(
        observer.apply_complete_sidebar_baseline(vec!["A".into()], true, true, 1, 0),
        Err(BaselineError::Capacity { observed: 1, expected: 0 })
    );
    assert_eq!(
        observer.apply_complete_sidebar_baseline(vec!["A".into()], false, true, 1, 30),
        Err(BaselineError::NotCards)
    );
    assert!(!observer.arena_picks_enabled());
}

#[test]
fn tail_snapshot_hydrates_current_deck_without_power_history() {
    let arena = format!(
        "D 09:00:00.0000000 old diagnostic {}\n{}",
        "x".repeat(96 * 1024),
        "D 11:00:00.0000000 Draft Deck ID: 2, Hero Card = HERO_08\n\
         D 11:00:01.0000000 Draft deck contains card CS2_029\n\
         D 11:00:02.0000000 Draft deck contains card CS2_024\n\
         D 11:00:03.0000000 SetDraftMode - ACTIVE_DRAFT_DECK\n"
    );
    let power = format!(
        "D 08:00:00.0000000 GameState.DebugPrintPower() - CREATE_GAME {}\n",
        "z".repeat(2 * 1024 * 1024)
    );
    let session = Session::new(&[
        (LogComponent::Arena, arena.as_str()),
        (LogComponent::Power, power.as_str()),
    ]);

    let attached = attached_now(&session);
    let observer = &attached.observer;
    assert_eq!(observer.attach_method(), AttachMethod::TailSnapshot);
    match &attached.resync {
        Some(GameEvent::ArenaAuthoritativeResync { draft_deck_id, card_ids, .. }) => {
            assert_eq!(draft_deck_id, "2");
            assert_eq!(card_ids.len(), 2);
            assert!(card_ids.iter().any(|card| card == "CS2_029"));
        }
        _ => panic!("the deck is taken over"),
    }
    assert_eq!(picks(&tail_events(&attached)), 0);
    assert!(!tail_events(&attached)
        .iter()
        .any(|event| matches!(event, GameEvent::GameStarted)));
    assert_eq!(
        observer.cursors.get(LogComponent::Power).unwrap().byte_offset,
        session.length(LogComponent::Power)
    );
    let diagnostics = observer.attach_diagnostics();
    assert!(diagnostics.snapshot_byte_offset.is_some());
    assert!(diagnostics.snapshot_bytes_parsed < 8 * 1024);
    assert!(diagnostics.non_arena_components_started_at_tail);
}

#[test]
fn tail_snapshot_reports_when_a_large_arena_suffix_is_skipped() {
    let arena = format!(
        "{}{}{}",
        arena_snapshot("1", "CS2_024", "ACTIVE_DRAFT_DECK"),
        arena_line("Client chooses: Fireball (CS2_029)"),
        arena_line(&format!(
            "inert diagnostic {}",
            "x".repeat(usize::try_from(TAIL_SNAPSHOT_SUFFIX_BYTES + 1).unwrap())
        ))
    );
    let session = Session::new(&[(LogComponent::Arena, arena.as_str())]);

    let attached = attached_now(&session);
    let diagnostics = attached.observer.attach_diagnostics();
    assert_eq!(attached.observer.attach_method(), AttachMethod::TailSnapshot);
    assert!(diagnostics.arena_suffix_truncated);
    assert!(diagnostics.arena_suffix_bytes_skipped > TAIL_SNAPSHOT_SUFFIX_BYTES);
    let events = tail_events(&attached);
    assert_eq!(picks(&events), 0);
    assert!(deck_cards(&events).iter().any(|card| card == "CS2_024"));
}

#[test]
fn newest_incomplete_snapshot_never_reuses_an_older_deck() {
    let session = Session::new(&[(
        LogComponent::Arena,
        "D 10:00:00.0000000 Draft Deck ID: 1, Hero Card = HERO_08\n\
         D 10:00:01.0000000 Draft deck contains card CS2_029\n\
         D 10:00:02.0000000 SetDraftMode - ACTIVE_DRAFT_DECK\n\
         D 11:00:00.0000000 Draft Deck ID: 2, Hero Card = HERO_08\n\
         D 11:00:01.0000000 Draft deck contains card CS2_024\n",
    )]);

    let attached = attached_now(&session);
    assert_eq!(attached.observer.attach_method(), AttachMethod::AwaitingSnapshot);
    let events = tail_events(&attached);
    assert!(events.iter().any(|event| matches!(
        event,
        GameEvent::ArenaDeckSnapshotStarted { draft_deck_id, .. } if draft_deck_id == "2"
    )));
    assert!(attached.resync.is_none());
    assert!(deck_cards(&events).iter().all(|card| card != "CS2_029"));
    assert!(deck_cards(&events).iter().any(|card| card == "CS2_024"));
}

#[test]
fn newer_run_start_never_reuses_a_prior_run_snapshot() {
    let session = Session::new(&[(
        LogComponent::Arena,
        "D 10:00:00.0000000 Draft Deck ID: 1, Hero Card = HERO_08\n\
         D 10:00:01.0000000 Draft deck contains card CS2_029\n\
         D 10:00:02.0000000 SetDraftMode - ACTIVE_DRAFT_DECK\n\
         D 11:00:00.0000000 DraftManager.OnBegin - Got new draft deck with ID: 2\n\
         D 11:00:01.0000000 SetDraftMode - DRAFTING\n\
         D 11:00:02.0000000 Client chooses: Valeera Sanguinar (HERO_03)\n",
    )]);

    let attached = attached_now(&session);
    assert_eq!(attached.observer.attach_method(), AttachMethod::TailRun);
    let events = tail_events(&attached);
    assert!(deck_cards(&events).is_empty());
    assert!(events.iter().any(|event| matches!(
        event,
        GameEvent::ArenaRunStarted { draft_deck_id } if draft_deck_id == "2"
    )));
    assert_eq!(picks(&events), 0);
    assert!(!events.iter().any(|event| matches!(event, GameEvent::HeroCard { .. })));
    assert!(attached.observer.attach_diagnostics().snapshot_invalidated_by_newer_run);
}

#[test]
fn checkpoint_catches_up_a_new_run_before_exposing_restored_state() {
    let first = arena_snapshot("1", "CS2_029", "ACTIVE_DRAFT_DECK");
    let mut session = Session::new(&[(LogComponent::Arena, first.as_str())]);
    let checkpoint = save(&attached_now(&session).observer);

    session.append(
        LogComponent::Arena,
        "D 12:01:00.0000000 DraftManager.OnBegin - Got new draft deck with ID: 2\n",
    );

    match resume(checkpoint, Vec::new(), &session) {
        (Some(Attached { observer, lines }), CheckpointRestoreStatus::Restored) => {
            assert_eq!(observer.attach_method(), AttachMethod::VerifiedCheckpoint);
            assert!(observer.attach_diagnostics().checkpoint_suffix_bytes_replayed > 0);
            assert_eq!(
                events(&lines),
                vec![GameEvent::ArenaRunStarted { draft_deck_id: "2".into() }]
            );
        }
        _ => panic!("the saved state still fits"),
    }
}

#[test]
fn oversized_checkpoint_suffix_uses_tail_resync_instead_of_history_catch_up() {
    let arena = arena_snapshot("1", "CS2_029", "ACTIVE_DRAFT_DECK");
    let power = arena_line("inert power diagnostic");
    let mut session = Session::new(&[
        (LogComponent::Arena, arena.as_str()),
        (LogComponent::Power, power.as_str()),
    ]);
    let checkpoint = save(&attached_now(&session).observer);

    session.append(
        LogComponent::Power,
        &format!(
            "D 12:01:00.0000000 GameState.DebugPrintPower() - CREATE_GAME {}\n",
            "z".repeat(usize::try_from(CHECKPOINT_CATCH_UP_BYTES + 1).unwrap())
        ),
    );

    match resume(checkpoint, Vec::new(), &session) {
        (None, CheckpointRestoreStatus::Rejected { reason }) => {
            assert!(reason.contains("newly appended event-log bytes"), "{reason}");
        }
        _ => panic!("too much was added"),
    }
    let resynced = attached_now(&session);
    assert_eq!(resynced.observer.attach_method(), AttachMethod::TailSnapshot);
    let events = tail_events(&resynced);
    assert!(deck_cards(&events).iter().any(|card| card == "CS2_029"));
    assert!(!events.iter().any(|event| matches!(event, GameEvent::GameStarted)));
    assert_eq!(
        resynced.observer.cursors.get(LogComponent::Power).unwrap().byte_offset,
        session.length(LogComponent::Power)
    );
}

#[test]
fn verified_checkpoint_resumes_suffix_and_parser_state() {
    let mut session = Session::new(&[(
        LogComponent::Arena,
        "D 12:00:00.0000000 Draft Deck ID: 77, Hero Card = HERO_08\n\
         D 12:00:01.0000000 Draft deck contains card CS2_029\n",
    )]);

    let (observer, lines) = attach(&session);
    assert_eq!(deck_cards(&events(&lines)), ["CS2_029"]);
    let checkpoint = save(&observer);

    let mut restored = match resume(checkpoint, sources(&lines), &session) {
        (Some(Attached { observer, lines }), CheckpointRestoreStatus::Restored) => {
            assert!(lines.is_empty());
            observer
        }
        _ => panic!("the saved state still fits"),
    };

    // This line tells of a card only while a deck is being read, so that the parser's state has
    // come through with the cursors.
    session.append(
        LogComponent::Arena,
        "D 12:00:02.0000000 Draft deck contains card CS2_024\n",
    );
    let outcome = restored.poll(&session.logs(), &session.logs());
    assert_eq!(outcome.result, Ok(true));
    assert_eq!(deck_cards(&events(&outcome.lines)), ["CS2_024"]);
}

#[test]
fn source_mismatch_rejects_checkpoint_and_never_restores_stale_history() {
    let inert_tail = format!("D 12:00:01.0000000 inert diagnostic {}\n", "x".repeat(160));
    let text = format!(
        "{}{}{}",
        arena_line("DraftManager.OnChosen(): hero=HERO_08"),
        inert_tail,
        inert_tail
    );
    let mut session = Session::new(&[(LogComponent::Arena, text.as_str())]);
    let (observer, lines) = attach(&session);
    let checkpoint = save(&observer);

    // The length and the last bytes stay as they were: only the saved record tells.
    session.write(LogComponent::Arena, &text.replace("HERO_08", "HERO_03"));

    match resume(checkpoint, sources(&lines), &session) {
        (None, CheckpointRestoreStatus::Rejected { .. }) => {}
        _ => panic!("the record is another one"),
    }
    let resynced = attached_now(&session);
    assert_eq!(resynced.observer.attach_method(), AttachMethod::AwaitingSnapshot);
    assert_eq!(picks(&tail_events(&resynced)), 0);
}

#[test]
fn waits_for_partial_lines_then_consumes_the_completed_line() {
    let mut session =
        Session::new(&[(LogComponent::Arena, "D 12:00:00.0000000 SetDraftMode - DRAFTING")]);
    let (mut observer, lines) = attach(&session);
    assert!(lines.is_empty());

    session.write(LogComponent::Arena, "D 12:00:00.0000000 SetDraftMode - DRAFTING\n");
    let outcome = observer.poll(&session.logs(), &session.logs());
    assert_eq!(outcome.result, Ok(true));
    assert_eq!(
        events(&outcome.lines),
        vec![GameEvent::ArenaDraftMode { mode: "DRAFTING".into() }]
    );
}

#[test]
fn live_observer_resyncs_current_deck_after_log_truncation() {
    let first = arena_snapshot("1", "CS2_029", "ACTIVE_DRAFT_DECK");
    let mut session = Session::new(&[(LogComponent::Arena, first.as_str())]);
    let mut observer = attached_now(&session).observer;

    session.write(LogComponent::Arena, &arena_snapshot("2", "CS2_024", "ACTIVE_DRAFT_DECK"));
    let (result, events) = live_poll(&mut observer, &session);
    assert!(result.recovered_from_rotation);
    assert!(matches!(
        &events[0],
        GameEvent::ArenaAuthoritativeResync { draft_deck_id, .. } if draft_deck_id == "2"
    ));
    assert!(deck_cards(&events).iter().any(|card| card == "CS2_024"));
}

#[test]
fn live_observer_detects_an_in_place_rewrite_that_is_longer_than_cursor() {
    let first = arena_snapshot("1", "CS2_029", "ACTIVE_DRAFT_DECK");
    let mut session = Session::new(&[(LogComponent::Arena, first.as_str())]);
    let mut observer = attached_now(&session).observer;

    // The file keeps its identity and is longer than before: its length alone would tell of
    // nothing but new records.
    session.write(
        LogComponent::Arena,
        &format!(
            "{}{}",
            arena_snapshot("2", "CS2_024", "ACTIVE_DRAFT_DECK"),
            arena_line(&format!("inert diagnostic {}", "x".repeat(256)))
        ),
    );

    let (result, events) = live_poll(&mut observer, &session);
    assert!(result.recovered_from_rotation);
    assert!(matches!(
        &events[0],
        GameEvent::ArenaAuthoritativeResync { draft_deck_id, .. } if draft_deck_id == "2"
    ));
    assert!(deck_cards(&events).iter().any(|card| card == "CS2_024"));
}

#[test]
fn live_observer_replays_when_a_component_appears_after_attachment() {
    let first = arena_snapshot("1", "CS2_029", "ACTIVE_DRAFT_DECK");
    let mut session = Session::new(&[(LogComponent::Arena, first.as_str())]);
    let mut observer = attached_now(&session).observer;
    session.write(
        LogComponent::LoadingScreen,
        &arena_line("LoadingScreen.OnSceneLoaded - ARENA"),
    );

    let (result, _) = live_poll(&mut observer, &session);
    assert!(result.recovered_from_rotation);
    assert_eq!(
        observer.cursors.get(LogComponent::LoadingScreen),
        Some(&LogCursor {
            byte_offset: session.length(LogComponent::LoadingScreen),
            line_number: 0
        })
    );
}

#[test]
fn rotation_then_resync_preserves_the_deck_across_the_full_observer_cycle() {
    let arena = arena_snapshot("1", "CS2_029", "ACTIVE_DRAFT_DECK");
    let zone = String::from_utf8(sample_component_lines(500_000)).unwrap();
    assert!(zone.len() > ROTATE_AT_BYTES as usize);
    let mut session = Session::new(&[
        (LogComponent::Arena, arena.as_str()),
        (LogComponent::Zone, zone.as_str()),
    ]);
    let attached = attached_now(&session);
    assert!(deck_cards(&tail_events(&attached)).iter().any(|card| card == "CS2_029"));
    let mut observer = attached.observer;

    let mut files: ComponentMap<Vec<u8>> = ComponentMap::new();
    for (component, _, bytes) in &session.files {
        files.insert(*component, bytes.clone());
    }
    let outcome = rotate_overlarge_component_logs(&mut files);
    assert!(outcome.failures.is_empty());
    assert_eq!(outcome.rotations.len(), 1);
    assert_eq!(outcome.rotations[0].component, LogComponent::Zone.filename());
    assert_eq!(outcome.rotations[0].previous_bytes, zone.len() as u64);
    for component in REQUIRED_COMPONENTS {
        if let Some(bytes) = files.get(component) {
            session.write(component, std::str::from_utf8(bytes).unwrap());
        }
    }

    let (result, events) = live_poll(&mut observer, &session);
    assert!(result.recovered_from_rotation);
    assert!(matches!(
        &events[0],
        GameEvent::ArenaAuthoritativeResync { draft_deck_id, .. } if draft_deck_id == "1"
    ));
    assert!(deck_cards(&events).iter().any(|card| card == "CS2_029"));
    assert!(session.length(LogComponent::Zone) <= ROTATE_AT_BYTES);
    assert!(session.length(LogComponent::Arena) > 0);
}

#[test]
fn live_observer_retains_last_snapshot_during_a_transient_rotation_window() {
    let first = arena_snapshot("1", "CS2_029", "ACTIVE_DRAFT_DECK");
    let session = Session::new(&[(LogComponent::Arena, first.as_str())]);
    let mut observer = attached_now(&session).observer;

    let gone = Session::new(&[]);
    let (pending, events) = live_poll(&mut observer, &gone);
    assert!(pending.recovery_pending);
    assert!(events.is_empty());
    assert!(observer.cursors.contains(LogComponent::Arena));

    let second = arena_snapshot("2", "CS2_024", "ACTIVE_DRAFT_DECK");
    let mut back = Session::new(&[(LogComponent::Arena, second.as_str())]);
    back.files[0].1 = 99;
    let (recovered, events) = live_poll(&mut observer, &back);
    assert!(recovered.recovered_from_rotation);
    assert!(deck_cards(&events).iter().any(|card| card == "CS2_024"));
}

fn candidate(path: &str, seconds: i64) -> SessionCandidate {
    SessionCandidate {
        path: path.to_owned(),
        is_session: true,
        activity: Timestamp { seconds, nanoseconds: 0 },
    }
}

#[test]
fn full_replay_and_follow_observer_switches_to_a_newer_session() {
    let old = candidate("/logs/old", 10);
    let current = candidate("/logs/current", 12);
    assert_eq!(newest_live_session(&vec![candidate("/logs/old", 10)]), Some(0));
    let sessions = vec![candidate("/logs/old", 10), candidate("/logs/current", 12)];
    let newest = newest_live_session(&sessions).unwrap();
    assert_eq!(sessions[newest].path, current.path);
    assert!(switches_session(true, &old.path, old.activity, &current.path, current.activity));
    assert!(!switches_session(false, &old.path, old.activity, &current.path, current.activity));

    let first = arena_snapshot("1", "CS2_029", "ACTIVE_DRAFT_DECK");
    let followed = Session::new(&[(LogComponent::Arena, first.as_str())]);
    let second = arena_snapshot("2", "CS2_024", "ACTIVE_DRAFT_DECK");
    let newer = Session::new(&[(LogComponent::Arena, second.as_str())]);
    let mut observer = attached_now(&followed).observer;
    let (result, seen) = live_poll_over(&mut observer, &followed, Some(&newer));
    assert!(result.switched_session);
    assert!(result.changed);
    assert!(!result.recovery_pending);
    assert!(matches!(
        seen.first(),
        Some(GameEvent::ArenaAuthoritativeResync { draft_deck_id, .. }) if draft_deck_id == "2"
    ));
}

#[test]
fn polls_keep_to_their_events() {
    let mut result = PollResult::default();
    assert_eq!(
        result.next_action(PollEvent::Begun { newer_session: true }),
        PollAction::AttachNext
    );
    assert_eq!(
        result.next_action(PollEvent::Switched(AttachAttempt::ReplayRequired)),
        PollAction::ReadOn
    );
    assert_eq!(
        result.next_action(PollEvent::Read(ReadAttempt::ReplayRequired)),
        PollAction::AttachAgain
    );
    let done = PollResult {
        changed: true,
        recovered_from_rotation: true,
        switched_session: false,
        recovery_pending: true,
    };
    assert_eq!(
        result.next_action(PollEvent::Recovered(AttachAttempt::Attached)),
        PollAction::Finish(done)
    );
    let mut failing = PollResult::default();
    assert_eq!(
        failing.next_action(PollEvent::Switched(AttachAttempt::Failed)),
        PollAction::Fail
    );
    assert_eq!(failing.next_action(PollEvent::Read(ReadAttempt::Failed)), PollAction::Fail);
}

#[test]
fn newest_live_session_prefers_a_new_partial_session() {
    let sessions = vec![candidate("/logs/old", 10), candidate("/logs/current", 11)];
    assert_eq!(newest_live_session(&sessions), Some(1));
    let mut other = candidate("/logs/notes", 50);
    other.is_session = false;
    assert_eq!(newest_live_session(&vec![candidate("/logs/old", 10), other]), Some(0));
    assert_eq!(newest_live_session(&Vec::new()), None);
}

#[test]
fn newer_partial_session_is_preferred_over_an_old_complete_session() {
    let old = SessionCandidate {
        path: "/logs/old".to_owned(),
        is_session: true,
        activity: session_activity_time(&vec![
            Timestamp { seconds: 10, nanoseconds: 0 },
            Timestamp { seconds: 10, nanoseconds: 0 },
        ]),
    };
    let current = SessionCandidate {
        path: "/logs/current".to_owned(),
        is_session: true,
        activity: session_activity_time(&vec![Timestamp { seconds: 10, nanoseconds: 20_000_000 }]),
    };
    assert_eq!(newest_live_session(&vec![old, current]), Some(1));
}

#[test]
fn each_damage_to_a_checkpoint_has_its_name() {
    let arena = arena_snapshot("1", "CS2_029", "ACTIVE_DRAFT_DECK");
    let session = Session::new(&[(LogComponent::Arena, arena.as_str())]);
    let (observer, lines) = attach(&session);
    let good = || save(&observer);
    let check = |checkpoint: &ObserverCheckpoint, context: &ResumeContext, files: &Session| {
        validate_checkpoint(checkpoint, context, &files.logs())
    };
    let known = || context(sources(&lines));
    assert_eq!(check(&good(), &known(), &session), Ok(()));
    let mut schema = good();
    schema.schema_version = OBSERVER_CHECKPOINT_SCHEMA_VERSION + 1;
    assert_eq!(
        check(&schema, &known(), &session),
        Err(CheckpointFault::CheckpointSchema { found: OBSERVER_CHECKPOINT_SCHEMA_VERSION + 1 })
    );
    let mut state = good();
    state.state_schema_version = 9;
    assert_eq!(
        check(&state, &known(), &session),
        Err(CheckpointFault::StateSchema { found: 9, expected: STATE_SCHEMA })
    );
    let mut damaged = good();
    damaged.integrity_hash = 1;
    assert_eq!(check(&damaged, &known(), &session), Err(CheckpointFault::Integrity));
    let mut elsewhere = good();
    elsewhere.session_path = "/logs/other".to_owned();
    assert_eq!(check(&elsewhere, &known(), &session), Err(CheckpointFault::OtherDirectory));
    let mut renamed = good();
    renamed.session_id = "other".to_owned();
    assert_eq!(check(&renamed, &known(), &session), Err(CheckpointFault::OtherIdentity));
    let mut replaced = session.clone();
    replaced.files[0].1 = 500;
    assert_eq!(
        check(&good(), &known(), &replaced),
        Err(CheckpointFault::IdentityChanged(LogComponent::Arena))
    );
    let mut shorter = session.clone();
    shorter.files[0].2.truncate(10);
    assert_eq!(
        check(&good(), &known(), &shorter),
        Err(CheckpointFault::Shorter(LogComponent::Arena))
    );
    let mut grown = session.clone();
    grown.write(LogComponent::Power, "x\n");
    assert_eq!(
        check(&good(), &known(), &grown),
        Err(CheckpointFault::Appeared(LogComponent::Power))
    );
    let mut unreduced = known();
    unreduced.reducer_valid = false;
    assert_eq!(check(&good(), &unreduced, &session), Ok(()));
    assert!(matches!(
        restore_checkpoint(good(), &unreduced, &session.logs()),
        Err(CheckpointFault::Reducer)
    ));
}

#[test]
fn a_log_that_stamps_records_backwards_is_read_again() {
    let mut session = Session::new(&[(LogComponent::Arena, "D 12:00:05.0000000 SetDraftMode - DRAFTING\n")]);
    let (mut observer, _) = attach(&session);
    session.append(LogComponent::Arena, "D 12:00:01.0000000 SetDraftMode - REDRAFTING\n");
    match observer.poll(&session.logs(), &session.logs()).result {
        Err(ObserverError::ReplayRequired(required)) => {
            assert_eq!(required.reason, ReplayReason::OutOfOrder);
        }
        _ => panic!("records never go back in time"),
    }
}

#[test]
fn hashes_follow_the_published_test_values() {
    assert_eq!(fnv1a64(b""), 0xcbf2_9ce4_8422_2325);
    assert_eq!(fnv1a64(b"a"), 0xaf63_dc4c_8601_ec8c);
    assert_eq!(fnv1a64(b"foobar"), 0x8594_4171_f739_67e8);
}

#[test]
fn a_missing_or_unreadable_checkpoint_leaves_the_session_to_its_current_state() {
    let arena = arena_snapshot("1", "CS2_029", "ACTIVE_DRAFT_DECK");
    let session = Session::new(&[(LogComponent::Arena, arena.as_str())]);
    let attach = |stored| {
        SessionObserver::attach_with_checkpoint(stored, &session.logs(), &session.logs()).unwrap()
    };
    let (attached, status) = attach(StoredCheckpoint::Missing);
    assert!(attached.is_none());
    assert_eq!(status, CheckpointRestoreStatus::NotFound);
    let (attached, status) =
        attach(StoredCheckpoint::Unreadable { reason: "no JSON".to_owned() });
    assert!(attached.is_none());
    assert_eq!(status, CheckpointRestoreStatus::Rejected { reason: "no JSON".to_owned() });
}

#[test]
fn following_a_session_gives_what_reading_it_anew_gives() {
    let arena = arena_snapshot("1", "CS2_029", "ACTIVE_DRAFT_DECK");
    let power = "D 12:00:30.0000000 GameState.DebugPrintPower() - CREATE_GAME\n";
    let mut session =
        Session::new(&[(LogComponent::Arena, arena.as_str()), (LogComponent::Power, power)]);
    let (mut observer, first) = attach(&session);
    session.append(LogComponent::Arena, "D 12:01:00.0000000 Client chooses: Later (EX1_116)\n");
    session.append(
        LogComponent::Power,
        "D 12:02:00.0000000 GameState.DebugPrintPower() - TAG_CHANGE Entity=GameEntity tag=STATE value=COMPLETE\n",
    );
    let outcome = observer.poll(&session.logs(), &session.logs());
    assert_eq!(outcome.result, Ok(true));
    let mut followed = events(&first);
    followed.extend(events(&outcome.lines));
    let (anew, lines) = attach(&session);
    assert_eq!(followed, events(&lines));
    for component in REQUIRED_COMPONENTS {
        assert_eq!(observer.cursors.get(component), anew.cursors.get(component));
    }
}

#[test]
fn each_fault_of_a_saved_cursor_or_record_has_its_name() {
    let text = format!(
        "{}{}",
        arena_line("SetDraftMode - DRAFTING"),
        arena_line("Client chooses: Fireball (CS2_029)")
    );
    let session = Session::new(&[(LogComponent::Arena, text.as_str())]);
    let (observer, lines) = attach(&session);
    let known = || context(sources(&lines));
    let check = |checkpoint: &ObserverCheckpoint, context: &ResumeContext, session: &Session| {
        match validate_checkpoint(checkpoint, context, &session.logs()) {
            Ok(()) => None,
            Err(fault) => Some(fault),
        }
    };
    let arena = LogComponent::Arena;
    assert_eq!(check(&save(&observer), &known(), &session), None);

    let mut checkpoint = save(&observer);
    checkpoint.observer_snapshot_schema_version = 1;
    assert_eq!(
        check(&checkpoint, &known(), &session),
        Some(CheckpointFault::SnapshotSchema { found: 1 })
    );
    let mut nowhere = known();
    nowhere.place.is_dir = false;
    assert!(matches!(
        check(&save(&observer), &nowhere, &session),
        Some(CheckpointFault::Session(required))
            if required.reason == ReplayReason::NotADirectory
    ));

    let with_tail = |change: fn(&mut Option<FileCheckpoint>)| {
        let mut checkpoint = save(&observer);
        let mut saved = checkpoint.cursors.remove(arena).unwrap();
        change(&mut saved.tail_checkpoint);
        checkpoint.cursors.insert(arena, saved);
        check(&checkpoint, &known(), &session)
    };
    assert_eq!(with_tail(|tail| *tail = None), Some(CheckpointFault::NoTail(arena)));
    assert_eq!(
        with_tail(|tail| tail.as_mut().unwrap().start += 1),
        Some(CheckpointFault::InvalidTail(arena))
    );
    assert_eq!(
        with_tail(|tail| tail.as_mut().unwrap().bytes[0] ^= 1),
        Some(CheckpointFault::ChangedBeforeCursor(arena))
    );
    let mut gone = Session::new(&[]);
    gone.write(LogComponent::Power, "");
    assert!(matches!(
        check(&save(&observer), &known(), &gone),
        Some(CheckpointFault::Appeared(LogComponent::Power))
    ));
    let mut both = session.clone();
    both.write(LogComponent::Zone, "");
    let (with_zone, zone_lines) = attach(&both);
    assert_eq!(
        check(&save(&with_zone), &context(sources(&zone_lines)), &session),
        Some(CheckpointFault::Gone(LogComponent::Zone))
    );

    let mut checkpoint = save(&observer);
    checkpoint.last_line_order = None;
    assert_eq!(
        check(&checkpoint, &known(), &session),
        Some(CheckpointFault::IncompleteWitness)
    );
    let mut checkpoint = save(&observer);
    checkpoint.last_line_order.as_mut().unwrap().timestamp = Some(1);
    assert_eq!(check(&checkpoint, &known(), &session), Some(CheckpointFault::OrderMismatch));

    let with_source = |change: fn(&mut EventSource)| {
        let mut source = lines[0].source.clone();
        change(&mut source);
        check(&save(&observer), &context(vec![source]), &session)
    };
    assert_eq!(with_source(|_| {}), None);
    assert_eq!(
        with_source(|source| source.session_id = "other".to_owned()),
        Some(CheckpointFault::SourceSession)
    );
    assert_eq!(
        with_source(|source| source.component = "Other.log".to_owned()),
        Some(CheckpointFault::SourceUnsupported)
    );
    assert_eq!(
        with_source(|source| source.component = "Arena".to_owned()),
        Some(CheckpointFault::SourceNotCanonical)
    );
    assert_eq!(
        with_source(|source| source.component = "Power.log".to_owned()),
        Some(CheckpointFault::SourceWithoutCursor)
    );
    assert_eq!(
        with_source(|source| source.byte_offset = 1 << 20),
        Some(CheckpointFault::SourceAfterCursor)
    );
    assert_eq!(
        with_source(|source| source.line_hash ^= 1),
        Some(CheckpointFault::SourceMismatch)
    );

    let mut unsound = save(&observer);
    unsound.parser.schema_version += 1;
    assert!(matches!(
        restore_checkpoint(unsound, &known(), &session.logs()),
        Err(CheckpointFault::Parser)
    ));
}

#[test]
fn each_reason_to_read_anew_has_its_name() {
    let text = arena_line("SetDraftMode - DRAFTING");
    let session = Session::new(&[(LogComponent::Arena, text.as_str())]);
    let reason = |files: &Session, after: &Session| {
        let (mut observer, _) = attach(&session);
        match observer.poll(&files.logs(), &after.logs()).result {
            Err(ObserverError::ReplayRequired(required)) => Some(required.reason),
            _ => None,
        }
    };
    assert_eq!(reason(&session, &session), None);
    assert_eq!(
        reason(&Session::new(&[]), &Session::new(&[])),
        Some(ReplayReason::Disappeared)
    );
    let mut replaced = session.clone();
    replaced.files[0].1 = 99;
    assert_eq!(reason(&replaced, &replaced), Some(ReplayReason::Replaced));
    let mut appeared = session.clone();
    appeared.write(LogComponent::Power, "");
    assert_eq!(reason(&appeared, &appeared), Some(ReplayReason::Appeared));
    let mut truncated = session.clone();
    truncated.write(LogComponent::Arena, "");
    assert_eq!(reason(&truncated, &truncated), Some(ReplayReason::Truncated));
    let mut rewritten = session.clone();
    rewritten.write(LogComponent::Arena, &text.replace("DRAFTING", "REDRAFTN"));
    assert_eq!(reason(&rewritten, &rewritten), Some(ReplayReason::ChangedBeforeCursor));
    assert_eq!(reason(&session, &replaced), Some(ReplayReason::ChangedWhileReading));

    let attach_reason = |is_dir: bool, files: &Session, after: &Session| {
        match SessionObserver::attach("session", is_dir, &files.logs(), &after.logs()) {
            Err(ObserverError::ReplayRequired(required)) => Some(required.reason),
            _ => None,
        }
    };
    assert_eq!(attach_reason(false, &session, &session), Some(ReplayReason::NotADirectory));
    assert_eq!(
        attach_reason(true, &Session::new(&[]), &Session::new(&[])),
        Some(ReplayReason::NoComponentLog)
    );
    assert_eq!(
        attach_reason(true, &session, &replaced),
        Some(ReplayReason::ChangedWhileAttaching)
    );
    let (mut observer, _) = attach(&session);
    assert_eq!(
        observer.poll(&session.logs(), &Session::new(&[]).logs()).result,
        Err(ObserverError::Unreadable(LogComponent::Arena))
    );
    let mut broken = session.clone();
    broken.files[0].2.extend_from_slice(&[0xff, b'\n']);
    let (mut observer, _) = attach(&session);
    assert_eq!(
        observer.poll(&broken.logs(), &broken.logs()).result,
        Err(ObserverError::Read(ReadError::NotUtf8))
    );
}
