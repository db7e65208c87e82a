use arena_next::log_component::{
    component_can_emit_events, ComponentMap, LogComponent, REQUIRED_COMPONENTS,
};
use arena_next::log_parser::{
    arena_record, component_might_emit_event, parse_loading_screen_line, parse_power_line,
    settle_picks, split_timestamp, stamp_from_groups, time_of_day_key, timestamp_key, ArenaMatches,
    ArenaRecord, HearthstoneLogParser, ParserCheckpoint, RawLogLine,
};
use arena_next::session::{comes_no_later, parse_session, settle_report, sort_lines};
use arena_next::state::GameEvent;

#[test]
fn parses_current_arena_snapshot_grammar_and_retains_duplicate_lines() {
    let mut parser = HearthstoneLogParser::default();
    let source = [
        "D 19:14:43.0000000 DraftManager.OnChoicesAndContents - Draft Deck ID: 507495951, Hero Card = HERO_08",
        "D 19:14:43.1000000 DraftManager.OnChoicesAndContents - Draft deck contains card REV_840",
        "D 19:14:43.2000000 DraftManager.OnChoicesAndContents - Draft deck contains card REV_840",
        "D 19:14:43.3000000 SetDraftMode - ACTIVE_DRAFT_DECK",
    ];
    let events = source
        .iter()
        .enumerate()
        .flat_map(|(index, raw)| {
            let (_, message) = split_timestamp(raw);
            parser.parse_line(
                &RawLogLine {
                    component: LogComponent::Arena,
                    line_number: index as u64 + 1,
                    byte_offset: 0,
                    timestamp_key: None,
                    message,
                    raw: (*raw).into(),
                },
                true,
            )
        })
        .collect::<Vec<_>>();
    assert!(matches!(events[0], GameEvent::ArenaDeckSnapshotStarted { .. }));
    assert_eq!(
        events
            .iter()
            .filter(|event| matches!(event, GameEvent::ArenaDeckSnapshotCard { .. }))
            .count(),
        2
    );
    assert!(matches!(events.last(), Some(GameEvent::ArenaDraftMode { .. })));
}

#[test]
fn parses_the_current_redraft_lifecycle_marker() {
    let mut parser = HearthstoneLogParser::default();
    let (_, message) = split_timestamp("D 00:20:04.8512350 SetDraftMode - REDRAFTING");
    let events = parser.parse_line(
        &RawLogLine {
            component: LogComponent::Arena,
            line_number: 1,
            byte_offset: 0,
            timestamp_key: None,
            message,
            raw: "D 00:20:04.8512350 SetDraftMode - REDRAFTING".into(),
        },
        true,
    );

    assert_eq!(events, vec![GameEvent::ArenaDraftMode { mode: "REDRAFTING".into() }]);
}

#[test]
fn client_choice_preview_is_not_a_committed_arena_pick() {
    let mut parser = HearthstoneLogParser::default();
    for (raw, real) in [
        ("D 23:39:43.7648410 Client chooses: Valeera Sanguinar (HERO_03)", false),
        ("D 23:44:31.5659390 Client chooses: Morchie (END_036)", true),
    ] {
        let (_, message) = split_timestamp(raw);
        let events = parser.parse_line(
            &RawLogLine {
                component: LogComponent::Arena,
                line_number: 1,
                byte_offset: 0,
                timestamp_key: None,
                message,
                raw: raw.into(),
            },
            real,
        );
        assert!(events.is_empty());
    }
}

fn arena_line(message: &str) -> RawLogLine {
    RawLogLine {
        component: LogComponent::Arena,
        line_number: 1,
        byte_offset: 0,
        timestamp_key: None,
        message: message.into(),
        raw: message.into(),
    }
}

#[test]
fn client_choices_become_picks_only_after_an_authoritative_baseline() {
    let mut parser = HearthstoneLogParser::default();
    let choice = arena_line("Client chooses: Whelp of the Infinite (TIME_045)");

    assert!(parser.parse_line(&choice, true).is_empty());
    parser.enable_arena_picks_after_authoritative_baseline();
    assert_eq!(
        parser.parse_line(&choice, true),
        vec![GameEvent::ArenaPick { card_id: "TIME_045".into() }]
    );
}

#[test]
fn hero_client_choices_never_become_arena_picks_even_when_enabled() {
    let mut parser = HearthstoneLogParser::default();
    parser.enable_arena_picks_after_authoritative_baseline();

    assert!(parser
        .parse_line(&arena_line("Client chooses: Valeera Sanguinar (HERO_03)"), false)
        .is_empty());
    assert!(parser.arena_picks_enabled());
}

#[test]
fn a_new_run_or_deck_snapshot_closes_the_client_choice_gate() {
    for boundary in [
        "DraftManager.OnBegin - Got new draft deck with ID: 99",
        "DraftManager.OnChoicesAndContents - Draft Deck ID: 99, Hero Card = HERO_03",
    ] {
        let mut parser = HearthstoneLogParser::default();
        parser.enable_arena_picks_after_authoritative_baseline();
        assert!(!parser.parse_line(&arena_line(boundary), true).is_empty());
        assert!(!parser.arena_picks_enabled());
        assert!(parser
            .parse_line(&arena_line("Client chooses: Fireball (CS2_029)"), true)
            .is_empty());
    }
}

#[test]
fn parser_checkpoint_persists_the_explicit_client_choice_gate() {
    let mut parser = HearthstoneLogParser::default();
    parser.enable_arena_picks_after_authoritative_baseline();
    let checkpoint = parser.checkpoint();
    assert_eq!(checkpoint.schema_version, 6);

    let mut restored = HearthstoneLogParser::from_checkpoint(checkpoint).unwrap();
    assert!(restored.arena_picks_enabled());
    assert_eq!(
        restored.parse_line(&arena_line("Client chooses: Fireball (CS2_029)"), true),
        vec![GameEvent::ArenaPick { card_id: "CS2_029".into() }]
    );

    let stale = ParserCheckpoint {
        schema_version: 2,
        reading_arena_deck: false,
        arena_picks_enabled: true,
        redraft_boundary_pending: false,
    };
    assert!(HearthstoneLogParser::from_checkpoint(stale).is_err());
}

#[test]
fn reads_and_orders_a_session() {
    let mut files: ComponentMap<Vec<u8>> = ComponentMap::new();
    files.insert(
        LogComponent::Arena,
        b"D 19:14:43.0000000 DraftManager.OnChosen(): hero=HERO_08\nD 19:14:44.0000000 Client chooses: Fireball (CS2_029)\n"
            .to_vec(),
    );
    let report = parse_session(&files).unwrap();
    assert_eq!(report.raw_line_count, 2);
    assert_eq!(report.events.len(), 1);
}

#[test]
fn a_session_is_read_in_the_order_of_its_times() {
    let mut files: ComponentMap<Vec<u8>> = ComponentMap::new();
    files.insert(
        LogComponent::Arena,
        b"D 19:14:45.0000000 SetDraftMode - DRAFTING\n".to_vec(),
    );
    files.insert(
        LogComponent::LoadingScreen,
        b"D 19:14:44.0000000 LoadingScreen.OnSceneLoaded - ARENA\n".to_vec(),
    );
    files.insert(
        LogComponent::Power,
        b"D 19:14:46.0000000 GameState.DebugPrintPower() - CREATE_GAME\n".to_vec(),
    );
    let report = parse_session(&files).unwrap();
    let components: Vec<LogComponent> =
        report.events.iter().map(|event| event.component).collect();
    assert_eq!(
        components,
        [LogComponent::LoadingScreen, LogComponent::Arena, LogComponent::Power]
    );
    assert!(matches!(report.events[2].event, GameEvent::GameStarted));
}

#[test]
fn lines_are_sorted_by_time_then_component_then_place() {
    let mut early = arena_line("a");
    early.timestamp_key = Some(5);
    let mut late = arena_line("b");
    late.timestamp_key = Some(9);
    let untimed = arena_line("c");
    assert!(comes_no_later(&early, &late));
    assert!(!comes_no_later(&late, &early));
    let sorted = sort_lines(vec![late.clone(), early.clone(), untimed.clone()]);
    let order: Vec<&str> = sorted.iter().map(|line| line.message.as_str()).collect();
    assert_eq!(order, ["c", "a", "b"]);
}

#[test]
fn only_event_components_need_timestamp_parsing_during_streaming_replay() {
    assert!(component_can_emit_events(LogComponent::Arena));
    assert!(component_can_emit_events(LogComponent::LoadingScreen));
    assert!(component_can_emit_events(LogComponent::Power));
    assert!(!component_can_emit_events(LogComponent::Asset));
    assert!(!component_can_emit_events(LogComponent::Zone));
}

#[test]
fn components_are_named_after_their_files() {
    for component in REQUIRED_COMPONENTS {
        assert_eq!(LogComponent::from_filename(component.filename()), Some(component));
    }
    assert_eq!(LogComponent::from_filename("Arena.txt"), None);
    assert!(component_might_emit_event(LogComponent::Arena, "SetDraftMode - DRAFTING"));
    assert!(!component_might_emit_event(LogComponent::Arena, "nothing of note"));
    assert!(!component_might_emit_event(LogComponent::Zone, "SetDraftMode - DRAFTING"));
}

#[test]
fn stamps_become_a_time_of_day() {
    let (key, message) = split_timestamp("D 19:14:43.5000000 hello there");
    assert_eq!(key, timestamp_key("D 19:14:43.5000000 hello there"));
    assert_eq!(message, "hello there");
    assert_eq!(key, time_of_day_key("19", "14", "43", "5000000"));
    assert_eq!(split_timestamp("no stamp"), (None, "no stamp".to_owned()));
    assert!(timestamp_key("D 19:14:43.0000000 x") < timestamp_key("D 19:14:44.0000000 x"));
    assert_eq!(stamp_from_groups(None, "raw"), (None, "raw".to_owned()));
}

#[test]
fn records_are_told_apart() {
    assert_eq!(
        arena_record("OnBegin - Got new draft deck with ID: 7"),
        ArenaRecord::Begin { id: "7".into() }
    );
    assert_eq!(
        arena_record("OnRedraftBegin - Got new redraft deck with ID: 7"),
        ArenaRecord::RedraftBegin
    );
    assert_eq!(
        arena_record("DraftManager.OnChosen(): hero=HERO_08"),
        ArenaRecord::Chosen { card: "HERO_08".into() }
    );
    assert_eq!(
        arena_record("Draft Deck ID: 5, Hero Card = HERO_01"),
        ArenaRecord::DraftDeck { id: "5".into(), hero: Some("HERO_01".into()) }
    );
    assert_eq!(
        arena_record("Draft deck contains card CS2_029"),
        ArenaRecord::DeckCard { card: "CS2_029".into() }
    );
    assert_eq!(
        arena_record("Client chooses: Two (Words) (CS2_029)  "),
        ArenaRecord::Choice { card: "CS2_029".into() }
    );
    assert_eq!(arena_record("anything else"), ArenaRecord::Other);
}

#[test]
fn scenes_and_power_records_tell_of_games() {
    assert!(matches!(
        parse_loading_screen_line("LoadingScreen.OnSceneLoaded - ARENA").as_slice(),
        [GameEvent::GameMode { .. }]
    ));
    assert_eq!(parse_power_line("TAG_CHANGE"), Vec::new());
    assert!(matches!(
        parse_power_line("tag=PLAYSTATE value=WON").as_slice(),
        [GameEvent::GameEnded { .. }]
    ));
}

#[test]
fn what_is_no_card_is_never_picked() {
    let events = || {
        vec![
            GameEvent::ArenaPick { card_id: "HERO_03".into() },
            GameEvent::ArenaDraftMode { mode: "DRAFTING".into() },
        ]
    };
    assert_eq!(
        settle_picks(events(), false),
        vec![GameEvent::ArenaDraftMode { mode: "DRAFTING".into() }]
    );
    assert_eq!(settle_picks(events(), true), events());
}

#[test]
fn a_redraft_keeps_the_picks_across_its_snapshot() {
    let mut parser = HearthstoneLogParser::default();
    parser.enable_arena_picks_after_authoritative_baseline();
    parser.parse_line(
        &arena_line("OnRedraftBegin - Got new redraft deck with ID: 8"),
        true,
    );
    parser.parse_line(&arena_line("Draft Deck ID: 8, Hero Card = HERO_03"), true);
    assert_eq!(
        parser.parse_line(&arena_line("Client chooses: Fireball (CS2_029)"), true),
        vec![GameEvent::ArenaPick { card_id: "CS2_029".into() }]
    );
    parser.disable_arena_picks();
    assert!(!parser.arena_picks_enabled());
}

#[test]
fn the_first_record_form_that_matches_counts() {
    let groups = |texts: &[Option<&str>]| {
        Some(texts.iter().map(|text| text.map(str::to_owned)).collect::<Vec<_>>())
    };
    assert_eq!(ArenaMatches::none().record(), ArenaRecord::Other);
    let mut matches = ArenaMatches::none();
    matches.mode = groups(&[Some("SetDraftMode - DRAFTING"), Some("DRAFTING")]);
    assert_eq!(matches.record(), ArenaRecord::Mode { mode: "DRAFTING".to_owned() });
    matches.choice = groups(&[Some("Client chooses: x (CS2_029)"), Some("CS2_029")]);
    assert_eq!(matches.record(), ArenaRecord::Choice { card: "CS2_029".to_owned() });
    matches.redraft_begin = groups(&[Some("OnRedraftBegin")]);
    assert_eq!(matches.record(), ArenaRecord::RedraftBegin);
    matches.draft_deck = groups(&[Some("Draft Deck ID: 7"), Some("7"), None]);
    assert_eq!(matches.record(), ArenaRecord::DraftDeck { id: "7".to_owned(), hero: None });
}

#[test]
fn records_at_the_same_place_stay_in_turn() {
    let mut first = arena_line("first");
    first.timestamp_key = Some(5);
    let mut second = first.clone();
    second.message = "second".to_owned();
    let mut earlier = arena_line("earlier");
    earlier.timestamp_key = Some(4);
    let sorted = sort_lines(vec![first.clone(), earlier, second, first.clone()]);
    let order: Vec<&str> = sorted.iter().map(|line| line.message.as_str()).collect();
    assert_eq!(order, ["earlier", "first", "second", "first"]);
}

#[test]
fn the_cheap_test_passes_what_the_parser_acts_on() {
    let cases = [
        (LogComponent::LoadingScreen, "D 19:14:43.0000000 Entering Arena"),
        (LogComponent::LoadingScreen, "D 19:14:43.0000000 Hub -> Gameplay"),
        (LogComponent::LoadingScreen, "D 19:14:43.0000000 gameplay -> hub"),
        (LogComponent::Power, "D 19:14:43.0000000 create_game"),
        (LogComponent::Power, "D 19:14:43.0000000 tag=PlayState value=Won"),
        (LogComponent::Arena, "D 19:14:43.0000000 SetDraftMode - DRAFTING"),
    ];
    for (component, raw) in cases {
        let (timestamp_key, message) = split_timestamp(raw);
        let line = RawLogLine {
            component,
            line_number: 1,
            byte_offset: 0,
            timestamp_key,
            message,
            raw: raw.to_owned(),
        };
        assert!(!HearthstoneLogParser::default().parse_line(&line, true).is_empty(), "{raw}");
        assert!(component_might_emit_event(component, raw), "{raw}");
    }
    assert!(!component_might_emit_event(LogComponent::Power, "PLAYSTATE value=LOST"));
    assert!(!component_might_emit_event(LogComponent::Arena, "setdraftmode - DRAFTING"));
}

#[test]
fn keys_come_in_the_order_of_the_times() {
    let stamps = [
        "0:00:00.0 first",
        "D 9:59:59.9999999 second",
        "D 10:00:00.0 third",
        "D   10:00:00.00000019 fourth",
        "10:00:00.0000002 fifth",
        "10:00:01.0 sixth",
        "23:01:00.5 seventh",
    ];
    let keys: Vec<u64> = stamps
        .iter()
        .map(|stamp| match timestamp_key(stamp) {
            Some(key) => key,
            None => panic!("{stamp} has a time"),
        })
        .collect();
    assert_eq!(
        keys,
        [
            0,
            959_599_999_999,
            1_000_000_000_000,
            1_000_000_000_001,
            1_000_000_000_002,
            1_000_010_000_000,
            2_301_005_000_000,
        ]
    );
}

#[test]
fn reports_are_settled_once_cards_are_known() {
    let arena = "D 19:14:43.0000000 Draft Deck ID: 1, Hero Card = HERO_08\n\
                 D 19:14:43.1000000 SetDraftMode - DRAFTING\n\
                 D 19:14:44.0000000 Client chooses: Hero (HERO_08)\n\
                 D 19:14:45.0000000 Client chooses: Fireball (CS2_029)\n";
    let mut files: ComponentMap<Vec<u8>> = ComponentMap::new();
    files.insert(LogComponent::Arena, arena.as_bytes().to_vec());
    let report = match parse_session(&files) {
        Ok(report) => report,
        Err(error) => panic!("{error:?}"),
    };
    let real_cards: Vec<bool> = report
        .events
        .iter()
        .map(|event| match &event.event {
            GameEvent::ArenaPick { card_id } => card_id == "CS2_029",
            _ => false,
        })
        .collect();
    let before = report.events.len();
    let lines = report.raw_line_count;
    let settled = settle_report(report, &real_cards);
    assert_eq!(settled.raw_line_count, lines);
    assert_eq!(settled.events.len(), before - 1);
    let picks: Vec<&GameEvent> = settled
        .events
        .iter()
        .map(|event| &event.event)
        .filter(|event| matches!(event, GameEvent::ArenaPick { .. }))
        .collect();
    assert_eq!(picks, [&GameEvent::ArenaPick { card_id: "CS2_029".to_owned() }]);
}
