use arena_next::log_component::{ComponentMap, LogComponent};
use arena_next::merge::{FileIdentity, LogFile};
use arena_next::observer::{LogReplayRequired, ObserverError, ReplayPlace, ReplayReason};
use arena_next::state::GameEvent;
use arena_next::session::LineKey;
use arena_next::tailer::{refusal_message, SessionTailer};

fn complete_arena_line(message: &str) -> String {
    format!("D 19:14:43.0000000 {message}\n")
}

fn logs(files: &[(LogComponent, &str)]) -> ComponentMap<LogFile> {
    let mut map: ComponentMap<LogFile> = ComponentMap::new();
    for (component, text) in files {
        map.insert(
            *component,
            LogFile {
                identity: FileIdentity { device: 1, inode: component.index() as u64 },
                bytes: text.as_bytes().to_vec(),
            },
        );
    }
    map
}

fn attach(files: &[(LogComponent, &str)]) -> SessionTailer {
    match SessionTailer::attach("session", true, &logs(files), &logs(files)) {
        Ok((tailer, _)) => tailer,
        Err(error) => panic!("{error:?}"),
    }
}

#[test]
fn tailer_replays_when_a_component_appears_after_attachment() {
    let arena = complete_arena_line("DraftManager.OnChosen(): hero=HERO_08");
    let mut tailer = attach(&[(LogComponent::Arena, arena.as_str())]);
    let loading = complete_arena_line("LoadingScreen.OnSceneLoaded - ARENA");
    let later = logs(&[
        (LogComponent::Arena, arena.as_str()),
        (LogComponent::LoadingScreen, loading.as_str()),
    ]);

    assert!(tailer.poll(&later, &later).is_err());
}

#[test]
fn tailer_detects_copy_truncate_even_when_the_replacement_is_longer() {
    let arena = complete_arena_line("DraftManager.OnChosen(): hero=HERO_08");
    let mut tailer = attach(&[(LogComponent::Arena, arena.as_str())]);

    let rewritten = complete_arena_line(&"x".repeat(256));
    let later = logs(&[(LogComponent::Arena, rewritten.as_str())]);
    assert!(tailer.poll(&later, &later).is_err());
}

#[test]
fn tailer_keeps_an_unterminated_line_for_the_next_poll() {
    let complete = complete_arena_line("DraftManager.OnChosen(): hero=HERO_08");
    let partial = "D 19:14:44.0000000 SetDraftMode - DRA";
    let first = format!("{complete}{partial}");
    let mut tailer = attach(&[(LogComponent::Arena, first.as_str())]);

    let second = format!("{first}FTING\n");
    let later = logs(&[(LogComponent::Arena, second.as_str())]);
    let events = match tailer.poll(&later, &later) {
        Ok(Some(events)) => events,
        _ => panic!("the record was completed"),
    };
    assert_eq!(events.len(), 1);
    assert_eq!(events[0].event, GameEvent::ArenaDraftMode { mode: "DRAFTING".into() });
    assert!(matches!(tailer.poll(&later, &later), Ok(None)));
}

#[test]
fn records_that_go_back_are_refused() {
    let first = "D 19:14:44.0000000 SetDraftMode - DRAFTING\n".to_owned();
    let mut tailer = attach(&[(LogComponent::Arena, first.as_str())]);
    let second = format!("{first}D 19:14:40.0000000 SetDraftMode - REDRAFTING\n");
    let later = logs(&[(LogComponent::Arena, second.as_str())]);
    assert!(tailer.poll(&later, &later).is_err());
    let key = |time: u64, line: u64| LineKey {
        timestamp_key: Some(time),
        component: LogComponent::Arena,
        line_number: line,
        byte_offset: 0,
    };
    assert!(key(1, 9).precedes(&key(2, 1)));
    assert!(key(1, 1).precedes(&key(1, 2)));
    assert!(!key(1, 1).precedes(&key(1, 1)));
}

#[test]
fn tailing_agrees_with_reading_anew() {
    let arena = "D 19:14:40.0000000 Draft Deck ID: 1, Hero Card = HERO_08\n";
    let loading = "D 19:14:41.0000000 LoadingScreen.OnSceneLoaded() - prevMode=HUB currMode=DRAFT\n";
    let files = [(LogComponent::Arena, arena), (LogComponent::LoadingScreen, loading)];
    let (mut tailer, mut events) =
        match SessionTailer::attach("session", true, &logs(&files), &logs(&files)) {
            Ok(attached) => attached,
            Err(error) => panic!("{error:?}"),
        };

    let more_arena = format!(
        "{arena}D 19:14:43.0000000 SetDraftMode - DRAFTING\nD 19:14:45.0000000 SetDraftMode - RED"
    );
    let more_loading = format!(
        "{loading}D 19:14:42.0000000 LoadingScreen.OnSceneLoaded() - prevMode=DRAFT currMode=HUB\n"
    );
    let grown = logs(&[
        (LogComponent::Arena, more_arena.as_str()),
        (LogComponent::LoadingScreen, more_loading.as_str()),
    ]);
    match tailer.poll(&grown, &grown) {
        Ok(Some(more)) => events.extend(more),
        _ => panic!("records were appended"),
    }
    let (anew, all) = match SessionTailer::attach("session", true, &grown, &grown) {
        Ok(attached) => attached,
        Err(error) => panic!("{error:?}"),
    };
    assert!(!all.is_empty());
    assert_eq!(events.len(), all.len());
    for (one, other) in events.iter().zip(&all) {
        assert_eq!(one.event, other.event);
        assert_eq!(one.line_number, other.line_number);
    }
    assert_eq!(tailer.last_line, anew.last_line);
    assert_eq!(
        tailer.logs.cursors.get(LogComponent::Arena).map(|cursor| cursor.byte_offset),
        anew.logs.cursors.get(LogComponent::Arena).map(|cursor| cursor.byte_offset)
    );
}

#[test]
fn refusals_name_the_log_and_the_reason() {
    let arena = complete_arena_line("SetDraftMode - DRAFTING");
    let mut tailer = attach(&[(LogComponent::Arena, arena.as_str())]);
    let gone = logs(&[]);
    let required = match tailer.poll(&gone, &gone) {
        Err(ObserverError::ReplayRequired(required)) => required,
        _ => panic!("the log is gone"),
    };
    assert_eq!(refusal_message(&required, "/logs/s"), "/logs/s/Arena.log disappeared or rotated");
    let refused = |place: ReplayPlace, reason: ReplayReason| {
        refusal_message(&LogReplayRequired { place, reason }, "/logs/s")
    };
    let arena = ReplayPlace::Component(LogComponent::Arena);
    assert_eq!(
        refused(arena, ReplayReason::Appeared),
        "/logs/s/Arena.log appeared after attachment; replaying the session"
    );
    assert_eq!(
        refused(arena, ReplayReason::ChangedBeforeCursor),
        "/logs/s/Arena.log changed before its saved cursor; replaying the session"
    );
    assert_eq!(
        refused(arena, ReplayReason::ChangedWhileReading),
        "/logs/s/Arena.log changed while ArenaNext was reading it; replaying the session"
    );
    assert_eq!(
        refused(arena, ReplayReason::ChangedWhileAttaching),
        "/logs/s/Arena.log changed while ArenaNext was attaching; retrying is safer"
    );
    assert_eq!(
        refused(ReplayPlace::Session, ReplayReason::NoComponentLog),
        "/logs/s does not contain any supported Hearthstone component logs"
    );
    assert_eq!(
        refused(ReplayPlace::Stream, ReplayReason::OutOfOrder),
        "a newly appended log record sorts before an already reduced record; replaying the session"
    );
}
