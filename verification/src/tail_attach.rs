//! Attaching to a running session without its history.
//!
//! The newest completed deck snapshot in the Arena log gives the current deck. Only the records
//! of that snapshot, and the few that follow it, are read; the other components begin at their
//! ends. A run that began after the snapshot makes it void: then the records of that run are
//! read, and until it is confirmed the observer waits for a snapshot.
use crate::log_component::{filename_of, ComponentMap, LogComponent, REQUIRED_COMPONENTS};
use crate::log_parser::{
    arena_record_of, ends_listing, fresh_parser, line_models, line_step, listed_cards,
    ArenaRecordModel, HearthstoneLogParser, LineModel, ParserModel, RawLogLine,
};
use crate::log_reader::{
    end_cursor, find_last_line_containing, last_line_with, line_start_follows_a_newline, read_all,
    read_component_file_from, read_next, reading_moves_forward, tail_cursor, ComponentLogReader,
    LogCursor, ReadError, ReverseLineMatch,
};
use crate::merge::{
    after_line, event_source, reduced, source_of, sourced_models, LogFile, ReduceModel, ReduceState,
    SourcedLine, SourcedModel,
};
use crate::observer::{
    file_checkpoint, file_identities, identities_of, plain_diagnostics, session_fault,
    validate_log_session, witness_of, AttachDiagnostics, AttachMethod, FileCheckpoint,
    LogReplayRequired, ObserverError, ObserverModel, ReplayPlace, ReplayReason, SessionObserver,
};
use crate::state::{event_models, opt_text, EventModel, GameEvent};
use crate::text::{self, texts};
use vstd::prelude::*;
use vstd::utf8::encode_utf8;

verus! {

/// The most Arena bytes that are read after a snapshot or a run start.
pub const TAIL_SNAPSHOT_SUFFIX_BYTES: u64 = 256 * 1024;

/// The most bytes in which a snapshot has to be complete.
pub const TAIL_SNAPSHOT_PARSE_BYTES: u64 = 512 * 1024;

/// What the first record of a deck snapshot holds.
pub const ARENA_SNAPSHOT_SENTINEL: &'static str = "Draft Deck ID:";

/// What the record of a new run holds. Any later record with this text makes a snapshot void:
/// waiting is better than showing the deck of the run before.
pub const ARENA_RUN_START_SENTINEL: &'static str = "OnBegin";

/// The deck id and hero of the first event that starts a snapshot.
pub open spec fn snapshot_start(events: Seq<EventModel>) -> Option<
    (Seq<char>, Option<Seq<char>>),
>
    decreases events.len(),
{
    if events.len() == 0 {
        None
    } else {
        match events[0] {
            EventModel::ArenaDeckSnapshotStarted { draft_deck_id, hero_card_id } => Some(
                (draft_deck_id, hero_card_id),
            ),
            _ => snapshot_start(events.skip(1)),
        }
    }
}

/// What is known of a snapshot while it is read.
#[verifier::ext_equal]
pub struct ScanModel {
    pub parser: ParserModel,
    pub start: Option<(Seq<char>, Option<Seq<char>>)>,
    pub card_ids: Seq<Seq<char>>,
    pub draft_mode: Option<Seq<char>>,
    pub lines: Seq<SourcedModel>,
}

/// A snapshot of which nothing was read.
pub open spec fn fresh_scan() -> ScanModel {
    ScanModel {
        parser: fresh_parser(),
        start: None,
        card_ids: Seq::empty(),
        draft_mode: None,
        lines: Seq::empty(),
    }
}

/// The cards after some events.
pub open spec fn with_cards(cards: Seq<Seq<char>>, events: Seq<EventModel>) -> Seq<Seq<char>>
    decreases events.len(),
{
    if events.len() == 0 {
        cards
    } else {
        let before = with_cards(cards, events.drop_last());
        match events.last() {
            EventModel::ArenaDeckSnapshotCard { card_id } => before.push(card_id),
            _ => before,
        }
    }
}

/// The draft mode after some events.
pub open spec fn with_mode(mode: Option<Seq<char>>, events: Seq<EventModel>) -> Option<Seq<char>>
    decreases events.len(),
{
    if events.len() == 0 {
        mode
    } else {
        match events.last() {
            EventModel::ArenaDraftMode { mode: m } => Some(m),
            _ => with_mode(mode, events.drop_last()),
        }
    }
}

/// Whether some event completes a snapshot.
pub open spec fn completes(events: Seq<EventModel>) -> bool {
    exists|i: int| 0 <= i < events.len() && (#[trigger] events[i]) is ArenaDeckSnapshotCompleted
}

/// What is known of a snapshot after one more record.
pub open spec fn with_line(s: ScanModel, session: Seq<char>, line: LineModel) -> ScanModel {
    let (parser, events) = line_step(s.parser, line.component, line.message);
    ScanModel {
        parser,
        start: match s.start {
            Some(x) => Some(x),
            None => snapshot_start(events),
        },
        card_ids: with_cards(s.card_ids, events),
        draft_mode: with_mode(s.draft_mode, events),
        lines: s.lines.push(SourcedModel { source: source_of(session, line), events }),
    }
}

/// How far a snapshot could be read.
pub struct ScanEnd {
    pub complete: bool,
    pub scan: ScanModel,
    pub cursor: LogCursor,
    pub bytes_parsed: u64,
}

/// Reads a snapshot from a cursor on, up to the record that completes it. A first record that
/// does not start a snapshot, and a snapshot that is too long, are not complete.
pub open spec fn scanned(
    session: Seq<char>,
    b: Seq<u8>,
    start: u64,
    cursor: LogCursor,
    s: ScanModel,
) -> Result<ScanEnd, ReadError>
    decreases b.len() - cursor.byte_offset,
{
    let (next, found) = read_next(LogComponent::Arena, b, cursor);
    match found {
        Err(e) => Err(e),
        Ok(None) => Ok(
            ScanEnd {
                complete: false,
                scan: s,
                cursor,
                bytes_parsed: (cursor.byte_offset - start) as u64,
            },
        ),
        Ok(Some(line)) => {
            let parsed = (next.byte_offset - start) as u64;
            let (parser, events) = line_step(s.parser, line.component, line.message);
            if parsed > TAIL_SNAPSHOT_PARSE_BYTES {
                Ok(ScanEnd { complete: false, scan: s, cursor: next, bytes_parsed: parsed })
            } else if s.start is None && snapshot_start(events) is None {
                Ok(
                    ScanEnd {
                        complete: false,
                        scan: ScanModel { parser, ..s },
                        cursor: next,
                        bytes_parsed: parsed,
                    },
                )
            } else if completes(events) {
                Ok(
                    ScanEnd {
                        complete: true,
                        scan: with_line(s, session, line),
                        cursor: next,
                        bytes_parsed: parsed,
                    },
                )
            } else if cursor.byte_offset < next.byte_offset <= b.len() {
                scanned(session, b, start, next, with_line(s, session, line))
            } else {
                Err(ReadError::UnexpectedEnd)
            }
        },
    }
}

/// What a snapshot or a run gives the reducer.
pub struct TailModel {
    pub diagnostics: AttachDiagnostics,
    pub parser: ParserModel,
    pub resync: Option<EventModel>,
    pub lines: Seq<SourcedModel>,
    pub arena: Option<LogCursor>,
}

/// The records of a run that has to be confirmed.
pub struct RunModel {
    pub parser: ParserModel,
    pub lines: Seq<SourcedModel>,
    pub arena: LogCursor,
}

/// The parser and the events after reading records in order.
pub open spec fn read_through(parser: ParserModel, session: Seq<char>, lines: Seq<LineModel>) -> (
    ParserModel,
    Seq<SourcedModel>,
) {
    let out = reduced(
        ReduceModel { parser, order: None, source: None },
        session,
        lines,
        None,
        false,
    );
    (out.state.parser, out.steps)
}

/// The diagnostics of an observer that waits for a snapshot.
pub open spec fn waiting_diagnostics() -> AttachDiagnostics {
    AttachDiagnostics {
        non_arena_components_started_at_tail: true,
        ..plain_diagnostics(AttachMethod::AwaitingSnapshot)
    }
}

/// The number of bytes from a place to the end of the complete records.
pub open spec fn bytes_from(b: Seq<u8>, at: u64) -> u64 {
    if end_cursor(b).byte_offset > at {
        (end_cursor(b).byte_offset - at) as u64
    } else {
        0
    }
}

/// What a completed snapshot gives.
pub open spec fn after_snapshot(
    session: Seq<char>,
    b: Seq<u8>,
    d: AttachDiagnostics,
    end: ScanEnd,
) -> Result<TailModel, ReadError> {
    let s = end.scan;
    let resync = match s.start {
        Some((draft_deck_id, hero_card_id)) => Some(
            EventModel::ArenaAuthoritativeResync {
                draft_deck_id,
                hero_card_id,
                card_ids: s.card_ids,
                draft_mode: s.draft_mode,
            },
        ),
        None => None,
    };
    let found = AttachDiagnostics {
        method: AttachMethod::TailSnapshot,
        snapshot_bytes_parsed: end.bytes_parsed,
        ..d
    };
    let suffix = bytes_from(b, end.cursor.byte_offset);
    if suffix <= TAIL_SNAPSHOT_SUFFIX_BYTES {
        match read_all(LogComponent::Arena, b, end.cursor) {
            Err(e) => Err(e),
            Ok((lines, last)) => Ok(
                TailModel {
                    diagnostics: found,
                    parser: read_through(s.parser, session, lines).0,
                    resync,
                    lines: read_through(s.parser, session, lines).1,
                    arena: Some(last),
                },
            ),
        }
    } else {
        Ok(
            TailModel {
                diagnostics: AttachDiagnostics {
                    arena_suffix_bytes_skipped: suffix,
                    arena_suffix_truncated: true,
                    ..found
                },
                parser: s.parser,
                resync,
                lines: Seq::empty(),
                arena: None,
            },
        )
    }
}

/// The place of a marker in the Arena log.
pub open spec fn mark(b: Seq<u8>, sentinel: Seq<char>) -> Option<ReverseLineMatch> {
    last_line_with(b, encode_utf8(sentinel))
}

/// What the newest snapshot of the Arena log gives.
pub open spec fn tail_snapshot(session: Seq<char>, b: Seq<u8>) -> Result<TailModel, ReadError> {
    let waiting = TailModel {
        diagnostics: waiting_diagnostics(),
        parser: fresh_parser(),
        resync: None,
        lines: Seq::empty(),
        arena: None,
    };
    match mark(b, ARENA_SNAPSHOT_SENTINEL@) {
        None => Ok(waiting),
        Some(marker) => {
            let superseded = match mark(b, ARENA_RUN_START_SENTINEL@) {
                Some(run) => run.line_start > marker.line_start,
                None => false,
            };
            let d = AttachDiagnostics {
                snapshot_byte_offset: Some(marker.line_start),
                snapshot_invalidated_by_newer_run: superseded,
                ..waiting_diagnostics()
            };
            if !marker.complete || superseded {
                Ok(TailModel { diagnostics: d, ..waiting })
            } else {
                match scanned(
                    session,
                    b,
                    marker.line_start,
                    LogCursor { byte_offset: marker.line_start, line_number: 0 },
                    fresh_scan(),
                ) {
                    Err(e) => Err(e),
                    Ok(end) => if end.complete {
                        after_snapshot(session, b, d, end)
                    } else {
                        Ok(
                            TailModel {
                                diagnostics: AttachDiagnostics {
                                    snapshot_bytes_parsed: end.bytes_parsed,
                                    ..d
                                },
                                parser: end.scan.parser,
                                resync: None,
                                lines: end.scan.lines,
                                arena: None,
                            },
                        )
                    },
                }
            }
        },
    }
}

/// What the newest snapshot gives, and the run that may stand in for one.
pub open spec fn tail_plan(session: Seq<char>, b: Seq<u8>) -> Result<
    (TailModel, Option<RunModel>),
    ReadError,
> {
    match tail_snapshot(session, b) {
        Err(e) => Err(e),
        Ok(tail) => match mark(b, ARENA_RUN_START_SENTINEL@) {
            Some(run) => if run.complete && tail.diagnostics.method
                == AttachMethod::AwaitingSnapshot {
                let suffix = bytes_from(b, run.line_start);
                if suffix <= TAIL_SNAPSHOT_SUFFIX_BYTES {
                    match read_all(
                        LogComponent::Arena,
                        b,
                        LogCursor { byte_offset: run.line_start, line_number: 0 },
                    ) {
                        Err(e) => Err(e),
                        Ok((lines, last)) => Ok(
                            (
                                tail,
                                Some(
                                    RunModel {
                                        parser: read_through(fresh_parser(), session, lines).0,
                                        lines: read_through(fresh_parser(), session, lines).1,
                                        arena: last,
                                    },
                                ),
                            ),
                        ),
                    }
                } else {
                    Ok(
                        (
                            TailModel {
                                diagnostics: AttachDiagnostics {
                                    arena_suffix_bytes_skipped: suffix,
                                    arena_suffix_truncated: true,
                                    ..tail.diagnostics
                                },
                                ..tail
                            },
                            None,
                        ),
                    )
                }
            } else {
                Ok((tail, None))
            },
            None => Ok((tail, None)),
        },
    }
}

/// What is taken once it is known whether the run is confirmed.
pub open spec fn chosen_tail(tail: TailModel, run: Option<RunModel>, run_identified: bool) -> TailModel {
    match run {
        Some(r) => if run_identified {
            TailModel {
                diagnostics: AttachDiagnostics {
                    method: AttachMethod::TailRun,
                    ..tail.diagnostics
                },
                parser: r.parser,
                resync: None,
                lines: r.lines,
                arena: Some(r.arena),
            }
        } else {
            tail
        },
        None => tail,
    }
}

/// Where the observer stands in a component after it attached.
pub open spec fn attached_cursor(
    c: LogComponent,
    b: Seq<u8>,
    arena: Option<LogCursor>,
) -> LogCursor {
    match arena {
        Some(cursor) => if c == LogComponent::Arena {
            cursor
        } else {
            end_cursor(b)
        },
        None => end_cursor(b),
    }
}

/// The observer of a tail attach.
pub open spec fn tail_observer(
    session: Seq<char>,
    files: Map<LogComponent, LogFile>,
    tail: TailModel,
) -> ObserverModel {
    ObserverModel {
        session_id: session,
        state: ReduceModel { parser: tail.parser, order: None, source: None },
        cursors: Map::new(
            |c: LogComponent| files.contains_key(c),
            |c: LogComponent| attached_cursor(c, files[c].bytes@, tail.arena),
        ),
        identities: identities_of(files),
        witnesses: Map::new(
            |c: LogComponent|
                files.contains_key(c) && attached_cursor(
                    c,
                    files[c].bytes@,
                    tail.arena,
                ).byte_offset > 0,
            |c: LogComponent|
                witness_of(
                    files[c].bytes@,
                    attached_cursor(c, files[c].bytes@, tail.arena).byte_offset,
                ),
        ),
        diagnostics: tail.diagnostics,
    }
}

/// The first file, among the first ones, that moved while the observer attached.
pub open spec fn moved_file(
    files: Map<LogComponent, LogFile>,
    after: Map<LogComponent, LogFile>,
    n: int,
) -> Option<ObserverError>
    decreases n,
{
    if n <= 0 {
        None
    } else {
        match moved_file(files, after, n - 1) {
            Some(e) => Some(e),
            None => {
                let c = REQUIRED_COMPONENTS@[n - 1];
                if !files.contains_key(c) {
                    None
                } else if !after.contains_key(c) {
                    Some(ObserverError::Unreadable(c))
                } else if files[c].identity != after[c].identity || files[c].bytes@.len()
                    != after[c].bytes@.len() {
                    Some(
                        ObserverError::ReplayRequired(
                            LogReplayRequired {
                                place: ReplayPlace::Component(c),
                                reason: ReplayReason::ChangedWhileTailing,
                            },
                        ),
                    )
                } else {
                    None
                }
            },
        }
    }
}

/// The model of an optional event.
pub open spec fn opt_event(e: Option<GameEvent>) -> Option<EventModel> {
    match e {
        Some(x) => Some(x@),
        None => None,
    }
}

/// What a snapshot or a run gives the reducer: at first the event, if there is one, then the
/// records.
pub struct TailState {
    pub diagnostics: AttachDiagnostics,
    pub parser: HearthstoneLogParser,
    pub resync: Option<GameEvent>,
    pub lines: Vec<SourcedLine>,
    pub arena: Option<LogCursor>,
}

impl View for TailState {
    type V = TailModel;

    open spec fn view(&self) -> TailModel {
        TailModel {
            diagnostics: self.diagnostics,
            parser: self.parser@,
            resync: opt_event(self.resync),
            lines: sourced_models(self.lines@),
            arena: self.arena,
        }
    }
}

/// The records of a run. The run is confirmed where they give the reducer a draft deck.
pub struct RunReplay {
    pub parser: HearthstoneLogParser,
    pub lines: Vec<SourcedLine>,
    pub arena: LogCursor,
}

impl View for RunReplay {
    type V = RunModel;

    open spec fn view(&self) -> RunModel {
        RunModel { parser: self.parser@, lines: sourced_models(self.lines@), arena: self.arena }
    }
}

/// The model of an optional run.
pub open spec fn opt_run(r: Option<RunReplay>) -> Option<RunModel> {
    match r {
        Some(x) => Some(x@),
        None => None,
    }
}

/// A tail attach that waits for the word on its run.
pub struct TailPlan {
    pub tail: TailState,
    pub run: Option<RunReplay>,
}

fn find_snapshot_start(events: &Vec<GameEvent>) -> (r: Option<(String, Option<String>)>)
    ensures
        (match r {
            Some((id, hero)) => Some((id@, opt_text(hero))),
            None => None,
        }) == snapshot_start(event_models(events@)),
{
    let ghost all = event_models(events@);
    let mut i: usize = 0;
    assert(all.skip(0) =~= all);
    while i < events.len()
        invariant
            i <= events.len(),
            all == event_models(events@),
            snapshot_start(all) == snapshot_start(all.skip(i as int)),
        decreases events.len() - i,
    {
        assert(all.skip(i as int).skip(1) =~= all.skip(i + 1));
        assert(all.skip(i as int)[0] == events@[i as int]@);
        match &events[i] {
            GameEvent::ArenaDeckSnapshotStarted { draft_deck_id, hero_card_id } => {
                return Some((draft_deck_id.clone(), hero_card_id.clone()));
            },
            _ => {},
        }
        i = i + 1;
    }
    None
}

/// A snapshot while it is read.
struct Scan {
    parser: HearthstoneLogParser,
    start: Option<(String, Option<String>)>,
    card_ids: Vec<String>,
    draft_mode: Option<String>,
    lines: Vec<SourcedLine>,
}

impl View for Scan {
    type V = ScanModel;

    closed spec fn view(&self) -> ScanModel {
        ScanModel {
            parser: self.parser@,
            start: match self.start {
                Some((id, hero)) => Some((id@, opt_text(hero))),
                None => None,
            },
            card_ids: texts(self.card_ids@),
            draft_mode: opt_text(self.draft_mode),
            lines: sourced_models(self.lines@),
        }
    }
}

impl Scan {
    /// Takes the cards and the mode of a record's events, and says whether they complete the
    /// snapshot.
    fn take_events(&mut self, events: &Vec<GameEvent>) -> (r: bool)
        ensures
            r == completes(event_models(events@)),
            final(self)@ == (ScanModel {
                card_ids: with_cards(old(self)@.card_ids, event_models(events@)),
                draft_mode: with_mode(old(self)@.draft_mode, event_models(events@)),
                ..old(self)@
            }),
            final(self).lines == old(self).lines,
            final(self).parser == old(self).parser,
            final(self).start == old(self).start,
    {
        let ghost all = event_models(events@);
        let ghost first = self@;
        let mut complete = false;
        let mut i: usize = 0;
        assert(all.take(0) =~= Seq::<EventModel>::empty());
        while i < events.len()
            invariant
                i <= events.len(),
                all == event_models(events@),
                first == old(self)@,
                self.lines == old(self).lines,
                self.parser == old(self).parser,
                self.start == old(self).start,
                self@.card_ids == with_cards(first.card_ids, all.take(i as int)),
                self@.draft_mode == with_mode(first.draft_mode, all.take(i as int)),
                complete == completes(all.take(i as int)),
            decreases events.len() - i,
        {
            let ghost now = all.take(i + 1);
            let ghost cards = self.card_ids@;
            proof {
                assert(now.drop_last() =~= all.take(i as int));
                assert(now.last() == events@[i as int]@);
            }
            match &events[i] {
                GameEvent::ArenaDeckSnapshotCard { card_id } => {
                    self.card_ids.push(card_id.clone());
                    assert(texts(self.card_ids@) =~= texts(cards).push(card_id@));
                },
                GameEvent::ArenaDraftMode { mode } => {
                    self.draft_mode = Some(mode.clone());
                },
                GameEvent::ArenaDeckSnapshotCompleted => {
                    complete = true;
                    assert(now[i as int] is ArenaDeckSnapshotCompleted);
                },
                _ => {},
            }
            proof {
                if completes(now) {
                    let k = choose|k: int|
                        0 <= k < now.len() && (#[trigger] now[k]) is ArenaDeckSnapshotCompleted;
                    if k < i {
                        assert(all.take(i as int)[k] == now[k]);
                    }
                }
                if completes(all.take(i as int)) {
                    let k = choose|k: int|
                        0 <= k < i && (#[trigger] all.take(i as int)[k]) is ArenaDeckSnapshotCompleted;
                    assert(now[k] == all.take(i as int)[k]);
                }
            }
            i = i + 1;
        }
        assert(all.take(i as int) =~= all);
        complete
    }
}

struct ScanResult {
    complete: bool,
    scan: Scan,
    cursor: LogCursor,
    bytes_parsed: u64,
}

spec fn scan_end(r: Result<ScanResult, ReadError>) -> Result<ScanEnd, ReadError> {
    match r {
        Ok(x) => Ok(
            ScanEnd {
                complete: x.complete,
                scan: x.scan@,
                cursor: x.cursor,
                bytes_parsed: x.bytes_parsed,
            },
        ),
        Err(e) => Err(e),
    }
}

/// Reads the newest snapshot from its first record on, up to the record that completes it.
fn parse_snapshot_at(session_id: &str, arena: &[u8], start: u64) -> (r: Result<
    ScanResult,
    ReadError,
>)
    ensures
        scan_end(r) == scanned(
            session_id@,
            arena@,
            start,
            LogCursor { byte_offset: start, line_number: 0 },
            fresh_scan(),
        ),
{
    let first = LogCursor { byte_offset: start, line_number: 0 };
    let mut reader = ComponentLogReader::open(LogComponent::Arena, first);
    let mut scan = Scan {
        parser: HearthstoneLogParser::default(),
        start: None,
        card_ids: Vec::new(),
        draft_mode: None,
        lines: Vec::new(),
    };
    assert(scan@ =~= fresh_scan());
    let ghost wanted = scanned(session_id@, arena@, start, first, fresh_scan());
    loop
        invariant
            reader.source() == LogComponent::Arena,
            reader.place().byte_offset >= start,
            scanned(session_id@, arena@, start, reader.place(), scan@) == wanted,
            wanted == scanned(
                session_id@,
                arena@,
                start,
                LogCursor { byte_offset: start, line_number: 0 },
                fresh_scan(),
            ),
        decreases arena.len() - reader.place().byte_offset,
    {
        let ghost before = scan@;
        let line = match reader.next_complete_line(arena) {
            Err(e) => return Err(e),
            Ok(None) => {
                let cursor = reader.cursor();
                return Ok(
                    ScanResult {
                        complete: false,
                        scan,
                        cursor,
                        bytes_parsed: cursor.byte_offset - start,
                    },
                );
            },
            Ok(Some(line)) => line,
        };
        let cursor = reader.cursor();
        let bytes_parsed: u64 = cursor.byte_offset - start;
        if bytes_parsed > TAIL_SNAPSHOT_PARSE_BYTES {
            return Ok(ScanResult { complete: false, scan, cursor, bytes_parsed });
        }
        let events = scan.parser.parse_candidates(&line);
        if scan.start.is_none() {
            scan.start = find_snapshot_start(&events);
            if scan.start.is_none() {
                assert(scan@ =~= (ScanModel { parser: scan@.parser, ..before }));
                return Ok(ScanResult { complete: false, scan, cursor, bytes_parsed });
            }
        }
        let complete = scan.take_events(&events);
        let ghost lines = scan.lines@;
        let source = event_source(session_id, &line);
        let step = SourcedLine { source, events };
        scan.lines.push(step);
        proof {
            assert(sourced_models(scan.lines@) =~= sourced_models(lines).push(step@));
            assert(scan@ =~= with_line(before, session_id@, line@));
        }
        if complete {
            return Ok(ScanResult { complete: true, scan, cursor, bytes_parsed });
        }
    }
}

/// Reads records in order.
fn replay_lines(session_id: &str, parser: HearthstoneLogParser, lines: &Vec<RawLogLine>) -> (r: (
    HearthstoneLogParser,
    Vec<SourcedLine>,
))
    ensures
        (r.0@, sourced_models(r.1@)) == read_through(
            parser@,
            session_id@,
            line_models(lines@),
        ),
{
    let ghost all = line_models(lines@);
    let ghost first = ReduceModel { parser: parser@, order: None, source: None };
    let ghost wanted = reduced(first, session_id@, all, None, false);
    let mut state = ReduceState { parser, order: None, source: None };
    let mut out: Vec<SourcedLine> = Vec::new();
    let mut i: usize = 0;
    proof {
        assert(all.skip(0) =~= all);
        assert(sourced_models(out@) + wanted.steps =~= wanted.steps);
    }
    while i < lines.len()
        invariant
            i <= lines.len(),
            all == line_models(lines@),
            ({
                let rest = reduced(state@, session_id@, all.skip(i as int), None, false);
                &&& wanted.state == rest.state
                &&& wanted.steps == sourced_models(out@) + rest.steps
            }),
        decreases lines.len() - i,
    {
        let ghost before = out@;
        let step = state.take(session_id, &lines[i]);
        out.push(step);
        proof {
            assert(all.skip(i as int)[0] == lines@[i as int]@);
            assert(all.skip(i as int).skip(1) =~= all.skip(i + 1));
            assert(sourced_models(out@) =~= sourced_models(before).push(step@));
            let rest = reduced(state@, session_id@, all.skip(i + 1), None, false);
            assert(sourced_models(before) + (seq![step@] + rest.steps) =~= sourced_models(out@)
                + rest.steps);
        }
        i = i + 1;
    }
    assert(sourced_models(out@) + Seq::<SourcedModel>::empty() =~= sourced_models(out@));
    (state.parser, out)
}

proof fn encoding_is_not_empty(s: Seq<char>)
    requires
        s.len() > 0,
    ensures
        encode_utf8(s).len() > 0,
{
}

fn find_mark(arena: &[u8], sentinel: &str) -> (r: Option<ReverseLineMatch>)
    requires
        sentinel@.len() > 0,
    ensures
        r == mark(arena@, sentinel@),
{
    proof {
        encoding_is_not_empty(sentinel@);
    }
    match find_last_line_containing(arena, sentinel.as_bytes()) {
        Ok(found) => found,
        Err(_) => None,
    }
}

fn bytes_left(arena: &[u8], at: u64) -> (r: u64)
    ensures
        r == bytes_from(arena@, at),
{
    let end: u64 = tail_cursor(arena).byte_offset;
    if end > at {
        end - at
    } else {
        0
    }
}

fn waiting_tail(diagnostics: AttachDiagnostics) -> (r: TailState)
    ensures
        r@ == (TailModel {
            diagnostics,
            parser: fresh_parser(),
            resync: None,
            lines: Seq::empty(),
            arena: None,
        }),
{
    let r = TailState {
        diagnostics,
        parser: HearthstoneLogParser::default(),
        resync: None,
        lines: Vec::new(),
        arena: None,
    };
    assert(r@.lines =~= Seq::<SourcedModel>::empty());
    r
}

fn take_snapshot(session_id: &str, arena: &[u8], d: AttachDiagnostics, end: ScanResult) -> (r:
    Result<TailState, ReadError>)
    requires
        end.complete,
    ensures
        match r {
            Ok(t) => after_snapshot(
                session_id@,
                arena@,
                d,
                scan_end(Ok(end))->Ok_0,
            ) == Ok::<TailModel, ReadError>(t@),
            Err(e) => after_snapshot(session_id@, arena@, d, scan_end(Ok(end))->Ok_0) == Err::<
                TailModel,
                ReadError,
            >(e),
        },
{
    let ScanResult { scan, cursor, bytes_parsed, .. } = end;
    let Scan { parser, start, card_ids, draft_mode, .. } = scan;
    let resync = match start {
        Some((draft_deck_id, hero_card_id)) => Some(
            GameEvent::ArenaAuthoritativeResync {
                draft_deck_id,
                hero_card_id,
                card_ids,
                draft_mode,
            },
        ),
        None => None,
    };
    let mut diagnostics = d;
    diagnostics.method = AttachMethod::TailSnapshot;
    diagnostics.snapshot_bytes_parsed = bytes_parsed;
    let suffix: u64 = bytes_left(arena, cursor.byte_offset);
    if suffix <= TAIL_SNAPSHOT_SUFFIX_BYTES {
        match read_component_file_from(LogComponent::Arena, arena, cursor) {
            Err(e) => Err(e),
            Ok((lines, last)) => {
                let (parser, lines) = replay_lines(session_id, parser, &lines);
                Ok(TailState { diagnostics, parser, resync, lines, arena: Some(last) })
            },
        }
    } else {
        diagnostics.arena_suffix_bytes_skipped = suffix;
        diagnostics.arena_suffix_truncated = true;
        let lines: Vec<SourcedLine> = Vec::new();
        assert(sourced_models(lines@) =~= Seq::<SourcedModel>::empty());
        Ok(TailState { diagnostics, parser, resync, lines, arena: None })
    }
}

fn read_tail_snapshot(
    session_id: &str,
    arena: &[u8],
    run_start: Option<ReverseLineMatch>,
) -> (r: Result<TailState, ReadError>)
    requires
        run_start == mark(arena@, ARENA_RUN_START_SENTINEL@),
    ensures
        match r {
            Ok(t) => tail_snapshot(session_id@, arena@) == Ok::<TailModel, ReadError>(t@),
            Err(e) => tail_snapshot(session_id@, arena@) == Err::<TailModel, ReadError>(e),
        },
{
    let mut diagnostics = AttachDiagnostics::of(AttachMethod::AwaitingSnapshot);
    diagnostics.non_arena_components_started_at_tail = true;
    proof {
        reveal_strlit("Draft Deck ID:");
    }
    let marker = match find_mark(arena, ARENA_SNAPSHOT_SENTINEL) {
        None => return Ok(waiting_tail(diagnostics)),
        Some(marker) => marker,
    };
    let superseded = match run_start {
        Some(run) => run.line_start > marker.line_start,
        None => false,
    };
    diagnostics.snapshot_byte_offset = Some(marker.line_start);
    diagnostics.snapshot_invalidated_by_newer_run = superseded;
    if !marker.complete || superseded {
        return Ok(waiting_tail(diagnostics));
    }
    match parse_snapshot_at(session_id, arena, marker.line_start) {
        Err(e) => Err(e),
        Ok(end) => {
            if end.complete {
                take_snapshot(session_id, arena, diagnostics, end)
            } else {
                diagnostics.snapshot_bytes_parsed = end.bytes_parsed;
                let ScanResult { scan, .. } = end;
                Ok(
                    TailState {
                        diagnostics,
                        parser: scan.parser,
                        resync: None,
                        lines: scan.lines,
                        arena: None,
                    },
                )
            }
        },
    }
}

/// Reads what the Arena log holds of the current deck.
pub fn plan_tail(session_id: &str, arena: &[u8]) -> (r: Result<TailPlan, ReadError>)
    ensures
        match r {
            Ok(p) => tail_plan(session_id@, arena@) == Ok::<
                (TailModel, Option<RunModel>),
                ReadError,
            >((p.tail@, opt_run(p.run))),
            Err(e) => tail_plan(session_id@, arena@) == Err::<
                (TailModel, Option<RunModel>),
                ReadError,
            >(e),
        },
{
    proof {
        reveal_strlit("OnBegin");
    }
    let run_start = find_mark(arena, ARENA_RUN_START_SENTINEL);
    let mut tail = match read_tail_snapshot(session_id, arena, run_start) {
        Err(e) => return Err(e),
        Ok(tail) => tail,
    };
    let run = match run_start {
        None => return Ok(TailPlan { tail, run: None }),
        Some(run) => run,
    };
    if !run.complete || tail.diagnostics.method != AttachMethod::AwaitingSnapshot {
        return Ok(TailPlan { tail, run: None });
    }
    let suffix: u64 = bytes_left(arena, run.line_start);
    if suffix > TAIL_SNAPSHOT_SUFFIX_BYTES {
        tail.diagnostics.arena_suffix_bytes_skipped = suffix;
        tail.diagnostics.arena_suffix_truncated = true;
        return Ok(TailPlan { tail, run: None });
    }
    let cursor = LogCursor { byte_offset: run.line_start, line_number: 0 };
    match read_component_file_from(LogComponent::Arena, arena, cursor) {
        Err(e) => Err(e),
        Ok((lines, last)) => {
            let (parser, lines) = replay_lines(session_id, HearthstoneLogParser::default(), &lines);
            Ok(TailPlan { tail, run: Some(RunReplay { parser, lines, arena: last }) })
        },
    }
}

/// What a session holds of the current deck.
pub open spec fn session_plan(
    session: Seq<char>,
    is_dir: bool,
    files: Map<LogComponent, LogFile>,
) -> Result<(TailModel, Option<RunModel>), ObserverError> {
    match session_fault(is_dir, files) {
        Some(e) => Err(ObserverError::ReplayRequired(e)),
        None => if files.contains_key(LogComponent::Arena) {
            match tail_plan(session, files[LogComponent::Arena].bytes@) {
                Ok(plan) => Ok(plan),
                Err(e) => Err(ObserverError::Read(e)),
            }
        } else {
            Ok(
                (
                    TailModel {
                        diagnostics: waiting_diagnostics(),
                        parser: fresh_parser(),
                        resync: None,
                        lines: Seq::empty(),
                        arena: None,
                    },
                    None,
                ),
            )
        },
    }
}

/// What attaching to the current deck gives: the observer, then the event and the records to
/// reduce from nothing.
pub open spec fn attached_tail(
    session: Seq<char>,
    files: Map<LogComponent, LogFile>,
    after: Map<LogComponent, LogFile>,
    tail: TailModel,
) -> Result<(ObserverModel, Option<EventModel>, Seq<SourcedModel>), ObserverError> {
    let beyond = match tail.arena {
        Some(cursor) => files.contains_key(LogComponent::Arena) && cursor.byte_offset
            > files[LogComponent::Arena].bytes@.len(),
        None => false,
    };
    if beyond {
        Err(ObserverError::Read(ReadError::UnexpectedEnd))
    } else {
        match moved_file(files, after, 5) {
            Some(e) => Err(e),
            None => Ok((tail_observer(session, files, tail), tail.resync, tail.lines)),
        }
    }
}

/// An observer that has just attached, with what the reducer takes from nothing: at first the
/// event, if there is one, then the records.
pub struct TailAttached {
    pub observer: SessionObserver,
    pub resync: Option<GameEvent>,
    pub lines: Vec<SourcedLine>,
}

/// What attaching gave, over texts.
pub open spec fn tail_result(r: Result<TailAttached, ObserverError>) -> Result<
    (ObserverModel, Option<EventModel>, Seq<SourcedModel>),
    ObserverError,
> {
    match r {
        Ok(a) => Ok((a.observer@, opt_event(a.resync), sourced_models(a.lines@))),
        Err(e) => Err(e),
    }
}

impl TailPlan {
    /// Settles what is taken, once it is known whether the run is confirmed.
    pub fn choose_tail(self, run_identified: bool) -> (r: TailState)
        ensures
            r@ == chosen_tail(self.tail@, opt_run(self.run), run_identified),
    {
        let TailPlan { tail, run } = self;
        match run {
            Some(r) => if run_identified {
                let mut diagnostics = tail.diagnostics;
                diagnostics.method = AttachMethod::TailRun;
                TailState {
                    diagnostics,
                    parser: r.parser,
                    resync: None,
                    lines: r.lines,
                    arena: Some(r.arena),
                }
            } else {
                tail
            },
            None => tail,
        }
    }
}

impl SessionObserver {
    /// Reads what the session holds of the current deck.
    pub fn plan_current_state(session_id: &str, is_dir: bool, files: &ComponentMap<LogFile>) -> (r:
        Result<TailPlan, ObserverError>)
        requires
            files.wf(),
        ensures
            match r {
                Ok(p) => session_plan(session_id@, is_dir, files.entries()) == Ok::<
                    (TailModel, Option<RunModel>),
                    ObserverError,
                >((p.tail@, opt_run(p.run))),
                Err(e) => session_plan(session_id@, is_dir, files.entries()) == Err::<
                    (TailModel, Option<RunModel>),
                    ObserverError,
                >(e),
            },
    {
        if let Err(e) = validate_log_session(is_dir, files) {
            return Err(ObserverError::ReplayRequired(e));
        }
        match files.get(LogComponent::Arena) {
            Some(arena) => match plan_tail(session_id, arena.bytes.as_slice()) {
                Ok(plan) => Ok(plan),
                Err(e) => Err(ObserverError::Read(e)),
            },
            None => {
                let mut diagnostics = AttachDiagnostics::of(AttachMethod::AwaitingSnapshot);
                diagnostics.non_arena_components_started_at_tail = true;
                Ok(TailPlan { tail: waiting_tail(diagnostics), run: None })
            },
        }
    }

    /// Attaches to the current deck. `files` are the logs that the plan was made from, `after`
    /// the same logs afterwards: a boundary that moved meanwhile is never accepted.
    /// `run_identified` tells whether the records of the plan's run gave the reducer a draft
    /// deck.
    pub fn attach_current_state(
        session_id: &str,
        files: &ComponentMap<LogFile>,
        after: &ComponentMap<LogFile>,
        plan: TailPlan,
        run_identified: bool,
    ) -> (r: Result<TailAttached, ObserverError>)
        requires
            files.wf(),
            after.wf(),
        ensures
            r matches Ok(a) ==> a.observer.wf(),
            tail_result(r) == attached_tail(
                session_id@,
                files.entries(),
                after.entries(),
                chosen_tail(plan.tail@, opt_run(plan.run), run_identified),
            ),
    {
        let tail = plan.choose_tail(run_identified);
        let ghost chosen = tail@;
        let ghost wanted = tail_observer(session_id@, files.entries(), chosen);
        let mut cursors: ComponentMap<LogCursor> = ComponentMap::new();
        let mut checkpoints: ComponentMap<FileCheckpoint> = ComponentMap::new();
        let mut i: usize = 0;
        while i < 5
            invariant
                i <= 5,
                files.wf(),
                cursors.wf(),
                checkpoints.wf(),
                chosen == tail@,
                chosen == chosen_tail(plan.tail@, opt_run(plan.run), run_identified),
                wanted == tail_observer(session_id@, files.entries(), chosen),
                forall|c: LogComponent| #[trigger]
                    cursors.entries().contains_key(c) <==> c.rank() < i
                        && files.entries().contains_key(c),
                forall|c: LogComponent| #[trigger]
                    cursors.entries().contains_key(c) ==> cursors.entries()[c]
                        == wanted.cursors[c],
                forall|c: LogComponent| #[trigger]
                    checkpoints.entries().contains_key(c) <==> c.rank() < i
                        && wanted.witnesses.contains_key(c),
                forall|c: LogComponent| #[trigger]
                    checkpoints.entries().contains_key(c) ==> checkpoints.entries()[c]@
                        == wanted.witnesses[c],
                tail.arena is Some && i > 3 && files.entries().contains_key(LogComponent::Arena)
                    ==> tail.arena->0.byte_offset <= files.entries()[LogComponent::Arena].bytes@.len(),
            decreases 5 - i,
        {
            let component = REQUIRED_COMPONENTS[i];
            assert(component.rank() == i && forall|c: LogComponent| #[trigger]
                c.rank() == i ==> c == component) by {
                crate::merge::rank_of_required(i as int);
            }
            if let Some(file) = files.get(component) {
                let at_end = tail_cursor(file.bytes.as_slice());
                let cursor = match tail.arena {
                    Some(cursor) => if component == LogComponent::Arena {
                        cursor
                    } else {
                        at_end
                    },
                    None => at_end,
                };
                assert(cursor == wanted.cursors[component]);
                proof {
                    line_start_follows_a_newline(file.bytes@, file.bytes@.len() as int);
                }
                match file_checkpoint(file.bytes.as_slice(), cursor.byte_offset) {
                    Err(e) => return Err(ObserverError::Read(e)),
                    Ok(None) => {},
                    Ok(Some(checkpoint)) => {
                        checkpoints.insert(component, checkpoint);
                    },
                }
                cursors.insert(component, cursor);
            }
            i = i + 1;
        }
        let mut k: usize = 0;
        while k < 5
            invariant
                k <= 5,
                files.wf(),
                after.wf(),
                moved_file(files.entries(), after.entries(), k as int) is None,
                chosen.arena is Some && files.entries().contains_key(LogComponent::Arena)
                    ==> chosen.arena->0.byte_offset <= files.entries()[LogComponent::Arena].bytes@.len(),
                chosen == chosen_tail(plan.tail@, opt_run(plan.run), run_identified),
            decreases 5 - k,
        {
            let component = REQUIRED_COMPONENTS[k];
            if let Some(file) = files.get(component) {
                let fault = match after.get(component) {
                    None => Some(ObserverError::Unreadable(component)),
                    Some(now) => if file.identity != now.identity || file.bytes.len()
                        != now.bytes.len() {
                        Some(
                            ObserverError::ReplayRequired(
                                LogReplayRequired {
                                    place: ReplayPlace::Component(component),
                                    reason: ReplayReason::ChangedWhileTailing,
                                },
                            ),
                        )
                    } else {
                        None
                    },
                };
                if let Some(e) = fault {
                    proof {
                        assert(moved_file(files.entries(), after.entries(), k + 1) == Some(e));
                        first_move_stays(files.entries(), after.entries(), k + 1, 5);
                    }
                    return Err(e);
                }
            }
            k = k + 1;
        }
        let TailState { diagnostics, parser, resync, lines, .. } = tail;
        let observer = SessionObserver {
            session_id: text::copy(session_id),
            state: ReduceState { parser, order: None, source: None },
            cursors,
            file_identities: file_identities(files),
            checkpoints,
            diagnostics,
        };
        proof {
            assert forall|c: LogComponent| #[trigger]
                observer@.cursors.contains_key(c) == wanted.cursors.contains_key(c) by {
                assert(c.rank() < 5);
            }
            assert forall|c: LogComponent| #[trigger]
                observer@.witnesses.contains_key(c) == wanted.witnesses.contains_key(c) by {
                assert(c.rank() < 5);
                assert(checkpoints.entries().contains_key(c) == wanted.witnesses.contains_key(c));
            }
            assert(observer@.cursors =~= wanted.cursors);
            assert(observer@.witnesses =~= wanted.witnesses);
        }
        Ok(TailAttached { observer, resync, lines })
    }
}

proof fn first_move_stays(
    files: Map<LogComponent, LogFile>,
    after: Map<LogComponent, LogFile>,
    n: int,
    m: int,
)
    requires
        n <= m,
        moved_file(files, after, n) is Some,
    ensures
        moved_file(files, after, m) == moved_file(files, after, n),
    decreases m - n,
{
    if n < m {
        first_move_stays(files, after, n, m - 1);
    }
}

/// A snapshot that is not terminated, or that a newer run follows, gives no deck.
pub proof fn void_snapshots_give_no_deck(session: Seq<char>, b: Seq<u8>)
    requires
        mark(b, ARENA_SNAPSHOT_SENTINEL@) matches Some(marker) && (!marker.complete || (mark(
            b,
            ARENA_RUN_START_SENTINEL@,
        ) matches Some(run) && run.line_start > marker.line_start)),
    ensures
        tail_snapshot(session, b) matches Ok(t) && t.resync is None && t.lines.len() == 0
            && t.diagnostics.method == AttachMethod::AwaitingSnapshot,
{
}

proof fn complete_scans_are_short(
    session: Seq<char>,
    b: Seq<u8>,
    start: u64,
    cursor: LogCursor,
    s: ScanModel,
)
    ensures
        scanned(session, b, start, cursor, s) matches Ok(end) ==> end.complete ==> end.bytes_parsed
            <= TAIL_SNAPSHOT_PARSE_BYTES && end.scan.start is Some,
    decreases b.len() - cursor.byte_offset,
{
    let (next, found) = read_next(LogComponent::Arena, b, cursor);
    if let Ok(Some(line)) = found {
        if cursor.byte_offset < next.byte_offset <= b.len() {
            complete_scans_are_short(session, b, start, next, with_line(s, session, line));
        }
    }
}

/// A deck is taken from a snapshot exactly where the method says so, and then the snapshot was
/// complete within its limit and no run follows it.
pub proof fn decks_come_from_complete_snapshots(session: Seq<char>, b: Seq<u8>)
    requires
        tail_snapshot(session, b) is Ok,
    ensures
        ({
            let t = tail_snapshot(session, b)->Ok_0;
            &&& t.resync is Some <==> t.diagnostics.method == AttachMethod::TailSnapshot
            &&& t.resync is Some ==> {
                &&& t.diagnostics.snapshot_bytes_parsed <= TAIL_SNAPSHOT_PARSE_BYTES
                &&& !t.diagnostics.snapshot_invalidated_by_newer_run
                &&& t.diagnostics.arena_suffix_bytes_skipped == 0
                    || t.diagnostics.arena_suffix_bytes_skipped > TAIL_SNAPSHOT_SUFFIX_BYTES
            }
        }),
{
    if let Some(marker) = mark(b, ARENA_SNAPSHOT_SENTINEL@) {
        complete_scans_are_short(
            session,
            b,
            marker.line_start,
            LogCursor { byte_offset: marker.line_start, line_number: 0 },
            fresh_scan(),
        );
    }
}

/// A run stands in for a snapshot only while there is none, and only where it is confirmed.
pub proof fn runs_wait_for_their_confirmation(session: Seq<char>, b: Seq<u8>)
    requires
        tail_plan(session, b) is Ok,
    ensures
        ({
            let (tail, run) = tail_plan(session, b)->Ok_0;
            &&& run is Some ==> tail.diagnostics.method == AttachMethod::AwaitingSnapshot
            &&& chosen_tail(tail, run, false) == tail
            &&& run is Some ==> chosen_tail(tail, run, true).diagnostics.method
                == AttachMethod::TailRun && chosen_tail(tail, run, true).resync is None
        }),
{
}

/// Whether a record was taken from the Arena log's newest part: from its last bytes, or from the
/// newest snapshot while that is short.
pub open spec fn from_the_newest_part(
    record: SourcedModel,
    b: Seq<u8>,
    snapshot: Option<u64>,
) -> bool {
    &&& record.source.component == filename_of(LogComponent::Arena)
    &&& {
        ||| end_cursor(b).byte_offset - record.source.byte_offset <= TAIL_SNAPSHOT_SUFFIX_BYTES
        ||| snapshot matches Some(start) && record.source.byte_offset - start
            <= TAIL_SNAPSHOT_PARSE_BYTES
    }
}

proof fn reduced_records_keep_their_sources(
    s: ReduceModel,
    session: Seq<char>,
    lines: Seq<LineModel>,
)
    ensures
        ({
            let steps = reduced(s, session, lines, None, false).steps;
            &&& steps.len() == lines.len()
            &&& forall|i: int|
                0 <= i < lines.len() ==> (#[trigger] steps[i]).source == source_of(
                    session,
                    lines[i],
                )
        }),
    decreases lines.len(),
{
    if lines.len() > 0 {
        let next = after_line(s, session, lines[0]);
        reduced_records_keep_their_sources(next, session, lines.skip(1));
        let steps = reduced(s, session, lines, None, false).steps;
        let rest = reduced(next, session, lines.skip(1), None, false).steps;
        assert forall|i: int| 0 <= i < lines.len() implies (#[trigger] steps[i]).source
            == source_of(session, lines[i]) by {
            if i > 0 {
                assert(steps[i] == rest[i - 1]);
                assert(lines.skip(1)[i - 1] == lines[i]);
            }
        }
    }
}

proof fn records_stand_behind_the_cursor(b: Seq<u8>, cursor: LogCursor)
    ensures
        read_all(LogComponent::Arena, b, cursor) matches Ok((lines, _)) ==> forall|i: int|
            0 <= i < lines.len() ==> (#[trigger] lines[i]).component == LogComponent::Arena
                && lines[i].byte_offset >= cursor.byte_offset,
    decreases b.len() - cursor.byte_offset,
{
    let (next, found) = read_next(LogComponent::Arena, b, cursor);
    if let Ok(Some(line)) = found {
        if cursor.byte_offset < next.byte_offset <= b.len() {
            records_stand_behind_the_cursor(b, next);
        }
    }
}

proof fn scanned_records_are_near(
    session: Seq<char>,
    b: Seq<u8>,
    start: u64,
    cursor: LogCursor,
    s: ScanModel,
)
    requires
        b.len() <= u64::MAX,
        start <= cursor.byte_offset,
        forall|i: int|
            0 <= i < s.lines.len() ==> from_the_newest_part(#[trigger] s.lines[i], b, Some(start)),
    ensures
        scanned(session, b, start, cursor, s) matches Ok(end) ==> forall|i: int|
            0 <= i < end.scan.lines.len() ==> from_the_newest_part(
                #[trigger] end.scan.lines[i],
                b,
                Some(start),
            ),
    decreases b.len() - cursor.byte_offset,
{
    let (next, found) = read_next(LogComponent::Arena, b, cursor);
    reading_moves_forward(LogComponent::Arena, b, cursor);
    if let Ok(Some(line)) = found {
        if next.byte_offset - start <= TAIL_SNAPSHOT_PARSE_BYTES {
            let then = with_line(s, session, line);
            assert forall|i: int| 0 <= i < then.lines.len() implies from_the_newest_part(
                #[trigger] then.lines[i],
                b,
                Some(start),
            ) by {
                if i < s.lines.len() {
                    assert(then.lines[i] == s.lines[i]);
                }
            }
            scanned_records_are_near(session, b, start, next, then);
        }
    }
}

/// Attaching to the current deck does not read the history of a session: whatever is reduced
/// comes from the newest part of the Arena log, and every other log is read from its end on.
pub proof fn attaching_reads_only_the_newest_part(
    session: Seq<char>,
    is_dir: bool,
    files: Map<LogComponent, LogFile>,
    after: Map<LogComponent, LogFile>,
    run_identified: bool,
)
    requires
        session_plan(session, is_dir, files) is Ok,
    ensures
        ({
            let (tail, run) = session_plan(session, is_dir, files)->Ok_0;
            let chosen = chosen_tail(tail, run, run_identified);
            let b = files[LogComponent::Arena].bytes@;
            attached_tail(session, files, after, chosen) matches Ok((observer, _, lines)) ==> {
                &&& forall|i: int|
                    0 <= i < lines.len() ==> from_the_newest_part(
                        #[trigger] lines[i],
                        b,
                        observer.diagnostics.snapshot_byte_offset,
                    )
                &&& forall|c: LogComponent|
                    files.contains_key(c) && c != LogComponent::Arena ==> #[trigger] observer.cursors[c]
                        == end_cursor(files[c].bytes@)
                &&& observer.diagnostics.non_arena_components_started_at_tail
            }
        }),
{
    if files.contains_key(LogComponent::Arena) {
        let b = files[LogComponent::Arena].bytes@;
        assert(b.len() == files[LogComponent::Arena].bytes.len());
        if let Some(marker) = mark(b, ARENA_SNAPSHOT_SENTINEL@) {
            let start = LogCursor { byte_offset: marker.line_start, line_number: 0 };
            scanned_records_are_near(session, b, marker.line_start, start, fresh_scan());
            if let Ok(end) = scanned(session, b, marker.line_start, start, fresh_scan()) {
                records_stand_behind_the_cursor(b, end.cursor);
                if let Ok((lines, _)) = read_all(LogComponent::Arena, b, end.cursor) {
                    reduced_records_keep_their_sources(
                        ReduceModel { parser: end.scan.parser, order: None, source: None },
                        session,
                        lines,
                    );
                }
            }
        }
        if let Some(run) = mark(b, ARENA_RUN_START_SENTINEL@) {
            let start = LogCursor { byte_offset: run.line_start, line_number: 0 };
            records_stand_behind_the_cursor(b, start);
            if let Ok((lines, _)) = read_all(LogComponent::Arena, b, start) {
                reduced_records_keep_their_sources(
                    ReduceModel { parser: fresh_parser(), order: None, source: None },
                    session,
                    lines,
                );
            }
        }
    }
}

/// The next records of the Arena log from a cursor on, and the place behind them; `None` where
/// there are not as many.
pub open spec fn next_records(b: Seq<u8>, cursor: LogCursor, n: nat) -> Option<
    (Seq<ArenaRecordModel>, LogCursor),
>
    decreases n,
{
    if n == 0 {
        Some((Seq::empty(), cursor))
    } else {
        let (next, found) = read_next(LogComponent::Arena, b, cursor);
        match found {
            Ok(Some(line)) => match next_records(b, next, (n - 1) as nat) {
                Some((rest, end)) => Some((seq![arena_record_of(line.message)] + rest, end)),
                None => None,
            },
            _ => None,
        }
    }
}

/// Whether a record can stand between the first record of a deck's listing and its last.
pub open spec fn within_listing(record: ArenaRecordModel) -> bool {
    match record {
        ArenaRecordModel::DraftDeck { .. } => false,
        ArenaRecordModel::Begin { .. } => false,
        ArenaRecordModel::RedraftBegin => false,
        ArenaRecordModel::Mode { mode } => !ends_listing(mode),
        _ => true,
    }
}

/// Whether records list a whole deck: the first names it, the last ends the listing.
pub open spec fn whole_listing(records: Seq<ArenaRecordModel>) -> bool {
    &&& records.len() >= 2
    &&& records[0] is DraftDeck
    &&& forall|i: int| 0 < i < records.len() - 1 ==> within_listing(#[trigger] records[i])
    &&& records.last() matches ArenaRecordModel::Mode { mode } && ends_listing(mode)
}

proof fn records_lie_ahead(b: Seq<u8>, cursor: LogCursor, n: nat)
    requires
        b.len() <= u64::MAX,
    ensures
        next_records(b, cursor, n) matches Some((records, end)) ==> records.len() == n
            && cursor.byte_offset <= end.byte_offset,
    decreases n,
{
    if n > 0 {
        reading_moves_forward(LogComponent::Arena, b, cursor);
        let next = read_next(LogComponent::Arena, b, cursor).0;
        records_lie_ahead(b, next, (n - 1) as nat);
    }
}

proof fn listed_first(record: ArenaRecordModel, rest: Seq<ArenaRecordModel>)
    ensures
        listed_cards(seq![record] + rest) == (match record {
            ArenaRecordModel::DeckCard { card } => seq![card] + listed_cards(rest),
            _ => listed_cards(rest),
        }),
    decreases rest.len(),
{
    let all = seq![record] + rest;
    if rest.len() == 0 {
        assert(all.drop_last() =~= Seq::<ArenaRecordModel>::empty());
        assert(listed_cards(all.drop_last()) =~= Seq::<Seq<char>>::empty());
        if let ArenaRecordModel::DeckCard { card } = record {
            assert(Seq::<Seq<char>>::empty().push(card) =~= seq![card] + listed_cards(rest));
        }
    } else {
        listed_first(record, rest.drop_last());
        assert(all.drop_last() =~= seq![record] + rest.drop_last());
        assert(all.last() == rest.last());
        if let ArenaRecordModel::DeckCard { card } = record {
            if let ArenaRecordModel::DeckCard { card: other } = rest.last() {
                assert((seq![card] + listed_cards(rest.drop_last())).push(other) =~= seq![card]
                    + listed_cards(rest.drop_last()).push(other));
            }
        }
    }
}

proof fn a_listing_is_scanned(
    session: Seq<char>,
    b: Seq<u8>,
    start: u64,
    cursor: LogCursor,
    s: ScanModel,
    n: nat,
)
    requires
        b.len() <= u64::MAX,
        n >= 1,
        start <= cursor.byte_offset,
        s.start is Some,
        s.parser.reading_arena_deck,
        !s.parser.redraft_boundary_pending,
        next_records(b, cursor, n) is Some,
        ({
            let (records, end) = next_records(b, cursor, n)->0;
            &&& end.byte_offset - start <= TAIL_SNAPSHOT_PARSE_BYTES
            &&& forall|i: int| 0 <= i < records.len() - 1 ==> within_listing(#[trigger] records[i])
            &&& records.last() matches ArenaRecordModel::Mode { mode } && ends_listing(mode)
        }),
    ensures
        scanned(session, b, start, cursor, s) is Ok,
        ({
            let (records, end) = next_records(b, cursor, n)->0;
            let r = scanned(session, b, start, cursor, s)->Ok_0;
            &&& r.complete
            &&& r.cursor == end
            &&& r.bytes_parsed == end.byte_offset - start
            &&& r.scan.start == s.start
            &&& r.scan.card_ids == s.card_ids + listed_cards(records)
            &&& records.last() == (ArenaRecordModel::Mode { mode: r.scan.draft_mode->0 })
            &&& r.scan.draft_mode is Some
        }),
    decreases n,
{
    reveal_strlit("DRAFTING");
    reveal_strlit("REDRAFTING");
    reveal_strlit("ACTIVE_DRAFT_DECK");
    reading_moves_forward(LogComponent::Arena, b, cursor);
    let (next, found) = read_next(LogComponent::Arena, b, cursor);
    let line = found->Ok_0->0;
    let record = arena_record_of(line.message);
    let (rest, end) = next_records(b, next, (n - 1) as nat)->0;
    let (records, _) = next_records(b, cursor, n)->0;
    records_lie_ahead(b, next, (n - 1) as nat);
    records_lie_ahead(b, cursor, n);
    assert(records[0] == record);
    let (parser, events) = line_step(s.parser, line.component, line.message);
    let then = with_line(s, session, line);
    listed_first(record, rest);
    reveal_with_fuel(with_cards, 3);
    reveal_with_fuel(with_mode, 3);
    reveal_with_fuel(snapshot_start, 3);
    if n == 1 {
        assert(rest =~= Seq::<ArenaRecordModel>::empty());
        assert(records.last() == record);
        assert(events.len() == 2 && events[0] is ArenaDeckSnapshotCompleted);
        assert(completes(events));
        assert(events.drop_last().len() == 1 && events.drop_last().last() == events[0]);
        assert(events.drop_last().drop_last().len() == 0);
        assert(listed_cards(records) =~= Seq::<Seq<char>>::empty());
        assert(s.card_ids + listed_cards(records) =~= s.card_ids);
    } else {
        assert(within_listing(records[0]));
        assert(events.len() <= 1);
        assert(!completes(events));
        assert forall|i: int| 0 <= i < rest.len() - 1 implies within_listing(
            #[trigger] rest[i],
        ) by {
            assert(rest[i] == records[i + 1]);
        }
        assert(rest.last() == records.last());
        if events.len() == 1 {
            assert(events.drop_last().len() == 0);
        }
        a_listing_is_scanned(session, b, start, next, then, (n - 1) as nat);
        assert(then.card_ids + listed_cards(rest) =~= s.card_ids + listed_cards(records));
    }
}

/// The deck in the log is taken over. Where the newest record that names a deck is terminated, no
/// run begins behind it, and the records from it on list the whole deck within the limit, then the
/// deck is taken from them: its id and its hero are those of the first record, its cards the
/// listed ones in order with their duplicates, and its mode that of the last record. Whatever is
/// said of a run does not change that, and attaching hands the same deck on.
pub proof fn listed_decks_are_taken_over(session: Seq<char>, b: Seq<u8>, n: nat, run_identified: bool)
    requires
        b.len() <= u64::MAX,
        mark(b, ARENA_SNAPSHOT_SENTINEL@) matches Some(marker) && marker.complete,
        mark(b, ARENA_RUN_START_SENTINEL@) matches Some(run) ==> run.line_start <= mark(
            b,
            ARENA_SNAPSHOT_SENTINEL@,
        )->0.line_start,
        ({
            let start = mark(b, ARENA_SNAPSHOT_SENTINEL@)->0.line_start;
            let read = next_records(b, LogCursor { byte_offset: start, line_number: 0 }, n);
            &&& read matches Some((records, end)) && whole_listing(records) && end.byte_offset
                - start <= TAIL_SNAPSHOT_PARSE_BYTES && read_all(LogComponent::Arena, b, end) is Ok
        }),
    ensures
        tail_plan(session, b) is Ok,
        ({
            let start = mark(b, ARENA_SNAPSHOT_SENTINEL@)->0.line_start;
            let (records, end) = next_records(
                b,
                LogCursor { byte_offset: start, line_number: 0 },
                n,
            )->0;
            let (tail, run) = tail_plan(session, b)->Ok_0;
            let taken = chosen_tail(tail, run, run_identified);
            &&& taken.resync matches Some(
                EventModel::ArenaAuthoritativeResync {
                    draft_deck_id,
                    hero_card_id,
                    card_ids,
                    draft_mode,
                },
            )
            &&& records[0] == (ArenaRecordModel::DraftDeck { id: draft_deck_id, hero: hero_card_id })
            &&& card_ids == listed_cards(records)
            &&& draft_mode is Some
            &&& records.last() == (ArenaRecordModel::Mode { mode: draft_mode->0 })
            &&& taken.diagnostics.method == AttachMethod::TailSnapshot
            &&& taken.diagnostics.snapshot_byte_offset == Some(start)
            &&& taken.diagnostics.snapshot_bytes_parsed == end.byte_offset - start
            &&& forall|files: Map<LogComponent, LogFile>, after: Map<LogComponent, LogFile>|
                #![trigger attached_tail(session, files, after, taken)]
                attached_tail(session, files, after, taken) matches Ok((_, event, lines)) ==> event
                    == taken.resync && lines == taken.lines
        }),
{
    let marker = mark(b, ARENA_SNAPSHOT_SENTINEL@)->0;
    let start = marker.line_start;
    let cursor = LogCursor { byte_offset: start, line_number: 0 };
    let (records, end) = next_records(b, cursor, n)->0;
    reading_moves_forward(LogComponent::Arena, b, cursor);
    records_lie_ahead(b, cursor, n);
    let (next, found) = read_next(LogComponent::Arena, b, cursor);
    let line = found->Ok_0->0;
    let record = arena_record_of(line.message);
    let (rest, _) = next_records(b, next, (n - 1) as nat)->0;
    records_lie_ahead(b, next, (n - 1) as nat);
    assert(records[0] == record);
    let (parser, events) = line_step(fresh_parser(), line.component, line.message);
    assert(events.len() == 1);
    assert(!completes(events));
    let then = with_line(fresh_scan(), session, line);
    reveal_with_fuel(with_cards, 3);
    reveal_with_fuel(with_mode, 3);
    reveal_with_fuel(snapshot_start, 3);
    assert(events.drop_last().len() == 0);
    assert forall|i: int| 0 <= i < rest.len() - 1 implies within_listing(#[trigger] rest[i]) by {
        assert(rest[i] == records[i + 1]);
    }
    assert(rest.last() == records.last());
    a_listing_is_scanned(session, b, start, next, then, (n - 1) as nat);
    listed_first(record, rest);
    assert(Seq::<Seq<char>>::empty() + listed_cards(rest) =~= listed_cards(records));
}

} // verus!
