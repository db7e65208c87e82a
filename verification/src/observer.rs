//! Following the component logs of one session.
//!
//! A session observer knows how far each log was read and what stood there. It takes the bytes
//! of the logs as they are now, gives the new records in order, and refuses to go on where a log
//! no longer continues what was read: then the current deck has to be found anew.
use crate::log_component::{component_can_emit_events, emits_events, ComponentMap, LogComponent, REQUIRED_COMPONENTS};
use crate::log_parser::{fresh_parser, HearthstoneLogParser, ParserModel};
use crate::log_reader::{end_cursor, file_start, ComponentLogReader, LogCursor, ReadError};
use crate::merge::{
    event_lists, place_after, reduce_in_order, sourced_models, stream_outcome, FileIdentity,
    LogFile, MergeEnd, ReduceModel, ReduceState, SourcedLine, SourcedModel,
};
use crate::state::{EventModel, GameEvent};
use crate::text;
use vstd::prelude::*;

verus! {

/// The version of the snapshot envelope.
pub const OBSERVER_SNAPSHOT_SCHEMA_VERSION: u32 = 5;

/// The version of saved observer state. A change of parser, reducer or cursors that is not
/// compatible raises it, so that older state leads to a resync of the current deck.
pub const OBSERVER_CHECKPOINT_SCHEMA_VERSION: u32 = 1;

/// The largest checkpoint that is read or written.
pub const MAX_CHECKPOINT_BYTES: u64 = 4 * 1024 * 1024;

/// The number of bytes before a cursor that bear witness to what was read.
pub const CHECKPOINT_BYTES: u64 = 64;

/// How the state of an observer was established.
#[derive(Clone, Copy, Debug, PartialEq, Eq, Structural)]
pub enum AttachMethod {
    /// From a saved state that still fits the files.
    VerifiedCheckpoint,
    /// From the newest completed deck snapshot. Earlier history was not read.
    TailSnapshot,
    /// From the start of a run that is newer than any completed deck snapshot.
    TailRun,
    /// There is no completed snapshot yet.
    AwaitingSnapshot,
    /// From the whole history.
    FullReplay,
}

impl Default for AttachMethod {
    fn default() -> (r: Self)
        ensures
            r == AttachMethod::FullReplay,
    {
        AttachMethod::FullReplay
    }
}

/// Why history was read or left out when the observer attached.
#[derive(Clone, Copy, Debug, PartialEq, Eq, Structural)]
pub struct AttachDiagnostics {
    pub method: AttachMethod,
    pub snapshot_byte_offset: Option<u64>,
    pub snapshot_bytes_parsed: u64,
    pub arena_suffix_bytes_skipped: u64,
    pub arena_suffix_truncated: bool,
    /// A run began after the newest snapshot, so that the snapshot was not taken.
    pub snapshot_invalidated_by_newer_run: bool,
    /// The bytes that were read after a saved state.
    pub checkpoint_suffix_bytes_replayed: u64,
    pub non_arena_components_started_at_tail: bool,
}

/// The diagnostics of a method that has nothing more to tell.
pub open spec fn plain_diagnostics(method: AttachMethod) -> AttachDiagnostics {
    AttachDiagnostics {
        method,
        snapshot_byte_offset: None,
        snapshot_bytes_parsed: 0,
        arena_suffix_bytes_skipped: 0,
        arena_suffix_truncated: false,
        snapshot_invalidated_by_newer_run: false,
        checkpoint_suffix_bytes_replayed: 0,
        non_arena_components_started_at_tail: false,
    }
}

impl AttachDiagnostics {
    /// The diagnostics of a method that has nothing more to tell.
    pub fn of(method: AttachMethod) -> (r: Self)
        ensures
            r == plain_diagnostics(method),
    {
        AttachDiagnostics {
            method,
            snapshot_byte_offset: None,
            snapshot_bytes_parsed: 0,
            arena_suffix_bytes_skipped: 0,
            arena_suffix_truncated: false,
            snapshot_invalidated_by_newer_run: false,
            checkpoint_suffix_bytes_replayed: 0,
            non_arena_components_started_at_tail: false,
        }
    }
}

impl Default for AttachDiagnostics {
    fn default() -> (r: Self)
        ensures
            r == plain_diagnostics(AttachMethod::FullReplay),
    {
        AttachDiagnostics::of(AttachMethod::FullReplay)
    }
}

/// What a recovery is about.
#[derive(Clone, Copy, Debug, PartialEq, Eq, Structural)]
pub enum ReplayPlace {
    Stream,
    Session,
    Component(LogComponent),
}

/// Why the current deck has to be found anew.
#[derive(Clone, Copy, Debug, PartialEq, Eq, Structural)]
pub enum ReplayReason {
    Disappeared,
    Replaced,
    Appeared,
    Truncated,
    ChangedBeforeCursor,
    OutOfOrder,
    ChangedWhileReading,
    ChangedWhileTailing,
    ChangedWhileAttaching,
    GoneBeforeCatchUp,
    TruncatedBeforeCatchUp,
    NotADirectory,
    NoComponentLog,
}

/// The words for a reason.
pub open spec fn reason_text(reason: ReplayReason) -> Seq<char> {
    match reason {
        ReplayReason::Disappeared => "disappeared or rotated"@,
        ReplayReason::Replaced => "was replaced or rotated"@,
        ReplayReason::Appeared => "appeared after attachment"@,
        ReplayReason::Truncated => "was truncated or rotated"@,
        ReplayReason::ChangedBeforeCursor => "changed before its saved cursor"@,
        ReplayReason::OutOfOrder => "a newly appended record sorts before an already reduced record"@,
        ReplayReason::ChangedWhileReading => "changed while reading"@,
        ReplayReason::ChangedWhileTailing => "changed while building tail snapshot; retrying is safer"@,
        ReplayReason::ChangedWhileAttaching => "changed while attaching; retrying is safer"@,
        ReplayReason::GoneBeforeCatchUp => "disappeared before checkpoint suffix catch-up"@,
        ReplayReason::TruncatedBeforeCatchUp => "was truncated before checkpoint suffix catch-up"@,
        ReplayReason::NotADirectory => "is not a Hearthstone log-session directory"@,
        ReplayReason::NoComponentLog => "does not contain a supported Hearthstone component log"@,
    }
}

impl ReplayReason {
    /// The words for the reason.
    pub fn text(self) -> (r: &'static str)
        ensures
            r@ == reason_text(self),
    {
        match self {
            ReplayReason::Disappeared => "disappeared or rotated",
            ReplayReason::Replaced => "was replaced or rotated",
            ReplayReason::Appeared => "appeared after attachment",
            ReplayReason::Truncated => "was truncated or rotated",
            ReplayReason::ChangedBeforeCursor => "changed before its saved cursor",
            ReplayReason::OutOfOrder => "a newly appended record sorts before an already reduced record",
            ReplayReason::ChangedWhileReading => "changed while reading",
            ReplayReason::ChangedWhileTailing => "changed while building tail snapshot; retrying is safer",
            ReplayReason::ChangedWhileAttaching => "changed while attaching; retrying is safer",
            ReplayReason::GoneBeforeCatchUp => "disappeared before checkpoint suffix catch-up",
            ReplayReason::TruncatedBeforeCatchUp => "was truncated before checkpoint suffix catch-up",
            ReplayReason::NotADirectory => "is not a Hearthstone log-session directory",
            ReplayReason::NoComponentLog => "does not contain a supported Hearthstone component log",
        }
    }
}

/// The current deck has to be found anew. This is ordinary: it is answered by a fresh attach.
#[derive(Clone, Copy, Debug, PartialEq, Eq, Structural)]
pub struct LogReplayRequired {
    pub place: ReplayPlace,
    pub reason: ReplayReason,
}

/// The path of a component log in a session directory.
pub open spec fn log_path(session: Seq<char>, c: LogComponent) -> Seq<char> {
    session + "/"@ + crate::log_component::filename_of(c)
}

/// The path of a component log in a session directory.
pub fn component_log_path(session: &str, component: LogComponent) -> (r: String)
    ensures
        r@ == log_path(session@, component),
{
    let mut r = text::copy(session);
    r.append("/");
    r.append(component.filename());
    r
}

/// The words for a recovery in a session directory.
pub open spec fn replay_text(e: LogReplayRequired, session: Seq<char>) -> Seq<char> {
    match e.place {
        ReplayPlace::Stream => reason_text(e.reason),
        ReplayPlace::Session => session + "; "@ + reason_text(e.reason),
        ReplayPlace::Component(c) => log_path(session, c) + "; "@ + reason_text(e.reason),
    }
}

impl LogReplayRequired {
    /// The words for the recovery in a session directory.
    pub fn message(&self, session: &str) -> (r: String)
        ensures
            r@ == replay_text(*self, session@),
    {
        let mut r = match self.place {
            ReplayPlace::Stream => return text::copy(self.reason.text()),
            ReplayPlace::Session => text::copy(session),
            ReplayPlace::Component(c) => component_log_path(session, c),
        };
        r.append("; ");
        r.append(self.reason.text());
        r
    }
}

/// Why an observer could not attach or go on.
#[derive(Clone, Copy, Debug, PartialEq, Eq, Structural)]
pub enum ObserverError {
    ReplayRequired(LogReplayRequired),
    Read(ReadError),
    Unreadable(LogComponent),
    SuffixOverflow,
}

impl ObserverError {
    /// Whether a fresh attach answers the error.
    pub fn is_replay_required(&self) -> (r: bool)
        ensures
            r == (*self is ReplayRequired),
    {
        match self {
            ObserverError::ReplayRequired(_) => true,
            _ => false,
        }
    }
}

/// The last bytes before a cursor. They show that a file was overwritten in place, even where
/// it has grown past the cursor again.
#[derive(Debug, PartialEq, Eq)]
pub struct FileCheckpoint {
    pub start: u64,
    pub bytes: Vec<u8>,
}

/// The last bytes before a cursor.
pub struct WitnessModel {
    pub start: u64,
    pub bytes: Seq<u8>,
}

impl View for FileCheckpoint {
    type V = WitnessModel;

    open spec fn view(&self) -> WitnessModel {
        WitnessModel { start: self.start, bytes: self.bytes@ }
    }
}

/// Where the last bytes before a cursor begin.
pub open spec fn witness_start(cursor: u64) -> u64 {
    if cursor > CHECKPOINT_BYTES {
        (cursor - CHECKPOINT_BYTES) as u64
    } else {
        0
    }
}

/// The last bytes of a file before a cursor.
pub open spec fn witness_of(b: Seq<u8>, cursor: u64) -> WitnessModel {
    WitnessModel {
        start: witness_start(cursor),
        bytes: b.subrange(witness_start(cursor) as int, cursor as int),
    }
}

/// Whether a file still holds the bytes that were seen before a cursor.
pub open spec fn still_there(b: Seq<u8>, w: WitnessModel) -> bool {
    w.start + w.bytes.len() <= b.len() && b.subrange(w.start as int, w.start + w.bytes.len())
        == w.bytes
}

/// The last bytes of a file before a cursor: none at the start of the file.
pub fn file_checkpoint(b: &[u8], cursor: u64) -> (r: Result<Option<FileCheckpoint>, ReadError>)
    ensures
        match r {
            Ok(None) => cursor == 0,
            Ok(Some(w)) => 0 < cursor <= b.len() && w@ == witness_of(b@, cursor),
            Err(e) => e is UnexpectedEnd && cursor > b.len(),
        },
{
    if cursor == 0 {
        return Ok(None);
    }
    if cursor > b.len() as u64 {
        return Err(ReadError::UnexpectedEnd);
    }
    let start: u64 = if cursor > CHECKPOINT_BYTES {
        cursor - CHECKPOINT_BYTES
    } else {
        0
    };
    let part = vstd::slice::slice_subrange(b, start as usize, cursor as usize);
    let bytes = vstd::slice::slice_to_vec(part);
    assert(bytes@ =~= witness_of(b@, cursor).bytes);
    Ok(Some(FileCheckpoint { start, bytes }))
}

/// Whether a file still holds the bytes that were seen before a cursor.
pub fn checkpoint_matches(b: &[u8], checkpoint: &FileCheckpoint) -> (r: bool)
    ensures
        r == still_there(b@, checkpoint@),
{
    let n: usize = checkpoint.bytes.len();
    if checkpoint.start > b.len() as u64 {
        return false;
    }
    let start: usize = checkpoint.start as usize;
    if n > b.len() - start {
        return false;
    }
    let mut i: usize = 0;
    while i < n
        invariant
            i <= n,
            n == checkpoint.bytes.len(),
            start + n <= b.len(),
            start == checkpoint.start,
            forall|k: int| 0 <= k < i ==> b@[start + k] == #[trigger] checkpoint.bytes@[k],
        decreases n - i,
    {
        if b[start + i] != checkpoint.bytes[i] {
            assert(b@.subrange(start as int, start + n)[i as int] != checkpoint.bytes@[i as int]);
            return false;
        }
        i = i + 1;
    }
    assert(b@.subrange(start as int, start + n) =~= checkpoint.bytes@);
    true
}

/// A witness of unchanged bytes holds, and keeps holding as the file grows.
pub proof fn growth_keeps_witnesses(b: Seq<u8>, more: Seq<u8>, cursor: u64)
    requires
        cursor <= b.len(),
    ensures
        still_there(b, witness_of(b, cursor)),
        still_there(b + more, witness_of(b, cursor)),
{
    let w = witness_of(b, cursor);
    assert(b.subrange(w.start as int, w.start + w.bytes.len()) =~= w.bytes);
    assert((b + more).subrange(w.start as int, w.start + w.bytes.len()) =~= w.bytes);
}

/// A file whose last bytes before the cursor were rewritten does not pass.
pub proof fn rewritten_bytes_are_seen(b: Seq<u8>, other: Seq<u8>, cursor: u64, i: int)
    requires
        witness_start(cursor) <= i < cursor <= b.len(),
        cursor <= other.len(),
        b[i] != other[i],
    ensures
        !still_there(other, witness_of(b, cursor)),
{
    let w = witness_of(b, cursor);
    assert(w.bytes[i - w.start] == b[i]);
    assert(other.subrange(w.start as int, w.start + w.bytes.len())[i - w.start] == other[i]);
}

/// What a session observer knows.
pub struct ObserverModel {
    pub session_id: Seq<char>,
    pub state: ReduceModel,
    pub cursors: Map<LogComponent, LogCursor>,
    pub identities: Map<LogComponent, FileIdentity>,
    pub witnesses: Map<LogComponent, WitnessModel>,
    pub diagnostics: AttachDiagnostics,
}

/// Follows the component logs of one session directory.
pub struct SessionObserver {
    pub session_id: String,
    pub state: ReduceState,
    pub cursors: ComponentMap<LogCursor>,
    pub file_identities: ComponentMap<FileIdentity>,
    pub checkpoints: ComponentMap<FileCheckpoint>,
    pub diagnostics: AttachDiagnostics,
}

impl View for SessionObserver {
    type V = ObserverModel;

    open spec fn view(&self) -> ObserverModel {
        ObserverModel {
            session_id: self.session_id@,
            state: self.state@,
            cursors: self.cursors.entries(),
            identities: self.file_identities.entries(),
            witnesses: self.checkpoints.entries().map_values(|w: FileCheckpoint| w@),
            diagnostics: self.diagnostics,
        }
    }
}

/// Where reading goes on in a component log.
pub open spec fn cursor_of(o: ObserverModel, c: LogComponent) -> LogCursor {
    if o.cursors.contains_key(c) {
        o.cursors[c]
    } else {
        file_start()
    }
}

/// Whether a component log does not continue what was read of it.
pub open spec fn entry_fault(
    o: ObserverModel,
    files: Map<LogComponent, LogFile>,
    c: LogComponent,
) -> Option<ReplayReason> {
    if !files.contains_key(c) {
        if o.identities.contains_key(c) {
            Some(ReplayReason::Disappeared)
        } else {
            None
        }
    } else if !o.identities.contains_key(c) {
        Some(ReplayReason::Appeared)
    } else if o.identities[c] != files[c].identity {
        Some(ReplayReason::Replaced)
    } else if files[c].bytes@.len() < cursor_of(o, c).byte_offset {
        Some(ReplayReason::Truncated)
    } else if o.witnesses.contains_key(c) && !still_there(files[c].bytes@, o.witnesses[c]) {
        Some(ReplayReason::ChangedBeforeCursor)
    } else {
        None
    }
}

/// The first component log, among the first ones, that does not continue what was read.
pub open spec fn first_entry_fault(
    o: ObserverModel,
    files: Map<LogComponent, LogFile>,
    n: int,
) -> Option<LogReplayRequired>
    decreases n,
{
    if n <= 0 {
        None
    } else {
        match first_entry_fault(o, files, n - 1) {
            Some(e) => Some(e),
            None => {
                let c = REQUIRED_COMPONENTS@[n - 1];
                match entry_fault(o, files, c) {
                    Some(reason) => Some(
                        LogReplayRequired { place: ReplayPlace::Component(c), reason },
                    ),
                    None => None,
                }
            },
        }
    }
}

/// Where reading goes on in each file.
pub open spec fn places_before(
    o: ObserverModel,
    files: Map<LogComponent, LogFile>,
) -> Map<LogComponent, LogCursor> {
    Map::new(|c: LogComponent| files.contains_key(c), |c: LogComponent| cursor_of(o, c))
}

/// Where reading has come to in each file.
pub open spec fn places_after(
    files: Map<LogComponent, LogFile>,
    places: Map<LogComponent, LogCursor>,
) -> Map<LogComponent, LogCursor> {
    Map::new(
        |c: LogComponent| places.contains_key(c),
        |c: LogComponent| place_after(c, files[c].bytes@, places[c]),
    )
}

/// An observer whose cursors are being moved on.
pub struct Settling {
    pub observer: ObserverModel,
    pub advanced: bool,
    pub fault: Option<ObserverError>,
}

/// Moves the cursor of one component on, if the file is still the one that was read.
pub open spec fn settle_one(
    s: Settling,
    after: Map<LogComponent, LogFile>,
    c: LogComponent,
    place: LogCursor,
    reason: ReplayReason,
) -> Settling {
    let o = s.observer;
    let changed = Some(
        ObserverError::ReplayRequired(
            LogReplayRequired { place: ReplayPlace::Component(c), reason },
        ),
    );
    if !after.contains_key(c) {
        Settling { fault: Some(ObserverError::Unreadable(c)), ..s }
    } else if !o.identities.contains_key(c) || o.identities[c] != after[c].identity {
        Settling { fault: changed, ..s }
    } else if o.witnesses.contains_key(c) && !still_there(after[c].bytes@, o.witnesses[c]) {
        Settling { fault: changed, ..s }
    } else {
        let b = after[c].bytes@;
        let moved = ObserverModel { cursors: o.cursors.insert(c, place), ..o };
        let advanced = s.advanced || !o.cursors.contains_key(c) || o.cursors[c] != place;
        if place.byte_offset == 0 {
            Settling {
                observer: ObserverModel { witnesses: o.witnesses.remove(c), ..moved },
                advanced,
                fault: None,
            }
        } else if place.byte_offset > b.len() {
            Settling {
                observer: moved,
                advanced,
                fault: Some(ObserverError::Read(ReadError::UnexpectedEnd)),
            }
        } else {
            Settling {
                observer: ObserverModel {
                    witnesses: o.witnesses.insert(c, witness_of(b, place.byte_offset)),
                    ..moved
                },
                advanced,
                fault: None,
            }
        }
    }
}

/// Moves the cursors of the first components on, up to the first that cannot be moved.
pub open spec fn settled_first(
    o: ObserverModel,
    after: Map<LogComponent, LogFile>,
    places: Map<LogComponent, LogCursor>,
    reason: ReplayReason,
    n: int,
) -> Settling
    decreases n,
{
    if n <= 0 {
        Settling { observer: o, advanced: false, fault: None }
    } else {
        let s = settled_first(o, after, places, reason, n - 1);
        let c = REQUIRED_COMPONENTS@[n - 1];
        if s.fault is Some || !places.contains_key(c) {
            s
        } else {
            settle_one(s, after, c, places[c], reason)
        }
    }
}

/// What reading on gave: the observer then, the new records, and whether something changed.
pub struct Polled {
    pub observer: ObserverModel,
    pub lines: Seq<SourcedModel>,
    pub result: Result<bool, ObserverError>,
}

/// What reading on gives for files as they were read and as they stood afterwards.
pub open spec fn polled(
    o: ObserverModel,
    files: Map<LogComponent, LogFile>,
    after: Map<LogComponent, LogFile>,
) -> Polled {
    match first_entry_fault(o, files, 5) {
        Some(e) => Polled {
            observer: o,
            lines: Seq::empty(),
            result: Err(ObserverError::ReplayRequired(e)),
        },
        None => {
            let places = places_before(o, files);
            let out = stream_outcome(o.state, o.session_id, event_lists(files, places), true);
            let read = ObserverModel { state: out.state, ..o };
            match out.end {
                MergeEnd::OutOfOrder => Polled {
                    observer: read,
                    lines: out.steps,
                    result: Err(
                        ObserverError::ReplayRequired(
                            LogReplayRequired {
                                place: ReplayPlace::Stream,
                                reason: ReplayReason::OutOfOrder,
                            },
                        ),
                    ),
                },
                MergeEnd::Fault(e) => Polled {
                    observer: read,
                    lines: out.steps,
                    result: Err(ObserverError::Read(e)),
                },
                MergeEnd::Done => {
                    let s = settled_first(
                        read,
                        after,
                        places_after(files, places),
                        ReplayReason::ChangedWhileReading,
                        5,
                    );
                    Polled {
                        observer: s.observer,
                        lines: out.steps,
                        result: match s.fault {
                            Some(e) => Err(e),
                            None => Ok(out.steps.len() > 0 || s.advanced),
                        },
                    }
                },
            }
        },
    }
}

/// What reading on gave: the new records, to be reduced in any case, and whether something
/// changed.
pub struct PollOutcome {
    pub lines: Vec<SourcedLine>,
    pub result: Result<bool, ObserverError>,
}

fn open_readers(
    files: &ComponentMap<LogFile>,
    cursors: &ComponentMap<LogCursor>,
    Ghost(places): Ghost<Map<LogComponent, LogCursor>>,
) -> (r: ComponentMap<ComponentLogReader>)
    requires
        files.wf(),
        cursors.wf(),
        places.dom() == files.entries().dom(),
        forall|c: LogComponent| #[trigger]
            places.contains_key(c) ==> places[c] == if cursors.entries().contains_key(c) {
                cursors.entries()[c]
            } else {
                file_start()
            },
    ensures
        r.wf(),
        r.entries().dom() == files.entries().dom(),
        forall|c: LogComponent| #[trigger]
            r.entries().contains_key(c) ==> r.entries()[c].source() == c && r.entries()[c].place()
                == if emits_events(c) {
                places[c]
            } else {
                end_cursor(files.entries()[c].bytes@)
            },
        event_lists(
            files.entries(),
            r.entries().map_values(|x: ComponentLogReader| x.place()),
        ) == event_lists(files.entries(), places),
{
    let mut readers: ComponentMap<ComponentLogReader> = ComponentMap::new();
    let mut i: usize = 0;
    while i < 5
        invariant
            i <= 5,
            files.wf(),
            cursors.wf(),
            readers.wf(),
            places.dom() == files.entries().dom(),
            forall|c: LogComponent| #[trigger]
                places.contains_key(c) ==> places[c] == if cursors.entries().contains_key(c) {
                    cursors.entries()[c]
                } else {
                    file_start()
                },
            forall|c: LogComponent| #[trigger]
                readers.entries().contains_key(c) <==> c.rank() < i && files.entries().contains_key(
                    c,
                ),
            forall|c: LogComponent| #[trigger]
                readers.entries().contains_key(c) ==> readers.entries()[c].source() == c
                    && readers.entries()[c].place() == if emits_events(c) {
                    places[c]
                } else {
                    end_cursor(files.entries()[c].bytes@)
                },
        decreases 5 - i,
    {
        let component = REQUIRED_COMPONENTS[i];
        assert(forall|c: LogComponent| #[trigger] c.rank() == i ==> c == component) by {
            crate::merge::rank_of_required(i as int);
        }
        if let Some(file) = files.get(component) {
            let cursor = match cursors.get(component) {
                Some(cursor) => *cursor,
                None => LogCursor::default(),
            };
            let mut reader = ComponentLogReader::open(component, cursor);
            assert(places.contains_key(component));
            if !component_can_emit_events(component) {
                reader.fast_forward_inert_component(file.bytes.as_slice());
            }
            readers.insert(component, reader);
        }
        i = i + 1;
    }
    proof {
        assert forall|c: LogComponent| readers.entries().contains_key(c)
            == files.entries().contains_key(c) by {
            assert(c.rank() < 5);
        }
        assert(readers.entries().dom() =~= files.entries().dom());
        assert(event_lists(
            files.entries(),
            readers.entries().map_values(|x: ComponentLogReader| x.place()),
        ) =~= event_lists(files.entries(), places)) by {
            assert forall|c: LogComponent|
                readers.entries().contains_key(c) && emits_events(c) implies readers.entries()[c].place()
                == places[c] by {}
        }
    }
    readers
}

impl SessionObserver {
    /// One slot stands for each component in each table.
    pub open spec fn wf(&self) -> bool {
        self.cursors.wf() && self.file_identities.wf() && self.checkpoints.wf()
    }

    pub(crate) fn entry_check(&self, files: &ComponentMap<LogFile>, component: LogComponent) -> (r: Option<
        ReplayReason,
    >)
        requires
            self.wf(),
            files.wf(),
        ensures
            r == entry_fault(self@, files.entries(), component),
    {
        let file = match files.get(component) {
            None => {
                return if self.file_identities.contains(component) {
                    Some(ReplayReason::Disappeared)
                } else {
                    None
                };
            },
            Some(file) => file,
        };
        match self.file_identities.get(component) {
            None => return Some(ReplayReason::Appeared),
            Some(expected) => {
                if *expected != file.identity {
                    return Some(ReplayReason::Replaced);
                }
            },
        }
        let offset: u64 = match self.cursors.get(component) {
            Some(cursor) => cursor.byte_offset,
            None => 0,
        };
        if (file.bytes.len() as u64) < offset {
            return Some(ReplayReason::Truncated);
        }
        if let Some(checkpoint) = self.checkpoints.get(component) {
            assert(self@.witnesses.contains_key(component));
            if !checkpoint_matches(file.bytes.as_slice(), checkpoint) {
                return Some(ReplayReason::ChangedBeforeCursor);
            }
        }
        None
    }

    /// Moves one cursor on, if the file is still the one that was read.
    pub(crate) fn settle_component(
        &mut self,
        after: &ComponentMap<LogFile>,
        component: LogComponent,
        place: LogCursor,
        reason: ReplayReason,
    ) -> (r: Result<bool, ObserverError>)
        requires
            old(self).wf(),
            after.wf(),
        ensures
            final(self).wf(),
            forall|advanced: bool|
                {
                    let s = #[trigger] settle_one(
                        Settling { observer: old(self)@, advanced, fault: None },
                        after.entries(),
                        component,
                        place,
                        reason,
                    );
                    &&& final(self)@ == s.observer
                    &&& match r {
                        Ok(moved) => s.fault is None && s.advanced == (advanced || moved),
                        Err(e) => s.fault == Some(e),
                    }
                },
    {
        let file = match after.get(component) {
            None => return Err(ObserverError::Unreadable(component)),
            Some(file) => file,
        };
        let changed = Err(
            ObserverError::ReplayRequired(
                LogReplayRequired { place: ReplayPlace::Component(component), reason },
            ),
        );
        match self.file_identities.get(component) {
            None => return changed,
            Some(expected) => {
                if *expected != file.identity {
                    return changed;
                }
            },
        }
        if let Some(checkpoint) = self.checkpoints.get(component) {
            assert(self@.witnesses.contains_key(component));
            if !checkpoint_matches(file.bytes.as_slice(), checkpoint) {
                return changed;
            }
        }
        let moved = match self.cursors.get(component) {
            Some(cursor) => *cursor != place,
            None => true,
        };
        self.cursors.insert(component, place);
        match file_checkpoint(file.bytes.as_slice(), place.byte_offset) {
            Err(e) => Err(ObserverError::Read(e)),
            Ok(None) => {
                self.checkpoints.remove(component);
                assert(self@.witnesses =~= old(self)@.witnesses.remove(component));
                Ok(moved)
            },
            Ok(Some(checkpoint)) => {
                self.checkpoints.insert(component, checkpoint);
                assert(self@.witnesses =~= old(self)@.witnesses.insert(component, checkpoint@));
                Ok(moved)
            },
        }
    }

    /// Moves the cursors on to where the readers have come.
    pub(crate) fn settle(
        &mut self,
        after: &ComponentMap<LogFile>,
        readers: &ComponentMap<ComponentLogReader>,
        reason: ReplayReason,
    ) -> (r: Result<bool, ObserverError>)
        requires
            old(self).wf(),
            after.wf(),
            readers.wf(),
        ensures
            final(self).wf(),
            ({
                let s = settled_first(
                    old(self)@,
                    after.entries(),
                    readers.entries().map_values(|x: ComponentLogReader| x.place()),
                    reason,
                    5,
                );
                &&& final(self)@ == s.observer
                &&& match r {
                    Ok(advanced) => s.fault is None && s.advanced == advanced,
                    Err(e) => s.fault == Some(e),
                }
            }),
    {
        let ghost first = self@;
        let ghost places = readers.entries().map_values(|x: ComponentLogReader| x.place());
        let mut advanced = false;
        let mut i: usize = 0;
        while i < 5
            invariant
                i <= 5,
                self.wf(),
                after.wf(),
                readers.wf(),
                places == readers.entries().map_values(|x: ComponentLogReader| x.place()),
                settled_first(first, after.entries(), places, reason, i as int) == (Settling {
                    observer: self@,
                    advanced,
                    fault: None,
                }),
                first == old(self)@,
            decreases 5 - i,
        {
            let component = REQUIRED_COMPONENTS[i];
            if let Some(reader) = readers.get(component) {
                assert(places.contains_key(component));
                let ghost before = Settling { observer: self@, advanced, fault: None };
                let ghost next = settle_one(
                    before,
                    after.entries(),
                    component,
                    places[component],
                    reason,
                );
                match self.settle_component(after, component, reader.cursor(), reason) {
                    Ok(moved) => {
                        advanced = advanced || moved;
                    },
                    Err(e) => {
                        proof {
                            assert(settled_first(first, after.entries(), places, reason, i + 1)
                                == next);
                            first_settling_fault_stays(
                                first,
                                after.entries(),
                                places,
                                reason,
                                i + 1,
                                5,
                            );
                        }
                        return Err(e);
                    },
                }
            }
            i = i + 1;
        }
        Ok(advanced)
    }

    /// Reads on. `files` are the logs as they were read, `after` the same logs once the records
    /// were taken. A log that was rotated, replaced or rewritten, one that appeared since, and a
    /// record that belongs before one already reduced all ask for a fresh attach.
    pub fn poll(&mut self, files: &ComponentMap<LogFile>, after: &ComponentMap<LogFile>) -> (r:
        PollOutcome)
        requires
            old(self).wf(),
            files.wf(),
            after.wf(),
        ensures
            final(self).wf(),
            ({
                let wanted = polled(old(self)@, files.entries(), after.entries());
                &&& final(self)@ == wanted.observer
                &&& sourced_models(r.lines@) == wanted.lines
                &&& r.result == wanted.result
            }),
    {
        let ghost first = self@;
        let mut i: usize = 0;
        while i < 5
            invariant
                i <= 5,
                self.wf(),
                files.wf(),
                self@ == first,
                first == old(self)@,
                first_entry_fault(first, files.entries(), i as int) is None,
            decreases 5 - i,
        {
            let component = REQUIRED_COMPONENTS[i];
            if let Some(reason) = self.entry_check(files, component) {
                let e = LogReplayRequired { place: ReplayPlace::Component(component), reason };
                proof {
                    assert(first_entry_fault(first, files.entries(), i + 1) == Some(e));
                    first_entry_fault_stays(first, files.entries(), i + 1, 5);
                }
                let lines: Vec<SourcedLine> = Vec::new();
                assert(sourced_models(lines@) =~= Seq::<SourcedModel>::empty());
                return PollOutcome { lines, result: Err(ObserverError::ReplayRequired(e)) };
            }
            i = i + 1;
        }
        let ghost places = places_before(first, files.entries());
        assert(places.dom() =~= files.entries().dom());
        let mut readers = open_readers(files, &self.cursors, Ghost(places));
        let (lines, end) = reduce_in_order(
            self.session_id.as_str(),
            files,
            &mut readers,
            &mut self.state,
            true,
        );
        let result = match end {
            MergeEnd::OutOfOrder => Err(
                ObserverError::ReplayRequired(
                    LogReplayRequired {
                        place: ReplayPlace::Stream,
                        reason: ReplayReason::OutOfOrder,
                    },
                ),
            ),
            MergeEnd::Fault(e) => Err(ObserverError::Read(e)),
            MergeEnd::Done => {
                proof {
                    readers_have_come(files.entries(), places, readers.entries());
                }
                match self.settle(after, &readers, ReplayReason::ChangedWhileReading) {
                    Err(e) => Err(e),
                    Ok(advanced) => Ok(lines.len() > 0 || advanced),
                }
            },
        };
        PollOutcome { lines, result }
    }
}

proof fn first_entry_fault_stays(
    o: ObserverModel,
    files: Map<LogComponent, LogFile>,
    n: int,
    m: int,
)
    requires
        n <= m,
        first_entry_fault(o, files, n) is Some,
    ensures
        first_entry_fault(o, files, m) == first_entry_fault(o, files, n),
    decreases m - n,
{
    if n < m {
        first_entry_fault_stays(o, files, n, m - 1);
    }
}

proof fn first_settling_fault_stays(
    o: ObserverModel,
    after: Map<LogComponent, LogFile>,
    places: Map<LogComponent, LogCursor>,
    reason: ReplayReason,
    n: int,
    m: int,
)
    requires
        n <= m,
        settled_first(o, after, places, reason, n).fault is Some,
    ensures
        settled_first(o, after, places, reason, m) == settled_first(o, after, places, reason, n),
    decreases m - n,
{
    if n < m {
        first_settling_fault_stays(o, after, places, reason, n, m - 1);
    }
}

proof fn readers_have_come(
    files: Map<LogComponent, LogFile>,
    places: Map<LogComponent, LogCursor>,
    readers: Map<LogComponent, ComponentLogReader>,
)
    requires
        readers.dom() == places.dom(),
        forall|c: LogComponent|
            event_lists(files, places).contains_key(c) ==> #[trigger] readers[c].place()
                == event_lists(files, places)[c].end,
        forall|c: LogComponent|
            !emits_events(c) && readers.contains_key(c) ==> #[trigger] readers[c].place()
                == end_cursor(files[c].bytes@),
    ensures
        readers.map_values(|x: ComponentLogReader| x.place()) == places_after(files, places),
{
    let now = readers.map_values(|x: ComponentLogReader| x.place());
    let wanted = places_after(files, places);
    assert(now.dom() =~= wanted.dom());
    assert forall|c: LogComponent| now.contains_key(c) implies now[c] == wanted[c] by {
        assert(now[c] == readers[c].place());
        if emits_events(c) {
            assert(event_lists(files, places).contains_key(c));
        }
    }
    assert(now =~= wanted);
}

/// Whether any component log stands in the session, among the first ones.
pub open spec fn any_log(files: Map<LogComponent, LogFile>) -> bool {
    exists|c: LogComponent| #[trigger] files.contains_key(c)
}

/// Why a path is no session that can be observed.
pub open spec fn session_fault(
    is_dir: bool,
    files: Map<LogComponent, LogFile>,
) -> Option<LogReplayRequired> {
    if !is_dir {
        Some(
            LogReplayRequired { place: ReplayPlace::Session, reason: ReplayReason::NotADirectory },
        )
    } else if !any_log(files) {
        Some(
            LogReplayRequired { place: ReplayPlace::Session, reason: ReplayReason::NoComponentLog },
        )
    } else {
        None
    }
}

/// Asks that a path is a directory with at least one component log.
pub fn validate_log_session(is_dir: bool, files: &ComponentMap<LogFile>) -> (r: Result<
    (),
    LogReplayRequired,
>)
    requires
        files.wf(),
    ensures
        match r {
            Ok(_) => session_fault(is_dir, files.entries()) is None,
            Err(e) => session_fault(is_dir, files.entries()) == Some(e),
        },
{
    if !is_dir {
        return Err(
            LogReplayRequired { place: ReplayPlace::Session, reason: ReplayReason::NotADirectory },
        );
    }
    let mut i: usize = 0;
    while i < 5
        invariant
            i <= 5,
            is_dir,
            files.wf(),
            forall|c: LogComponent| #[trigger]
                files.entries().contains_key(c) ==> c.rank() >= i,
        decreases 5 - i,
    {
        let component = REQUIRED_COMPONENTS[i];
        assert(forall|c: LogComponent| #[trigger] c.rank() == i ==> c == component) by {
            crate::merge::rank_of_required(i as int);
        }
        if files.contains(component) {
            return Ok(());
        }
        i = i + 1;
    }
    assert forall|c: LogComponent| !#[trigger] files.entries().contains_key(c) by {
        assert(c.rank() < 5);
    }
    Err(LogReplayRequired { place: ReplayPlace::Session, reason: ReplayReason::NoComponentLog })
}

/// An observer that has just attached, with the records to reduce from nothing.
pub struct Attached {
    pub observer: SessionObserver,
    pub lines: Vec<SourcedLine>,
}

/// The state before any record.
pub open spec fn fresh_state() -> ReduceModel {
    ReduceModel { parser: fresh_parser(), order: None, source: None }
}

impl ReduceState {
    /// The state before any record.
    pub fn fresh() -> (r: Self)
        ensures
            r@ == fresh_state(),
    {
        ReduceState { parser: HearthstoneLogParser::default(), order: None, source: None }
    }
}

/// The identities of files.
pub open spec fn identities_of(files: Map<LogComponent, LogFile>) -> Map<
    LogComponent,
    FileIdentity,
> {
    files.map_values(|f: LogFile| f.identity)
}

/// The start of every file.
pub open spec fn all_starts(files: Map<LogComponent, LogFile>) -> Map<LogComponent, LogCursor> {
    files.map_values(|f: LogFile| file_start())
}

/// What attaching to a whole session gives.
pub open spec fn attached_full(
    session: Seq<char>,
    is_dir: bool,
    files: Map<LogComponent, LogFile>,
    after: Map<LogComponent, LogFile>,
) -> Result<(ObserverModel, Seq<SourcedModel>), ObserverError> {
    match session_fault(is_dir, files) {
        Some(e) => Err(ObserverError::ReplayRequired(e)),
        None => {
            let out = stream_outcome(
                fresh_state(),
                session,
                event_lists(files, all_starts(files)),
                false,
            );
            match out.end {
                MergeEnd::Fault(e) => Err(ObserverError::Read(e)),
                _ => {
                    let s = settled_first(
                        ObserverModel {
                            session_id: session,
                            state: out.state,
                            cursors: Map::empty(),
                            identities: identities_of(files),
                            witnesses: Map::empty(),
                            diagnostics: plain_diagnostics(AttachMethod::FullReplay),
                        },
                        after,
                        places_after(files, all_starts(files)),
                        ReplayReason::ChangedWhileAttaching,
                        5,
                    );
                    match s.fault {
                        Some(e) => Err(e),
                        None => Ok((s.observer, out.steps)),
                    }
                },
            }
        },
    }
}

/// The identities of files.
pub(crate) fn file_identities(files: &ComponentMap<LogFile>) -> (r: ComponentMap<FileIdentity>)
    requires
        files.wf(),
    ensures
        r.wf(),
        r.entries() == identities_of(files.entries()),
{
    let mut r: ComponentMap<FileIdentity> = ComponentMap::new();
    let mut i: usize = 0;
    while i < 5
        invariant
            i <= 5,
            files.wf(),
            r.wf(),
            forall|c: LogComponent| #[trigger]
                r.entries().contains_key(c) <==> c.rank() < i && files.entries().contains_key(c),
            forall|c: LogComponent| #[trigger]
                r.entries().contains_key(c) ==> r.entries()[c] == files.entries()[c].identity,
        decreases 5 - i,
    {
        let component = REQUIRED_COMPONENTS[i];
        assert(forall|c: LogComponent| #[trigger] c.rank() == i ==> c == component) by {
            crate::merge::rank_of_required(i as int);
        }
        if let Some(file) = files.get(component) {
            r.insert(component, file.identity);
        }
        i = i + 1;
    }
    assert(r.entries() =~= identities_of(files.entries())) by {
        assert forall|c: LogComponent| r.entries().contains_key(c)
            == files.entries().contains_key(c) by {
            assert(c.rank() < 5);
        }
    }
    r
}

impl SessionObserver {
    /// Attaches to a whole session: the complete history is read.
    pub fn attach(
        session_id: &str,
        is_dir: bool,
        files: &ComponentMap<LogFile>,
        after: &ComponentMap<LogFile>,
    ) -> (r: Result<Attached, ObserverError>)
        requires
            files.wf(),
            after.wf(),
        ensures
            match r {
                Ok(a) => a.observer.wf() && attached_full(
                    session_id@,
                    is_dir,
                    files.entries(),
                    after.entries(),
                ) == Ok::<(ObserverModel, Seq<SourcedModel>), ObserverError>(
                    (a.observer@, sourced_models(a.lines@)),
                ),
                Err(e) => attached_full(session_id@, is_dir, files.entries(), after.entries())
                    == Err::<(ObserverModel, Seq<SourcedModel>), ObserverError>(e),
            },
    {
        if let Err(e) = validate_log_session(is_dir, files) {
            return Err(ObserverError::ReplayRequired(e));
        }
        let ghost places = all_starts(files.entries());
        assert(places.dom() =~= files.entries().dom());
        let none: ComponentMap<LogCursor> = ComponentMap::new();
        let mut readers = open_readers(files, &none, Ghost(places));
        let mut state = ReduceState::fresh();
        let (lines, end) = reduce_in_order(session_id, files, &mut readers, &mut state, false);
        if let MergeEnd::Fault(e) = end {
            return Err(ObserverError::Read(e));
        }
        proof {
            unchecked_streams_are_never_late(
                fresh_state(),
                session_id@,
                event_lists(files.entries(), places),
            );
            readers_have_come(files.entries(), places, readers.entries());
        }
        let mut observer = SessionObserver {
            session_id: text::copy(session_id),
            state,
            cursors: ComponentMap::new(),
            file_identities: file_identities(files),
            checkpoints: ComponentMap::new(),
            diagnostics: AttachDiagnostics::of(AttachMethod::FullReplay),
        };
        assert(observer@.witnesses =~= Map::<LogComponent, WitnessModel>::empty());
        match observer.settle(after, &readers, ReplayReason::ChangedWhileAttaching) {
            Err(e) => Err(e),
            Ok(_) => Ok(Attached { observer, lines }),
        }
    }

    /// How the state was established.
    pub fn attach_method(&self) -> (r: AttachMethod)
        ensures
            r == self@.diagnostics.method,
    {
        self.diagnostics.method
    }

    /// Why history was read or left out.
    pub fn attach_diagnostics(&self) -> (r: AttachDiagnostics)
        ensures
            r == self@.diagnostics,
    {
        self.diagnostics
    }

    /// Whether choices count as picks.
    pub fn arena_picks_enabled(&self) -> (r: bool)
        ensures
            r == self@.state.parser.arena_picks_enabled,
    {
        self.state.parser.arena_picks_enabled()
    }
}

pub(crate) proof fn unchecked_streams_are_never_late(
    s: ReduceModel,
    session: Seq<char>,
    lists: Map<LogComponent, crate::merge::Candidates>,
)
    ensures
        !(stream_outcome(s, session, lists, false).end is OutOfOrder),
{
    unchecked_records_are_never_late(
        s,
        session,
        crate::merge::merged(lists).lines,
        crate::merge::merged(lists).fault,
    );
}

proof fn unchecked_records_are_never_late(
    s: ReduceModel,
    session: Seq<char>,
    lines: Seq<crate::log_parser::LineModel>,
    fault: Option<ReadError>,
)
    ensures
        !(crate::merge::reduced(s, session, lines, fault, false).end is OutOfOrder),
    decreases lines.len(),
{
    if lines.len() > 0 {
        unchecked_records_are_never_late(
            crate::merge::after_line(s, session, lines[0]),
            session,
            lines.skip(1),
            fault,
        );
    }
}

/// Why a deck that was read off the screen cannot replace the deck.
#[derive(Clone, Copy, Debug, PartialEq, Eq, Structural)]
pub enum BaselineError {
    NoRun,
    Partial { visible: usize, observed: u16 },
    Capacity { observed: u16, expected: u16 },
    NotCards,
}

/// Why a deck that was read off the screen cannot replace the deck.
pub open spec fn baseline_fault(
    run_identified: bool,
    visible: nat,
    all_real: bool,
    observed: u16,
    expected: u16,
) -> Option<BaselineError> {
    if !run_identified {
        Some(BaselineError::NoRun)
    } else if visible != observed {
        Some(BaselineError::Partial { visible: visible as usize, observed })
    } else if expected == 0 || observed > expected {
        Some(BaselineError::Capacity { observed, expected })
    } else if visible == 0 || !all_real {
        Some(BaselineError::NotCards)
    } else {
        None
    }
}

/// The words for a deck that cannot replace the deck.
pub open spec fn baseline_text(e: BaselineError) -> Seq<char> {
    match e {
        BaselineError::NoRun =>
            "cannot apply a deck sidebar before an Arena run is identified"@,
        BaselineError::Partial { visible, observed } => "sidebar is partial: "@ + text::decimal(
            visible as nat,
        ) + " visible card slots for "@ + text::decimal(observed as nat) + " observed"@,
        BaselineError::Capacity { observed, expected } => "sidebar count "@ + text::decimal(
            observed as nat,
        ) + "/"@ + text::decimal(expected as nat) + " is not a valid deck capacity"@,
        BaselineError::NotCards => "sidebar baseline contains no cards or a non-card entity"@,
    }
}

impl BaselineError {
    /// The words for the error.
    pub fn message(&self) -> (r: String)
        ensures
            r@ == baseline_text(*self),
    {
        match self {
            BaselineError::NoRun => text::copy(
                "cannot apply a deck sidebar before an Arena run is identified",
            ),
            BaselineError::Partial { visible, observed } => {
                let mut r = text::copy("sidebar is partial: ");
                text::push_decimal(&mut r, *visible as u64);
                r.append(" visible card slots for ");
                text::push_decimal(&mut r, *observed as u64);
                r.append(" observed");
                r
            },
            BaselineError::Capacity { observed, expected } => {
                let mut r = text::copy("sidebar count ");
                text::push_decimal(&mut r, *observed as u64);
                r.append("/");
                text::push_decimal(&mut r, *expected as u64);
                r.append(" is not a valid deck capacity");
                r
            },
            BaselineError::NotCards => text::copy(
                "sidebar baseline contains no cards or a non-card entity",
            ),
        }
    }
}

/// What a complete deck does to the observer: the event that replaces the deck, and whether the
/// latch for picks was shut until then.
pub open spec fn deck_taken(
    before: ObserverModel,
    card_ids: Seq<Seq<char>>,
    after: ObserverModel,
    event: EventModel,
    opened: bool,
) -> bool {
    &&& event == (EventModel::DeckList { card_ids })
    &&& opened == !before.state.parser.arena_picks_enabled
    &&& after == (ObserverModel {
        state: ReduceModel {
            parser: ParserModel { arena_picks_enabled: true, ..before.state.parser },
            ..before.state
        },
        ..before
    })
}

impl SessionObserver {
    /// Takes a complete deck that was read off the screen. Each card that the marker counts has
    /// to be there: a partial reading is refused, so that it can never delete hidden cards.
    /// `run_identified` tells whether an Arena run is known, `all_real` whether every id is that
    /// of a real card. Gives the event that replaces the deck, and whether the latch for picks was
    /// shut until now.
    pub fn apply_complete_sidebar_baseline(
        &mut self,
        card_ids: Vec<String>,
        all_real: bool,
        run_identified: bool,
        observed_slots: u16,
        expected_slots: u16,
    ) -> (r: Result<(GameEvent, bool), BaselineError>)
        ensures
            match baseline_fault(
                run_identified,
                card_ids@.len(),
                all_real,
                observed_slots,
                expected_slots,
            ) {
                Some(e) => r == Err::<(GameEvent, bool), BaselineError>(e) && *final(self) == *old(self),
                None => {
                    &&& r matches Ok((event, opened))
                    &&& deck_taken(old(self)@, text::texts(card_ids@), final(self)@, event@, opened)
                },
            },
            old(self).wf() ==> final(self).wf(),
    {
        if !run_identified {
            return Err(BaselineError::NoRun);
        }
        if card_ids.len() != observed_slots as usize {
            return Err(
                BaselineError::Partial { visible: card_ids.len(), observed: observed_slots },
            );
        }
        if expected_slots == 0 || observed_slots > expected_slots {
            return Err(
                BaselineError::Capacity { observed: observed_slots, expected: expected_slots },
            );
        }
        if card_ids.len() == 0 || !all_real {
            return Err(BaselineError::NotCards);
        }
        let opened = !self.state.parser.arena_picks_enabled();
        self.state.parser.enable_arena_picks_after_authoritative_baseline();
        Ok((GameEvent::DeckList { card_ids }, opened))
    }
}

pub(crate) proof fn settled_components(
    o: ObserverModel,
    after: Map<LogComponent, LogFile>,
    places: Map<LogComponent, LogCursor>,
    reason: ReplayReason,
    n: int,
    c: LogComponent,
)
    requires
        0 <= n <= 5,
        settled_first(o, after, places, reason, n).fault is None,
    ensures
        ({
            let s = settled_first(o, after, places, reason, n).observer;
            &&& s.identities == o.identities
            &&& s.state == o.state
            &&& s.session_id == o.session_id
            &&& s.diagnostics == o.diagnostics
            &&& if c.rank() < n && places.contains_key(c) {
                &&& after.contains_key(c)
                &&& o.identities.contains_key(c)
                &&& o.identities[c] == after[c].identity
                &&& s.cursors.contains_key(c)
                &&& s.cursors[c] == places[c]
                &&& places[c].byte_offset <= after[c].bytes@.len()
                &&& if places[c].byte_offset == 0 {
                    !s.witnesses.contains_key(c)
                } else {
                    s.witnesses.contains_key(c) && s.witnesses[c] == witness_of(
                        after[c].bytes@,
                        places[c].byte_offset,
                    )
                }
            } else {
                &&& s.cursors.contains_key(c) == o.cursors.contains_key(c)
                &&& s.cursors[c] == o.cursors[c]
                &&& s.witnesses.contains_key(c) == o.witnesses.contains_key(c)
                &&& s.witnesses[c] == o.witnesses[c]
            }
        }),
    decreases n,
{
    if n > 0 {
        settled_components(o, after, places, reason, n - 1, c);
        crate::merge::rank_of_required(n - 1);
        assert(c.rank() == n - 1 ==> c == REQUIRED_COMPONENTS@[n - 1]);
    }
}

proof fn settling_again_moves_nothing(
    o: ObserverModel,
    files: Map<LogComponent, LogFile>,
    reason: ReplayReason,
    n: int,
)
    requires
        0 <= n <= 5,
        forall|c: LogComponent| #[trigger] files.contains_key(c) ==> settled_at(o, files, c),
    ensures
        settled_first(o, files, places_before(o, files), reason, n) == (Settling {
            observer: o,
            advanced: false,
            fault: None,
        }),
    decreases n,
{
    if n > 0 {
        settling_again_moves_nothing(o, files, reason, n - 1);
        let c = REQUIRED_COMPONENTS@[n - 1];
        if files.contains_key(c) {
            assert(settled_at(o, files, c));
            let b = files[c].bytes@;
            assert(o.cursors.insert(c, o.cursors[c]) =~= o.cursors);
            if o.cursors[c].byte_offset == 0 {
                assert(o.witnesses.remove(c) =~= o.witnesses);
            } else {
                growth_keeps_witnesses(b, Seq::empty(), o.cursors[c].byte_offset);
                assert(o.witnesses.insert(c, witness_of(b, o.cursors[c].byte_offset))
                    =~= o.witnesses);
            }
        }
    }
}

/// Whether an observer stands at the last complete record of a file.
spec fn settled_at(o: ObserverModel, files: Map<LogComponent, LogFile>, c: LogComponent) -> bool {
    &&& o.identities.contains_key(c)
    &&& o.identities[c] == files[c].identity
    &&& o.cursors.contains_key(c)
    &&& o.cursors[c].byte_offset <= files[c].bytes@.len()
    &&& if o.cursors[c].byte_offset == 0 {
        !o.witnesses.contains_key(c)
    } else {
        o.witnesses.contains_key(c) && o.witnesses[c] == witness_of(
            files[c].bytes@,
            o.cursors[c].byte_offset,
        )
    }
}

proof fn no_entry_fault_when_settled(o: ObserverModel, files: Map<LogComponent, LogFile>, n: int)
    requires
        0 <= n <= 5,
        forall|c: LogComponent| #[trigger]
            files.contains_key(c) ==> settled_at(o, files, c),
        forall|c: LogComponent| #[trigger]
            o.identities.contains_key(c) ==> files.contains_key(c),
    ensures
        first_entry_fault(o, files, n) is None,
    decreases n,
{
    if n > 0 {
        no_entry_fault_when_settled(o, files, n - 1);
        let c = REQUIRED_COMPONENTS@[n - 1];
        if files.contains_key(c) {
            assert(settled_at(o, files, c));
            growth_keeps_witnesses(files[c].bytes@, Seq::empty(), o.cursors[c].byte_offset);
        }
    }
}

pub(crate) proof fn faultless_entries(o: ObserverModel, files: Map<LogComponent, LogFile>, n: int, c: LogComponent)
    requires
        c.rank() < n <= 5,
        first_entry_fault(o, files, n) is None,
    ensures
        entry_fault(o, files, c) is None,
    decreases n,
{
    crate::merge::rank_of_required(n - 1);
    assert(c.rank() == n - 1 ==> c == REQUIRED_COMPONENTS@[n - 1]);
    if c.rank() < n - 1 {
        faultless_entries(o, files, n - 1, c);
    }
}

/// Reading on once more, with no new bytes, gives no record again and changes nothing.
pub proof fn polling_again_gives_nothing(o: ObserverModel, files: Map<LogComponent, LogFile>)
    requires
        polled(o, files, files).result is Ok,
    ensures
        ({
            let then = polled(o, files, files).observer;
            polled(then, files, files) == (Polled {
                observer: then,
                lines: Seq::empty(),
                result: Ok(false),
            })
        }),
{
    let places = places_before(o, files);
    let lists = event_lists(files, places);
    let out = stream_outcome(o.state, o.session_id, lists, true);
    let read = ObserverModel { state: out.state, ..o };
    let next = places_after(files, places);
    let then = polled(o, files, files).observer;
    assert(out.end is Done);
    crate::merge::whole_streams_have_no_fault(o.state, o.session_id, lists, true);
    assert forall|c: LogComponent| #[trigger] files.contains_key(c) implies settled_at(
        then,
        files,
        c,
    ) by {
        settled_components(read, files, next, ReplayReason::ChangedWhileReading, 5, c);
        assert(next.contains_key(c));
    }
    assert forall|c: LogComponent| #[trigger]
        then.identities.contains_key(c) implies files.contains_key(c) by {
        settled_components(read, files, next, ReplayReason::ChangedWhileReading, 5, c);
        faultless_entries(o, files, 5, c);
    }
    settled_components(
        read,
        files,
        next,
        ReplayReason::ChangedWhileReading,
        5,
        LogComponent::Arena,
    );
    no_entry_fault_when_settled(then, files, 5);
    let places2 = places_before(then, files);
    let lists2 = event_lists(files, places2);
    assert forall|c: LogComponent| #[trigger] files.contains_key(c) implies places2[c] == next[c]
        && place_after(c, files[c].bytes@, places2[c]) == places2[c] && (emits_events(c)
        ==> lists2[c].lines.len() == 0 && lists2[c].fault is None) by {
        settled_components(read, files, next, ReplayReason::ChangedWhileReading, 5, c);
        assert(next.contains_key(c));
        if emits_events(c) {
            assert(lists.contains_key(c));
            assert(files[c].bytes@.len() == files[c].bytes.len());
            crate::merge::nothing_follows_the_end(c, files[c].bytes@, places[c]);
        }
    }
    crate::merge::empty_streams_give_nothing(then.state, then.session_id, lists2, true);
    assert(places_after(files, places2) =~= places2);
    settling_again_moves_nothing(then, files, ReplayReason::ChangedWhileReading, 5);
}

} // verus!
