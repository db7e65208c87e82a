//! Saved observer state.
//!
//! A saved state is taken up again only where it still belongs to the files: each log is the same
//! file, holds the same bytes before its cursor, and holds the records that the state names.
//! Everything else leads to a fresh attach.
use crate::log_component::{
    component_can_emit_events, component_of_stem, emits_events, filename_of, without_suffix,
    ComponentMap, LogComponent, REQUIRED_COMPONENTS,
};
use crate::log_parser::{
    checkpoint_of, restored_from, stamp_of, timestamp_key, HearthstoneLogParser, ParserCheckpoint,
    ParserModel,
};
use crate::log_reader::{decode_text, find_newline, newline_from, LogCursor};
use crate::merge::{
    checksum, fnv1a64, opt_source, sourced_models, FileIdentity, LineOrder, LogFile, ReduceModel,
    ReduceState, SourcedLine,
};
use crate::observer::{
    checkpoint_matches, log_path, plain_diagnostics, polled, replay_text, session_fault,
    still_there, validate_log_session, witness_start, AttachDiagnostics, AttachMethod, Attached,
    FileCheckpoint, LogReplayRequired, ObserverError, ObserverModel, PollOutcome, ReplayPlace,
    ReplayReason, SessionObserver, WitnessModel, CHECKPOINT_BYTES,
    OBSERVER_CHECKPOINT_SCHEMA_VERSION, OBSERVER_SNAPSHOT_SCHEMA_VERSION,
};
use crate::state::{EventSource, SourceModel};
use crate::text::{self, decimal};
use vstd::prelude::*;
use vstd::utf8::{decode_utf8, encode_utf8, valid_utf8};

verus! {

/// The most new bytes that are read after a saved state.
pub const CHECKPOINT_CATCH_UP_BYTES: u64 = 256 * 1024;

/// The longest record that can bear witness to a saved state.
pub const MAX_SOURCE_BYTES: usize = 1024 * 1024;

/// One saved cursor, with what shows that the bytes before it are still the same.
pub struct PersistedCursor {
    pub cursor: LogCursor,
    pub file_identity: FileIdentity,
    pub tail_checkpoint: Option<FileCheckpoint>,
}

/// One saved cursor, over sequences.
pub struct PersistedModel {
    pub cursor: LogCursor,
    pub identity: FileIdentity,
    pub tail: Option<WitnessModel>,
}

impl View for PersistedCursor {
    type V = PersistedModel;

    open spec fn view(&self) -> PersistedModel {
        PersistedModel {
            cursor: self.cursor,
            identity: self.file_identity,
            tail: match self.tail_checkpoint {
                Some(w) => Some(w@),
                None => None,
            },
        }
    }
}

/// Saved observer state. The state of the reducer is saved beside it.
pub struct ObserverCheckpoint {
    pub schema_version: u32,
    pub observer_snapshot_schema_version: u32,
    pub state_schema_version: u32,
    /// The canonical path of the session, not only its name.
    pub session_path: String,
    pub session_id: String,
    pub cursors: ComponentMap<PersistedCursor>,
    pub last_line_order: Option<LineOrder>,
    /// Ties the order to bytes of a log.
    pub last_source: Option<EventSource>,
    pub parser: ParserCheckpoint,
    /// Finds damage to the saved bytes. It is no signature.
    pub integrity_hash: u64,
}

/// Saved observer state, over texts.
#[verifier::ext_equal]
pub struct CheckpointModel {
    pub schema_version: u32,
    pub observer_snapshot_schema_version: u32,
    pub state_schema_version: u32,
    pub session_path: Seq<char>,
    pub session_id: Seq<char>,
    pub cursors: Map<LogComponent, PersistedModel>,
    pub last_line_order: Option<LineOrder>,
    pub last_source: Option<SourceModel>,
    pub parser: ParserCheckpoint,
    pub integrity_hash: u64,
}

impl View for ObserverCheckpoint {
    type V = CheckpointModel;

    open spec fn view(&self) -> CheckpointModel {
        CheckpointModel {
            schema_version: self.schema_version,
            observer_snapshot_schema_version: self.observer_snapshot_schema_version,
            state_schema_version: self.state_schema_version,
            session_path: self.session_path@,
            session_id: self.session_id@,
            cursors: self.cursors.entries().map_values(|p: PersistedCursor| p@),
            last_line_order: self.last_line_order,
            last_source: opt_source(self.last_source),
            parser: self.parser,
            integrity_hash: self.integrity_hash,
        }
    }
}

/// A session directory.
pub struct SessionPlace {
    /// The path as it is shown.
    pub path: String,
    /// The canonical path.
    pub canonical: String,
    /// The name of the directory.
    pub id: String,
    pub is_dir: bool,
}

/// What a checkpoint is held against besides the files.
pub struct ResumeContext {
    pub place: SessionPlace,
    /// The schema of the reducer state.
    pub state_schema_version: u32,
    /// The checksum of the checkpoint as it was read.
    pub expected_hash: u64,
    /// The records that the saved reducer state names.
    pub sources: Vec<EventSource>,
    /// Whether the saved reducer state is sound.
    pub reducer_valid: bool,
}

/// What is wrong with a checkpoint.
#[derive(Clone, Copy, Debug, PartialEq, Eq, Structural)]
pub enum CheckpointFault {
    CheckpointSchema { found: u32 },
    SnapshotSchema { found: u32 },
    StateSchema { found: u32, expected: u32 },
    Integrity,
    Session(LogReplayRequired),
    OtherDirectory,
    OtherIdentity,
    IdentityChanged(LogComponent),
    Shorter(LogComponent),
    InvalidTail(LogComponent),
    ChangedBeforeCursor(LogComponent),
    NoTail(LogComponent),
    Gone(LogComponent),
    Appeared(LogComponent),
    OrderMismatch,
    IncompleteWitness,
    SourceSession,
    SourceUnsupported,
    SourceNotCanonical,
    SourceWithoutCursor,
    SourceAfterCursor,
    SourceUnreadable(LogComponent),
    SourceEnded,
    SourceTooLong,
    SourceNotUtf8,
    SourceMismatch,
    Parser,
    Reducer,
}

/// The component that a record names.
pub open spec fn source_component(s: SourceModel) -> Result<LogComponent, CheckpointFault> {
    match component_of_stem(without_suffix(s.component, ".log"@)) {
        None => Err(CheckpointFault::SourceUnsupported),
        Some(c) => if filename_of(c) != s.component {
            Err(CheckpointFault::SourceNotCanonical)
        } else {
            Ok(c)
        },
    }
}

/// Bytes without one trailing carriage return.
pub open spec fn without_carriage_return(b: Seq<u8>) -> Seq<u8> {
    if b.len() > 0 && b.last() == 13 {
        b.drop_last()
    } else {
        b
    }
}

/// The text of the complete record at a place.
pub open spec fn record_at(files: Map<LogComponent, LogFile>, c: LogComponent, at: u64) -> Result<
    Seq<char>,
    CheckpointFault,
> {
    if !files.contains_key(c) {
        Err(CheckpointFault::SourceUnreadable(c))
    } else {
        let b = files[c].bytes@;
        match newline_from(b, at as int) {
            None => if b.len() - at > MAX_SOURCE_BYTES {
                Err(CheckpointFault::SourceTooLong)
            } else {
                Err(CheckpointFault::SourceEnded)
            },
            Some(end) => if end - at > MAX_SOURCE_BYTES {
                Err(CheckpointFault::SourceTooLong)
            } else {
                let raw = without_carriage_return(b.subrange(at as int, end));
                if valid_utf8(raw) {
                    Ok(decode_utf8(raw))
                } else {
                    Err(CheckpointFault::SourceNotUtf8)
                }
            },
        }
    }
}

/// Why a named record does not bear witness to a checkpoint.
pub open spec fn source_fault(
    cp: CheckpointModel,
    files: Map<LogComponent, LogFile>,
    s: SourceModel,
) -> Option<CheckpointFault> {
    if s.session_id != cp.session_id {
        Some(CheckpointFault::SourceSession)
    } else {
        match source_component(s) {
            Err(e) => Some(e),
            Ok(c) => if !cp.cursors.contains_key(c) {
                Some(CheckpointFault::SourceWithoutCursor)
            } else if s.byte_offset >= cp.cursors[c].cursor.byte_offset {
                Some(CheckpointFault::SourceAfterCursor)
            } else {
                match record_at(files, c, s.byte_offset) {
                    Err(e) => Some(e),
                    Ok(raw) => if checksum(encode_utf8(raw)) != s.line_hash {
                        Some(CheckpointFault::SourceMismatch)
                    } else {
                        None
                    },
                }
            },
        }
    }
}

/// Why a log does not fit its saved cursor.
pub open spec fn cursor_fault(
    cp: CheckpointModel,
    files: Map<LogComponent, LogFile>,
    c: LogComponent,
) -> Option<CheckpointFault> {
    if cp.cursors.contains_key(c) {
        let p = cp.cursors[c];
        if !files.contains_key(c) {
            Some(CheckpointFault::Gone(c))
        } else if files[c].identity != p.identity {
            Some(CheckpointFault::IdentityChanged(c))
        } else if files[c].bytes@.len() < p.cursor.byte_offset {
            Some(CheckpointFault::Shorter(c))
        } else {
            match p.tail {
                Some(tail) => if tail.start != witness_start(p.cursor.byte_offset)
                    || tail.bytes.len() != p.cursor.byte_offset - witness_start(
                    p.cursor.byte_offset,
                ) {
                    Some(CheckpointFault::InvalidTail(c))
                } else if !still_there(files[c].bytes@, tail) {
                    Some(CheckpointFault::ChangedBeforeCursor(c))
                } else {
                    None
                },
                None => if p.cursor.byte_offset == 0 {
                    None
                } else {
                    Some(CheckpointFault::NoTail(c))
                },
            }
        }
    } else if files.contains_key(c) {
        Some(CheckpointFault::Appeared(c))
    } else {
        None
    }
}

/// The first log, among the first ones, that does not fit its saved cursor.
pub open spec fn first_cursor_fault(
    cp: CheckpointModel,
    files: Map<LogComponent, LogFile>,
    n: int,
) -> Option<CheckpointFault>
    decreases n,
{
    if n <= 0 {
        None
    } else {
        match first_cursor_fault(cp, files, n - 1) {
            Some(e) => Some(e),
            None => cursor_fault(cp, files, REQUIRED_COMPONENTS@[n - 1]),
        }
    }
}

/// Why the last record does not fit the saved order.
pub open spec fn order_fault(cp: CheckpointModel, files: Map<LogComponent, LogFile>) -> Option<
    CheckpointFault,
> {
    match (cp.last_line_order, cp.last_source) {
        (Some(order), Some(source)) => match source_fault(cp, files, source) {
            Some(e) => Some(e),
            None => {
                let c = source_component(source)->Ok_0;
                let raw = record_at(files, c, source.byte_offset)->Ok_0;
                if order != (LineOrder {
                    timestamp: stamp_of(raw).0,
                    component: c,
                    byte_offset: source.byte_offset,
                }) {
                    Some(CheckpointFault::OrderMismatch)
                } else {
                    None
                }
            },
        },
        (None, None) => None,
        _ => Some(CheckpointFault::IncompleteWitness),
    }
}

/// The first named record that does not bear witness.
pub open spec fn first_source_fault(
    cp: CheckpointModel,
    files: Map<LogComponent, LogFile>,
    sources: Seq<EventSource>,
) -> Option<CheckpointFault>
    decreases sources.len(),
{
    if sources.len() == 0 {
        None
    } else {
        match first_source_fault(cp, files, sources.drop_last()) {
            Some(e) => Some(e),
            None => source_fault(cp, files, sources.last()@),
        }
    }
}

/// What is wrong with a checkpoint, first of all.
pub open spec fn checkpoint_fault(
    cp: CheckpointModel,
    context: ResumeContext,
    files: Map<LogComponent, LogFile>,
) -> Option<CheckpointFault> {
    if cp.schema_version != OBSERVER_CHECKPOINT_SCHEMA_VERSION {
        Some(CheckpointFault::CheckpointSchema { found: cp.schema_version })
    } else if cp.observer_snapshot_schema_version != OBSERVER_SNAPSHOT_SCHEMA_VERSION {
        Some(CheckpointFault::SnapshotSchema { found: cp.observer_snapshot_schema_version })
    } else if cp.state_schema_version != context.state_schema_version {
        Some(
            CheckpointFault::StateSchema {
                found: cp.state_schema_version,
                expected: context.state_schema_version,
            },
        )
    } else if cp.integrity_hash != context.expected_hash {
        Some(CheckpointFault::Integrity)
    } else {
        match session_fault(context.place.is_dir, files) {
            Some(e) => Some(CheckpointFault::Session(e)),
            None => if cp.session_path != context.place.canonical@ {
                Some(CheckpointFault::OtherDirectory)
            } else if cp.session_id != context.place.id@ {
                Some(CheckpointFault::OtherIdentity)
            } else {
                match first_cursor_fault(cp, files, 5) {
                    Some(e) => Some(e),
                    None => match order_fault(cp, files) {
                        Some(e) => Some(e),
                        None => first_source_fault(cp, files, context.sources@),
                    },
                }
            },
        }
    }
}

fn component_from_source(source: &EventSource) -> (r: Result<LogComponent, CheckpointFault>)
    ensures
        r == source_component(source@),
{
    match LogComponent::from_filename(source.component.as_str()) {
        None => Err(CheckpointFault::SourceUnsupported),
        Some(c) => {
            if !text::str_eq(c.filename(), source.component.as_str()) {
                Err(CheckpointFault::SourceNotCanonical)
            } else {
                Ok(c)
            }
        },
    }
}

/// Reads the one complete record at a known place.
fn read_source_raw(files: &ComponentMap<LogFile>, component: LogComponent, at: u64) -> (r: Result<
    String,
    CheckpointFault,
>)
    requires
        files.wf(),
    ensures
        match r {
            Ok(raw) => record_at(files.entries(), component, at) == Ok::<
                Seq<char>,
                CheckpointFault,
            >(raw@),
            Err(e) => record_at(files.entries(), component, at) == Err::<
                Seq<char>,
                CheckpointFault,
            >(e),
        },
{
    let file = match files.get(component) {
        None => return Err(CheckpointFault::SourceUnreadable(component)),
        Some(file) => file,
    };
    let b = file.bytes.as_slice();
    if at >= b.len() as u64 {
        return Err(CheckpointFault::SourceEnded);
    }
    let start: usize = at as usize;
    match find_newline(b, start) {
        None => if b.len() - start > MAX_SOURCE_BYTES {
            Err(CheckpointFault::SourceTooLong)
        } else {
            Err(CheckpointFault::SourceEnded)
        },
        Some(end) => {
            if end - start > MAX_SOURCE_BYTES {
                return Err(CheckpointFault::SourceTooLong);
            }
            let last: usize = if end > start && b[end - 1] == 13 {
                end - 1
            } else {
                end
            };
            let raw = vstd::slice::slice_subrange(b, start, last);
            assert(raw@ =~= without_carriage_return(b@.subrange(start as int, end as int)));
            match decode_text(raw) {
                Some(s) => Ok(s),
                None => Err(CheckpointFault::SourceNotUtf8),
            }
        },
    }
}

fn validate_source_witness(
    checkpoint: &ObserverCheckpoint,
    files: &ComponentMap<LogFile>,
    source: &EventSource,
) -> (r: Result<(LogComponent, String), CheckpointFault>)
    requires
        checkpoint.cursors.wf(),
        files.wf(),
    ensures
        match r {
            Ok((c, raw)) => {
                &&& source_fault(checkpoint@, files.entries(), source@) is None
                &&& source_component(source@) == Ok::<LogComponent, CheckpointFault>(c)
                &&& record_at(files.entries(), c, source.byte_offset) == Ok::<
                    Seq<char>,
                    CheckpointFault,
                >(raw@)
            },
            Err(e) => source_fault(checkpoint@, files.entries(), source@) == Some(e),
        },
{
    if !text::str_eq(source.session_id.as_str(), checkpoint.session_id.as_str()) {
        return Err(CheckpointFault::SourceSession);
    }
    let component = match component_from_source(source) {
        Err(e) => return Err(e),
        Ok(c) => c,
    };
    match checkpoint.cursors.get(component) {
        None => return Err(CheckpointFault::SourceWithoutCursor),
        Some(p) => {
            assert(checkpoint@.cursors.contains_key(component));
            if source.byte_offset >= p.cursor.byte_offset {
                return Err(CheckpointFault::SourceAfterCursor);
            }
        },
    }
    assert(checkpoint@.cursors.contains_key(component));
    match read_source_raw(files, component, source.byte_offset) {
        Err(e) => Err(e),
        Ok(raw) => {
            if fnv1a64(raw.as_str().as_bytes()) != source.line_hash {
                Err(CheckpointFault::SourceMismatch)
            } else {
                Ok((component, raw))
            }
        },
    }
}

fn check_cursor(
    checkpoint: &ObserverCheckpoint,
    files: &ComponentMap<LogFile>,
    component: LogComponent,
) -> (r: Option<CheckpointFault>)
    requires
        checkpoint.cursors.wf(),
        files.wf(),
    ensures
        r == cursor_fault(checkpoint@, files.entries(), component),
{
    let ghost known = checkpoint@.cursors.contains_key(component);
    let p = match checkpoint.cursors.get(component) {
        None => return if files.contains(component) {
            Some(CheckpointFault::Appeared(component))
        } else {
            None
        },
        Some(p) => p,
    };
    let file = match files.get(component) {
        None => return Some(CheckpointFault::Gone(component)),
        Some(file) => file,
    };
    if file.identity != p.file_identity {
        return Some(CheckpointFault::IdentityChanged(component));
    }
    let cursor: u64 = p.cursor.byte_offset;
    if (file.bytes.len() as u64) < cursor {
        return Some(CheckpointFault::Shorter(component));
    }
    match &p.tail_checkpoint {
        Some(tail) => {
            let start: u64 = if cursor > CHECKPOINT_BYTES {
                cursor - CHECKPOINT_BYTES
            } else {
                0
            };
            if tail.start != start || tail.bytes.len() as u64 != cursor - start {
                Some(CheckpointFault::InvalidTail(component))
            } else if !checkpoint_matches(file.bytes.as_slice(), tail) {
                Some(CheckpointFault::ChangedBeforeCursor(component))
            } else {
                None
            }
        },
        None => if cursor == 0 {
            None
        } else {
            Some(CheckpointFault::NoTail(component))
        },
    }
}

fn check_order(checkpoint: &ObserverCheckpoint, files: &ComponentMap<LogFile>) -> (r: Option<
    CheckpointFault,
>)
    requires
        checkpoint.cursors.wf(),
        files.wf(),
    ensures
        r == order_fault(checkpoint@, files.entries()),
{
    match (&checkpoint.last_line_order, &checkpoint.last_source) {
        (Some(order), Some(source)) => match validate_source_witness(checkpoint, files, source) {
            Err(e) => Some(e),
            Ok((component, raw)) => {
                let actual = LineOrder {
                    timestamp: timestamp_key(raw.as_str()),
                    component,
                    byte_offset: source.byte_offset,
                };
                if *order != actual {
                    Some(CheckpointFault::OrderMismatch)
                } else {
                    None
                }
            },
        },
        (None, None) => None,
        _ => Some(CheckpointFault::IncompleteWitness),
    }
}

/// Asks that a checkpoint belongs to the exact files that are there now.
pub fn validate_checkpoint(
    checkpoint: &ObserverCheckpoint,
    context: &ResumeContext,
    files: &ComponentMap<LogFile>,
) -> (r: Result<(), CheckpointFault>)
    requires
        checkpoint.cursors.wf(),
        files.wf(),
    ensures
        match r {
            Ok(_) => checkpoint_fault(checkpoint@, *context, files.entries()) is None,
            Err(e) => checkpoint_fault(checkpoint@, *context, files.entries()) == Some(e),
        },
{
    if checkpoint.schema_version != OBSERVER_CHECKPOINT_SCHEMA_VERSION {
        return Err(CheckpointFault::CheckpointSchema { found: checkpoint.schema_version });
    }
    if checkpoint.observer_snapshot_schema_version != OBSERVER_SNAPSHOT_SCHEMA_VERSION {
        return Err(
            CheckpointFault::SnapshotSchema { found: checkpoint.observer_snapshot_schema_version },
        );
    }
    if checkpoint.state_schema_version != context.state_schema_version {
        return Err(
            CheckpointFault::StateSchema {
                found: checkpoint.state_schema_version,
                expected: context.state_schema_version,
            },
        );
    }
    if checkpoint.integrity_hash != context.expected_hash {
        return Err(CheckpointFault::Integrity);
    }
    if let Err(e) = validate_log_session(context.place.is_dir, files) {
        return Err(CheckpointFault::Session(e));
    }
    if !text::str_eq(checkpoint.session_path.as_str(), context.place.canonical.as_str()) {
        return Err(CheckpointFault::OtherDirectory);
    }
    if !text::str_eq(checkpoint.session_id.as_str(), context.place.id.as_str()) {
        return Err(CheckpointFault::OtherIdentity);
    }
    let ghost cp = checkpoint@;
    let ghost all = files.entries();
    let mut i: usize = 0;
    while i < 5
        invariant
            i <= 5,
            checkpoint.cursors.wf(),
            files.wf(),
            cp == checkpoint@,
            all == files.entries(),
            first_cursor_fault(cp, all, i as int) is None,
            checkpoint_fault(cp, *context, all) == (match first_cursor_fault(cp, all, 5) {
                Some(e) => Some(e),
                None => match order_fault(cp, all) {
                    Some(e) => Some(e),
                    None => first_source_fault(cp, all, context.sources@),
                },
            }),
        decreases 5 - i,
    {
        if let Some(e) = check_cursor(checkpoint, files, REQUIRED_COMPONENTS[i]) {
            proof {
                assert(first_cursor_fault(cp, all, i + 1) == Some(e));
                first_cursor_fault_stays(cp, all, i + 1, 5);
            }
            return Err(e);
        }
        i = i + 1;
    }
    if let Some(e) = check_order(checkpoint, files) {
        return Err(e);
    }
    let mut k: usize = 0;
    assert(context.sources@.take(0) =~= Seq::<EventSource>::empty());
    while k < context.sources.len()
        invariant
            k <= context.sources.len(),
            checkpoint.cursors.wf(),
            files.wf(),
            cp == checkpoint@,
            all == files.entries(),
            first_source_fault(cp, all, context.sources@.take(k as int)) is None,
            checkpoint_fault(cp, *context, all) == first_source_fault(cp, all, context.sources@),
        decreases context.sources.len() - k,
    {
        proof {
            assert(context.sources@.take(k + 1).drop_last() =~= context.sources@.take(k as int));
            assert(context.sources@.take(k + 1).last() == context.sources@[k as int]);
        }
        if let Err(e) = validate_source_witness(checkpoint, files, &context.sources[k]) {
            proof {
                first_source_fault_stays(cp, all, context.sources@, k + 1);
            }
            return Err(e);
        }
        k = k + 1;
    }
    assert(context.sources@.take(k as int) =~= context.sources@);
    Ok(())
}

proof fn first_cursor_fault_stays(
    cp: CheckpointModel,
    files: Map<LogComponent, LogFile>,
    n: int,
    m: int,
)
    requires
        n <= m,
        first_cursor_fault(cp, files, n) is Some,
    ensures
        first_cursor_fault(cp, files, m) == first_cursor_fault(cp, files, n),
    decreases m - n,
{
    if n < m {
        first_cursor_fault_stays(cp, files, n, m - 1);
    }
}

proof fn first_source_fault_stays(
    cp: CheckpointModel,
    files: Map<LogComponent, LogFile>,
    sources: Seq<EventSource>,
    n: int,
)
    requires
        0 <= n <= sources.len(),
        first_source_fault(cp, files, sources.take(n)) is Some,
    ensures
        first_source_fault(cp, files, sources) == first_source_fault(cp, files, sources.take(n)),
    decreases sources.len(),
{
    if n == sources.len() {
        assert(sources.take(n) =~= sources);
    } else {
        assert(sources.drop_last().take(n) =~= sources.take(n));
        first_source_fault_stays(cp, files, sources.drop_last(), n);
    }
}

/// The name of the first component that a saved state names and that is not known.
pub open spec fn unknown_component(cp: CheckpointModel, sources: Seq<EventSource>) -> Seq<char>
    decreases sources.len(),
{
    if cp.last_source matches Some(s) && source_component(s) == Err::<
        LogComponent,
        CheckpointFault,
    >(CheckpointFault::SourceUnsupported) {
        cp.last_source->0.component
    } else if sources.len() == 0 {
        Seq::empty()
    } else if source_component(sources[0]@) == Err::<LogComponent, CheckpointFault>(
        CheckpointFault::SourceUnsupported,
    ) {
        sources[0]@.component
    } else {
        unknown_component(cp, sources.skip(1))
    }
}

/// The words for what is wrong with a checkpoint.
pub open spec fn fault_text(
    fault: CheckpointFault,
    session: Seq<char>,
    unknown: Seq<char>,
) -> Seq<char> {
    match fault {
        CheckpointFault::CheckpointSchema { found } => "unsupported observer checkpoint schema "@
            + decimal(found as nat) + "; expected "@ + decimal(
            OBSERVER_CHECKPOINT_SCHEMA_VERSION as nat,
        ),
        CheckpointFault::SnapshotSchema { found } => "checkpoint observer snapshot schema "@
            + decimal(found as nat) + " does not match "@ + decimal(
            OBSERVER_SNAPSHOT_SCHEMA_VERSION as nat,
        ),
        CheckpointFault::StateSchema { found, expected } => "checkpoint state schema "@ + decimal(
            found as nat,
        ) + " does not match "@ + decimal(expected as nat),
        CheckpointFault::Integrity => "checkpoint integrity checksum did not match"@,
        CheckpointFault::Session(e) => replay_text(e, session),
        CheckpointFault::OtherDirectory =>
            "checkpoint belongs to a different log-session directory"@,
        CheckpointFault::OtherIdentity => "checkpoint session identity did not match"@,
        CheckpointFault::IdentityChanged(c) => log_path(session, c) + " file identity changed"@,
        CheckpointFault::Shorter(c) => log_path(session, c) + " is shorter than its saved cursor"@,
        CheckpointFault::InvalidTail(c) => log_path(session, c)
            + " had an invalid saved tail checkpoint"@,
        CheckpointFault::ChangedBeforeCursor(c) => log_path(session, c)
            + " changed before its saved cursor"@,
        CheckpointFault::NoTail(c) => log_path(session, c)
            + " has a nonzero cursor without a tail checkpoint"@,
        CheckpointFault::Gone(c) => log_path(session, c) + " disappeared"@,
        CheckpointFault::Appeared(c) => log_path(session, c) + " appeared after checkpoint"@,
        CheckpointFault::OrderMismatch =>
            "checkpoint final source ordering witness did not match"@,
        CheckpointFault::IncompleteWitness => "checkpoint had incomplete final source witness"@,
        CheckpointFault::SourceSession => "checkpoint source belongs to a different session"@,
        CheckpointFault::SourceUnsupported => "unsupported checkpoint source component "@
            + unknown,
        CheckpointFault::SourceNotCanonical =>
            "checkpoint source component was not a canonical log filename"@,
        CheckpointFault::SourceWithoutCursor => "checkpoint source component had no cursor"@,
        CheckpointFault::SourceAfterCursor =>
            "checkpoint source lies at or after its saved cursor"@,
        CheckpointFault::SourceUnreadable(c) => "could not open "@ + log_path(session, c)
            + " for source validation"@,
        CheckpointFault::SourceEnded => "checkpoint source ended before a complete log line"@,
        CheckpointFault::SourceTooLong => "checkpoint source line exceeded 1 MiB"@,
        CheckpointFault::SourceNotUtf8 => "checkpoint source was not UTF-8"@,
        CheckpointFault::SourceMismatch => "checkpoint source contents did not match"@,
        CheckpointFault::Parser => "checkpoint parser state was invalid"@,
        CheckpointFault::Reducer => "checkpoint reducer state was invalid"@,
    }
}

fn about_log(session: &str, component: LogComponent, words: &str) -> (r: String)
    ensures
        r@ == log_path(session@, component) + words@,
{
    let mut r = crate::observer::component_log_path(session, component);
    r.append(words);
    r
}

fn about_schemas(before: &str, found: u32, between: &str, expected: u32) -> (r: String)
    ensures
        r@ == before@ + decimal(found as nat) + between@ + decimal(expected as nat),
{
    let mut r = text::copy(before);
    text::push_decimal(&mut r, found as u64);
    r.append(between);
    text::push_decimal(&mut r, expected as u64);
    r
}

impl CheckpointFault {
    /// The words for the fault in a session directory. `unknown` is the name of a component that
    /// is not known.
    pub fn message(&self, session: &str, unknown: &str) -> (r: String)
        ensures
            r@ == fault_text(*self, session@, unknown@),
    {
        match *self {
            CheckpointFault::CheckpointSchema { found } => about_schemas(
                "unsupported observer checkpoint schema ",
                found,
                "; expected ",
                OBSERVER_CHECKPOINT_SCHEMA_VERSION,
            ),
            CheckpointFault::SnapshotSchema { found } => about_schemas(
                "checkpoint observer snapshot schema ",
                found,
                " does not match ",
                OBSERVER_SNAPSHOT_SCHEMA_VERSION,
            ),
            CheckpointFault::StateSchema { found, expected } => about_schemas(
                "checkpoint state schema ",
                found,
                " does not match ",
                expected,
            ),
            CheckpointFault::Integrity => text::copy("checkpoint integrity checksum did not match"),
            CheckpointFault::Session(e) => e.message(session),
            CheckpointFault::OtherDirectory => text::copy(
                "checkpoint belongs to a different log-session directory",
            ),
            CheckpointFault::OtherIdentity => text::copy(
                "checkpoint session identity did not match",
            ),
            CheckpointFault::IdentityChanged(c) => about_log(session, c, " file identity changed"),
            CheckpointFault::Shorter(c) => about_log(
                session,
                c,
                " is shorter than its saved cursor",
            ),
            CheckpointFault::InvalidTail(c) => about_log(
                session,
                c,
                " had an invalid saved tail checkpoint",
            ),
            CheckpointFault::ChangedBeforeCursor(c) => about_log(
                session,
                c,
                " changed before its saved cursor",
            ),
            CheckpointFault::NoTail(c) => about_log(
                session,
                c,
                " has a nonzero cursor without a tail checkpoint",
            ),
            CheckpointFault::Gone(c) => about_log(session, c, " disappeared"),
            CheckpointFault::Appeared(c) => about_log(session, c, " appeared after checkpoint"),
            CheckpointFault::OrderMismatch => text::copy(
                "checkpoint final source ordering witness did not match",
            ),
            CheckpointFault::IncompleteWitness => text::copy(
                "checkpoint had incomplete final source witness",
            ),
            CheckpointFault::SourceSession => text::copy(
                "checkpoint source belongs to a different session",
            ),
            CheckpointFault::SourceUnsupported => {
                let mut r = text::copy("unsupported checkpoint source component ");
                r.append(unknown);
                r
            },
            CheckpointFault::SourceNotCanonical => text::copy(
                "checkpoint source component was not a canonical log filename",
            ),
            CheckpointFault::SourceWithoutCursor => text::copy(
                "checkpoint source component had no cursor",
            ),
            CheckpointFault::SourceAfterCursor => text::copy(
                "checkpoint source lies at or after its saved cursor",
            ),
            CheckpointFault::SourceUnreadable(c) => {
                let mut r = text::copy("could not open ");
                r.append(crate::observer::component_log_path(session, c).as_str());
                r.append(" for source validation");
                r
            },
            CheckpointFault::SourceEnded => text::copy(
                "checkpoint source ended before a complete log line",
            ),
            CheckpointFault::SourceTooLong => text::copy("checkpoint source line exceeded 1 MiB"),
            CheckpointFault::SourceNotUtf8 => text::copy("checkpoint source was not UTF-8"),
            CheckpointFault::SourceMismatch => text::copy(
                "checkpoint source contents did not match",
            ),
            CheckpointFault::Parser => text::copy("checkpoint parser state was invalid"),
            CheckpointFault::Reducer => text::copy("checkpoint reducer state was invalid"),
        }
    }
}

/// The name of the first component that a saved state names and that is not known.
fn find_unknown_component(checkpoint: &ObserverCheckpoint, sources: &Vec<EventSource>) -> (r:
    String)
    ensures
        r@ == unknown_component(checkpoint@, sources@),
{
    if let Some(s) = &checkpoint.last_source {
        if let Err(CheckpointFault::SourceUnsupported) = component_from_source(s) {
            return s.component.clone();
        }
    }
    let mut i: usize = 0;
    assert(sources@.skip(0) =~= sources@);
    while i < sources.len()
        invariant
            i <= sources.len(),
            !(checkpoint@.last_source matches Some(s) && source_component(s) == Err::<
                LogComponent,
                CheckpointFault,
            >(CheckpointFault::SourceUnsupported)),
            unknown_component(checkpoint@, sources@) == unknown_component(
                checkpoint@,
                sources@.skip(i as int),
            ),
        decreases sources.len() - i,
    {
        assert(sources@.skip(i as int).skip(1) =~= sources@.skip(i + 1));
        if let Err(CheckpointFault::SourceUnsupported) = component_from_source(&sources[i]) {
            return sources[i].component.clone();
        }
        i = i + 1;
    }
    let r = String::new();
    assert(r@ =~= Seq::<char>::empty());
    r
}

/// The observer that a checkpoint stands for.
pub open spec fn restored_observer(
    cp: CheckpointModel,
    session: Seq<char>,
    parser: ParserModel,
) -> ObserverModel {
    ObserverModel {
        session_id: session,
        state: ReduceModel { parser, order: cp.last_line_order, source: cp.last_source },
        cursors: cp.cursors.map_values(|p: PersistedModel| p.cursor),
        identities: cp.cursors.map_values(|p: PersistedModel| p.identity),
        witnesses: Map::new(
            |c: LogComponent| cp.cursors.contains_key(c) && cp.cursors[c].tail is Some,
            |c: LogComponent| cp.cursors[c].tail->0,
        ),
        diagnostics: plain_diagnostics(AttachMethod::VerifiedCheckpoint),
    }
}

/// What taking a checkpoint up again gives.
pub open spec fn restored(
    cp: CheckpointModel,
    context: ResumeContext,
    files: Map<LogComponent, LogFile>,
) -> Result<ObserverModel, CheckpointFault> {
    match checkpoint_fault(cp, context, files) {
        Some(e) => Err(e),
        None => match restored_from(cp.parser) {
            None => Err(CheckpointFault::Parser),
            Some(parser) => if !context.reducer_valid {
                Err(CheckpointFault::Reducer)
            } else {
                Ok(restored_observer(cp, context.place.id@, parser))
            },
        },
    }
}

/// Takes a checkpoint up again, once it is proved to belong to the files.
pub fn restore_checkpoint(
    checkpoint: ObserverCheckpoint,
    context: &ResumeContext,
    files: &ComponentMap<LogFile>,
) -> (r: Result<SessionObserver, CheckpointFault>)
    requires
        checkpoint.cursors.wf(),
        files.wf(),
    ensures
        match r {
            Ok(o) => o.wf() && restored(checkpoint@, *context, files.entries()) == Ok::<
                ObserverModel,
                CheckpointFault,
            >(o@),
            Err(e) => restored(checkpoint@, *context, files.entries()) == Err::<
                ObserverModel,
                CheckpointFault,
            >(e),
        },
{
    if let Err(e) = validate_checkpoint(&checkpoint, context, files) {
        return Err(e);
    }
    let parser = match HearthstoneLogParser::from_checkpoint(checkpoint.parser) {
        Ok(parser) => parser,
        Err(_) => return Err(CheckpointFault::Parser),
    };
    if !context.reducer_valid {
        return Err(CheckpointFault::Reducer);
    }
    let ghost cp = checkpoint@;
    let ghost wanted = restored_observer(cp, context.place.id@, parser@);
    let mut saved = checkpoint.cursors;
    let mut cursors: ComponentMap<LogCursor> = ComponentMap::new();
    let mut identities: ComponentMap<FileIdentity> = ComponentMap::new();
    let mut checkpoints: ComponentMap<FileCheckpoint> = ComponentMap::new();
    let mut i: usize = 0;
    while i < 5
        invariant
            i <= 5,
            saved.wf(),
            cursors.wf(),
            identities.wf(),
            checkpoints.wf(),
            wanted == restored_observer(cp, context.place.id@, parser@),
            forall|c: LogComponent| #[trigger]
                saved.entries().contains_key(c) <==> c.rank() >= i && cp.cursors.contains_key(c),
            forall|c: LogComponent| #[trigger]
                saved.entries().contains_key(c) ==> saved.entries()[c]@ == cp.cursors[c],
            forall|c: LogComponent| #[trigger]
                cursors.entries().contains_key(c) <==> c.rank() < i && cp.cursors.contains_key(c),
            forall|c: LogComponent| #[trigger]
                cursors.entries().contains_key(c) ==> cursors.entries()[c] == wanted.cursors[c],
            forall|c: LogComponent| #[trigger]
                identities.entries().contains_key(c) <==> c.rank() < i && cp.cursors.contains_key(
                    c,
                ),
            forall|c: LogComponent| #[trigger]
                identities.entries().contains_key(c) ==> identities.entries()[c]
                    == wanted.identities[c],
            forall|c: LogComponent| #[trigger]
                checkpoints.entries().contains_key(c) <==> c.rank() < i
                    && wanted.witnesses.contains_key(c),
            forall|c: LogComponent| #[trigger]
                checkpoints.entries().contains_key(c) ==> checkpoints.entries()[c]@
                    == wanted.witnesses[c],
        decreases 5 - i,
    {
        let component = REQUIRED_COMPONENTS[i];
        assert(component.rank() == i && forall|c: LogComponent| #[trigger]
            c.rank() == i ==> c == component) by {
            crate::merge::rank_of_required(i as int);
        }
        match saved.remove(component) {
            None => {},
            Some(p) => {
                cursors.insert(component, p.cursor);
                identities.insert(component, p.file_identity);
                if let Some(tail) = p.tail_checkpoint {
                    checkpoints.insert(component, tail);
                }
            },
        }
        i = i + 1;
    }
    let observer = SessionObserver {
        session_id: context.place.id.clone(),
        state: ReduceState {
            parser,
            order: checkpoint.last_line_order,
            source: checkpoint.last_source,
        },
        cursors,
        file_identities: identities,
        checkpoints,
        diagnostics: AttachDiagnostics::of(AttachMethod::VerifiedCheckpoint),
    };
    proof {
        assert forall|c: LogComponent|
            {
                &&& observer@.cursors.contains_key(c) == wanted.cursors.contains_key(c)
                &&& observer@.identities.contains_key(c) == wanted.identities.contains_key(c)
                &&& #[trigger] observer@.witnesses.contains_key(c)
                    == wanted.witnesses.contains_key(c)
            } by {
            assert(c.rank() < 5);
            assert(cursors.entries().contains_key(c) == cp.cursors.contains_key(c));
            assert(identities.entries().contains_key(c) == cp.cursors.contains_key(c));
            assert(checkpoints.entries().contains_key(c) == wanted.witnesses.contains_key(c));
        }
        assert forall|c: LogComponent| observer@.cursors.contains_key(c)
            == wanted.cursors.contains_key(c) by {
            assert(observer@.witnesses.contains_key(c) == wanted.witnesses.contains_key(c));
        }
        assert forall|c: LogComponent| observer@.identities.contains_key(c)
            == wanted.identities.contains_key(c) by {
            assert(observer@.witnesses.contains_key(c) == wanted.witnesses.contains_key(c));
        }
        assert(observer@.cursors =~= wanted.cursors);
        assert(observer@.identities =~= wanted.identities);
        assert(observer@.witnesses =~= wanted.witnesses);
    }
    Ok(observer)
}

/// The new bytes of event logs after a saved state, among the first components.
pub open spec fn catch_up_bytes(o: ObserverModel, files: Map<LogComponent, LogFile>, n: int) -> Result<
    u64,
    ObserverError,
>
    decreases n,
{
    if n <= 0 {
        Ok(0)
    } else {
        match catch_up_bytes(o, files, n - 1) {
            Err(e) => Err(e),
            Ok(total) => {
                let c = REQUIRED_COMPONENTS@[n - 1];
                if !emits_events(c) || !o.cursors.contains_key(c) {
                    Ok(total)
                } else if !files.contains_key(c) {
                    Err(
                        ObserverError::ReplayRequired(
                            LogReplayRequired {
                                place: ReplayPlace::Component(c),
                                reason: ReplayReason::GoneBeforeCatchUp,
                            },
                        ),
                    )
                } else if files[c].bytes@.len() < o.cursors[c].byte_offset {
                    Err(
                        ObserverError::ReplayRequired(
                            LogReplayRequired {
                                place: ReplayPlace::Component(c),
                                reason: ReplayReason::TruncatedBeforeCatchUp,
                            },
                        ),
                    )
                } else {
                    let sum = total + (files[c].bytes@.len() - o.cursors[c].byte_offset);
                    if sum > u64::MAX {
                        Err(ObserverError::SuffixOverflow)
                    } else {
                        Ok(sum as u64)
                    }
                }
            },
        }
    }
}

impl SessionObserver {
    /// Counts the new bytes of the logs that can hold events. The others are passed over
    /// cheaply and do not count.
    pub fn checkpoint_suffix_bytes(&self, files: &ComponentMap<LogFile>) -> (r: Result<
        u64,
        ObserverError,
    >)
        requires
            self.wf(),
            files.wf(),
        ensures
            r == catch_up_bytes(self@, files.entries(), 5),
    {
        let mut total: u64 = 0;
        let mut i: usize = 0;
        while i < 5
            invariant
                i <= 5,
                self.wf(),
                files.wf(),
                catch_up_bytes(self@, files.entries(), i as int) == Ok::<u64, ObserverError>(total),
            decreases 5 - i,
        {
            let component = REQUIRED_COMPONENTS[i];
            let mut fault: Option<ObserverError> = None;
            if component_can_emit_events(component) {
                if let Some(cursor) = self.cursors.get(component) {
                    match files.get(component) {
                        None => {
                            fault = Some(
                                ObserverError::ReplayRequired(
                                    LogReplayRequired {
                                        place: ReplayPlace::Component(component),
                                        reason: ReplayReason::GoneBeforeCatchUp,
                                    },
                                ),
                            );
                        },
                        Some(file) => {
                            let length: u64 = file.bytes.len() as u64;
                            if length < cursor.byte_offset {
                                fault = Some(
                                    ObserverError::ReplayRequired(
                                        LogReplayRequired {
                                            place: ReplayPlace::Component(component),
                                            reason: ReplayReason::TruncatedBeforeCatchUp,
                                        },
                                    ),
                                );
                            } else {
                                match total.checked_add(length - cursor.byte_offset) {
                                    Some(sum) => {
                                        total = sum;
                                    },
                                    None => {
                                        fault = Some(ObserverError::SuffixOverflow);
                                    },
                                }
                            }
                        },
                    }
                }
            }
            if let Some(e) = fault {
                proof {
                    assert(catch_up_bytes(self@, files.entries(), i + 1) == Err::<
                        u64,
                        ObserverError,
                    >(e));
                    first_catch_up_fault_stays(self@, files.entries(), i + 1, 5);
                }
                return Err(e);
            }
            i = i + 1;
        }
        Ok(total)
    }
}

proof fn first_catch_up_fault_stays(
    o: ObserverModel,
    files: Map<LogComponent, LogFile>,
    n: int,
    m: int,
)
    requires
        n <= m,
        catch_up_bytes(o, files, n) is Err,
    ensures
        catch_up_bytes(o, files, m) == catch_up_bytes(o, files, n),
    decreases m - n,
{
    if n < m {
        first_catch_up_fault_stays(o, files, n, m - 1);
    }
}

/// What taking a checkpoint up again and reading on gives. Where the checkpoint is rejected, a
/// fresh attach to the current deck answers it; nothing of it is shown.
pub enum ResumeOutcome {
    Restored { observer: SessionObserver, lines: Vec<SourcedLine> },
    Rejected { reason: String },
    Failed { error: ObserverError },
}

/// Whether an outcome is the right one.
pub open spec fn resumed(
    r: ResumeOutcome,
    cp: CheckpointModel,
    context: ResumeContext,
    files: Map<LogComponent, LogFile>,
    after: Map<LogComponent, LogFile>,
) -> bool {
    let session = context.place.path@;
    match restored(cp, context, files) {
        Err(fault) => r matches ResumeOutcome::Rejected { reason } && reason@ == fault_text(
            fault,
            session,
            unknown_component(cp, context.sources@),
        ),
        Ok(o) => match catch_up_bytes(o, files, 5) {
            Err(ObserverError::ReplayRequired(e)) => {
                &&& r matches ResumeOutcome::Rejected { reason }
                &&& reason@ == "checkpoint changed before suffix catch-up: "@ + replay_text(
                    e,
                    session,
                )
            },
            Err(e) => r matches ResumeOutcome::Failed { error } && error == e,
            Ok(bytes) => if bytes > CHECKPOINT_CATCH_UP_BYTES {
                &&& r matches ResumeOutcome::Rejected { reason }
                &&& reason@ == "validated checkpoint has "@ + decimal(bytes as nat)
                    + " newly appended event-log bytes; live attach uses bounded current-state resync"@
            } else {
                let p = polled(o, files, after);
                match p.result {
                    Ok(_) => {
                        &&& r matches ResumeOutcome::Restored { observer, lines }
                        &&& observer.wf()
                        &&& observer@ == (ObserverModel {
                            diagnostics: AttachDiagnostics {
                                checkpoint_suffix_bytes_replayed: bytes,
                                ..p.observer.diagnostics
                            },
                            ..p.observer
                        })
                        &&& sourced_models(lines@) == p.lines
                    },
                    Err(ObserverError::ReplayRequired(e)) => {
                        &&& r matches ResumeOutcome::Rejected { reason }
                        &&& reason@ == "checkpoint suffix could not be resumed safely: "@
                            + replay_text(e, session)
                    },
                    Err(e) => r matches ResumeOutcome::Failed { error } && error == e,
                }
            },
        },
    }
}

fn rejected(words: &str, e: LogReplayRequired, session: &str) -> (r: ResumeOutcome)
    ensures
        r matches ResumeOutcome::Rejected { reason } && reason@ == words@ + replay_text(
            e,
            session@,
        ),
{
    let mut reason = text::copy(words);
    reason.append(e.message(session).as_str());
    ResumeOutcome::Rejected { reason }
}

/// Takes a checkpoint up again and reads the few records that were added since.
pub fn resume_checkpoint(
    checkpoint: ObserverCheckpoint,
    context: &ResumeContext,
    files: &ComponentMap<LogFile>,
    after: &ComponentMap<LogFile>,
) -> (r: ResumeOutcome)
    requires
        checkpoint.cursors.wf(),
        files.wf(),
        after.wf(),
    ensures
        resumed(r, checkpoint@, *context, files.entries(), after.entries()),
{
    let session = context.place.path.as_str();
    let unknown = find_unknown_component(&checkpoint, &context.sources);
    let mut observer = match restore_checkpoint(checkpoint, context, files) {
        Err(fault) => return ResumeOutcome::Rejected {
            reason: fault.message(session, unknown.as_str()),
        },
        Ok(observer) => observer,
    };
    let bytes: u64 = match observer.checkpoint_suffix_bytes(files) {
        Err(ObserverError::ReplayRequired(e)) => return rejected(
            "checkpoint changed before suffix catch-up: ",
            e,
            session,
        ),
        Err(error) => return ResumeOutcome::Failed { error },
        Ok(bytes) => bytes,
    };
    if bytes > CHECKPOINT_CATCH_UP_BYTES {
        let mut reason = text::copy("validated checkpoint has ");
        text::push_decimal(&mut reason, bytes);
        reason.append(
            " newly appended event-log bytes; live attach uses bounded current-state resync",
        );
        return ResumeOutcome::Rejected { reason };
    }
    let PollOutcome { lines, result } = observer.poll(files, after);
    match result {
        Ok(_) => {
            observer.diagnostics.checkpoint_suffix_bytes_replayed = bytes;
            ResumeOutcome::Restored { observer, lines }
        },
        Err(ObserverError::ReplayRequired(e)) => rejected(
            "checkpoint suffix could not be resumed safely: ",
            e,
            session,
        ),
        Err(error) => ResumeOutcome::Failed { error },
    }
}

/// What became of a saved checkpoint. One that was rejected does no harm: the session is then
/// attached to from its current state.
#[derive(Debug, PartialEq, Eq)]
pub enum CheckpointRestoreStatus {
    Restored,
    NotFound,
    Rejected { reason: String },
}

/// What was found where the checkpoint is saved.
pub enum StoredCheckpoint {
    Missing,
    Unreadable { reason: String },
    Found { checkpoint: ObserverCheckpoint, context: ResumeContext },
}

impl StoredCheckpoint {
    /// Whether the checkpoint, if there is one, has its cursors in order.
    pub open spec fn wf(self) -> bool {
        self matches StoredCheckpoint::Found { checkpoint, .. } ==> checkpoint.cursors.wf()
    }
}

/// The part of the result that an outcome gives.
pub open spec fn follows_outcome(
    r: Result<(Option<Attached>, CheckpointRestoreStatus), ObserverError>,
    outcome: ResumeOutcome,
) -> bool {
    match outcome {
        ResumeOutcome::Restored { observer, lines } => {
            &&& r matches Ok((Some(attached), status))
            &&& attached == Attached { observer, lines }
            &&& status is Restored
        },
        ResumeOutcome::Rejected { reason } => r matches Ok((None, status)) && status
            == (CheckpointRestoreStatus::Rejected { reason }),
        ResumeOutcome::Failed { error } => r == Err::<
            (Option<Attached>, CheckpointRestoreStatus),
            ObserverError,
        >(error),
    }
}

impl SessionObserver {
    /// Attaches to a session by its saved checkpoint. Where there is none, or where it does not
    /// hold any more, nothing is attached, and the status says why.
    pub fn attach_with_checkpoint(
        stored: StoredCheckpoint,
        files: &ComponentMap<LogFile>,
        after: &ComponentMap<LogFile>,
    ) -> (r: Result<(Option<Attached>, CheckpointRestoreStatus), ObserverError>)
        requires
            stored.wf(),
            files.wf(),
            after.wf(),
        ensures
            match stored {
                StoredCheckpoint::Missing => r matches Ok((None, status)) && status is NotFound,
                StoredCheckpoint::Unreadable { reason } => r matches Ok((None, status)) && status
                    == (CheckpointRestoreStatus::Rejected { reason }),
                StoredCheckpoint::Found { checkpoint, context } => exists|outcome: ResumeOutcome|
                    #![trigger follows_outcome(r, outcome)]
                    resumed(outcome, checkpoint@, context, files.entries(), after.entries())
                        && follows_outcome(r, outcome),
            },
    {
        match stored {
            StoredCheckpoint::Missing => Ok((None, CheckpointRestoreStatus::NotFound)),
            StoredCheckpoint::Unreadable { reason } => Ok(
                (None, CheckpointRestoreStatus::Rejected { reason }),
            ),
            StoredCheckpoint::Found { checkpoint, context } => {
                let outcome = resume_checkpoint(checkpoint, &context, files, after);
                let ghost outcome_seen = outcome;
                let r: Result<(Option<Attached>, CheckpointRestoreStatus), ObserverError> =
                    match outcome {
                    ResumeOutcome::Restored { observer, lines } => Ok(
                        (Some(Attached { observer, lines }), CheckpointRestoreStatus::Restored),
                    ),
                    ResumeOutcome::Rejected { reason } => Ok(
                        (None, CheckpointRestoreStatus::Rejected { reason }),
                    ),
                    ResumeOutcome::Failed { error } => Err(error),
                };
                assert(follows_outcome(r, outcome_seen));
                r
            },
        }
    }
}

/// The saved form of one cursor.
pub open spec fn saved_cursor(o: ObserverModel, c: LogComponent) -> PersistedModel {
    PersistedModel {
        cursor: o.cursors[c],
        identity: o.identities[c],
        tail: if o.witnesses.contains_key(c) {
            Some(o.witnesses[c])
        } else {
            None
        },
    }
}

/// The saved form of an observer, before its checksum is set.
pub open spec fn saved_observer(
    o: ObserverModel,
    session_path: Seq<char>,
    state_schema_version: u32,
) -> CheckpointModel {
    CheckpointModel {
        schema_version: OBSERVER_CHECKPOINT_SCHEMA_VERSION,
        observer_snapshot_schema_version: OBSERVER_SNAPSHOT_SCHEMA_VERSION,
        state_schema_version,
        session_path,
        session_id: o.session_id,
        cursors: Map::new(
            |c: LogComponent| o.cursors.contains_key(c),
            |c: LogComponent| saved_cursor(o, c),
        ),
        last_line_order: o.state.order,
        last_source: o.state.source,
        parser: checkpoint_of(o.state.parser),
        integrity_hash: 0,
    }
}

fn copy_source(s: &EventSource) -> (r: EventSource)
    ensures
        r@ == s@,
{
    EventSource {
        session_id: s.session_id.clone(),
        component: s.component.clone(),
        byte_offset: s.byte_offset,
        line_hash: s.line_hash,
    }
}

impl ObserverCheckpoint {
    /// Saves an observer. Its checksum is still to be set. Fails where a cursor has no file
    /// identity.
    pub fn from_observer(observer: &SessionObserver, session_path: &str, state_schema_version: u32)
        -> (r: Option<Self>)
        requires
            observer.wf(),
        ensures
            match r {
                Some(cp) => {
                    &&& cp.cursors.wf()
                    &&& cp@ == saved_observer(observer@, session_path@, state_schema_version)
                    &&& forall|c: LogComponent| #[trigger]
                        observer@.cursors.contains_key(c) ==> observer@.identities.contains_key(c)
                },
                None => exists|c: LogComponent| #[trigger]
                    observer@.cursors.contains_key(c) && !observer@.identities.contains_key(c),
            },
    {
        let ghost o = observer@;
        let mut cursors: ComponentMap<PersistedCursor> = ComponentMap::new();
        let mut i: usize = 0;
        while i < 5
            invariant
                i <= 5,
                observer.wf(),
                o == observer@,
                cursors.wf(),
                forall|c: LogComponent| #[trigger]
                    cursors.entries().contains_key(c) <==> c.rank() < i && o.cursors.contains_key(
                        c,
                    ),
                forall|c: LogComponent| #[trigger]
                    cursors.entries().contains_key(c) ==> o.identities.contains_key(c)
                        && cursors.entries()[c]@ == saved_cursor(o, c),
            decreases 5 - i,
        {
            let component = REQUIRED_COMPONENTS[i];
            assert(component.rank() == i && forall|c: LogComponent| #[trigger]
                c.rank() == i ==> c == component) by {
                crate::merge::rank_of_required(i as int);
            }
            if let Some(cursor) = observer.cursors.get(component) {
                let file_identity = match observer.file_identities.get(component) {
                    None => {
                        assert(o.cursors.contains_key(component));
                        return None;
                    },
                    Some(identity) => *identity,
                };
                let tail_checkpoint = match observer.checkpoints.get(component) {
                    None => {
                        assert(!o.witnesses.contains_key(component));
                        None
                    },
                    Some(w) => {
                        assert(o.witnesses.contains_key(component));
                        Some(FileCheckpoint {
                            start: w.start,
                            bytes: vstd::slice::slice_to_vec(w.bytes.as_slice()),
                        })
                    },
                };
                let p = PersistedCursor { cursor: *cursor, file_identity, tail_checkpoint };
                assert(p@ == saved_cursor(o, component));
                cursors.insert(component, p);
            }
            i = i + 1;
        }
        let last_source = match &observer.state.source {
            Some(s) => Some(copy_source(s)),
            None => None,
        };
        let cp = ObserverCheckpoint {
            schema_version: OBSERVER_CHECKPOINT_SCHEMA_VERSION,
            observer_snapshot_schema_version: OBSERVER_SNAPSHOT_SCHEMA_VERSION,
            state_schema_version,
            session_path: text::copy(session_path),
            session_id: observer.session_id.clone(),
            cursors,
            last_line_order: observer.state.order,
            last_source,
            parser: observer.state.parser.checkpoint(),
            integrity_hash: 0,
        };
        proof {
            let wanted = saved_observer(o, session_path@, state_schema_version);
            assert forall|c: LogComponent| #[trigger] cp@.cursors.contains_key(c)
                == wanted.cursors.contains_key(c) by {
                assert(c.rank() < 5);
                assert(cursors.entries().contains_key(c) == o.cursors.contains_key(c));
            }
            assert(cp@.cursors =~= wanted.cursors);
            assert forall|c: LogComponent| #[trigger]
                o.cursors.contains_key(c) implies o.identities.contains_key(c) by {
                assert(cursors.entries().contains_key(c));
            }
        }
        Some(cp)
    }
}

/// Taking up a saved observer gives back what it knew: parser, order, cursors, identities and
/// witnesses.
pub proof fn saving_keeps_the_observer(
    o: ObserverModel,
    session_path: Seq<char>,
    state_schema_version: u32,
)
    requires
        o.identities.dom() == o.cursors.dom(),
        o.witnesses.dom().subset_of(o.cursors.dom()),
    ensures
        ({
            let cp = saved_observer(o, session_path, state_schema_version);
            &&& restored_from(cp.parser) == Some(o.state.parser)
            &&& restored_observer(cp, o.session_id, o.state.parser) == (ObserverModel {
                diagnostics: plain_diagnostics(AttachMethod::VerifiedCheckpoint),
                ..o
            })
        }),
{
    let cp = saved_observer(o, session_path, state_schema_version);
    let r = restored_observer(cp, o.session_id, o.state.parser);
    crate::log_parser::checkpoint_restores_the_parser(o.state.parser);
    assert(r.cursors =~= o.cursors);
    assert forall|c: LogComponent| r.identities.contains_key(c) == o.identities.contains_key(c) by {
        assert(o.identities.dom().contains(c) == o.cursors.dom().contains(c));
    }
    assert(r.identities =~= o.identities);
    assert forall|c: LogComponent| r.witnesses.contains_key(c) == o.witnesses.contains_key(c) by {
        assert(o.witnesses.dom().contains(c) ==> o.cursors.dom().contains(c));
    }
    assert(r.witnesses =~= o.witnesses);
}

/// A checkpoint of other files is never taken up: each log has to be the same file and hold the
/// same bytes before its cursor.
pub proof fn restored_logs_continue_what_was_read(
    cp: CheckpointModel,
    context: ResumeContext,
    files: Map<LogComponent, LogFile>,
    c: LogComponent,
)
    requires
        restored(cp, context, files) is Ok,
    ensures
        cp.cursors.contains_key(c) == files.contains_key(c),
        cp.cursors.contains_key(c) ==> {
            &&& files[c].identity == cp.cursors[c].identity
            &&& cp.cursors[c].cursor.byte_offset <= files[c].bytes@.len()
            &&& cp.cursors[c].tail matches Some(w) ==> still_there(files[c].bytes@, w)
            &&& cp.cursors[c].tail is None ==> cp.cursors[c].cursor.byte_offset == 0
        },
{
    faultless_cursors(cp, files, 5, c);
}

proof fn faultless_cursors(
    cp: CheckpointModel,
    files: Map<LogComponent, LogFile>,
    n: int,
    c: LogComponent,
)
    requires
        c.rank() < n <= 5,
        first_cursor_fault(cp, files, n) is None,
    ensures
        cursor_fault(cp, files, c) is None,
    decreases n,
{
    crate::merge::rank_of_required(n - 1);
    assert(c.rank() == n - 1 ==> c == REQUIRED_COMPONENTS@[n - 1]);
    if c.rank() < n - 1 {
        faultless_cursors(cp, files, n - 1, c);
    }
}

} // verus!
