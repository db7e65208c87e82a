//! Reading several component logs as one stream of records.
//!
//! At most one record of each component is held at a time, and the earliest of them is taken
//! next. The order is that of the time of day, then of the component, then of the place in the
//! file.
use crate::log_component::{
    component_can_emit_events, emits_events, filename_of, ComponentMap, LogComponent,
    REQUIRED_COMPONENTS,
};
use crate::log_parser::{line_step, HearthstoneLogParser, LineModel, ParserModel, RawLogLine};
use crate::log_reader::{
    next_candidate, read_next, reading_moves_forward, ComponentLogReader, LogCursor, ReadError,
};
use crate::state::{event_models, EventModel, EventSource, GameEvent, SourceModel};
use crate::text;
use vstd::prelude::*;
use vstd::string::StrSliceExecFns;
use vstd::utf8::encode_utf8;

verus! {

/// The first value of the line checksum.
pub const FNV_OFFSET_BASIS: u64 = 0xcbf2_9ce4_8422_2325;

/// The factor of the line checksum.
pub const FNV_PRIME: u64 = 0x0000_0100_0000_01b3;

/// The 64-bit FNV-1a checksum.
pub open spec fn checksum(bytes: Seq<u8>) -> u64
    decreases bytes.len(),
{
    if bytes.len() == 0 {
        FNV_OFFSET_BASIS
    } else {
        let mixed = checksum(bytes.drop_last()) ^ (bytes.last() as u64);
        ((mixed * FNV_PRIME) % 0x1_0000_0000_0000_0000) as u64
    }
}

/// The 64-bit FNV-1a checksum. It finds rewritten bytes; it is no protection against forgery.
pub fn fnv1a64(bytes: &[u8]) -> (r: u64)
    ensures
        r == checksum(bytes@),
{
    let mut hash: u64 = FNV_OFFSET_BASIS;
    let mut i: usize = 0;
    assert(bytes@.take(0) =~= Seq::<u8>::empty());
    while i < bytes.len()
        invariant
            i <= bytes.len(),
            hash == checksum(bytes@.take(i as int)),
        decreases bytes.len() - i,
    {
        let mixed: u64 = hash ^ (bytes[i] as u64);
        hash = mixed.wrapping_mul(FNV_PRIME);
        assert(bytes@.take(i + 1).drop_last() =~= bytes@.take(i as int));
        i = i + 1;
    }
    assert(bytes@.take(i as int) =~= bytes@);
    hash
}

/// The place of a record among all records of a session.
#[derive(Clone, Copy, Debug, PartialEq, Eq, Structural)]
pub struct LineOrder {
    pub timestamp: Option<u64>,
    pub component: LogComponent,
    pub byte_offset: u64,
}

/// The place of a record among all records.
pub open spec fn order_of(line: LineModel) -> LineOrder {
    LineOrder {
        timestamp: line.timestamp_key,
        component: line.component,
        byte_offset: line.byte_offset,
    }
}

/// Whether a time comes before another. A record without a time comes first.
pub open spec fn time_lt(a: Option<u64>, b: Option<u64>) -> bool {
    match (a, b) {
        (None, Some(_)) => true,
        (Some(x), Some(y)) => x < y,
        _ => false,
    }
}

/// Whether a place comes before another: by time, then component, then place in the file.
pub open spec fn order_lt(a: LineOrder, b: LineOrder) -> bool {
    ||| time_lt(a.timestamp, b.timestamp)
    ||| a.timestamp == b.timestamp && a.component.rank() < b.component.rank()
    ||| a.timestamp == b.timestamp && a.component == b.component && a.byte_offset < b.byte_offset
}

/// The order of records is a strict total order.
pub proof fn order_is_total(a: LineOrder, b: LineOrder, c: LineOrder)
    ensures
        !order_lt(a, a),
        order_lt(a, b) && order_lt(b, c) ==> order_lt(a, c),
        order_lt(a, b) || order_lt(b, a) || a == b,
{
    assert(a.component.rank() == b.component.rank() ==> a.component == b.component);
}

/// The place of a record among all records.
pub fn raw_line_order(line: &RawLogLine) -> (r: LineOrder)
    ensures
        r == order_of(line@),
{
    LineOrder {
        timestamp: line.timestamp_key,
        component: line.component,
        byte_offset: line.byte_offset,
    }
}

impl LineOrder {
    /// Whether this place comes before another.
    pub fn precedes(&self, other: &LineOrder) -> (r: bool)
        ensures
            r == order_lt(*self, *other),
    {
        let a: usize = self.component.index();
        let b: usize = other.component.index();
        let later = a < b || (a == b && self.byte_offset < other.byte_offset);
        match (self.timestamp, other.timestamp) {
            (None, Some(_)) => true,
            (Some(_), None) => false,
            (None, None) => later,
            (Some(x), Some(y)) => x < y || (x == y && later),
        }
    }
}

/// What identifies a physical log line in a session.
pub open spec fn source_of(session: Seq<char>, line: LineModel) -> SourceModel {
    SourceModel {
        session_id: session,
        component: filename_of(line.component),
        byte_offset: line.byte_offset,
        line_hash: checksum(encode_utf8(line.raw)),
    }
}

/// What identifies a physical log line. An offset alone is not enough: the checksum shows
/// whether the line at that place was rewritten.
pub fn event_source(session_id: &str, line: &RawLogLine) -> (r: EventSource)
    ensures
        r@ == source_of(session_id@, line@),
{
    EventSource {
        session_id: text::copy(session_id),
        component: text::copy(line.component.filename()),
        byte_offset: line.byte_offset,
        line_hash: fnv1a64(line.raw.as_str().as_bytes()),
    }
}

/// The events of one physical log line. A choice at an open latch stands as a pick, whatever
/// card was chosen.
pub struct SourcedLine {
    pub source: EventSource,
    pub events: Vec<GameEvent>,
}

/// The events of one physical log line, over texts.
pub struct SourcedModel {
    pub source: SourceModel,
    pub events: Seq<EventModel>,
}

impl View for SourcedLine {
    type V = SourcedModel;

    open spec fn view(&self) -> SourcedModel {
        SourcedModel { source: self.source@, events: event_models(self.events@) }
    }
}

/// The models of sourced lines.
pub open spec fn sourced_models(lines: Seq<SourcedLine>) -> Seq<SourcedModel> {
    lines.map_values(|l: SourcedLine| l@)
}

/// A component log as it was read.
pub struct LogFile {
    pub identity: FileIdentity,
    pub bytes: Vec<u8>,
}

/// What tells a file from another that took its name.
#[derive(Clone, Copy, Debug, PartialEq, Eq, Structural)]
pub struct FileIdentity {
    pub device: u64,
    pub inode: u64,
}

/// The records of one component from a place on that can hold an event: up to the first that
/// cannot be read.
pub struct Candidates {
    pub lines: Seq<LineModel>,
    pub fault: Option<ReadError>,
    pub end: LogCursor,
}

/// The records from a place on that can hold an event.
pub open spec fn candidates(component: LogComponent, b: Seq<u8>, cursor: LogCursor) -> Candidates
    decreases b.len() - cursor.byte_offset,
{
    let (next, found) = next_candidate(component, b, cursor);
    match found {
        Err(e) => Candidates { lines: Seq::empty(), fault: Some(e), end: next },
        Ok(None) => Candidates { lines: Seq::empty(), fault: None, end: next },
        Ok(Some(line)) => if cursor.byte_offset < next.byte_offset <= b.len() {
            let rest = candidates(component, b, next);
            Candidates { lines: seq![line] + rest.lines, fault: rest.fault, end: rest.end }
        } else {
            Candidates { lines: Seq::empty(), fault: None, end: next }
        },
    }
}

/// The number of records of a component that are still to come.
pub open spec fn waiting(lists: Map<LogComponent, Candidates>, c: LogComponent) -> nat {
    if lists.contains_key(c) {
        lists[c].lines.len()
    } else {
        0
    }
}

/// The number of records that are still to come.
pub open spec fn total_waiting(lists: Map<LogComponent, Candidates>) -> nat {
    waiting(lists, LogComponent::LoadingScreen) + waiting(lists, LogComponent::Power) + waiting(
        lists,
        LogComponent::Zone,
    ) + waiting(lists, LogComponent::Arena) + waiting(lists, LogComponent::Asset)
}

/// The component, among the first ones, whose next record comes first.
pub open spec fn earliest(lists: Map<LogComponent, Candidates>, n: int) -> Option<LogComponent>
    decreases n,
{
    if n <= 0 {
        None
    } else {
        let best = earliest(lists, n - 1);
        let c = REQUIRED_COMPONENTS@[n - 1];
        if waiting(lists, c) > 0 && match best {
            None => true,
            Some(d) => order_lt(order_of(lists[c].lines[0]), order_of(lists[d].lines[0])),
        } {
            Some(c)
        } else {
            best
        }
    }
}

pub(crate) proof fn earliest_has_a_record(lists: Map<LogComponent, Candidates>, n: int)
    requires
        0 <= n <= 5,
    ensures
        match earliest(lists, n) {
            Some(c) => waiting(lists, c) > 0 && c.rank() < n,
            None => forall|k: int|
                0 <= k < n ==> waiting(lists, #[trigger] REQUIRED_COMPONENTS@[k]) == 0,
        },
    decreases n,
{
    if n > 0 {
        earliest_has_a_record(lists, n - 1);
        rank_of_required(n - 1);
    }
}

pub(crate) proof fn rank_of_required(k: int)
    requires
        0 <= k < 5,
    ensures
        REQUIRED_COMPONENTS@[k].rank() == k,
{
    assert(k == 0 || k == 1 || k == 2 || k == 3 || k == 4);
}

proof fn earliest_is_first(lists: Map<LogComponent, Candidates>, n: int, d: LogComponent)
    requires
        0 <= n <= 5,
        d.rank() < n,
        waiting(lists, d) > 0,
        forall|e: LogComponent|
            waiting(lists, e) > 0 ==> #[trigger] lists[e].lines[0].component == e,
    ensures
        match earliest(lists, n) {
            None => false,
            Some(c) => c == d || order_lt(
                order_of(lists[c].lines[0]),
                order_of(lists[d].lines[0]),
            ),
        },
    decreases n,
{
    rank_of_required(n - 1);
    let c = REQUIRED_COMPONENTS@[n - 1];
    earliest_has_a_record(lists, n - 1);
    if d.rank() < n - 1 {
        earliest_is_first(lists, n - 1, d);
        let b = earliest(lists, n - 1)->0;
        order_is_total(
            order_of(lists[c].lines[0]),
            order_of(lists[b].lines[0]),
            order_of(lists[d].lines[0]),
        );
    } else {
        assert(d == c) by {
            assert(d.rank() == c.rank());
        }
        if let Some(b) = earliest(lists, n - 1) {
            order_is_total(
                order_of(lists[c].lines[0]),
                order_of(lists[b].lines[0]),
                order_of(lists[b].lines[0]),
            );
            assert(lists[b].lines[0].component == b);
            assert(lists[c].lines[0].component == c);
        }
    }
}

/// The record that is taken next comes before the next record of every other component.
pub proof fn next_record_is_the_earliest(
    lists: Map<LogComponent, Candidates>,
    c: LogComponent,
    d: LogComponent,
)
    requires
        forall|e: LogComponent|
            waiting(lists, e) > 0 ==> #[trigger] lists[e].lines[0].component == e,
        earliest(lists, 5) == Some(c),
        waiting(lists, d) > 0,
        c != d,
    ensures
        waiting(lists, c) > 0,
        order_lt(order_of(lists[c].lines[0]), order_of(lists[d].lines[0])),
{
    earliest_has_a_record(lists, 5);
    earliest_is_first(lists, 5, d);
}

/// The records of a component without its next one.
pub open spec fn without_first(l: Candidates) -> Candidates {
    Candidates { lines: l.lines.skip(1), fault: l.fault, end: l.end }
}

/// All records in order, up to the first that cannot be read.
pub struct Merged {
    pub lines: Seq<LineModel>,
    pub fault: Option<ReadError>,
}

/// All records in order: at each step the earliest next record.
pub open spec fn merged(lists: Map<LogComponent, Candidates>) -> Merged
    decreases total_waiting(lists),
    via merging_ends
{
    match earliest(lists, 5) {
        None => Merged { lines: Seq::empty(), fault: None },
        Some(c) => {
            let head = lists[c].lines[0];
            if lists[c].lines.len() == 1 && lists[c].fault is Some {
                Merged { lines: seq![head], fault: lists[c].fault }
            } else {
                let rest = merged(lists.insert(c, without_first(lists[c])));
                Merged { lines: seq![head] + rest.lines, fault: rest.fault }
            }
        },
    }
}

#[via_fn]
proof fn merging_ends(lists: Map<LogComponent, Candidates>) {
    earliest_has_a_record(lists, 5);
    if let Some(c) = earliest(lists, 5) {
        one_less_waits(lists, c);
    }
}

pub(crate) proof fn one_less_waits(lists: Map<LogComponent, Candidates>, c: LogComponent)
    requires
        waiting(lists, c) > 0,
    ensures
        total_waiting(lists.insert(c, without_first(lists[c]))) < total_waiting(lists),
{
    let rest = lists.insert(c, without_first(lists[c]));
    assert(forall|d: LogComponent| d != c ==> waiting(rest, d) == waiting(lists, d));
    assert(waiting(rest, c) == waiting(lists, c) - 1);
}

/// Whether a record stands at a place of a component's records.
pub open spec fn stands_in(
    lists: Map<LogComponent, Candidates>,
    line: LineModel,
    c: LogComponent,
    k: int,
) -> bool {
    0 <= k < waiting(lists, c) && lists[c].lines[k] == line
}

/// Every record of the merged stream is a record of some component.
pub proof fn merging_invents_nothing(lists: Map<LogComponent, Candidates>, i: int)
    requires
        0 <= i < merged(lists).lines.len(),
    ensures
        exists|c: LogComponent, k: int| stands_in(lists, merged(lists).lines[i], c, k),
    decreases total_waiting(lists),
{
    earliest_has_a_record(lists, 5);
    let c = earliest(lists, 5)->0;
    if i == 0 {
        assert(stands_in(lists, merged(lists).lines[0], c, 0));
    } else {
        let rest = lists.insert(c, without_first(lists[c]));
        one_less_waits(lists, c);
        merging_invents_nothing(rest, i - 1);
        let line = merged(lists).lines[i];
        assert(line == merged(rest).lines[i - 1]);
        let (d, k) = choose|d: LogComponent, k: int| stands_in(rest, line, d, k);
        if d == c {
            assert(stands_in(lists, line, c, k + 1));
        } else {
            assert(stands_in(lists, line, d, k));
        }
    }
}

/// Whether every component's records stand in order, each under its own component.
pub open spec fn lists_in_order(lists: Map<LogComponent, Candidates>) -> bool {
    &&& forall|c: LogComponent, k: int|
        0 <= k < waiting(lists, c) ==> (#[trigger] lists[c].lines[k]).component == c
    &&& forall|c: LogComponent, j: int, k: int|
        0 <= j < k < waiting(lists, c) ==> order_lt(
            order_of(#[trigger] lists[c].lines[j]),
            order_of(#[trigger] lists[c].lines[k]),
        )
}

/// Merging components whose records stand in order gives all records in order.
pub proof fn merging_keeps_order(lists: Map<LogComponent, Candidates>, i: int, j: int)
    requires
        lists_in_order(lists),
        0 <= i < j < merged(lists).lines.len(),
    ensures
        order_lt(order_of(merged(lists).lines[i]), order_of(merged(lists).lines[j])),
    decreases total_waiting(lists),
{
    earliest_has_a_record(lists, 5);
    let c = earliest(lists, 5)->0;
    let rest = lists.insert(c, without_first(lists[c]));
    one_less_waits(lists, c);
    let later = merged(lists).lines[j];
    assert(later == merged(rest).lines[j - 1]);
    if i == 0 {
        merging_invents_nothing(rest, j - 1);
        let (d, k) = choose|d: LogComponent, k: int| stands_in(rest, later, d, k);
        if d == c {
            assert(later == lists[c].lines[k + 1]);
        } else {
            assert(later == lists[d].lines[k]);
            next_record_is_the_earliest(lists, c, d);
            if k > 0 {
                order_is_total(
                    order_of(lists[c].lines[0]),
                    order_of(lists[d].lines[0]),
                    order_of(later),
                );
            }
        }
    } else {
        assert(lists_in_order(rest)) by {
            assert forall|d: LogComponent, k: int|
                0 <= k < waiting(rest, d) implies (#[trigger] rest[d].lines[k]).component == d by {
                if d == c {
                    assert(rest[d].lines[k] == lists[c].lines[k + 1]);
                } else {
                    assert(rest[d].lines[k] == lists[d].lines[k]);
                }
            }
            assert forall|d: LogComponent, m: int, k: int|
                0 <= m < k < waiting(rest, d) implies order_lt(
                order_of(#[trigger] rest[d].lines[m]),
                order_of(#[trigger] rest[d].lines[k]),
            ) by {
                if d == c {
                    assert(rest[d].lines[m] == lists[c].lines[m + 1]);
                    assert(rest[d].lines[k] == lists[c].lines[k + 1]);
                } else {
                    assert(rest[d].lines[m] == lists[d].lines[m]);
                    assert(rest[d].lines[k] == lists[d].lines[k]);
                }
            }
        }
        merging_keeps_order(rest, i - 1, j - 1);
        assert(merged(lists).lines[i] == merged(rest).lines[i - 1]);
    }
}

/// What reducing records carries along.
pub struct ReduceModel {
    pub parser: ParserModel,
    pub order: Option<LineOrder>,
    pub source: Option<SourceModel>,
}

/// The state after one record.
pub open spec fn after_line(s: ReduceModel, session: Seq<char>, line: LineModel) -> ReduceModel {
    ReduceModel {
        parser: line_step(s.parser, line.component, line.message).0,
        order: Some(order_of(line)),
        source: Some(source_of(session, line)),
    }
}

/// What one record gives.
pub open spec fn sourced(s: ReduceModel, session: Seq<char>, line: LineModel) -> SourcedModel {
    SourcedModel {
        source: source_of(session, line),
        events: line_step(s.parser, line.component, line.message).1,
    }
}

/// How reducing a stream of records ended.
#[derive(Clone, Copy, Debug, PartialEq, Eq, Structural)]
pub enum MergeEnd {
    Done,
    OutOfOrder,
    Fault(ReadError),
}

/// What reducing a stream of records gave.
pub struct Outcome {
    pub state: ReduceModel,
    pub steps: Seq<SourcedModel>,
    pub end: MergeEnd,
}

/// Whether a record comes before one that was already reduced.
pub open spec fn too_late(s: ReduceModel, line: LineModel) -> bool {
    match s.order {
        Some(last) => order_lt(order_of(line), last),
        None => false,
    }
}

/// Reduces records one after the other. `checked` asks that none comes before the last one.
pub open spec fn reduced(
    s: ReduceModel,
    session: Seq<char>,
    lines: Seq<LineModel>,
    fault: Option<ReadError>,
    checked: bool,
) -> Outcome
    decreases lines.len(),
{
    if lines.len() == 0 {
        Outcome {
            state: s,
            steps: Seq::empty(),
            end: match fault {
                Some(e) => MergeEnd::Fault(e),
                None => MergeEnd::Done,
            },
        }
    } else if checked && too_late(s, lines[0]) {
        Outcome { state: s, steps: Seq::empty(), end: MergeEnd::OutOfOrder }
    } else {
        let rest = reduced(after_line(s, session, lines[0]), session, lines.skip(1), fault, checked);
        Outcome {
            state: rest.state,
            steps: seq![sourced(s, session, lines[0])] + rest.steps,
            end: rest.end,
        }
    }
}

/// The fault of the first component, among the first ones, whose first record cannot be read.
pub open spec fn start_fault(lists: Map<LogComponent, Candidates>, n: int) -> Option<ReadError>
    decreases n,
{
    if n <= 0 {
        None
    } else {
        match start_fault(lists, n - 1) {
            Some(e) => Some(e),
            None => {
                let c = REQUIRED_COMPONENTS@[n - 1];
                if lists.contains_key(c) && lists[c].lines.len() == 0 {
                    lists[c].fault
                } else {
                    None
                }
            },
        }
    }
}

proof fn first_fault_stays(lists: Map<LogComponent, Candidates>, n: int, m: int)
    requires
        n <= m,
        start_fault(lists, n) is Some,
    ensures
        start_fault(lists, m) == start_fault(lists, n),
    decreases m - n,
{
    if n < m {
        first_fault_stays(lists, n, m - 1);
    }
}

/// What reducing the records of all components in order gives.
pub open spec fn stream_outcome(
    s: ReduceModel,
    session: Seq<char>,
    lists: Map<LogComponent, Candidates>,
    checked: bool,
) -> Outcome {
    match start_fault(lists, 5) {
        Some(e) => Outcome { state: s, steps: Seq::empty(), end: MergeEnd::Fault(e) },
        None => reduced(s, session, merged(lists).lines, merged(lists).fault, checked),
    }
}

/// The records that can hold events, for files and the places to read them from.
pub open spec fn event_lists(
    files: Map<LogComponent, LogFile>,
    places: Map<LogComponent, LogCursor>,
) -> Map<LogComponent, Candidates> {
    Map::new(
        |c: LogComponent| places.contains_key(c) && emits_events(c),
        |c: LogComponent| candidates(c, files[c].bytes@, places[c]),
    )
}

/// The place after the last complete record of a component.
pub open spec fn place_after(c: LogComponent, b: Seq<u8>, cursor: LogCursor) -> LogCursor {
    if emits_events(c) {
        candidates(c, b, cursor).end
    } else {
        crate::log_reader::end_cursor(b)
    }
}

/// What reducing records carries along.
pub struct ReduceState {
    pub parser: HearthstoneLogParser,
    pub order: Option<LineOrder>,
    pub source: Option<EventSource>,
}

/// The model of an optional source.
pub open spec fn opt_source(s: Option<EventSource>) -> Option<SourceModel> {
    match s {
        Some(x) => Some(x@),
        None => None,
    }
}

impl View for ReduceState {
    type V = ReduceModel;

    open spec fn view(&self) -> ReduceModel {
        ReduceModel {
            parser: self.parser@,
            order: self.order,
            source: opt_source(self.source),
        }
    }
}

impl ReduceState {
    /// Reduces one record.
    pub fn take(&mut self, session_id: &str, line: &RawLogLine) -> (r: SourcedLine)
        ensures
            final(self)@ == after_line(old(self)@, session_id@, line@),
            r@ == sourced(old(self)@, session_id@, line@),
    {
        let source = event_source(session_id, line);
        self.order = Some(raw_line_order(line));
        self.source = Some(
            EventSource {
                session_id: source.session_id.clone(),
                component: source.component.clone(),
                byte_offset: source.byte_offset,
                line_hash: source.line_hash,
            },
        );
        let events = self.parser.parse_candidates(line);
        SourcedLine { source, events }
    }
}

/// The records of a component whose next record has already been read.
spec fn held(
    c: LogComponent,
    files: Map<LogComponent, LogFile>,
    readers: Map<LogComponent, ComponentLogReader>,
    pending: Map<LogComponent, RawLogLine>,
) -> Candidates {
    if pending.contains_key(c) {
        let rest = candidates(c, files[c].bytes@, readers[c].place());
        Candidates { lines: seq![pending[c]@] + rest.lines, fault: rest.fault, end: rest.end }
    } else {
        Candidates { lines: Seq::empty(), fault: None, end: readers[c].place() }
    }
}

spec fn held_lists(
    files: Map<LogComponent, LogFile>,
    readers: Map<LogComponent, ComponentLogReader>,
    pending: Map<LogComponent, RawLogLine>,
) -> Map<LogComponent, Candidates> {
    Map::new(
        |c: LogComponent| readers.contains_key(c) && emits_events(c),
        |c: LogComponent| held(c, files, readers, pending),
    )
}

spec fn readers_fit(
    files: Map<LogComponent, LogFile>,
    readers: Map<LogComponent, ComponentLogReader>,
) -> bool {
    forall|c: LogComponent| #[trigger]
        readers.contains_key(c) ==> files.contains_key(c) && readers[c].source() == c
}

fn first_records(
    files: &ComponentMap<LogFile>,
    readers: &mut ComponentMap<ComponentLogReader>,
    pending: &mut ComponentMap<RawLogLine>,
    Ghost(lists): Ghost<Map<LogComponent, Candidates>>,
) -> (r: Result<(), ReadError>)
    requires
        files.wf(),
        old(readers).wf(),
        old(pending).wf(),
        old(pending).entries() == Map::<LogComponent, RawLogLine>::empty(),
        readers_fit(files.entries(), old(readers).entries()),
        lists == event_lists(
            files.entries(),
            old(readers).entries().map_values(|x: ComponentLogReader| x.place()),
        ),
    ensures
        final(readers).wf(),
        final(pending).wf(),
        readers_fit(files.entries(), final(readers).entries()),
        final(readers).entries().dom() == old(readers).entries().dom(),
        forall|c: LogComponent|
            !emits_events(c) && old(readers).entries().contains_key(c) ==> #[trigger] final(readers).entries()[c] == old(readers).entries()[c],
        match r {
            Ok(_) => {
                &&& start_fault(lists, 5) is None
                &&& held_lists(files.entries(), final(readers).entries(), final(pending).entries())
                    == lists
                &&& forall|c: LogComponent| #[trigger]
                    final(pending).entries().contains_key(c) ==> lists.contains_key(c)
            },
            Err(e) => start_fault(lists, 5) == Some(e),
        },
{
    let ghost first = readers.entries();
    let mut i: usize = 0;
    while i < 5
        invariant
            i <= 5,
            files.wf(),
            readers.wf(),
            pending.wf(),
            readers_fit(files.entries(), readers.entries()),
            readers.entries().dom() == first.dom(),
            first == old(readers).entries(),
            lists == event_lists(
                files.entries(),
                first.map_values(|x: ComponentLogReader| x.place()),
            ),
            start_fault(lists, i as int) is None,
            forall|c: LogComponent|
                (!emits_events(c) || c.rank() >= i) && first.contains_key(c) ==> #[trigger] readers.entries()[c] == first[c],
            forall|c: LogComponent|
                c.rank() >= i ==> !#[trigger] pending.entries().contains_key(c),
            forall|c: LogComponent| #[trigger]
                pending.entries().contains_key(c) ==> lists.contains_key(c),
            forall|c: LogComponent|
                c.rank() < i && lists.contains_key(c) ==> #[trigger] held(
                    c,
                    files.entries(),
                    readers.entries(),
                    pending.entries(),
                ) == lists[c],
        decreases 5 - i,
    {
        let component = REQUIRED_COMPONENTS[i];
        proof {
            rank_of_required(i as int);
            assert(forall|c: LogComponent| #[trigger] c.rank() == component.rank() ==> c == component);
        }
        if component_can_emit_events(component) {
            let ghost before = readers.entries();
            let ghost waiting_before = pending.entries();
            match readers.remove(component) {
                None => {
                    assert(readers.entries() =~= before);
                },
                Some(reader) => {
                    let mut reader = reader;
                    assert(reader.place() == first[component].place());
                    assert(lists[component] == candidates(
                        component,
                        files.entries()[component].bytes@,
                        reader.place(),
                    ));
                    let found = match files.get(component) {
                        Some(file) => reader.next_event_candidate(file.bytes.as_slice()),
                        None => Ok(None),
                    };
                    readers.insert(component, reader);
                    assert(readers.entries().dom() =~= before.dom());
                    match found {
                        Err(e) => {
                            proof {
                                assert(start_fault(lists, i + 1) == Some(e));
                                first_fault_stays(lists, i + 1, 5);
                            }
                            return Err(e);
                        },
                        Ok(None) => {},
                        Ok(Some(line)) => {
                            pending.insert(component, line);
                        },
                    }
                    proof {
                        assert(held(
                            component,
                            files.entries(),
                            readers.entries(),
                            pending.entries(),
                        ) == lists[component]);
                        assert forall|c: LogComponent|
                            c.rank() < i && lists.contains_key(c) implies #[trigger] held(
                            c,
                            files.entries(),
                            readers.entries(),
                            pending.entries(),
                        ) == lists[c] by {
                            assert(held(c, files.entries(), before, waiting_before) == lists[c]);
                        }
                    }
                },
            }
        }
        i = i + 1;
    }
    assert(held_lists(files.entries(), readers.entries(), pending.entries()) =~= lists) by {
        assert forall|c: LogComponent| lists.contains_key(c) implies held_lists(
            files.entries(),
            readers.entries(),
            pending.entries(),
        )[c] == lists[c] by {
            assert(c.rank() < 5);
        }
    }
    Ok(())
}

/// The component whose held record comes first.
fn next_pending_component(
    pending: &ComponentMap<RawLogLine>,
    Ghost(lists): Ghost<Map<LogComponent, Candidates>>,
) -> (r: Option<LogComponent>)
    requires
        pending.wf(),
        forall|c: LogComponent|
            waiting(lists, c) > 0 <==> #[trigger] pending.entries().contains_key(c),
        forall|c: LogComponent| #[trigger]
            pending.entries().contains_key(c) ==> lists[c].lines[0] == pending.entries()[c]@,
    ensures
        r == earliest(lists, 5),
{
    let mut best: Option<LogComponent> = None;
    let mut i: usize = 0;
    while i < 5
        invariant
            i <= 5,
            pending.wf(),
            forall|c: LogComponent|
                waiting(lists, c) > 0 <==> #[trigger] pending.entries().contains_key(c),
            forall|c: LogComponent| #[trigger]
                pending.entries().contains_key(c) ==> lists[c].lines[0] == pending.entries()[c]@,
            best == earliest(lists, i as int),
        decreases 5 - i,
    {
        let component = REQUIRED_COMPONENTS[i];
        proof {
            earliest_has_a_record(lists, i as int);
        }
        if let Some(line) = pending.get(component) {
            let first = match best {
                None => true,
                Some(b) => match pending.get(b) {
                    Some(other) => raw_line_order(line).precedes(&raw_line_order(other)),
                    None => true,
                },
            };
            if first {
                best = Some(component);
            }
        }
        i = i + 1;
    }
    best
}

/// Reduces the records of all readers in order. At the end the readers stand after the last
/// complete record.
#[verifier::spinoff_prover]
#[verifier::rlimit(60)]
pub(crate) fn reduce_in_order(
    session_id: &str,
    files: &ComponentMap<LogFile>,
    readers: &mut ComponentMap<ComponentLogReader>,
    state: &mut ReduceState,
    checked: bool,
) -> (r: (Vec<SourcedLine>, MergeEnd))
    requires
        files.wf(),
        old(readers).wf(),
        forall|c: LogComponent| #[trigger]
            old(readers).entries().contains_key(c) ==> files.entries().contains_key(c) && old(readers).entries()[c].source() == c,
    ensures
        final(readers).wf(),
        final(readers).entries().dom() == old(readers).entries().dom(),
        ({
            let lists = event_lists(
                files.entries(),
                old(readers).entries().map_values(|x: ComponentLogReader| x.place()),
            );
            let wanted = stream_outcome(old(state)@, session_id@, lists, checked);
            &&& final(state)@ == wanted.state
            &&& sourced_models(r.0@) == wanted.steps
            &&& r.1 == wanted.end
            &&& r.1 is Done ==> forall|c: LogComponent|
                lists.contains_key(c) ==> #[trigger] final(readers).entries()[c].place()
                    == lists[c].end
        }),
        forall|c: LogComponent|
            !emits_events(c) && old(readers).entries().contains_key(c) ==> #[trigger] final(readers).entries()[c] == old(readers).entries()[c],
{
    let ghost first = readers.entries();
    let ghost lists = event_lists(
        files.entries(),
        first.map_values(|x: ComponentLogReader| x.place()),
    );
    let ghost wanted = stream_outcome(state@, session_id@, lists, checked);
    let mut pending: ComponentMap<RawLogLine> = ComponentMap::new();
    let mut steps: Vec<SourcedLine> = Vec::new();
    if let Err(e) = first_records(files, readers, &mut pending, Ghost(lists)) {
        assert(sourced_models(steps@) =~= Seq::<SourcedModel>::empty());
        return (steps, MergeEnd::Fault(e));
    }
    let ghost mut now = lists;
    proof {
        assert(sourced_models(steps@) =~= Seq::<SourcedModel>::empty());
        let rest = reduced(state@, session_id@, merged(now).lines, merged(now).fault, checked);
        assert(sourced_models(steps@) + rest.steps =~= rest.steps);
    }
    loop
        invariant
            files.wf(),
            readers.wf(),
            pending.wf(),
            readers_fit(files.entries(), readers.entries()),
            readers.entries().dom() == first.dom(),
            now == held_lists(files.entries(), readers.entries(), pending.entries()),
            now.dom() == lists.dom(),
            forall|c: LogComponent| #[trigger]
                pending.entries().contains_key(c) ==> lists.contains_key(c),
            forall|c: LogComponent| #[trigger] lists.contains_key(c) ==> now[c].end == lists[c].end,
            first == old(readers).entries(),
            lists == event_lists(
                files.entries(),
                first.map_values(|x: ComponentLogReader| x.place()),
            ),
            wanted == stream_outcome(old(state)@, session_id@, lists, checked),
            forall|c: LogComponent|
                !emits_events(c) && first.contains_key(c) ==> #[trigger] readers.entries()[c]
                    == first[c],
            ({
                let rest = reduced(
                    state@,
                    session_id@,
                    merged(now).lines,
                    merged(now).fault,
                    checked,
                );
                &&& wanted.state == rest.state
                &&& wanted.steps == sourced_models(steps@) + rest.steps
                &&& wanted.end == rest.end
            }),
        decreases total_waiting(now),
    {
        let next = next_pending_component(&pending, Ghost(now));
        let component = match next {
            Some(c) => c,
            None => {
                proof {
                    earliest_has_a_record(now, 5);
                    assert(sourced_models(steps@) + Seq::<SourcedModel>::empty() =~= sourced_models(
                        steps@,
                    ));
                    assert forall|c: LogComponent|
                        lists.contains_key(c) implies #[trigger] readers.entries()[c].place()
                        == lists[c].end by {
                        assert(REQUIRED_COMPONENTS@[c.rank()] == c);
                        assert(waiting(now, c) == 0);
                        assert(!pending.entries().contains_key(c));
                    }
                }
                return (steps, MergeEnd::Done);
            },
        };
        let ghost before = now;
        let ghost rest_of = candidates(
            component,
            files.entries()[component].bytes@,
            readers.entries()[component].place(),
        );
        proof {
            earliest_has_a_record(now, 5);
            one_less_waits(now, component);
        }
        let line = match pending.remove(component) {
            Some(line) => line,
            None => {
                assert(false);
                return (steps, MergeEnd::Done);
            },
        };
        let ghost rest_lists = before.insert(component, without_first(before[component]));
        assert(before[component].lines.skip(1) =~= rest_of.lines);
        let early = match state.order {
            Some(last) => raw_line_order(&line).precedes(&last),
            None => false,
        };
        let ghost here = state@;
        if checked && early {
            assert(sourced_models(steps@) + Seq::<SourcedModel>::empty() =~= sourced_models(
                steps@,
            ));
            return (steps, MergeEnd::OutOfOrder);
        }
        let ghost done = steps@;
        let step = state.take(session_id, &line);
        steps.push(step);
        proof {
            assert(sourced_models(steps@) =~= sourced_models(done).push(step@));
            assert(merged(before).lines.skip(1) =~= if before[component].lines.len() == 1
                && before[component].fault is Some {
                Seq::<LineModel>::empty()
            } else {
                merged(rest_lists).lines
            });
            let rest = reduced(
                state@,
                session_id@,
                merged(before).lines.skip(1),
                merged(before).fault,
                checked,
            );
            assert(sourced_models(done) + (seq![step@] + rest.steps) =~= sourced_models(steps@)
                + rest.steps);
        }
        let found = match readers.remove(component) {
            None => {
                assert(false);
                return (steps, MergeEnd::Done);
            },
            Some(reader) => {
                let mut reader = reader;
                let found = match files.get(component) {
                    Some(file) => reader.next_event_candidate(file.bytes.as_slice()),
                    None => Ok(None),
                };
                readers.insert(component, reader);
                found
            },
        };
        assert(readers.entries().dom() =~= first.dom());
        match found {
            Err(e) => {
                assert(rest_of.lines.len() == 0);
                assert(sourced_models(steps@) + Seq::<SourcedModel>::empty() =~= sourced_models(
                    steps@,
                ));
                return (steps, MergeEnd::Fault(e));
            },
            Ok(None) => {},
            Ok(Some(line)) => {
                pending.insert(component, line);
            },
        }
        proof {
            now = held_lists(files.entries(), readers.entries(), pending.entries());
            assert(now =~= rest_lists) by {
                assert forall|c: LogComponent| now.contains_key(c) implies now[c]
                    == rest_lists[c] by {
                    if c == component {
                        assert(now[c].lines =~= rest_of.lines);
                    }
                }
            }
        }
    }
}

proof fn last_candidate_is_final(component: LogComponent, b: Seq<u8>, cursor: LogCursor)
    requires
        b.len() <= u64::MAX,
        next_candidate(component, b, cursor).1 == Ok::<Option<LineModel>, ReadError>(None),
    ensures
        next_candidate(component, b, next_candidate(component, b, cursor).0) == next_candidate(
            component,
            b,
            cursor,
        ),
    decreases b.len() - cursor.byte_offset,
{
    reading_moves_forward(component, b, cursor);
    let (next, found) = read_next(component, b, cursor);
    if let Ok(Some(line)) = found {
        last_candidate_is_final(component, b, next);
    }
}

/// After the last complete record of a component, nothing follows.
pub proof fn nothing_follows_the_end(component: LogComponent, b: Seq<u8>, cursor: LogCursor)
    requires
        b.len() <= u64::MAX,
        candidates(component, b, cursor).fault is None,
    ensures
        ({
            let end = candidates(component, b, cursor).end;
            candidates(component, b, end) == (Candidates { lines: Seq::empty(), fault: None, end })
        }),
    decreases b.len() - cursor.byte_offset,
{
    let (next, found) = next_candidate(component, b, cursor);
    candidates_move_forward(component, b, cursor);
    match found {
        Ok(Some(line)) => nothing_follows_the_end(component, b, next),
        Ok(None) => last_candidate_is_final(component, b, cursor),
        Err(_) => {},
    }
}

pub(crate) proof fn candidates_move_forward(component: LogComponent, b: Seq<u8>, cursor: LogCursor)
    requires
        b.len() <= u64::MAX,
    ensures
        next_candidate(component, b, cursor).1 matches Ok(Some(_)) ==> cursor.byte_offset
            < next_candidate(component, b, cursor).0.byte_offset <= b.len(),
    decreases b.len() - cursor.byte_offset,
{
    reading_moves_forward(component, b, cursor);
    let (next, found) = read_next(component, b, cursor);
    if let Ok(Some(line)) = found {
        candidates_move_forward(component, b, next);
    }
}

proof fn whole_merges_have_no_fault(lists: Map<LogComponent, Candidates>, c: LogComponent)
    requires
        merged(lists).fault is None,
        lists.contains_key(c),
        forall|d: LogComponent| #[trigger]
            lists.contains_key(d) && lists[d].lines.len() == 0 ==> lists[d].fault is None,
    ensures
        lists[c].fault is None,
    decreases total_waiting(lists),
{
    earliest_has_a_record(lists, 5);
    match earliest(lists, 5) {
        None => {
            assert(REQUIRED_COMPONENTS@[c.rank()] == c);
            assert(waiting(lists, c) == 0);
        },
        Some(d) => {
            one_less_waits(lists, d);
            whole_merges_have_no_fault(lists.insert(d, without_first(lists[d])), c);
        },
    }
}

proof fn no_start_fault(lists: Map<LogComponent, Candidates>, n: int, c: LogComponent)
    requires
        c.rank() < n <= 5,
        start_fault(lists, n) is None,
        lists.contains_key(c),
        lists[c].lines.len() == 0,
    ensures
        lists[c].fault is None,
    decreases n,
{
    rank_of_required(n - 1);
    assert(c.rank() == n - 1 ==> c == REQUIRED_COMPONENTS@[n - 1]);
    if c.rank() < n - 1 {
        no_start_fault(lists, n - 1, c);
    }
}

proof fn reduced_to_the_end(
    s: ReduceModel,
    session: Seq<char>,
    lines: Seq<LineModel>,
    fault: Option<ReadError>,
    checked: bool,
)
    requires
        reduced(s, session, lines, fault, checked).end is Done,
    ensures
        fault is None,
    decreases lines.len(),
{
    if lines.len() > 0 {
        reduced_to_the_end(
            after_line(s, session, lines[0]),
            session,
            lines.skip(1),
            fault,
            checked,
        );
    }
}

/// A stream that was read to its end could be read in every component.
pub proof fn whole_streams_have_no_fault(
    s: ReduceModel,
    session: Seq<char>,
    lists: Map<LogComponent, Candidates>,
    checked: bool,
)
    requires
        stream_outcome(s, session, lists, checked).end is Done,
    ensures
        forall|c: LogComponent| #[trigger] lists.contains_key(c) ==> lists[c].fault is None,
{
    reduced_to_the_end(s, session, merged(lists).lines, merged(lists).fault, checked);
    assert forall|c: LogComponent| #[trigger]
        lists.contains_key(c) && lists[c].lines.len() == 0 implies lists[c].fault is None by {
        no_start_fault(lists, 5, c);
    }
    assert forall|c: LogComponent| #[trigger] lists.contains_key(c) implies lists[c].fault is None by {
        whole_merges_have_no_fault(lists, c);
    }
}

proof fn empty_lists_have_no_start_fault(lists: Map<LogComponent, Candidates>, n: int)
    requires
        0 <= n <= 5,
        forall|c: LogComponent| #[trigger]
            lists.contains_key(c) ==> lists[c].lines.len() == 0 && lists[c].fault is None,
    ensures
        start_fault(lists, n) is None,
        earliest(lists, n) is None,
    decreases n,
{
    if n > 0 {
        empty_lists_have_no_start_fault(lists, n - 1);
    }
}

/// A stream without records gives nothing and changes nothing.
pub proof fn empty_streams_give_nothing(
    s: ReduceModel,
    session: Seq<char>,
    lists: Map<LogComponent, Candidates>,
    checked: bool,
)
    requires
        forall|c: LogComponent| #[trigger]
            lists.contains_key(c) ==> lists[c].lines.len() == 0 && lists[c].fault is None,
    ensures
        stream_outcome(s, session, lists, checked) == (Outcome {
            state: s,
            steps: Seq::empty(),
            end: MergeEnd::Done,
        }),
{
    empty_lists_have_no_start_fault(lists, 5);
}

} // verus!
