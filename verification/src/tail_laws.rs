//! Where the logs are read on from after attaching to their newest part.
use crate::log_component::{LogComponent, REQUIRED_COMPONENTS};
use crate::log_reader::{
    line_start, line_start_follows_a_newline, newline_from, newline_from_is_first, read_all,
    records_between, tail_of, LogCursor, ReadError, TailModel as ReadTail,
};
use crate::merge::{LogFile, ReduceModel};
use crate::observer::{
    witness_of, AttachDiagnostics, AttachMethod, LogReplayRequired, ObserverError, ReplayPlace,
    ReplayReason,
};
use crate::observer_laws::remembers;
use crate::stream_laws::place_of_log;
use crate::tail_attach::{
    after_snapshot, attached_tail, chosen_tail, mark, moved_file, tail_plan, ScanEnd, TailModel,
    ARENA_RUN_START_SENTINEL, ARENA_SNAPSHOT_SENTINEL, TAIL_SNAPSHOT_SUFFIX_BYTES,
};
use vstd::prelude::*;

verus! {

/// Whether nothing happened to a log while it was attached to.
pub open spec fn unmoved(
    files: Map<LogComponent, LogFile>,
    after: Map<LogComponent, LogFile>,
    c: LogComponent,
) -> bool {
    files.contains_key(c) ==> after.contains_key(c) && files[c].identity == after[c].identity
        && files[c].bytes@.len() == after[c].bytes@.len()
}

proof fn first_moved_file(
    files: Map<LogComponent, LogFile>,
    after: Map<LogComponent, LogFile>,
    n: int,
)
    requires
        0 <= n <= 5,
    ensures
        moved_file(files, after, n) is None <==> forall|c: LogComponent| #[trigger]
            place_of_log(c) <= n ==> unmoved(files, after, c),
        moved_file(files, after, n) matches Some(e) ==> exists|c: LogComponent| #[trigger]
            place_of_log(c) <= n && !unmoved(files, after, c) && (after.contains_key(c) ==> e
                == ObserverError::ReplayRequired(
                LogReplayRequired {
                    place: ReplayPlace::Component(c),
                    reason: ReplayReason::ChangedWhileTailing,
                },
            )) && (!after.contains_key(c) ==> e == ObserverError::Unreadable(c)),
    decreases n,
{
    if n > 0 {
        first_moved_file(files, after, n - 1);
        let c = REQUIRED_COMPONENTS@[n - 1];
        assert(place_of_log(c) == n);
        assert forall|d: LogComponent| #[trigger] place_of_log(d) <= n && place_of_log(d) > n
            - 1 implies d == c by {}
        match moved_file(files, after, n - 1) {
            Some(e) => {
                let d = choose|d: LogComponent| #[trigger]
                    place_of_log(d) <= n - 1 && !unmoved(files, after, d) && (after.contains_key(d)
                        ==> e == ObserverError::ReplayRequired(
                        LogReplayRequired {
                            place: ReplayPlace::Component(d),
                            reason: ReplayReason::ChangedWhileTailing,
                        },
                    )) && (!after.contains_key(d) ==> e == ObserverError::Unreadable(d));
                assert(place_of_log(d) <= n);
            },
            None => {
                if moved_file(files, after, n) is Some {
                    assert(!unmoved(files, after, c));
                }
            },
        }
    }
}

/// Where a log is read on from: the log of the draft from where it was read to, if it was, and
/// every other from its last line start.
pub open spec fn read_on_from(
    files: Map<LogComponent, LogFile>,
    tail: TailModel,
    c: LogComponent,
) -> LogCursor {
    match tail.arena {
        Some(cursor) if c is Arena => cursor,
        _ => {
            let b = files[c].bytes@;
            LogCursor { byte_offset: line_start(b, b.len() as int) as u64, line_number: 0 }
        },
    }
}

/// Attaching succeeds only where no log moved meanwhile. What is attached to then remembers of each
/// log where it is read on from and the bytes before, keeps what was read of the newest part, and
/// hands on the deck and the records that were found, as they are.
pub proof fn attached_logs_are_read_on_from_their_end(
    session: Seq<char>,
    files: Map<LogComponent, LogFile>,
    after: Map<LogComponent, LogFile>,
    tail: TailModel,
)
    requires
        forall|c: LogComponent| #[trigger]
            files.contains_key(c) ==> files[c].bytes@.len() <= u64::MAX,
    ensures
        attached_tail(session, files, after, tail) matches Ok((o, event, lines)) ==> {
            &&& forall|c: LogComponent| #[trigger] place_of_log(c) <= 5 ==> unmoved(files, after, c)
            &&& event == tail.resync
            &&& lines == tail.lines
            &&& o.session_id == session
            &&& o.diagnostics == tail.diagnostics
            &&& o.state == (ReduceModel { parser: tail.parser, order: None, source: None })
            &&& forall|c: LogComponent| #[trigger]
                files.contains_key(c) ==> o.identities.contains_key(c) && o.identities[c]
                    == files[c].identity && remembers(
                    o,
                    c,
                    read_on_from(files, tail, c),
                    files[c].bytes@,
                )
            &&& forall|c: LogComponent| #[trigger]
                o.cursors.contains_key(c) <==> files.contains_key(c)
        },
        attached_tail(session, files, after, tail) is Err ==> {
            ||| exists|c: LogComponent| #[trigger] place_of_log(c) <= 5 && !unmoved(files, after, c)
            ||| tail.arena matches Some(cursor) && files.contains_key(LogComponent::Arena)
                && cursor.byte_offset > files[LogComponent::Arena].bytes@.len()
        },
{
    first_moved_file(files, after, 5);
    if let Ok((o, event, lines)) = attached_tail(session, files, after, tail) {
        assert forall|c: LogComponent| #[trigger] files.contains_key(c) implies o.identities.contains_key(
            c,
        ) && o.identities[c] == files[c].identity && remembers(
            o,
            c,
            read_on_from(files, tail, c),
            files[c].bytes@,
        ) by {
            let b = files[c].bytes@;
            line_start_follows_a_newline(b, b.len() as int);
            let cursor = read_on_from(files, tail, c);
            let at = cursor.byte_offset;
            assert(at <= b.len());
            assert(o.cursors[c] == cursor);
            if at > 0 {
                let w = witness_of(b, at);
                assert(o.witnesses[c] == w);
                assert forall|i: int| 0 <= i < w.bytes.len() implies b[w.start + i]
                    == #[trigger] w.bytes[i] by {}
            }
        }
    }
}

/// What follows a deck snapshot is read up to a quarter of a mebibyte, whole, and the log is read on
/// from its end; a longer part is left out, and told by its size.
pub proof fn short_parts_behind_a_snapshot_are_read(
    session: Seq<char>,
    b: Seq<u8>,
    d: AttachDiagnostics,
    end: ScanEnd,
)
    requires
        b.len() <= u64::MAX,
        after_snapshot(session, b, d, end) is Ok,
    ensures
        ({
            let t = after_snapshot(session, b, d, end)->Ok_0;
            let left = line_start(b, b.len() as int) - end.cursor.byte_offset;
            &&& t.diagnostics.method == AttachMethod::TailSnapshot
            &&& t.diagnostics.snapshot_byte_offset == d.snapshot_byte_offset
            &&& left <= 262144 ==> {
                &&& read_all(LogComponent::Arena, b, end.cursor) matches Ok((records, last))
                &&& t.arena == Some(last)
                &&& t.lines.len() == records.len()
                &&& t.diagnostics.arena_suffix_truncated == d.arena_suffix_truncated
            }
            &&& left > 262144 ==> {
                &&& t.arena is None
                &&& t.lines.len() == 0
                &&& t.diagnostics.arena_suffix_truncated
                &&& t.diagnostics.arena_suffix_bytes_skipped == left
                &&& t.parser == end.scan.parser
            }
        }),
{
    line_start_follows_a_newline(b, b.len() as int);
    if line_start(b, b.len() as int) - end.cursor.byte_offset <= 262144 {
        if let Ok((records, last)) = read_all(LogComponent::Arena, b, end.cursor) {
            crate::stream_laws::reduced_records_are_told_by_their_place(
                ReduceModel { parser: end.scan.parser, order: None, source: None },
                session,
                records,
                None,
                false,
            );
        }
    }
}

proof fn records_lie_between(component: LogComponent, b: Seq<u8>, at: int, end: int)
    requires
        0 <= at,
        b.len() <= u64::MAX,
        records_between(component, b, at, end) is Ok,
    ensures
        forall|i: int|
            0 <= i < records_between(component, b, at, end)->Ok_0.len() ==> {
                let line = #[trigger] records_between(component, b, at, end)->Ok_0[i];
                &&& at <= line.byte_offset < end
                &&& line.component == component
                &&& line.byte_offset == at || b[line.byte_offset - 1] == 10
            },
    decreases end - at,
{
    if at < end {
        newline_from_is_first(b, at);
        if let Some(i) = newline_from(b, at) {
            if at <= i < end && records_between(component, b, i + 1, end) is Ok {
                records_lie_between(component, b, i + 1, end);
                let rest = records_between(component, b, i + 1, end)->Ok_0;
                let all = records_between(component, b, at, end)->Ok_0;
                assert forall|k: int| 0 <= k < all.len() implies {
                    let line = #[trigger] all[k];
                    &&& at <= line.byte_offset < end
                    &&& line.component == component
                    &&& line.byte_offset == at || b[line.byte_offset - 1] == 10
                } by {
                    if k > 0 {
                        assert(all[k] == rest[k - 1]);
                    }
                }
            }
        }
    }
}

/// The tail of a log holds the records that begin within its last bytes, from the first that begins
/// there to the last that is complete; it covers the file exactly where these bytes do, and is read
/// on from behind the last complete record.
pub proof fn tails_hold_the_newest_records(component: LogComponent, b: Seq<u8>, most: nat)
    requires
        b.len() <= u64::MAX,
    ensures
        most == 0 ==> tail_of(component, b, most) == Err::<Option<ReadTail>, ReadError>(
            ReadError::ZeroLimit,
        ),
        tail_of(component, b, most) matches Ok(Some(t)) ==> {
            &&& t.covers_file_start <==> b.len() <= most
            &&& t.cursor.byte_offset == line_start(b, b.len() as int)
            &&& t.cursor.line_number == 0
            &&& forall|i: int|
                0 <= i < t.lines.len() ==> {
                    let line = #[trigger] t.lines[i];
                    &&& line.component == component
                    &&& line.byte_offset + most >= b.len()
                    &&& line.byte_offset == 0 || b[line.byte_offset - 1] == 10
                }
        },
{
    line_start_follows_a_newline(b, b.len() as int);
    if let Ok(Some(t)) = tail_of(component, b, most) {
        let start = if b.len() > most {
            b.len() - most
        } else {
            0
        };
        newline_from_is_first(b, start);
        let first = if start == 0 {
            0
        } else {
            newline_from(b, start)->0 + 1
        };
        records_lie_between(component, b, first, line_start(b, b.len() as int));
    }
}

/// What is found of the newest listing is told: where it begins, and whether a run that began after
/// it has made it void. Where a part of the log is passed over, its length is told.
pub proof fn void_listings_are_told(session: Seq<char>, b: Seq<u8>, run_identified: bool)
    requires
        tail_plan(session, b) is Ok,
    ensures
        ({
            let (tail, run) = tail_plan(session, b)->Ok_0;
            let d = chosen_tail(tail, run, run_identified).diagnostics;
            let listing = mark(b, ARENA_SNAPSHOT_SENTINEL@);
            let begun = mark(b, ARENA_RUN_START_SENTINEL@);
            &&& d.snapshot_byte_offset is Some <==> listing is Some
            &&& listing matches Some(m) ==> d.snapshot_byte_offset == Some(m.line_start)
            &&& d.snapshot_invalidated_by_newer_run <==> (listing matches Some(m) && (begun matches Some(
                r,
            ) && r.line_start > m.line_start))
            &&& d.non_arena_components_started_at_tail
            &&& d.checkpoint_suffix_bytes_replayed == 0
            &&& !d.arena_suffix_truncated ==> d.arena_suffix_bytes_skipped == 0
            &&& d.arena_suffix_truncated ==> d.arena_suffix_bytes_skipped
                > TAIL_SNAPSHOT_SUFFIX_BYTES
            &&& d.method is TailRun ==> run_identified && begun is Some
            &&& run is Some && run_identified ==> d.method is TailRun
            &&& d.method is TailSnapshot || d.method is TailRun || d.method is AwaitingSnapshot
        }),
{
}

} // verus!
