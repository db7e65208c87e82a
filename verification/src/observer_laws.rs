//! When logs and saved states are trusted, and what is read of them.
use crate::card_data::Timestamp;
use crate::checkpoint::{
    catch_up_bytes, checkpoint_fault, cursor_fault, fault_text, first_cursor_fault,
    first_source_fault, follows_outcome, order_fault, record_at, restored, resumed,
    source_component, source_fault, CheckpointFault, CheckpointModel, CheckpointRestoreStatus,
    PersistedModel, ResumeContext, ResumeOutcome,
};
use crate::live::{
    is_activity, is_newest, rotated, rotated_log, rotations_of, staleness_of, LogStaleness,
    RotationModel, SessionCandidate,
};
use crate::log_component::{filename_of, LogComponent, REQUIRED_COMPONENTS};
use crate::log_parser::stamp_of;
use crate::log_reader::{newline_from, newline_from_is_first, LogCursor};
use crate::merge::{checksum, LogFile};
use crate::observer::{
    attached_full, baseline_fault, baseline_text, cursor_of, deck_taken, entry_fault,
    first_entry_fault, places_after, places_before, plain_diagnostics, polled, reason_text,
    replay_text, session_fault, settled_first, witness_of, AttachMethod, Attached, BaselineError,
    LogReplayRequired, ObserverError, ObserverModel, ReplayPlace, ReplayReason, WitnessModel,
};
use crate::state::{EventModel, EventSource, SourceModel};
use crate::stream_laws::place_of_log;
use crate::tail_attach::waiting_diagnostics;
use crate::tailer::{pass_one, refusal_words, Pass};
use crate::text::{contains_part, decimal, occurs_at};
use vstd::prelude::*;
use vstd::utf8::{decode_utf8, encode_utf8, valid_utf8};

verus! {

/// Whether a log still holds the bytes that were remembered of it.
pub open spec fn holds_bytes(b: Seq<u8>, w: WitnessModel) -> bool {
    &&& w.start + w.bytes.len() <= b.len()
    &&& forall|i: int| 0 <= i < w.bytes.len() ==> b[w.start + i] == #[trigger] w.bytes[i]
}

proof fn bytes_still_there(b: Seq<u8>, w: WitnessModel)
    ensures
        crate::observer::still_there(b, w) <==> holds_bytes(b, w),
{
    if w.start + w.bytes.len() <= b.len() {
        let part = b.subrange(w.start as int, w.start + w.bytes.len());
        if part == w.bytes {
            assert forall|i: int| 0 <= i < w.bytes.len() implies b[w.start + i] == #[trigger] w.bytes[i] by {
                assert(part[i] == b[w.start + i]);
            }
        }
        if holds_bytes(b, w) {
            assert(part =~= w.bytes);
        }
    }
}

/// A log can be read on exactly where nothing happened to what was read of it: it was there and is
/// there, it is the same file, it is not shorter than what was read, and the bytes before the
/// cursor are the same. Otherwise the first of these that fails is the reason to read anew.
pub proof fn logs_are_read_on_only_where_they_continue(
    o: ObserverModel,
    files: Map<LogComponent, LogFile>,
    c: LogComponent,
)
    ensures
        ({
            let known = o.identities.contains_key(c);
            let there = files.contains_key(c);
            let same = known && there && o.identities[c] == files[c].identity;
            let long = files[c].bytes@.len() >= (if o.cursors.contains_key(c) {
                o.cursors[c].byte_offset as int
            } else {
                0
            });
            let kept = o.witnesses.contains_key(c) ==> holds_bytes(
                files[c].bytes@,
                o.witnesses[c],
            );
            &&& entry_fault(o, files, c) is None <==> (!known && !there) || (same && long && kept)
            &&& entry_fault(o, files, c) == Some(ReplayReason::Disappeared) <==> known && !there
            &&& entry_fault(o, files, c) == Some(ReplayReason::Appeared) <==> !known && there
            &&& entry_fault(o, files, c) == Some(ReplayReason::Replaced) <==> known && there && !same
            &&& entry_fault(o, files, c) == Some(ReplayReason::Truncated) <==> same && !long
            &&& entry_fault(o, files, c) == Some(ReplayReason::ChangedBeforeCursor) <==> same && long
                && !kept
        }),
{
    bytes_still_there(files[c].bytes@, o.witnesses[c]);
}

proof fn first_fault_is_a_fault(
    o: ObserverModel,
    files: Map<LogComponent, LogFile>,
    n: int,
)
    requires
        0 <= n <= 5,
    ensures
        match first_entry_fault(o, files, n) {
            Some(e) => exists|c: LogComponent| #[trigger] place_of_log(c) <= n && e.place
                == ReplayPlace::Component(c) && entry_fault(o, files, c) == Some(e.reason)
                && forall|d: LogComponent| #[trigger]
                place_of_log(d) < place_of_log(c) ==> entry_fault(o, files, d) is None,
            None => forall|d: LogComponent| #[trigger]
                place_of_log(d) <= n ==> entry_fault(o, files, d) is None,
        },
    decreases n,
{
    if n > 0 {
        first_fault_is_a_fault(o, files, n - 1);
        let c = REQUIRED_COMPONENTS@[n - 1];
        assert(place_of_log(c) == n);
        if first_entry_fault(o, files, n - 1) is None && entry_fault(o, files, c) is Some {
            assert(place_of_log(c) <= n);
        }
        if first_entry_fault(o, files, n - 1) is None && entry_fault(o, files, c) is None {
            assert forall|d: LogComponent| #[trigger] place_of_log(d) <= n implies entry_fault(
                o,
                files,
                d,
            ) is None by {
                if place_of_log(d) == n {
                    assert(d == c);
                }
            }
        }
    }
}

/// A poll that meets a log which does not continue names the first such log and changes nothing.
pub proof fn polls_stop_at_the_first_changed_log(
    o: ObserverModel,
    files: Map<LogComponent, LogFile>,
    after: Map<LogComponent, LogFile>,
    c: LogComponent,
)
    requires
        entry_fault(o, files, c) is Some,
        forall|d: LogComponent| #[trigger]
            place_of_log(d) < place_of_log(c) ==> entry_fault(o, files, d) is None,
    ensures
        polled(o, files, after).observer == o,
        polled(o, files, after).lines.len() == 0,
        polled(o, files, after).result == Err::<bool, ObserverError>(
            ObserverError::ReplayRequired(
                LogReplayRequired {
                    place: ReplayPlace::Component(c),
                    reason: entry_fault(o, files, c)->0,
                },
            ),
        ),
{
    first_fault_is_a_fault(o, files, 5);
    assert(place_of_log(c) <= 5);
    let e = first_entry_fault(o, files, 5)->0;
    let d = choose|d: LogComponent| #[trigger] place_of_log(d) <= 5 && e.place
        == ReplayPlace::Component(d) && entry_fault(o, files, d) == Some(e.reason)
        && forall|x: LogComponent| #[trigger]
        place_of_log(x) < place_of_log(d) ==> entry_fault(o, files, x) is None;
    assert(place_of_log(d) == place_of_log(c));
    assert(c == d);
}

/// Whether what an observer remembers of a log is its cursor and the bytes before it, at most
/// sixty-four.
pub open spec fn remembers(
    o: ObserverModel,
    c: LogComponent,
    cursor: LogCursor,
    b: Seq<u8>,
) -> bool {
    let at = cursor.byte_offset as int;
    &&& o.cursors.contains_key(c)
    &&& o.cursors[c] == cursor
    &&& at == 0 ==> !o.witnesses.contains_key(c)
    &&& at > 0 ==> {
        &&& o.witnesses.contains_key(c)
        &&& o.witnesses[c].start + o.witnesses[c].bytes.len() == at
        &&& o.witnesses[c].bytes.len() == if at < 64 {
            at
        } else {
            64
        }
        &&& holds_bytes(b, o.witnesses[c])
    }
}

proof fn settling_remembers(
    o: ObserverModel,
    after: Map<LogComponent, LogFile>,
    places: Map<LogComponent, LogCursor>,
    reason: ReplayReason,
    n: int,
)
    requires
        0 <= n <= 5,
        settled_first(o, after, places, reason, n).fault is None,
    ensures
        ({
            let s = settled_first(o, after, places, reason, n);
            &&& forall|c: LogComponent| #[trigger]
                places.contains_key(c) && place_of_log(c) <= n ==> after.contains_key(c) && remembers(
                    s.observer,
                    c,
                    places[c],
                    after[c].bytes@,
                ) && o.identities.contains_key(c) && o.identities[c] == after[c].identity
            &&& s.observer.identities == o.identities
            &&& s.observer.state == o.state
            &&& s.observer.session_id == o.session_id
            &&& s.advanced <==> exists|c: LogComponent| #[trigger]
                places.contains_key(c) && place_of_log(c) <= n && (!o.cursors.contains_key(c)
                    || o.cursors[c] != places[c])
            &&& forall|c: LogComponent|
                place_of_log(c) > n || !places.contains_key(c) ==> #[trigger] o.cursors.contains_key(c)
                    == s.observer.cursors.contains_key(c) && (o.cursors.contains_key(c)
                    ==> o.cursors[c] == s.observer.cursors[c])
        }),
    decreases n,
{
    if n > 0 {
        let before = settled_first(o, after, places, reason, n - 1);
        let s = settled_first(o, after, places, reason, n);
        let c = REQUIRED_COMPONENTS@[n - 1];
        assert(place_of_log(c) == n);
        assert(before.fault is None);
        settling_remembers(o, after, places, reason, n - 1);
        if places.contains_key(c) {
            let at = places[c].byte_offset;
            let b = after[c].bytes@;
            if at > 0 {
                let w = witness_of(b, at);
                assert forall|i: int| 0 <= i < w.bytes.len() implies b[w.start + i]
                    == #[trigger] w.bytes[i] by {}
                assert(s.observer.witnesses[c] == w);
            }
            assert(remembers(s.observer, c, places[c], b));
        }
        assert forall|d: LogComponent| #[trigger]
            places.contains_key(d) && place_of_log(d) <= n implies after.contains_key(d)
            && remembers(s.observer, d, places[d], after[d].bytes@) && o.identities.contains_key(d)
            && o.identities[d] == after[d].identity by {
            if place_of_log(d) == n {
                assert(d == c);
            } else {
                assert(d != c);
                assert(remembers(before.observer, d, places[d], after[d].bytes@));
            }
        }
        if exists|d: LogComponent| #[trigger]
            places.contains_key(d) && place_of_log(d) <= n && (!o.cursors.contains_key(d)
                || o.cursors[d] != places[d]) {
            let d = choose|d: LogComponent| #[trigger]
                places.contains_key(d) && place_of_log(d) <= n && (!o.cursors.contains_key(d)
                    || o.cursors[d] != places[d]);
            if place_of_log(d) == n {
                assert(d == c);
                assert(before.observer.cursors.contains_key(c) == o.cursors.contains_key(c)) by {
                    assert(o.cursors.contains_key(c) == o.cursors.contains_key(c));
                }
            }
        }
        if s.advanced {
            if !before.advanced {
                assert(o.cursors.contains_key(c) == before.observer.cursors.contains_key(c));
                assert(places.contains_key(c));
            } else {
                let d = choose|d: LogComponent| #[trigger]
                    places.contains_key(d) && place_of_log(d) <= n - 1 && (!o.cursors.contains_key(
                        d,
                    ) || o.cursors[d] != places[d]);
                assert(places.contains_key(d) && place_of_log(d) <= n);
            }
        }
    }
}

/// A poll that succeeds has moved every cursor to where the log was read to, remembers the bytes
/// before it as they are now, and says that something changed exactly where a record was reduced
/// or a cursor moved. What is not read is not touched.
pub proof fn polls_remember_where_they_read_to(
    o: ObserverModel,
    files: Map<LogComponent, LogFile>,
    after: Map<LogComponent, LogFile>,
)
    requires
        polled(o, files, after).result is Ok,
    ensures
        ({
            let p = polled(o, files, after);
            &&& forall|c: LogComponent| #[trigger]
                files.contains_key(c) ==> after.contains_key(c) && remembers(
                    p.observer,
                    c,
                    crate::merge::place_after(c, files[c].bytes@, cursor_of(o, c)),
                    after[c].bytes@,
                )
            &&& p.observer.identities == o.identities
            &&& p.observer.session_id == o.session_id
            &&& p.result == Ok::<bool, ObserverError>(true) <==> p.lines.len() > 0 || exists|
                c: LogComponent,
            | #[trigger]
                files.contains_key(c) && (!o.cursors.contains_key(c) || o.cursors[c]
                    != crate::merge::place_after(c, files[c].bytes@, cursor_of(o, c)))
        }),
{
    let places = places_before(o, files);
    let ends = places_after(files, places);
    let p = polled(o, files, after);
    let out = crate::merge::stream_outcome(
        o.state,
        o.session_id,
        crate::merge::event_lists(files, places),
        true,
    );
    let read = ObserverModel { state: out.state, ..o };
    settling_remembers(read, after, ends, ReplayReason::ChangedWhileReading, 5);
    assert forall|c: LogComponent| #[trigger] files.contains_key(c) implies after.contains_key(c)
        && remembers(
        p.observer,
        c,
        crate::merge::place_after(c, files[c].bytes@, cursor_of(o, c)),
        after[c].bytes@,
    ) by {
        assert(ends.contains_key(c) && place_of_log(c) <= 5);
    }
    let s = settled_first(read, after, ends, ReplayReason::ChangedWhileReading, 5);
    if s.advanced {
        let c = choose|c: LogComponent| #[trigger]
            ends.contains_key(c) && place_of_log(c) <= 5 && (!read.cursors.contains_key(c)
                || read.cursors[c] != ends[c]);
        assert(files.contains_key(c));
    }
    if exists|c: LogComponent| #[trigger]
        files.contains_key(c) && (!o.cursors.contains_key(c) || o.cursors[c]
            != crate::merge::place_after(c, files[c].bytes@, cursor_of(o, c))) {
        let c = choose|c: LogComponent| #[trigger]
            files.contains_key(c) && (!o.cursors.contains_key(c) || o.cursors[c]
                != crate::merge::place_after(c, files[c].bytes@, cursor_of(o, c)));
        assert(ends.contains_key(c) && place_of_log(c) <= 5);
    }
}

/// A session can be attached to only where it is a directory with a log in it, and then the whole
/// of every log is read from its beginning.
pub proof fn sessions_are_directories_with_logs(
    session: Seq<char>,
    is_dir: bool,
    files: Map<LogComponent, LogFile>,
    after: Map<LogComponent, LogFile>,
)
    ensures
        session_fault(is_dir, files) is None <==> is_dir && exists|c: LogComponent| #[trigger]
            files.contains_key(c),
        !is_dir ==> session_fault(is_dir, files) == Some(
            LogReplayRequired { place: ReplayPlace::Session, reason: ReplayReason::NotADirectory },
        ),
        session_fault(is_dir, files) is Some && is_dir ==> session_fault(is_dir, files)->0.reason
            is NoComponentLog,
        session_fault(is_dir, files) is Some ==> attached_full(session, is_dir, files, after) is Err,
        attached_full(session, is_dir, files, after) matches Ok((o, lines)) ==> {
            &&& o.session_id == session
            &&& o.diagnostics.method == AttachMethod::FullReplay
            &&& forall|c: LogComponent| #[trigger]
                files.contains_key(c) ==> o.identities.contains_key(c) && o.identities[c]
                    == files[c].identity && after.contains_key(c) && remembers(
                    o,
                    c,
                    crate::merge::place_after(
                        c,
                        files[c].bytes@,
                        LogCursor { byte_offset: 0, line_number: 0 },
                    ),
                    after[c].bytes@,
                )
        },
{
    if attached_full(session, is_dir, files, after) is Ok {
        let out = crate::merge::stream_outcome(
            crate::observer::fresh_state(),
            session,
            crate::merge::event_lists(files, crate::observer::all_starts(files)),
            false,
        );
        let start = ObserverModel {
            session_id: session,
            state: out.state,
            cursors: Map::empty(),
            identities: crate::observer::identities_of(files),
            witnesses: Map::empty(),
            diagnostics: crate::observer::plain_diagnostics(AttachMethod::FullReplay),
        };
        let ends = places_after(files, crate::observer::all_starts(files));
        settling_remembers(start, after, ends, ReplayReason::ChangedWhileAttaching, 5);
        settling_keeps_diagnostics(start, after, ends, ReplayReason::ChangedWhileAttaching, 5);
        let o = attached_full(session, is_dir, files, after)->Ok_0.0;
        assert forall|c: LogComponent| #[trigger] files.contains_key(c) implies o.identities.contains_key(
            c,
        ) && o.identities[c] == files[c].identity && after.contains_key(c) && remembers(
            o,
            c,
            crate::merge::place_after(
                c,
                files[c].bytes@,
                LogCursor { byte_offset: 0, line_number: 0 },
            ),
            after[c].bytes@,
        ) by {
            assert(ends.contains_key(c) && place_of_log(c) <= 5);
        }
    }
}

proof fn settling_keeps_diagnostics(
    o: ObserverModel,
    after: Map<LogComponent, LogFile>,
    places: Map<LogComponent, LogCursor>,
    reason: ReplayReason,
    n: int,
)
    ensures
        settled_first(o, after, places, reason, n).observer.diagnostics == o.diagnostics,
    decreases n,
{
    if n > 0 {
        settling_keeps_diagnostics(o, after, places, reason, n - 1);
    }
}

/// Whether a saved cursor fits a log: the same file, not shorter, with the bytes that were saved
/// before the cursor, which are the last sixty-four or all there were.
pub open spec fn fits(p: PersistedModel, f: LogFile) -> bool {
    let at = p.cursor.byte_offset as int;
    &&& f.identity == p.identity
    &&& at <= f.bytes@.len()
    &&& match p.tail {
        None => at == 0,
        Some(w) => {
            &&& w.bytes.len() == if at < 64 {
                at
            } else {
                64
            }
            &&& w.start + w.bytes.len() == at
            &&& holds_bytes(f.bytes@, w)
        },
    }
}

/// A saved cursor is trusted exactly where it fits its log, and where there is neither. What does
/// not fit is named: a log that is gone or has appeared, another file, a shorter one, a saved tail
/// of the wrong size, other bytes before the cursor, or a cursor without a tail.
pub proof fn saved_cursors_are_trusted_where_they_fit(
    cp: CheckpointModel,
    files: Map<LogComponent, LogFile>,
    c: LogComponent,
)
    ensures
        ({
            let saved = cp.cursors.contains_key(c);
            let there = files.contains_key(c);
            let p = cp.cursors[c];
            let at = p.cursor.byte_offset as int;
            let fault = cursor_fault(cp, files, c);
            let same = saved && there && files[c].identity == p.identity;
            let long = files[c].bytes@.len() >= at;
            &&& fault is None <==> (!saved && !there) || (saved && there && fits(p, files[c]))
            &&& fault == Some(CheckpointFault::Gone(c)) <==> saved && !there
            &&& fault == Some(CheckpointFault::Appeared(c)) <==> !saved && there
            &&& fault == Some(CheckpointFault::IdentityChanged(c)) <==> saved && there && !same
            &&& fault == Some(CheckpointFault::Shorter(c)) <==> same && !long
            &&& fault == Some(CheckpointFault::NoTail(c)) <==> same && long && p.tail is None && at > 0
            &&& fault == Some(CheckpointFault::ChangedBeforeCursor(c)) ==> same && long && !holds_bytes(
                files[c].bytes@,
                p.tail->0,
            )
            &&& same && long && p.tail is Some && holds_bytes(files[c].bytes@, p.tail->0) && !fits(
                p,
                files[c],
            ) ==> fault == Some(CheckpointFault::InvalidTail(c))
        }),
{
    if cp.cursors[c].tail is Some {
        bytes_still_there(files[c].bytes@, cp.cursors[c].tail->0);
    }
}

/// Whether a saved source is a record of its log before the cursor, with the check sum of its
/// text.
pub open spec fn source_is_there(
    cp: CheckpointModel,
    files: Map<LogComponent, LogFile>,
    s: SourceModel,
    c: LogComponent,
) -> bool {
    let at = s.byte_offset as int;
    &&& s.session_id == cp.session_id
    &&& s.component == filename_of(c)
    &&& cp.cursors.contains_key(c)
    &&& at < cp.cursors[c].cursor.byte_offset
    &&& files.contains_key(c)
    &&& record_text_at(files[c].bytes@, at) matches Some(text)
    &&& checksum(encode_utf8(text)) == s.line_hash
}

/// The text of the record at a place, where it ends within a mebibyte and is text.
pub open spec fn record_text_at(b: Seq<u8>, at: int) -> Option<Seq<char>> {
    match newline_from(b, at) {
        None => None,
        Some(end) => {
            let raw = b.subrange(at, end);
            let own = if raw.len() > 0 && raw[raw.len() - 1] == 13 {
                raw.take(raw.len() - 1)
            } else {
                raw
            };
            if end - at <= 1048576 && valid_utf8(own) {
                Some(decode_utf8(own))
            } else {
                None
            }
        },
    }
}

proof fn sources_without_fault_are_there(
    cp: CheckpointModel,
    files: Map<LogComponent, LogFile>,
    s: SourceModel,
)
    ensures
        source_fault(cp, files, s) is None <==> exists|c: LogComponent| #[trigger]
            source_is_there(cp, files, s, c),
        forall|c: LogComponent| #[trigger]
            source_is_there(cp, files, s, c) ==> source_component(s) == Ok::<
                LogComponent,
                CheckpointFault,
            >(c) && record_at(files, c, s.byte_offset) == Ok::<Seq<char>, CheckpointFault>(
                record_text_at(files[c].bytes@, s.byte_offset as int)->0,
            ),
        source_fault(cp, files, s) is None ==> source_component(s) is Ok && source_is_there(
            cp,
            files,
            s,
            source_component(s)->Ok_0,
        ),
{
    assert forall|c: LogComponent, at: u64| files.contains_key(c) implies match #[trigger] record_at(
        files,
        c,
        at,
    ) {
        Ok(text) => record_text_at(files[c].bytes@, at as int) == Some(text),
        Err(_) => record_text_at(files[c].bytes@, at as int) is None,
    } by {
        let b = files[c].bytes@;
        if newline_from(b, at as int) is Some {
            let raw = b.subrange(at as int, newline_from(b, at as int)->0);
            assert(raw.len() > 0 ==> raw.drop_last() =~= raw.take(raw.len() - 1));
        }
    }
    assert forall|c: LogComponent| #[trigger] source_is_there(cp, files, s, c) implies source_component(
        s,
    ) == Ok::<LogComponent, CheckpointFault>(c) && record_at(files, c, s.byte_offset) == Ok::<
        Seq<char>,
        CheckpointFault,
    >(record_text_at(files[c].bytes@, s.byte_offset as int)->0) && source_fault(cp, files, s)
        is None by {
        crate::log_component::filename_names_its_component(c);
        assert(record_at(files, c, s.byte_offset) is Ok);
    }
    if source_fault(cp, files, s) is None {
        let c = source_component(s)->Ok_0;
        assert(record_at(files, c, s.byte_offset) is Ok);
        assert(source_is_there(cp, files, s, c));
    }
}

proof fn first_source_fault_is_of_a_source(
    cp: CheckpointModel,
    files: Map<LogComponent, LogFile>,
    sources: Seq<EventSource>,
)
    ensures
        first_source_fault(cp, files, sources) is None <==> forall|i: int|
            0 <= i < sources.len() ==> source_fault(cp, files, (#[trigger] sources[i])@) is None,
    decreases sources.len(),
{
    if sources.len() > 0 {
        let rest = sources.drop_last();
        first_source_fault_is_of_a_source(cp, files, rest);
        if first_source_fault(cp, files, sources) is None {
            assert forall|i: int| 0 <= i < sources.len() implies source_fault(
                cp,
                files,
                (#[trigger] sources[i])@,
            ) is None by {
                if i < rest.len() {
                    assert(rest[i] == sources[i]);
                }
            }
        } else if first_source_fault(cp, files, rest) is Some {
            let i = choose|i: int|
                0 <= i < rest.len() && source_fault(cp, files, (#[trigger] rest[i])@) is Some;
            assert(sources[i] == rest[i]);
        } else {
            assert(sources[sources.len() - 1] == sources.last());
        }
    }
}

proof fn first_cursor_fault_is_of_a_log(
    cp: CheckpointModel,
    files: Map<LogComponent, LogFile>,
    n: int,
)
    requires
        0 <= n <= 5,
    ensures
        first_cursor_fault(cp, files, n) is None <==> forall|c: LogComponent| #[trigger]
            place_of_log(c) <= n ==> cursor_fault(cp, files, c) is None,
    decreases n,
{
    if n > 0 {
        first_cursor_fault_is_of_a_log(cp, files, n - 1);
        let c = REQUIRED_COMPONENTS@[n - 1];
        assert(place_of_log(c) == n);
        assert forall|d: LogComponent| #[trigger] place_of_log(d) <= n && place_of_log(d) > n
            - 1 implies d == c by {}
        if first_cursor_fault(cp, files, n - 1) is Some {
            let d = choose|d: LogComponent| #[trigger]
                place_of_log(d) <= n - 1 && cursor_fault(cp, files, d) is Some;
            assert(place_of_log(d) <= n);
        }
    }
}

/// Whether the record that was reduced last stands where it stood, with the time and the check sum
/// it had, or none was reduced.
pub open spec fn last_record_stands(cp: CheckpointModel, files: Map<LogComponent, LogFile>) -> bool {
    match (cp.last_line_order, cp.last_source) {
        (None, None) => true,
        (Some(order), Some(source)) => {
            &&& source_is_there(cp, files, source, order.component)
            &&& order.byte_offset == source.byte_offset
            &&& order.timestamp == stamp_of(
                record_text_at(files[order.component].bytes@, source.byte_offset as int)->0,
            ).0
        },
        _ => false,
    }
}

/// Whether the records that a saved state names stand where they stood.
pub open spec fn named_records_stand(
    cp: CheckpointModel,
    files: Map<LogComponent, LogFile>,
    sources: Seq<EventSource>,
) -> bool {
    forall|i: int| 0 <= i < sources.len() ==> stands(cp, files, (#[trigger] sources[i])@)
}

/// Whether a record that a saved state names stands where it stood in one of the logs.
pub open spec fn stands(
    cp: CheckpointModel,
    files: Map<LogComponent, LogFile>,
    source: SourceModel,
) -> bool {
    exists|c: LogComponent| #[trigger] source_is_there(cp, files, source, c)
}

proof fn faultless_records_stand(
    cp: CheckpointModel,
    files: Map<LogComponent, LogFile>,
    source: SourceModel,
)
    ensures
        source_fault(cp, files, source) is None <==> stands(cp, files, source),
{
    sources_without_fault_are_there(cp, files, source);
}

proof fn last_records_without_fault_stand(cp: CheckpointModel, files: Map<LogComponent, LogFile>)
    ensures
        order_fault(cp, files) is None <==> last_record_stands(cp, files),
{
    if cp.last_source is Some && cp.last_line_order is Some {
        let source = cp.last_source->0;
        sources_without_fault_are_there(cp, files, source);
        if order_fault(cp, files) is None {
            let c = source_component(source)->Ok_0;
            assert(source_is_there(cp, files, source, c));
        }
        if last_record_stands(cp, files) {
            assert(source_is_there(cp, files, source, cp.last_line_order->0.component));
        }
    }
}

proof fn named_records_without_fault_stand(
    cp: CheckpointModel,
    files: Map<LogComponent, LogFile>,
    sources: Seq<EventSource>,
)
    ensures
        first_source_fault(cp, files, sources) is None <==> named_records_stand(cp, files, sources),
{
    first_source_fault_is_of_a_source(cp, files, sources);
    if first_source_fault(cp, files, sources) is None {
        assert forall|i: int| 0 <= i < sources.len() implies stands(
            cp,
            files,
            (#[trigger] sources[i])@,
        ) by {
            faultless_records_stand(cp, files, sources[i]@);
        }
    } else {
        let i = choose|i: int|
            0 <= i < sources.len() && source_fault(cp, files, (#[trigger] sources[i])@) is Some;
        faultless_records_stand(cp, files, sources[i]@);
    }
}

/// A saved state is taken up only where everything it says still holds: it was written in the same
/// formats, its bytes are undamaged, it is of this session, each log continues what was read, the
/// record reduced last and all records that the state names stand where they stood. Where all
/// that holds, nothing but the saved parser and the saved state itself can still be refused.
pub proof fn saved_states_are_taken_up_where_they_hold(
    cp: CheckpointModel,
    context: ResumeContext,
    files: Map<LogComponent, LogFile>,
)
    ensures
        checkpoint_fault(cp, context, files) is None <==> {
            &&& cp.schema_version == 1
            &&& cp.observer_snapshot_schema_version == 5
            &&& cp.state_schema_version == context.state_schema_version
            &&& cp.integrity_hash == context.expected_hash
            &&& context.place.is_dir
            &&& exists|c: LogComponent| #[trigger] files.contains_key(c)
            &&& cp.session_path == context.place.canonical@
            &&& cp.session_id == context.place.id@
            &&& forall|c: LogComponent| #[trigger] place_of_log(c) <= 5 ==> cursor_fault(
                cp,
                files,
                c,
            ) is None
            &&& last_record_stands(cp, files)
            &&& named_records_stand(cp, files, context.sources@)
        },
        restored(cp, context, files) is Ok ==> checkpoint_fault(cp, context, files) is None
            && context.reducer_valid,
        restored(cp, context, files) matches Ok(o) ==> {
            &&& o.session_id == context.place.id@
            &&& o.state.order == cp.last_line_order
            &&& o.state.source == cp.last_source
            &&& forall|c: LogComponent| #[trigger]
                o.cursors.contains_key(c) == cp.cursors.contains_key(c) && (cp.cursors.contains_key(c)
                    ==> o.cursors[c] == cp.cursors[c].cursor && o.identities[c]
                    == cp.cursors[c].identity)
            &&& forall|c: LogComponent| #[trigger]
                o.witnesses.contains_key(c) <==> cp.cursors.contains_key(c) && cp.cursors[c].tail
                    is Some
        },
{
    first_cursor_fault_is_of_a_log(cp, files, 5);
    last_records_without_fault_stand(cp, files);
    named_records_without_fault_stand(cp, files, context.sources@);
}

/// The bytes of a log that were not read yet.
pub open spec fn unread(o: ObserverModel, files: Map<LogComponent, LogFile>, c: LogComponent) -> int {
    if o.cursors.contains_key(c) {
        files[c].bytes@.len() - o.cursors[c].byte_offset
    } else {
        0
    }
}

/// What is left to read after a saved state is what the three logs with events have gained, and is
/// told exactly where none of them is gone or shorter.
pub proof fn catching_up_counts_the_logs_with_events(
    o: ObserverModel,
    files: Map<LogComponent, LogFile>,
    bytes: u64,
)
    ensures
        catch_up_bytes(o, files, 5) == Ok::<u64, ObserverError>(bytes) <==> {
            &&& bytes == unread(o, files, LogComponent::LoadingScreen) + unread(
                o,
                files,
                LogComponent::Power,
            ) + unread(o, files, LogComponent::Arena)
            &&& forall|c: LogComponent| #[trigger]
                o.cursors.contains_key(c) && (c is LoadingScreen || c is Power || c is Arena)
                    ==> files.contains_key(c) && files[c].bytes@.len() >= o.cursors[c].byte_offset
        },
{
    reveal_with_fuel(catch_up_bytes, 6);
    let a = o.cursors.contains_key(LogComponent::LoadingScreen);
    let b = o.cursors.contains_key(LogComponent::Power);
    let c = o.cursors.contains_key(LogComponent::Arena);
}

/// A log is stale exactly where something was written to it, and the last time is longer ago than
/// the threshold; its age is told in whole seconds. No log at all is told as such.
pub proof fn stale_logs_are_older_than_the_threshold(
    newest: Timestamp,
    now: Timestamp,
    threshold: nat,
)
    requires
        newest.nanoseconds < 1_000_000_000,
        now.nanoseconds < 1_000_000_000,
    ensures
        ({
            let age = (now.seconds * 1_000_000_000 + now.nanoseconds) - (newest.seconds
                * 1_000_000_000 + newest.nanoseconds);
            let never = newest.seconds == 0 && newest.nanoseconds == 0;
            let r = staleness_of(newest, now, threshold);
            &&& r is NoLogs <==> never
            &&& r is Live <==> !never && age <= threshold
            &&& r is Stale <==> !never && age > threshold
            &&& r matches LogStaleness::Stale { age_secs } ==> age_secs * 1_000_000_000 <= age < (
            age_secs + 1) * 1_000_000_000
        }),
{
}

/// A log other than that of the draft is cut where it is longer than nine and a half mebibytes, to
/// at most its last two, from the beginning of a record where there is one. The log of the draft
/// and shorter logs stay as they are.
pub proof fn long_logs_are_cut(c: LogComponent, b: Seq<u8>)
    ensures
        c is Arena || b.len() <= 9961472 ==> rotated_log(c, b) == b,
        !(c is Arena) && b.len() > 9961472 ==> {
            let kept = rotated_log(c, b);
            let cut = b.len() - kept.len();
            &&& kept.len() <= 2097152
            &&& forall|i: int| 0 <= i < kept.len() ==> kept[i] == #[trigger] b[cut + i]
            &&& forall|k: int| b.len() - 2097152 <= k < cut - 1 ==> #[trigger] b[k] != 10
            &&& cut > b.len() - 2097152 ==> b[cut - 1] == 10
            &&& cut == b.len() - 2097152 ==> forall|k: int| cut <= k < b.len() ==> #[trigger] b[k] != 10
        },
{
    if b.len() > 9961472 {
        let tail = b.skip(b.len() - 2097152);
        newline_from_is_first(tail, 0);
        let kept = rotated(b);
        let cut = b.len() - kept.len();
        match newline_from(tail, 0) {
            Some(k) => {
                assert(kept == tail.skip(k + 1));
                assert forall|i: int| b.len() - 2097152 <= i < cut - 1 implies #[trigger] b[i] != 10 by {
                    assert(tail[i - (b.len() - 2097152)] == b[i]);
                }
                assert(tail[k] == b[cut - 1]);
            },
            None => {
                assert forall|i: int| cut <= i < b.len() implies #[trigger] b[i] != 10 by {
                    assert(tail[i - cut] == b[i]);
                }
            },
        }
    }
}

/// Whether a cut is told of a log.
pub open spec fn tells_cut(r: RotationModel, c: LogComponent, b: Seq<u8>) -> bool {
    &&& r.component == filename_of(c)
    &&& r.previous_bytes == b.len()
    &&& r.retained_bytes == rotated_log(c, b).len()
}

/// Every log that is cut is told once, with its size before and after, and no other.
pub proof fn cuts_are_told(files: Map<LogComponent, Vec<u8>>)
    ensures
        forall|c: LogComponent| #[trigger]
            files.contains_key(c) && !(c is Arena) && files[c]@.len() > 9961472 ==> exists|i: int|
                0 <= i < rotations_of(files, 5).len() && tells_cut(
                    #[trigger] rotations_of(files, 5)[i],
                    c,
                    files[c]@,
                ),
        forall|i: int|
            0 <= i < rotations_of(files, 5).len() ==> exists|c: LogComponent| #[trigger]
                files.contains_key(c) && !(c is Arena) && files[c]@.len() > 9961472 && tells_cut(
                    #[trigger] rotations_of(files, 5)[i],
                    c,
                    files[c]@,
                ),
{
    cuts_of_first_logs(files, 5);
    assert forall|c: LogComponent| #[trigger]
        files.contains_key(c) && !(c is Arena) && files[c]@.len() > 9961472 implies exists|i: int|
        0 <= i < rotations_of(files, 5).len() && tells_cut(
            #[trigger] rotations_of(files, 5)[i],
            c,
            files[c]@,
        ) by {
        assert(place_of_log(c) <= 5);
    }
}

proof fn cuts_of_first_logs(files: Map<LogComponent, Vec<u8>>, n: int)
    requires
        0 <= n <= 5,
    ensures
        forall|c: LogComponent| #[trigger]
            files.contains_key(c) && place_of_log(c) <= n && !(c is Arena) && files[c]@.len()
                > 9961472 ==> exists|i: int|
                0 <= i < rotations_of(files, n).len() && tells_cut(
                    #[trigger] rotations_of(files, n)[i],
                    c,
                    files[c]@,
                ),
        forall|i: int|
            0 <= i < rotations_of(files, n).len() ==> exists|c: LogComponent| #[trigger]
                files.contains_key(c) && !(c is Arena) && files[c]@.len() > 9961472 && tells_cut(
                    #[trigger] rotations_of(files, n)[i],
                    c,
                    files[c]@,
                ),
    decreases n,
{
    if n > 0 {
        cuts_of_first_logs(files, n - 1);
        let done = rotations_of(files, n - 1);
        let all = rotations_of(files, n);
        let d = REQUIRED_COMPONENTS@[n - 1];
        assert(place_of_log(d) == n);
        assert forall|c: LogComponent| #[trigger]
            files.contains_key(c) && place_of_log(c) <= n && !(c is Arena) && files[c]@.len()
                > 9961472 implies exists|i: int|
            0 <= i < all.len() && tells_cut(#[trigger] all[i], c, files[c]@) by {
            if place_of_log(c) == n {
                assert(c == d);
                assert(tells_cut(all[all.len() - 1], c, files[c]@));
            } else {
                let i = choose|i: int|
                    0 <= i < done.len() && tells_cut(#[trigger] done[i], c, files[c]@);
                assert(all[i] == done[i]);
            }
        }
        assert forall|i: int| 0 <= i < all.len() implies exists|c: LogComponent| #[trigger]
            files.contains_key(c) && !(c is Arena) && files[c]@.len() > 9961472 && tells_cut(
                #[trigger] all[i],
                c,
                files[c]@,
            ) by {
            if i < done.len() {
                assert(all[i] == done[i]);
                let c = choose|c: LogComponent| #[trigger]
                    files.contains_key(c) && !(c is Arena) && files[c]@.len() > 9961472
                        && tells_cut(done[i], c, files[c]@);
                assert(files.contains_key(c));
            } else {
                assert(files.contains_key(d));
            }
        }
    }
}

/// A deck that is read from the screen is taken as it stands exactly where a run is known, every
/// card of it is seen, its size is within its capacity, and all of it are cards.
pub proof fn whole_decks_are_taken(
    run_identified: bool,
    visible: nat,
    all_real: bool,
    observed: u16,
    expected: u16,
)
    ensures
        ({
            let fault = baseline_fault(run_identified, visible, all_real, observed, expected);
            let full = 0 < expected && observed <= expected;
            &&& fault is None <==> run_identified && visible == observed && full && visible > 0
                && all_real
            &&& fault == Some(BaselineError::NoRun) <==> !run_identified
            &&& fault matches Some(BaselineError::Partial { visible: v, observed: n }) ==> visible
                != observed && n == observed && (visible <= u32::MAX ==> v == visible)
            &&& run_identified && visible != observed ==> fault is Some && fault->0 is Partial
            &&& fault == Some(BaselineError::Capacity { observed, expected }) <==> run_identified
                && visible == observed && !full
            &&& fault == Some(BaselineError::NotCards) <==> run_identified && visible == observed
                && full && (visible == 0 || !all_real)
        }),
{
}

/// A saved state is resumed exactly where it holds, no more than a quarter of a mebibyte is new in
/// the logs with events, and these can be read on. The observer is then where reading on left it,
/// tells how many bytes were new, and hands on the records that were read. A state that does not
/// hold is rejected.
pub proof fn saved_states_are_resumed_where_little_is_new(
    r: ResumeOutcome,
    cp: CheckpointModel,
    context: ResumeContext,
    files: Map<LogComponent, LogFile>,
    after: Map<LogComponent, LogFile>,
)
    requires
        resumed(r, cp, context, files, after),
    ensures
        ({
            let held = restored(cp, context, files);
            let new = catch_up_bytes(held->Ok_0, files, 5);
            let p = polled(held->Ok_0, files, after);
            let few = held is Ok && new is Ok && new->Ok_0 <= 262144;
            &&& r is Restored <==> few && p.result is Ok
            &&& r matches ResumeOutcome::Restored { observer, lines } ==> {
                &&& observer@.cursors == p.observer.cursors
                &&& observer@.witnesses == p.observer.witnesses
                &&& observer@.state == p.observer.state
                &&& observer@.session_id == p.observer.session_id
                &&& observer@.diagnostics.checkpoint_suffix_bytes_replayed == new->Ok_0
                &&& observer@.diagnostics.method == p.observer.diagnostics.method
                &&& crate::merge::sourced_models(lines@) == p.lines
            }
            &&& held is Err ==> r is Rejected
            &&& held is Ok && new is Ok && new->Ok_0 > 262144 ==> r is Rejected
            &&& r is Failed ==> held is Ok && (new is Err || p.result is Err)
        }),
{
}

/// An attempt to resume is answered by what came of it: attached where it was resumed, nothing with
/// the reason where it was rejected, and the error where it failed.
pub proof fn resuming_is_answered_by_its_outcome(
    r: Result<(Option<Attached>, CheckpointRestoreStatus), ObserverError>,
    outcome: ResumeOutcome,
)
    requires
        follows_outcome(r, outcome),
    ensures
        outcome is Restored <==> r matches Ok((Some(_), _)),
        outcome is Rejected <==> r matches Ok((None, _)),
        outcome is Failed <==> r is Err,
        r matches Ok((attached, status)) ==> (status is Restored <==> attached is Some),
        r matches Ok((attached, status)) ==> (status matches CheckpointRestoreStatus::Rejected {
            reason,
        } ==> outcome == (ResumeOutcome::Rejected { reason })),
{
}

/// A fault of a log is told by the path of that log, followed by what happened to it in words.
pub proof fn faults_of_logs_name_the_log(
    c: LogComponent,
    session: Seq<char>,
    unknown: Seq<char>,
)
    ensures
        ({
            let path = session + seq!['/'] + filename_of(c);
            let told = |fault: CheckpointFault, words: Seq<char>|
                fault_text(fault, session, unknown) == path + words;
            &&& told(CheckpointFault::Gone(c), " disappeared"@)
            &&& told(CheckpointFault::Appeared(c), " appeared after checkpoint"@)
            &&& told(CheckpointFault::IdentityChanged(c), " file identity changed"@)
            &&& told(CheckpointFault::Shorter(c), " is shorter than its saved cursor"@)
            &&& told(CheckpointFault::ChangedBeforeCursor(c), " changed before its saved cursor"@)
        }),
        forall|reason: ReplayReason|
            occurs_at(
                #[trigger] replay_text(
                    LogReplayRequired { place: ReplayPlace::Component(c), reason },
                    session,
                ),
                session + seq!['/'] + filename_of(c),
                0,
            ),
{
    reveal_strlit("/");
    assert("/"@ =~= seq!['/']);
    let path = session + seq!['/'] + filename_of(c);
    assert forall|reason: ReplayReason|
        occurs_at(
            #[trigger] replay_text(
                LogReplayRequired { place: ReplayPlace::Component(c), reason },
                session,
            ),
            path,
            0,
        ) by {
        let t = replay_text(
            LogReplayRequired { place: ReplayPlace::Component(c), reason },
            session,
        );
        assert(t.subrange(0, path.len() as int) =~= path);
    }
}

/// The words for what happened to a log tell apart what was lost, what came, what was replaced and
/// what was cut.
pub proof fn reasons_are_told_apart(reason: ReplayReason)
    ensures
        contains_part(reason_text(reason), "disappeared"@) <==> reason is Disappeared || reason
            is GoneBeforeCatchUp,
        reason is Replaced ==> contains_part(reason_text(reason), "replaced"@),
        reason is Truncated || reason is TruncatedBeforeCatchUp ==> contains_part(
            reason_text(reason),
            "truncated"@,
        ),
        reason is Appeared ==> occurs_at(reason_text(reason), "appeared"@, 0),
{
    reveal_strlit("disappeared");
    reveal_strlit("replaced");
    reveal_strlit("truncated");
    reveal_strlit("appeared");
    let t = reason_text(reason);
    match reason {
        ReplayReason::Disappeared => {
            reveal_strlit("disappeared or rotated");
            assert(t.subrange(0, 11) =~= "disappeared"@);
            assert(occurs_at(t, "disappeared"@, 0));
        },
        ReplayReason::GoneBeforeCatchUp => {
            reveal_strlit("disappeared before checkpoint suffix catch-up");
            assert(t.subrange(0, 11) =~= "disappeared"@);
            assert(occurs_at(t, "disappeared"@, 0));
        },
        ReplayReason::Replaced => {
            reveal_strlit("was replaced or rotated");
            assert(t.subrange(4, 12) =~= "replaced"@);
            assert(occurs_at(t, "replaced"@, 4));
            no_such_word(t);
        },
        ReplayReason::Truncated => {
            reveal_strlit("was truncated or rotated");
            assert(t.subrange(4, 13) =~= "truncated"@);
            assert(occurs_at(t, "truncated"@, 4));
            no_such_word(t);
        },
        ReplayReason::TruncatedBeforeCatchUp => {
            reveal_strlit("was truncated before checkpoint suffix catch-up");
            assert(t.subrange(4, 13) =~= "truncated"@);
            assert(occurs_at(t, "truncated"@, 4));
            no_such_word(t);
        },
        ReplayReason::Appeared => {
            reveal_strlit("appeared after attachment");
            assert(t.subrange(0, 8) =~= "appeared"@);
            no_such_word(t);
        },
        ReplayReason::ChangedBeforeCursor => {
            reveal_strlit("changed before its saved cursor");
            no_such_word(t);
        },
        ReplayReason::OutOfOrder => {
            reveal_strlit("a newly appended record sorts before an already reduced record");
            no_such_word(t);
        },
        ReplayReason::ChangedWhileReading => {
            reveal_strlit("changed while reading");
            no_such_word(t);
        },
        ReplayReason::ChangedWhileTailing => {
            reveal_strlit("changed while building tail snapshot; retrying is safer");
            no_such_word(t);
        },
        ReplayReason::ChangedWhileAttaching => {
            reveal_strlit("changed while attaching; retrying is safer");
            no_such_word(t);
        },
        ReplayReason::NotADirectory => {
            reveal_strlit("is not a Hearthstone log-session directory");
            no_such_word(t);
        },
        ReplayReason::NoComponentLog => {
            reveal_strlit("does not contain a supported Hearthstone component log");
            no_such_word(t);
        },
    }
}

proof fn no_such_word(t: Seq<char>)
    requires
        forall|i: int|
            0 <= i < t.len() - 10 ==> !(#[trigger] t[i] == 'd' && t[i + 1] == 'i' && t[i + 2] == 's'),
    ensures
        !contains_part(t, "disappeared"@),
{
    reveal_strlit("disappeared");
    if contains_part(t, "disappeared"@) {
        let at = choose|at: int| occurs_at(t, "disappeared"@, at);
        let part = t.subrange(at, at + 11);
        assert(part[0] == t[at] && part[1] == t[at + 1] && part[2] == t[at + 2]);
        assert(t[at] == 'd');
    }
}

/// The session that is followed is one that was written last, and of several written at the same
/// time the last of the list; what was written last of a session is the newest of its logs.
pub proof fn the_newest_session_is_followed(
    candidates: Seq<SessionCandidate>,
    i: int,
    j: int,
    t: Timestamp,
    times: Seq<Timestamp>,
)
    requires
        forall|k: int|
            0 <= k < candidates.len() ==> (#[trigger] candidates[k]).activity.nanoseconds
                < 1_000_000_000,
        forall|k: int| 0 <= k < times.len() ==> (#[trigger] times[k]).nanoseconds < 1_000_000_000,
    ensures
        is_newest(candidates, i) && 0 <= j < candidates.len() && candidates[j].is_session ==> {
            &&& candidates[i].is_session
            &&& moment(candidates[j].activity) <= moment(candidates[i].activity)
            &&& j > i ==> moment(candidates[j].activity) < moment(candidates[i].activity)
        },
        is_activity(t, times) && 0 <= j < times.len() ==> moment(times[j]) <= moment(t)
            && times.contains(t),
        is_activity(t, times) && times.len() == 0 ==> moment(t) == 0,
{
}

/// A moment in nanoseconds.
pub open spec fn moment(t: Timestamp) -> int {
    t.seconds * 1_000_000_000 + t.nanoseconds
}

/// A whole deck that is taken replaces the deck and opens the latch for picks. It moves no log and
/// changes nothing else, and a second one finds the latch open.
pub proof fn whole_decks_open_the_latch(
    before: ObserverModel,
    card_ids: Seq<Seq<char>>,
    between: ObserverModel,
    first: EventModel,
    opened: bool,
    after: ObserverModel,
    second: EventModel,
    again: bool,
)
    requires
        deck_taken(before, card_ids, between, first, opened),
        deck_taken(between, card_ids, after, second, again),
    ensures
        first == (EventModel::DeckList { card_ids }),
        between.state.parser.arena_picks_enabled,
        opened <==> !before.state.parser.arena_picks_enabled,
        !again,
        after == between,
        between.cursors == before.cursors,
        between.identities == before.identities,
        before.state.parser.arena_picks_enabled ==> between == before,
{
    assert(before.state.parser.arena_picks_enabled ==> between =~= before);
}

/// A log that changes under the reader is told as having changed while the logs were attached, or
/// while they were read on, whichever was going on. A pass that meets a fault keeps what was read
/// before it and adds nothing.
pub proof fn passes_tell_what_went_on(
    p: Pass,
    files: Map<LogComponent, LogFile>,
    after: Map<LogComponent, LogFile>,
    attaching: bool,
    c: LogComponent,
)
    requires
        p.fault is None,
    ensures
        ({
            let q = pass_one(p, files, after, attaching, c);
            &&& q.fault matches Some(ObserverError::ReplayRequired(e)) ==> e.place
                == ReplayPlace::Component(c) && (attaching ==> e.reason is ChangedWhileAttaching)
                && !(e.reason is ChangedWhileAttaching && !attaching)
            &&& q.fault is Some ==> q.lines == p.lines
            &&& !files.contains_key(c) && attaching ==> q == p
            &&& attaching && files.contains_key(c) && after.contains_key(c)
                && p.logs.identities.contains_key(c) && p.logs.identities[c] != after[c].identity
                ==> q.fault is Some
        }),
{
}

/// Where the logs were read on without the deck, each reason is told in its own words.
pub proof fn refusals_are_told_apart(reason: ReplayReason)
    ensures
        reason is Appeared ==> occurs_at(refusal_words(reason), "appeared"@, 0),
        reason is ChangedBeforeCursor ==> occurs_at(refusal_words(reason), "changed before"@, 0),
        reason is ChangedWhileReading ==> contains_part(refusal_words(reason), "reading"@),
        reason is ChangedWhileAttaching ==> contains_part(refusal_words(reason), "attaching"@),
        reason is OutOfOrder ==> contains_part(refusal_words(reason), "sorts before"@),
        reason is NoComponentLog ==> contains_part(refusal_words(reason), "not contain any"@),
        reason is Replaced || reason is Truncated || reason is Disappeared ==> refusal_words(reason)
            == reason_text(reason),
{
    let t = refusal_words(reason);
    reveal_strlit("appeared");
    reveal_strlit("changed before");
    reveal_strlit("reading");
    reveal_strlit("attaching");
    reveal_strlit("sorts before");
    reveal_strlit("not contain any");
    match reason {
        ReplayReason::Appeared => {
            reveal_strlit("appeared after attachment; replaying the session");
            assert(t.subrange(0, 8) =~= "appeared"@);
        },
        ReplayReason::ChangedBeforeCursor => {
            reveal_strlit("changed before its saved cursor; replaying the session");
            assert(t.subrange(0, 14) =~= "changed before"@);
        },
        ReplayReason::ChangedWhileReading => {
            reveal_strlit("changed while ArenaNext was reading it; replaying the session");
            assert(t.subrange(28, 35) =~= "reading"@);
            assert(occurs_at(t, "reading"@, 28));
        },
        ReplayReason::ChangedWhileAttaching => {
            reveal_strlit("changed while ArenaNext was attaching; retrying is safer");
            assert(t.subrange(28, 37) =~= "attaching"@);
            assert(occurs_at(t, "attaching"@, 28));
        },
        ReplayReason::OutOfOrder => {
            reveal_strlit(
                "a newly appended log record sorts before an already reduced record; replaying the session",
            );
            assert(t.subrange(28, 40) =~= "sorts before"@);
            assert(occurs_at(t, "sorts before"@, 28));
        },
        ReplayReason::NoComponentLog => {
            reveal_strlit("does not contain any supported Hearthstone component logs");
            assert(t.subrange(5, 20) =~= "not contain any"@);
            assert(occurs_at(t, "not contain any"@, 5));
        },
        _ => {},
    }
}

/// A deck that is not taken over is refused with its numbers: those of the cards that are seen and
/// counted, or those of the cards that are counted and expected.
pub proof fn refused_decks_tell_their_numbers(e: BaselineError)
    ensures
        e matches BaselineError::Partial { visible, observed } ==> {
            let t = baseline_text(e);
            let n = "sidebar is partial: "@.len() as int;
            let v = decimal(visible as nat);
            let gap = " visible card slots for "@.len();
            &&& occurs_at(t, v, n)
            &&& occurs_at(t, decimal(observed as nat), n + v.len() + gap)
        },
        e matches BaselineError::Capacity { observed, expected } ==> {
            let t = baseline_text(e);
            let n = "sidebar count "@.len() as int;
            let o = decimal(observed as nat);
            &&& occurs_at(t, o, n)
            &&& t[n + o.len()] == '/'
            &&& occurs_at(t, decimal(expected as nat), n + o.len() + 1)
        },
{
    reveal_strlit("/");
    let t = baseline_text(e);
    match e {
        BaselineError::Partial { visible, observed } => {
            let n = "sidebar is partial: "@.len() as int;
            let v = decimal(visible as nat);
            let o = decimal(observed as nat);
            let at = n + v.len() + " visible card slots for "@.len();
            assert(t.subrange(n, n + v.len()) =~= v);
            assert(t.subrange(at, at + o.len()) =~= o);
        },
        BaselineError::Capacity { observed, expected } => {
            let n = "sidebar count "@.len() as int;
            let o = decimal(observed as nat);
            let x = decimal(expected as nat);
            let at = n + o.len() + 1;
            assert(t.subrange(n, n + o.len()) =~= o);
            assert(t.subrange(at, at + x.len()) =~= x);
        },
        _ => {},
    }
}

/// Nothing is said of a tail or of skipped bytes where the logs were read in full or resumed, and
/// where a listing is awaited the other logs begin at their end.
pub proof fn full_readings_skip_nothing(method: AttachMethod)
    ensures
        ({
            let d = plain_diagnostics(method);
            &&& d.method == method
            &&& d.snapshot_byte_offset is None
            &&& d.snapshot_bytes_parsed == 0
            &&& d.arena_suffix_bytes_skipped == 0
            &&& !d.arena_suffix_truncated
            &&& !d.snapshot_invalidated_by_newer_run
            &&& d.checkpoint_suffix_bytes_replayed == 0
            &&& !d.non_arena_components_started_at_tail
        }),
        waiting_diagnostics().non_arena_components_started_at_tail,
        waiting_diagnostics().method is AwaitingSnapshot,
{
}

} // verus!
