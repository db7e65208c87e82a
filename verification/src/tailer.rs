//! Following a session by reading all of its records: those of all components are put into one
//! order before they are parsed.
use crate::following::grown;
use crate::log_component::{ComponentMap, LogComponent, REQUIRED_COMPONENTS};
use crate::log_parser::{fresh_parser, line_models, HearthstoneLogParser, LineModel, ParserModel, RawLogLine};
use crate::log_reader::{
    file_start, read_all, read_component_file_from, read_next, reading_in_steps_is_reading_at_once,
    LogCursor,
};
use crate::merge::{rank_of_required, LogFile, ReduceState};
use crate::observer::{
    component_log_path, cursor_of, entry_fault, file_identities, fresh_state, identities_of,
    log_path, plain_diagnostics, reason_text, session_fault, settle_one, validate_log_session,
    AttachDiagnostics, AttachMethod, LogReplayRequired, ObserverError, ObserverModel, ReplayPlace,
    ReplayReason, SessionObserver, Settling, WitnessModel,
};
use crate::session::{
    at_place, is_sorting, key_lt, key_of, line_key, orderings_join, parse_lines, parse_run,
    parsed_models, parsing_in_steps_is_parsing_at_once, places_hold_their_records, places_of_joined,
    sort_lines, LineKey, ParsedEvent,
};
use crate::text;
use vstd::prelude::*;

verus! {

/// Follows a session.
pub struct SessionTailer {
    /// The places, the identities and the witnesses of the logs.
    pub logs: SessionObserver,
    pub parser: HearthstoneLogParser,
    pub last_line: Option<LineKey>,
}

/// The model of a tailer.
pub struct TailerModel {
    pub logs: ObserverModel,
    pub parser: ParserModel,
    pub last_line: Option<LineKey>,
}

impl View for SessionTailer {
    type V = TailerModel;

    open spec fn view(&self) -> TailerModel {
        TailerModel { logs: self.logs@, parser: self.parser@, last_line: self.last_line }
    }
}

/// The words for why a tailer has to begin anew.
pub open spec fn refusal_words(reason: ReplayReason) -> Seq<char> {
    match reason {
        ReplayReason::Appeared => "appeared after attachment; replaying the session"@,
        ReplayReason::ChangedBeforeCursor =>
            "changed before its saved cursor; replaying the session"@,
        ReplayReason::OutOfOrder =>
            "a newly appended log record sorts before an already reduced record; replaying the session"@,
        ReplayReason::ChangedWhileReading =>
            "changed while ArenaNext was reading it; replaying the session"@,
        ReplayReason::ChangedWhileAttaching =>
            "changed while ArenaNext was attaching; retrying is safer"@,
        ReplayReason::NoComponentLog =>
            "does not contain any supported Hearthstone component logs"@,
        other => reason_text(other),
    }
}

/// The words for what a tailer of a session refuses.
pub open spec fn refusal_text(e: LogReplayRequired, session: Seq<char>) -> Seq<char> {
    match e.place {
        ReplayPlace::Stream => refusal_words(e.reason),
        ReplayPlace::Session => session + " "@ + refusal_words(e.reason),
        ReplayPlace::Component(c) => log_path(session, c) + " "@ + refusal_words(e.reason),
    }
}

/// The words for what a tailer of a session refuses.
pub fn refusal_message(required: &LogReplayRequired, session: &str) -> (r: String)
    ensures
        r@ == refusal_text(*required, session@),
{
    let words = match required.reason {
        ReplayReason::Appeared => "appeared after attachment; replaying the session",
        ReplayReason::ChangedBeforeCursor =>
            "changed before its saved cursor; replaying the session",
        ReplayReason::OutOfOrder =>
            "a newly appended log record sorts before an already reduced record; replaying the session",
        ReplayReason::ChangedWhileReading =>
            "changed while ArenaNext was reading it; replaying the session",
        ReplayReason::ChangedWhileAttaching =>
            "changed while ArenaNext was attaching; retrying is safer",
        ReplayReason::NoComponentLog =>
            "does not contain any supported Hearthstone component logs",
        other => other.text(),
    };
    let mut r = match required.place {
        ReplayPlace::Stream => return text::copy(words),
        ReplayPlace::Session => text::copy(session),
        ReplayPlace::Component(c) => component_log_path(session, c),
    };
    r.append(" ");
    r.append(words);
    r
}

/// What reading on in the logs gave so far.
pub struct Pass {
    pub logs: ObserverModel,
    pub lines: Seq<LineModel>,
    pub fault: Option<ObserverError>,
}

/// Reads on in one log. `files` are the logs as they are read, `after` the same logs once that was
/// done; `attaching` means that nothing was read of them before.
pub open spec fn pass_one(
    p: Pass,
    files: Map<LogComponent, LogFile>,
    after: Map<LogComponent, LogFile>,
    attaching: bool,
    c: LogComponent,
) -> Pass {
    let entry = if attaching {
        None
    } else {
        entry_fault(p.logs, files, c)
    };
    match entry {
        Some(reason) => Pass {
            fault: Some(
                ObserverError::ReplayRequired(
                    LogReplayRequired { place: ReplayPlace::Component(c), reason },
                ),
            ),
            ..p
        },
        None => if !files.contains_key(c) {
            p
        } else {
            match read_all(c, files[c].bytes@, cursor_of(p.logs, c)) {
                Err(e) => Pass { fault: Some(ObserverError::Read(e)), ..p },
                Ok((more, place)) => {
                    let s = settle_one(
                        Settling { observer: p.logs, advanced: false, fault: None },
                        after,
                        c,
                        place,
                        pass_reason(attaching),
                    );
                    Pass {
                        logs: s.observer,
                        lines: if s.fault is Some {
                            p.lines
                        } else {
                            p.lines + more
                        },
                        fault: s.fault,
                    }
                },
            }
        },
    }
}

/// Why a log that changed meanwhile has to be read anew.
pub open spec fn pass_reason(attaching: bool) -> ReplayReason {
    if attaching {
        ReplayReason::ChangedWhileAttaching
    } else {
        ReplayReason::ChangedWhileReading
    }
}

/// Reads on in the first logs, up to the first fault.
pub open spec fn pass(
    logs: ObserverModel,
    files: Map<LogComponent, LogFile>,
    after: Map<LogComponent, LogFile>,
    attaching: bool,
    n: int,
) -> Pass
    decreases n,
{
    if n <= 0 {
        Pass { logs, lines: Seq::empty(), fault: None }
    } else {
        let before = pass(logs, files, after, attaching, n - 1);
        if before.fault is Some {
            before
        } else {
            pass_one(before, files, after, attaching, REQUIRED_COMPONENTS@[n - 1])
        }
    }
}

proof fn pass_fault_stays(
    logs: ObserverModel,
    files: Map<LogComponent, LogFile>,
    after: Map<LogComponent, LogFile>,
    attaching: bool,
    i: int,
    n: int,
)
    requires
        0 <= i <= n,
        pass(logs, files, after, attaching, i).fault is Some,
    ensures
        pass(logs, files, after, attaching, n) == pass(logs, files, after, attaching, i),
    decreases n - i,
{
    if i < n {
        pass_fault_stays(logs, files, after, attaching, i, n - 1);
    }
}

/// Whether records begin before the last one that was parsed.
pub open spec fn begin_too_early(last: Option<LineKey>, sorted: Seq<LineModel>) -> bool {
    last matches Some(last) && key_lt(key_of(sorted[0]), last)
}

/// The error for a record that belongs before one that was parsed already.
pub open spec fn out_of_order() -> ObserverError {
    ObserverError::ReplayRequired(
        LogReplayRequired { place: ReplayPlace::Stream, reason: ReplayReason::OutOfOrder },
    )
}

/// The tailer after records.
pub open spec fn after_records(t: TailerModel, logs: ObserverModel, sorted: Seq<LineModel>) -> TailerModel {
    TailerModel {
        logs,
        parser: parse_run(t.parser, sorted).0,
        last_line: if sorted.len() > 0 {
            Some(key_of(sorted.last()))
        } else {
            t.last_line
        },
    }
}

/// A tailer that has parsed nothing yet.
pub open spec fn unread_tailer(logs: ObserverModel) -> TailerModel {
    TailerModel { logs, parser: fresh_parser(), last_line: None }
}

/// The logs before anything was read of them.
pub open spec fn unread_logs(session: Seq<char>, files: Map<LogComponent, LogFile>) -> ObserverModel {
    ObserverModel {
        session_id: session,
        state: fresh_state(),
        cursors: Map::empty(),
        identities: identities_of(files),
        witnesses: Map::empty(),
        diagnostics: plain_diagnostics(AttachMethod::FullReplay),
    }
}

fn run_pass(
    logs: &mut SessionObserver,
    files: &ComponentMap<LogFile>,
    after: &ComponentMap<LogFile>,
    attaching: bool,
) -> (r: Result<Vec<RawLogLine>, ObserverError>)
    requires
        old(logs).wf(),
        files.wf(),
        after.wf(),
    ensures
        final(logs).wf(),
        ({
            let p = pass(old(logs)@, files.entries(), after.entries(), attaching, 5);
            &&& final(logs)@ == p.logs
            &&& match r {
                Err(e) => p.fault == Some(e),
                Ok(lines) => p.fault is None && line_models(lines@) == p.lines,
            }
        }),
{
    let ghost first = logs@;
    let mut lines: Vec<RawLogLine> = Vec::new();
    let reason = if attaching {
        ReplayReason::ChangedWhileAttaching
    } else {
        ReplayReason::ChangedWhileReading
    };
    let mut i: usize = 0;
    assert(line_models(lines@) =~= Seq::<LineModel>::empty());
    while i < 5
        invariant
            i <= 5,
            first == old(logs)@,
            logs.wf(),
            files.wf(),
            after.wf(),
            reason == pass_reason(attaching),
            pass(first, files.entries(), after.entries(), attaching, i as int) == (Pass {
                logs: logs@,
                lines: line_models(lines@),
                fault: None,
            }),
        decreases 5 - i,
    {
        let component = REQUIRED_COMPONENTS[i];
        let ghost here = Pass { logs: logs@, lines: line_models(lines@), fault: None };
        let ghost next = pass_one(here, files.entries(), after.entries(), attaching, component);
        assert(pass(first, files.entries(), after.entries(), attaching, i + 1) == next);
        if !attaching {
            match logs.entry_check(files, component) {
                Some(why) => {
                    proof {
                        pass_fault_stays(
                            first,
                            files.entries(),
                            after.entries(),
                            attaching,
                            i + 1,
                            5,
                        );
                    }
                    return Err(
                        ObserverError::ReplayRequired(
                            LogReplayRequired {
                                place: ReplayPlace::Component(component),
                                reason: why,
                            },
                        ),
                    );
                },
                None => {},
            }
        }
        match files.get(component) {
            None => {},
            Some(file) => {
                let cursor: LogCursor = match logs.cursors.get(component) {
                    Some(cursor) => *cursor,
                    None => LogCursor::default(),
                };
                assert(cursor == cursor_of(logs@, component));
                match read_component_file_from(component, file.bytes.as_slice(), cursor) {
                    Err(e) => {
                        proof {
                            pass_fault_stays(
                                first,
                                files.entries(),
                                after.entries(),
                                attaching,
                                i + 1,
                                5,
                            );
                        }
                        return Err(ObserverError::Read(e));
                    },
                    Ok((more, place)) => {
                        let ghost settling = settle_one(
                            Settling { observer: logs@, advanced: false, fault: None },
                            after.entries(),
                            component,
                            place,
                            reason,
                        );
                        match logs.settle_component(after, component, place, reason) {
                            Err(e) => {
                                proof {
                                    assert(next.fault == Some(e));
                                    pass_fault_stays(
                                        first,
                                        files.entries(),
                                        after.entries(),
                                        attaching,
                                        i + 1,
                                        5,
                                    );
                                }
                                return Err(e);
                            },
                            Ok(_) => {
                                assert(settling.fault is None);
                                let mut added = more;
                                let ghost before = lines@;
                                let ghost new = added@;
                                lines.append(&mut added);
                                assert(line_models(lines@) =~= line_models(before) + line_models(
                                    new,
                                ));
                            },
                        }
                    },
                }
            },
        }
        i = i + 1;
    }
    Ok(lines)
}

impl SessionTailer {
    /// The tables of the logs are sound.
    pub open spec fn wf(&self) -> bool {
        self.logs.wf()
    }

    /// Attaches to a session: all records are read.
    pub fn attach(
        session_id: &str,
        is_dir: bool,
        files: &ComponentMap<LogFile>,
        after: &ComponentMap<LogFile>,
    ) -> (r: Result<(SessionTailer, Vec<ParsedEvent>), ObserverError>)
        requires
            files.wf(),
            after.wf(),
        ensures
            match session_fault(is_dir, files.entries()) {
                Some(fault) => r matches Err(e) && e == ObserverError::ReplayRequired(fault),
                None => {
                    let p = pass(
                        unread_logs(session_id@, files.entries()),
                        files.entries(),
                        after.entries(),
                        true,
                        5,
                    );
                    match r {
                        Err(e) => p.fault == Some(e),
                        Ok((tailer, events)) => p.fault is None && tailer.wf() && exists|
                            sorted: Seq<LineModel>,
                        | #[trigger]
                            is_sorting(sorted, p.lines) && tailer@ == after_records(
                                unread_tailer(p.logs),
                                p.logs,
                                sorted,
                            ) && parsed_models(events@) == parse_run(fresh_parser(), sorted).1,
                    }
                },
            },
    {
        match validate_log_session(is_dir, files) {
            Err(fault) => return Err(ObserverError::ReplayRequired(fault)),
            Ok(()) => {},
        }
        let mut logs = SessionObserver {
            session_id: text::copy(session_id),
            state: ReduceState::fresh(),
            cursors: ComponentMap::new(),
            file_identities: file_identities(files),
            checkpoints: ComponentMap::new(),
            diagnostics: AttachDiagnostics::of(AttachMethod::FullReplay),
        };
        assert(logs@.witnesses =~= Map::<LogComponent, WitnessModel>::empty());
        assert(logs@ == unread_logs(session_id@, files.entries()));
        let lines = match run_pass(&mut logs, files, after, true) {
            Err(e) => return Err(e),
            Ok(lines) => lines,
        };
        let sorted = sort_lines(lines);
        let last_line = if sorted.len() > 0 {
            Some(line_key(&sorted[sorted.len() - 1]))
        } else {
            None
        };
        let mut parser = HearthstoneLogParser::default();
        let events = parse_lines(&mut parser, &sorted);
        assert(is_sorting(line_models(sorted@), line_models(lines@)));
        Ok((SessionTailer { logs, parser, last_line }, events))
    }

    /// Reads on. `None` means that there was nothing new. An error asks for a fresh attach.
    pub fn poll(&mut self, files: &ComponentMap<LogFile>, after: &ComponentMap<LogFile>) -> (r:
        Result<Option<Vec<ParsedEvent>>, ObserverError>)
        requires
            old(self).wf(),
            files.wf(),
            after.wf(),
        ensures
            final(self).wf(),
            ({
                let p = pass(old(self)@.logs, files.entries(), after.entries(), false, 5);
                let kept = TailerModel { logs: p.logs, ..old(self)@ };
                match p.fault {
                    Some(e) => r == Err::<Option<Vec<ParsedEvent>>, ObserverError>(e)
                        && final(self)@ == kept,
                    None => if p.lines.len() == 0 {
                        r matches Ok(None) && final(self)@ == kept
                    } else {
                        exists|sorted: Seq<LineModel>| #[trigger]
                            is_sorting(sorted, p.lines) && if begin_too_early(
                                old(self)@.last_line,
                                sorted,
                            ) {
                                r == Err::<Option<Vec<ParsedEvent>>, ObserverError>(out_of_order())
                                    && final(self)@ == kept
                            } else {
                                (r matches Ok(Some(events)) && parsed_models(events@) == parse_run(
                                    old(self)@.parser,
                                    sorted,
                                ).1) && final(self)@ == after_records(
                                    old(self)@,
                                    p.logs,
                                    sorted,
                                )
                            }
                    },
                }
            }),
    {
        let lines = match run_pass(&mut self.logs, files, after, false) {
            Err(e) => return Err(e),
            Ok(lines) => lines,
        };
        assert(line_models(lines@).len() == lines@.len());
        if lines.len() == 0 {
            return Ok(None);
        }
        let sorted = sort_lines(lines);
        assert(is_sorting(line_models(sorted@), line_models(lines@)));
        let first: LineKey = line_key(&sorted[0]);
        let early = match self.last_line {
            Some(last) => first.precedes(&last),
            None => false,
        };
        assert(early == begin_too_early(self.last_line, line_models(sorted@)));
        if early {
            return Err(
                ObserverError::ReplayRequired(
                    LogReplayRequired {
                        place: ReplayPlace::Stream,
                        reason: ReplayReason::OutOfOrder,
                    },
                ),
            );
        }
        self.last_line = Some(line_key(&sorted[sorted.len() - 1]));
        let events = parse_lines(&mut self.parser, &sorted);
        Ok(Some(events))
    }
}

/// Whether records are all of components below a rank.
spec fn below(lines: Seq<LineModel>, n: int) -> bool {
    forall|i: int| 0 <= i < lines.len() ==> (#[trigger] lines[i]).component.rank() < n
}

/// Whether records are all of one component.
spec fn all_of(lines: Seq<LineModel>, c: LogComponent) -> bool {
    forall|i: int| 0 <= i < lines.len() ==> (#[trigger] lines[i]).component == c
}

proof fn records_name_their_component(c: LogComponent, b: Seq<u8>, cursor: LogCursor)
    ensures
        read_all(c, b, cursor) matches Ok((lines, _)) ==> all_of(lines, c),
    decreases b.len() - cursor.byte_offset,
{
    let (next, found) = read_next(c, b, cursor);
    if let Ok(Some(line)) = found {
        if cursor.byte_offset < next.byte_offset <= b.len() {
            records_name_their_component(c, b, next);
        }
    }
}

/// Whether two followers of logs stand at the same place in one of them.
spec fn same_place(a: ObserverModel, b: ObserverModel, c: LogComponent) -> bool {
    &&& a.cursors.contains_key(c) == b.cursors.contains_key(c)
    &&& a.cursors.contains_key(c) ==> a.cursors[c] == b.cursors[c]
    &&& a.witnesses.contains_key(c) == b.witnesses.contains_key(c)
    &&& a.witnesses.contains_key(c) ==> a.witnesses[c] == b.witnesses[c]
}

/// Whether nothing was read of the logs from a rank on.
spec fn unread_from(o: ObserverModel, n: int) -> bool {
    forall|c: LogComponent|
        c.rank() >= n ==> !#[trigger] o.cursors.contains_key(c) && !o.witnesses.contains_key(c)
}

proof fn first_pass(session: Seq<char>, files: Map<LogComponent, LogFile>, n: int)
    requires
        0 <= n <= 5,
        pass(unread_logs(session, files), files, files, true, n).fault is None,
    ensures
        ({
            let p = pass(unread_logs(session, files), files, files, true, n);
            &&& p.logs == ObserverModel {
                cursors: p.logs.cursors,
                witnesses: p.logs.witnesses,
                ..unread_logs(session, files)
            }
            &&& unread_from(p.logs, n)
            &&& below(p.lines, n)
            &&& forall|c: LogComponent|
                c.rank() < n && #[trigger] files.contains_key(c) ==> (read_all(
                    c,
                    files[c].bytes@,
                    file_start(),
                ) matches Ok((_, place)) && p.logs.cursors.contains_key(c) && p.logs.cursors[c]
                    == place)
        }),
    decreases n,
{
    if n > 0 {
        let unread = unread_logs(session, files);
        let before = pass(unread, files, files, true, n - 1);
        assert(before.fault is None);
        first_pass(session, files, n - 1);
        let c = REQUIRED_COMPONENTS@[n - 1];
        rank_of_required(n - 1);
        assert(forall|d: LogComponent| #[trigger] d.rank() == c.rank() ==> d == c);
        if files.contains_key(c) {
            assert(!before.logs.cursors.contains_key(c));
            records_name_their_component(c, files[c].bytes@, file_start());
        }
    }
}

/// Whether reading some logs in steps and reading them at once have come to the same.
spec fn in_step(start: ObserverModel, p: Pass, q: Pass, all: Pass, n: int) -> bool {
    &&& all.fault is None
    &&& all.logs == ObserverModel {
        cursors: all.logs.cursors,
        witnesses: all.logs.witnesses,
        ..q.logs
    }
    &&& q.logs == ObserverModel { cursors: q.logs.cursors, witnesses: q.logs.witnesses, ..start }
    &&& unread_from(all.logs, n)
    &&& forall|c: LogComponent| c.rank() < n ==> #[trigger] same_place(all.logs, q.logs, c)
    &&& forall|c: LogComponent| c.rank() >= n ==> #[trigger] same_place(q.logs, start, c)
    &&& below(q.lines, n)
    &&& forall|key: LineKey| #[trigger]
        at_place(all.lines, key) == at_place(p.lines, key) + at_place(q.lines, key)
}

proof fn appended_places(
    first: Seq<LineModel>,
    rest: Seq<LineModel>,
    all: Seq<LineModel>,
    more_first: Seq<LineModel>,
    more_rest: Seq<LineModel>,
    c: LogComponent,
)
    requires
        forall|key: LineKey| #[trigger]
            at_place(all, key) == at_place(first, key) + at_place(rest, key),
        below(first, c.rank()),
        below(rest, c.rank()),
        all_of(more_first, c),
        all_of(more_rest, c),
    ensures
        forall|key: LineKey| #[trigger]
            at_place(all + (more_first + more_rest), key) == at_place(first + more_first, key)
                + at_place(rest + more_rest, key),
{
    assert forall|key: LineKey| #[trigger]
        at_place(all + (more_first + more_rest), key) == at_place(first + more_first, key)
            + at_place(rest + more_rest, key) by {
        assert(at_place(all, key) == at_place(first, key) + at_place(rest, key));
        places_of_joined(all, more_first + more_rest, key);
        places_of_joined(more_first, more_rest, key);
        places_of_joined(first, more_first, key);
        places_of_joined(rest, more_rest, key);
        places_hold_their_records(first, key);
        places_hold_their_records(rest, key);
        places_hold_their_records(more_first, key);
        places_hold_their_records(more_rest, key);
        if key.component == c {
            assert(at_place(first, key).len() == 0);
            assert(at_place(rest, key).len() == 0);
        } else {
            assert(at_place(more_first, key).len() == 0);
            assert(at_place(more_rest, key).len() == 0);
        }
        assert(at_place(all + (more_first + more_rest), key) =~= at_place(first + more_first, key)
            + at_place(rest + more_rest, key));
    }
}

proof fn one_more_log(
    start: ObserverModel,
    p: Pass,
    q: Pass,
    all: Pass,
    files: Map<LogComponent, LogFile>,
    longer: Map<LogComponent, LogFile>,
    c: LogComponent,
)
    requires
        grown(files, longer),
        start.identities == identities_of(longer),
        in_step(start, p, q, all, c.rank()),
        p.fault is None,
        q.fault is None,
        unread_from(p.logs, c.rank()),
        below(p.lines, c.rank()),
        pass_one(p, files, files, true, c).fault is None,
        pass_one(q, longer, longer, false, c).fault is None,
        if files.contains_key(c) {
            read_all(c, files[c].bytes@, file_start()) matches Ok((_, place))
                && start.cursors.contains_key(c) && start.cursors[c] == place
        } else {
            !start.cursors.contains_key(c) && !start.witnesses.contains_key(c)
        },
    ensures
        in_step(
            start,
            pass_one(p, files, files, true, c),
            pass_one(q, longer, longer, false, c),
            pass_one(all, longer, longer, true, c),
            c.rank() + 1,
        ),
{
    let next_p = pass_one(p, files, files, true, c);
    let next_q = pass_one(q, longer, longer, false, c);
    let next_all = pass_one(all, longer, longer, true, c);
    assert(forall|d: LogComponent| #[trigger] d.rank() == c.rank() ==> d == c);
    assert(same_place(q.logs, start, c));
    assert(files.contains_key(c) == longer.contains_key(c));
    assert(!p.logs.cursors.contains_key(c));
    assert(!all.logs.cursors.contains_key(c));
    if files.contains_key(c) {
        let b = files[c].bytes@;
        let more = longer[c].bytes@;
        assert(longer[c].bytes@.len() == longer[c].bytes.len());
        let (old_lines, place) = read_all(c, b, file_start())->Ok_0;
        reading_in_steps_is_reading_at_once(c, b, more, file_start());
        records_name_their_component(c, b, file_start());
        records_name_their_component(c, more, place);
        assert(cursor_of(q.logs, c) == place);
        let (new_lines, last) = read_all(c, more, place)->Ok_0;
        appended_places(p.lines, q.lines, all.lines, old_lines, new_lines, c);
        assert(next_p.lines == p.lines + old_lines);
        assert(next_q.lines == q.lines + new_lines);
        assert(next_all.fault is None);
        assert(next_all.lines == all.lines + (old_lines + new_lines));
        assert(same_place(next_all.logs, next_q.logs, c));
    } else {
        assert(next_p == p);
        assert(next_q == q);
        assert(next_all == all);
        assert(same_place(next_all.logs, next_q.logs, c));
    }
    assert forall|d: LogComponent| d.rank() < c.rank() + 1 implies #[trigger] same_place(
        next_all.logs,
        next_q.logs,
        d,
    ) by {
        if d != c {
            assert(same_place(all.logs, q.logs, d));
        }
    }
    assert forall|d: LogComponent| d.rank() >= c.rank() + 1 implies #[trigger] same_place(
        next_q.logs,
        start,
        d,
    ) by {
        assert(d != c);
        assert(same_place(q.logs, start, d));
    }
    assert forall|d: LogComponent| d.rank() >= c.rank() + 1 implies !#[trigger]
        next_all.logs.cursors.contains_key(d) && !next_all.logs.witnesses.contains_key(d) by {
        assert(d != c);
        assert(!all.logs.cursors.contains_key(d));
    }
}

proof fn passes_keep_in_step(
    session: Seq<char>,
    files: Map<LogComponent, LogFile>,
    longer: Map<LogComponent, LogFile>,
    n: int,
)
    requires
        0 <= n <= 5,
        grown(files, longer),
        pass(unread_logs(session, files), files, files, true, 5).fault is None,
        pass(
            pass(unread_logs(session, files), files, files, true, 5).logs,
            longer,
            longer,
            false,
            5,
        ).fault is None,
    ensures
        ({
            let start = pass(unread_logs(session, files), files, files, true, 5).logs;
            in_step(
                start,
                pass(unread_logs(session, files), files, files, true, n),
                pass(start, longer, longer, false, n),
                pass(unread_logs(session, longer), longer, longer, true, n),
                n,
            )
        }),
    decreases n,
{
    let unread = unread_logs(session, files);
    let start = pass(unread, files, files, true, 5).logs;
    let again = unread_logs(session, longer);
    first_pass(session, files, 5);
    assert(identities_of(files) =~= identities_of(longer)) by {
        assert forall|c: LogComponent| #[trigger] files.contains_key(c) implies identities_of(
            files,
        )[c] == identities_of(longer)[c] by {}
        assert(identities_of(files).dom() =~= identities_of(longer).dom());
    }
    if n == 0 {
        let none = Seq::<LineModel>::empty();
        assert forall|key: LineKey| #[trigger] at_place(none, key) == at_place(none, key)
            + at_place(none, key) by {
            assert(at_place(none, key) =~= at_place(none, key) + at_place(none, key));
        }
    } else {
        passes_keep_in_step(session, files, longer, n - 1);
        let p = pass(unread, files, files, true, n - 1);
        let q = pass(start, longer, longer, false, n - 1);
        let all = pass(again, longer, longer, true, n - 1);
        if p.fault is Some {
            pass_fault_stays(unread, files, files, true, n - 1, 5);
        }
        if pass(unread, files, files, true, n).fault is Some {
            pass_fault_stays(unread, files, files, true, n, 5);
        }
        if q.fault is Some {
            pass_fault_stays(start, longer, longer, false, n - 1, 5);
        }
        if pass(start, longer, longer, false, n).fault is Some {
            pass_fault_stays(start, longer, longer, false, n, 5);
        }
        first_pass(session, files, n - 1);
        let c = REQUIRED_COMPONENTS@[n - 1];
        rank_of_required(n - 1);
        if !files.contains_key(c) {
            only_logs_are_read(session, files, 5, c);
        }
        one_more_log(start, p, q, all, files, longer, c);
    }
}

proof fn only_logs_are_read(
    session: Seq<char>,
    files: Map<LogComponent, LogFile>,
    n: int,
    c: LogComponent,
)
    requires
        0 <= n <= 5,
        !files.contains_key(c),
    ensures
        ({
            let logs = pass(unread_logs(session, files), files, files, true, n).logs;
            !logs.cursors.contains_key(c) && !logs.witnesses.contains_key(c)
        }),
    decreases n,
{
    if n > 0 {
        only_logs_are_read(session, files, n - 1, c);
    }
}

/// Following a session gives what reading it anew gives. A tailer that has read a session, and
/// then the records that were appended, has parsed the same records in the same order as one that
/// reads the grown logs from their start: it knows the same, and has given the same events.
/// Records that belong before one that was parsed ask for a new start instead.
pub proof fn tailing_gives_what_reading_anew_gives(
    session: Seq<char>,
    files: Map<LogComponent, LogFile>,
    longer: Map<LogComponent, LogFile>,
    first: Seq<LineModel>,
    rest: Seq<LineModel>,
)
    requires
        grown(files, longer),
        ({
            let p = pass(unread_logs(session, files), files, files, true, 5);
            let before = after_records(unread_tailer(p.logs), p.logs, first);
            let q = pass(p.logs, longer, longer, false, 5);
            &&& p.fault is None
            &&& is_sorting(first, p.lines)
            &&& q.fault is None
            &&& is_sorting(rest, q.lines)
            &&& rest.len() > 0 ==> !begin_too_early(before.last_line, rest)
        }),
    ensures
        ({
            let p = pass(unread_logs(session, files), files, files, true, 5);
            let before = after_records(unread_tailer(p.logs), p.logs, first);
            let q = pass(p.logs, longer, longer, false, 5);
            let all = pass(unread_logs(session, longer), longer, longer, true, 5);
            &&& all.fault is None
            &&& is_sorting(first + rest, all.lines)
            &&& after_records(unread_tailer(all.logs), all.logs, first + rest) == after_records(
                before,
                q.logs,
                rest,
            )
            &&& parse_run(fresh_parser(), first + rest).1 == parse_run(fresh_parser(), first).1
                + parse_run(before.parser, rest).1
        }),
{
    let p = pass(unread_logs(session, files), files, files, true, 5);
    let q = pass(p.logs, longer, longer, false, 5);
    let all = pass(unread_logs(session, longer), longer, longer, true, 5);
    passes_keep_in_step(session, files, longer, 5);
    assert forall|c: LogComponent| #[trigger] same_place(all.logs, q.logs, c) by {
        assert(c.rank() < 5);
    }
    assert(all.logs.cursors =~= q.logs.cursors) by {
        assert forall|c: LogComponent| #[trigger]
            all.logs.cursors.contains_key(c) == q.logs.cursors.contains_key(c) && (
            all.logs.cursors.contains_key(c) ==> all.logs.cursors[c] == q.logs.cursors[c]) by {
            assert(same_place(all.logs, q.logs, c));
        }
    }
    assert(all.logs.witnesses =~= q.logs.witnesses) by {
        assert forall|c: LogComponent| #[trigger]
            all.logs.witnesses.contains_key(c) == q.logs.witnesses.contains_key(c) && (
            all.logs.witnesses.contains_key(c) ==> all.logs.witnesses[c] == q.logs.witnesses[c]) by {
            assert(same_place(all.logs, q.logs, c));
        }
    }
    orderings_join(first, p.lines, rest, q.lines, all.lines);
    parsing_in_steps_is_parsing_at_once(fresh_parser(), first, rest);
    if rest.len() == 0 {
        assert(first + rest =~= first);
    } else {
        assert((first + rest).last() == rest.last());
    }
}

} // verus!
