//! Following a session record by record gives what reading it anew gives.
use crate::log_component::{emits_events, LogComponent, REQUIRED_COMPONENTS};
use crate::log_parser::LineModel;
use crate::log_reader::{
    complete_records_stay, file_start, read_next, next_candidate, reading_moves_forward, LogCursor,
};
use crate::merge::{
    after_line, candidates, candidates_move_forward, earliest, earliest_has_a_record, event_lists,
    lists_in_order, merged, merging_keeps_order, next_record_is_the_earliest, one_less_waits,
    order_is_total, order_lt, order_of, place_after, rank_of_required, reduced, sourced, stands_in,
    start_fault, stream_outcome, too_late, total_waiting, waiting, whole_streams_have_no_fault,
    without_first, Candidates, LogFile, Outcome, ReduceModel, SourcedModel,
};
use crate::observer::{
    all_starts, any_log, attached_full, fresh_state, identities_of, places_after, places_before,
    plain_diagnostics, polled, settled_components, settled_first, unchecked_streams_are_never_late,
    AttachMethod, ObserverError, ObserverModel, ReplayReason,
};
use vstd::prelude::*;

verus! {

/// Whether a file is another one with bytes appended.
pub open spec fn continues(b: Seq<u8>, longer: Seq<u8>) -> bool {
    b.len() <= longer.len() && longer.take(b.len() as int) == b
}

proof fn next_candidate_in_steps(
    component: LogComponent,
    b: Seq<u8>,
    longer: Seq<u8>,
    cursor: LogCursor,
)
    requires
        longer.len() <= u64::MAX,
        continues(b, longer),
    ensures
        match next_candidate(component, b, cursor).1 {
            Ok(Some(_)) => next_candidate(component, longer, cursor) == next_candidate(
                component,
                b,
                cursor,
            ),
            Ok(None) => next_candidate(component, longer, cursor) == next_candidate(
                component,
                longer,
                next_candidate(component, b, cursor).0,
            ),
            Err(_) => true,
        },
    decreases b.len() - cursor.byte_offset,
{
    reading_moves_forward(component, b, cursor);
    let (next, found) = read_next(component, b, cursor);
    if let Ok(Some(line)) = found {
        complete_records_stay(component, b, longer, cursor);
        reading_moves_forward(component, longer, cursor);
        next_candidate_in_steps(component, b, longer, next);
    }
}

/// Reading the records of a component that can hold events in steps gives what reading them at
/// once gives.
pub proof fn candidates_in_steps(
    component: LogComponent,
    b: Seq<u8>,
    longer: Seq<u8>,
    cursor: LogCursor,
)
    requires
        longer.len() <= u64::MAX,
        continues(b, longer),
        candidates(component, b, cursor).fault is None,
    ensures
        ({
            let first = candidates(component, b, cursor);
            let rest = candidates(component, longer, first.end);
            candidates(component, longer, cursor) == (Candidates {
                lines: first.lines + rest.lines,
                fault: rest.fault,
                end: rest.end,
            })
        }),
    decreases b.len() - cursor.byte_offset,
{
    let (next, found) = next_candidate(component, b, cursor);
    candidates_move_forward(component, b, cursor);
    next_candidate_in_steps(component, b, longer, cursor);
    match found {
        Ok(Some(line)) => {
            candidates_in_steps(component, b, longer, next);
            let first = candidates(component, b, next);
            let rest = candidates(component, longer, first.end);
            assert(seq![line] + (first.lines + rest.lines) =~= (seq![line] + first.lines)
                + rest.lines);
        },
        Ok(None) => {
            let rest = candidates(component, longer, next);
            assert(rest == candidates(component, longer, cursor)) by {
                candidates_move_forward(component, longer, cursor);
                candidates_move_forward(component, longer, next);
            }
            assert(Seq::<LineModel>::empty() + rest.lines =~= rest.lines);
        },
        Err(_) => {},
    }
}

/// The records of components, each followed by those that came later.
pub open spec fn joined(
    first: Map<LogComponent, Candidates>,
    later: Map<LogComponent, Candidates>,
) -> Map<LogComponent, Candidates> {
    Map::new(
        |c: LogComponent| first.contains_key(c),
        |c: LogComponent|
            Candidates {
                lines: first[c].lines + later[c].lines,
                fault: later[c].fault,
                end: later[c].end,
            },
    )
}

/// Whether all records could be read.
pub open spec fn all_readable(lists: Map<LogComponent, Candidates>) -> bool {
    forall|c: LogComponent| #[trigger] lists.contains_key(c) ==> lists[c].fault is None
}

/// Whether every record comes before all that came later.
pub open spec fn all_before(
    first: Map<LogComponent, Candidates>,
    later: Map<LogComponent, Candidates>,
) -> bool {
    forall|c: LogComponent, k: int, d: LogComponent|
        #![trigger first[c].lines[k], later[d]]
        0 <= k < waiting(first, c) && waiting(later, d) > 0 ==> order_lt(
            order_of(first[c].lines[k]),
            order_of(later[d].lines[0]),
        )
}

proof fn earliest_of_joined(
    first: Map<LogComponent, Candidates>,
    later: Map<LogComponent, Candidates>,
    n: int,
)
    requires
        0 <= n <= 5,
        first.dom() == later.dom(),
        all_before(first, later),
    ensures
        earliest(joined(first, later), n) == (if earliest(first, n) is Some {
            earliest(first, n)
        } else {
            earliest(later, n)
        }),
    decreases n,
{
    if n > 0 {
        earliest_of_joined(first, later, n - 1);
        earliest_has_a_record(first, n - 1);
        earliest_has_a_record(later, n - 1);
        let all = joined(first, later);
        let c = REQUIRED_COMPONENTS@[n - 1];
        assert(first.contains_key(c) == later.contains_key(c));
        assert(waiting(all, c) == waiting(first, c) + waiting(later, c));
        if waiting(first, c) > 0 {
            assert(all[c].lines[0] == first[c].lines[0]);
        } else if waiting(later, c) > 0 {
            assert(all[c].lines[0] == later[c].lines[0]);
        }
        match earliest(first, n - 1) {
            Some(d) => {
                assert(all[d].lines[0] == first[d].lines[0]);
                if waiting(first, c) == 0 && waiting(later, c) > 0 {
                    order_is_total(
                        order_of(first[d].lines[0]),
                        order_of(later[c].lines[0]),
                        order_of(first[d].lines[0]),
                    );
                }
            },
            None => {
                if let Some(d) = earliest(later, n - 1) {
                    rank_of_required(d.rank());
                    assert(REQUIRED_COMPONENTS@[d.rank()] == d);
                    assert(waiting(first, d) == 0);
                    assert(first.contains_key(d));
                    assert(first[d].lines =~= Seq::<LineModel>::empty());
                    assert(all[d].lines[0] == later[d].lines[0]);
                }
            },
        }
    }
}

/// Merging records of which some came later, after all others, gives the merged first ones and
/// then the merged later ones.
proof fn merging_in_steps(
    first: Map<LogComponent, Candidates>,
    later: Map<LogComponent, Candidates>,
)
    requires
        first.dom() == later.dom(),
        all_readable(first),
        all_readable(later),
        all_before(first, later),
    ensures
        merged(joined(first, later)).lines == merged(first).lines + merged(later).lines,
        merged(joined(first, later)).fault == merged(later).fault,
    decreases total_waiting(first),
{
    let all = joined(first, later);
    earliest_of_joined(first, later, 5);
    earliest_has_a_record(first, 5);
    match earliest(first, 5) {
        None => {
            assert(all =~= later) by {
                assert forall|c: LogComponent| #[trigger] all.contains_key(c) implies all[c]
                    == later[c] by {
                    assert(REQUIRED_COMPONENTS@[c.rank()] == c);
                    assert(waiting(first, c) == 0);
                    assert(first[c].lines + later[c].lines =~= later[c].lines);
                }
            }
            assert(Seq::<LineModel>::empty() + merged(later).lines =~= merged(later).lines);
        },
        Some(c) => {
            one_less_waits(first, c);
            let rest = first.insert(c, without_first(first[c]));
            assert(first.contains_key(c));
            assert(rest.dom() =~= later.dom());
            assert(all_before(rest, later)) by {
                assert forall|d: LogComponent, k: int, e: LogComponent|
                    #![trigger rest[d].lines[k], later[e]]
                    0 <= k < waiting(rest, d) && waiting(later, e) > 0 implies order_lt(
                    order_of(rest[d].lines[k]),
                    order_of(later[e].lines[0]),
                ) by {
                    if d == c {
                        assert(rest[d].lines[k] == first[c].lines[k + 1]);
                    } else {
                        assert(rest[d].lines[k] == first[d].lines[k]);
                    }
                }
            }
            merging_in_steps(rest, later);
            assert(all.insert(c, without_first(all[c])) =~= joined(rest, later)) by {
                assert((first[c].lines + later[c].lines).skip(1) =~= first[c].lines.skip(1)
                    + later[c].lines);
            }
            assert(seq![first[c].lines[0]] + (merged(rest).lines + merged(later).lines) =~= (seq![
                first[c].lines[0],
            ] + merged(rest).lines) + merged(later).lines);
        },
    }
}

/// Merging loses nothing: a record of a component is in the merged stream.
pub proof fn merging_loses_nothing(
    lists: Map<LogComponent, Candidates>,
    line: LineModel,
    c: LogComponent,
    k: int,
)
    requires
        all_readable(lists),
        stands_in(lists, line, c, k),
    ensures
        merged(lists).lines.contains(line),
    decreases total_waiting(lists),
{
    earliest_has_a_record(lists, 5);
    assert(REQUIRED_COMPONENTS@[c.rank()] == c);
    let d = earliest(lists, 5)->0;
    let rest = lists.insert(d, without_first(lists[d]));
    one_less_waits(lists, d);
    let all = merged(lists).lines;
    assert(lists.contains_key(d));
    if c == d && k == 0 {
        assert(all[0] == line);
    } else {
        assert(all_readable(rest));
        if c == d {
            assert(stands_in(rest, line, c, k - 1));
            merging_loses_nothing(rest, line, c, k - 1);
        } else {
            assert(stands_in(rest, line, c, k));
            merging_loses_nothing(rest, line, c, k);
        }
        let i = choose|i: int| 0 <= i < merged(rest).lines.len() && merged(rest).lines[i] == line;
        assert(all[i + 1] == line);
    }
}

/// Reducing records in steps gives what reducing them at once gives.
pub proof fn reducing_in_steps(
    s: ReduceModel,
    session: Seq<char>,
    first: Seq<LineModel>,
    later: Seq<LineModel>,
)
    ensures
        ({
            let a = reduced(s, session, first, None, false);
            let b = reduced(a.state, session, later, None, false);
            reduced(s, session, first + later, None, false) == (Outcome {
                state: b.state,
                steps: a.steps + b.steps,
                end: b.end,
            })
        }),
    decreases first.len(),
{
    if first.len() == 0 {
        assert(first + later =~= later);
        let b = reduced(s, session, later, None, false);
        assert(Seq::<SourcedModel>::empty() + b.steps =~= b.steps);
    } else {
        let next = after_line(s, session, first[0]);
        reducing_in_steps(next, session, first.skip(1), later);
        assert((first + later).skip(1) =~= first.skip(1) + later);
        let a = reduced(next, session, first.skip(1), None, false);
        let b = reduced(a.state, session, later, None, false);
        let step = seq![sourced(s, session, first[0])];
        assert(step + (a.steps + b.steps) =~= (step + a.steps) + b.steps);
    }
}

/// Records that come late by none are reduced alike whether that is asked for or not.
proof fn timely_records_need_no_check(s: ReduceModel, session: Seq<char>, lines: Seq<LineModel>)
    requires
        reduced(s, session, lines, None, true).end is Done,
    ensures
        reduced(s, session, lines, None, false) == reduced(s, session, lines, None, true),
    decreases lines.len(),
{
    if lines.len() > 0 {
        timely_records_need_no_check(
            after_line(s, session, lines[0]),
            session,
            lines.skip(1),
        );
    }
}

/// After reducing records the last one is remembered.
proof fn last_order_is_kept(s: ReduceModel, session: Seq<char>, lines: Seq<LineModel>)
    ensures
        reduced(s, session, lines, None, false).state.order == (if lines.len() == 0 {
            s.order
        } else {
            Some(order_of(lines.last()))
        }),
    decreases lines.len(),
{
    if lines.len() > 0 {
        last_order_is_kept(after_line(s, session, lines[0]), session, lines.skip(1));
        if lines.len() > 1 {
            assert(lines.skip(1).last() == lines.last());
        }
    }
}

proof fn readable_lists_have_no_start_fault(lists: Map<LogComponent, Candidates>, n: int)
    requires
        0 <= n <= 5,
        all_readable(lists),
    ensures
        start_fault(lists, n) is None,
    decreases n,
{
    if n > 0 {
        readable_lists_have_no_start_fault(lists, n - 1);
    }
}

proof fn readable_lists_merge_without_fault(lists: Map<LogComponent, Candidates>)
    requires
        all_readable(lists),
    ensures
        merged(lists).fault is None,
    decreases total_waiting(lists),
{
    earliest_has_a_record(lists, 5);
    if let Some(c) = earliest(lists, 5) {
        one_less_waits(lists, c);
        readable_lists_merge_without_fault(lists.insert(c, without_first(lists[c])));
    }
}

/// Where the records of each log stand in order and none that came later is before the last one,
/// all records come before those that came later.
proof fn timely_records_come_after(
    s: ReduceModel,
    session: Seq<char>,
    first: Map<LogComponent, Candidates>,
    later: Map<LogComponent, Candidates>,
)
    requires
        first.dom() == later.dom(),
        all_readable(first),
        all_readable(later),
        lists_in_order(joined(first, later)),
        reduced(
            reduced(s, session, merged(first).lines, None, false).state,
            session,
            merged(later).lines,
            None,
            true,
        ).end is Done,
    ensures
        all_before(first, later),
{
    let all = joined(first, later);
    let old = merged(first).lines;
    let new = merged(later).lines;
    assert forall|c: LogComponent| #![trigger all[c]] waiting(all, c) == waiting(first, c) + waiting(
        later,
        c,
    ) by {
        assert(first.contains_key(c) == later.contains_key(c));
    }
    assert(lists_in_order(first)) by {
        assert forall|c: LogComponent, k: int|
            0 <= k < waiting(first, c) implies (#[trigger] first[c].lines[k]).component == c by {
            assert(all[c].lines[k] == first[c].lines[k]);
        }
        assert forall|c: LogComponent, j: int, k: int|
            0 <= j < k < waiting(first, c) implies order_lt(
            order_of(#[trigger] first[c].lines[j]),
            order_of(#[trigger] first[c].lines[k]),
        ) by {
            assert(all[c].lines[j] == first[c].lines[j]);
            assert(all[c].lines[k] == first[c].lines[k]);
        }
    }
    assert forall|c: LogComponent| waiting(later, c) > 0 implies #[trigger] later[c].lines[0].component
        == c by {
        assert(all[c].lines[waiting(first, c) as int] == later[c].lines[0]);
    }
    last_order_is_kept(s, session, old);
    assert forall|c: LogComponent, k: int, d: LogComponent|
        #![trigger first[c].lines[k], later[d]]
        0 <= k < waiting(first, c) && waiting(later, d) > 0 implies order_lt(
        order_of(first[c].lines[k]),
        order_of(later[d].lines[0]),
    ) by {
        let line = first[c].lines[k];
        let head = later[d].lines[0];
        assert(stands_in(first, line, c, k));
        merging_loses_nothing(first, line, c, k);
        let i = choose|i: int| 0 <= i < old.len() && old[i] == line;
        if i < old.len() - 1 {
            merging_keeps_order(first, i, old.len() - 1);
        }
        earliest_has_a_record(later, 5);
        assert(REQUIRED_COMPONENTS@[d.rank()] == d);
        let e = earliest(later, 5)->0;
        if e != d {
            next_record_is_the_earliest(later, e, d);
        }
        assert(new[0] == later[e].lines[0]);
        assert(!too_late(reduced(s, session, old, None, false).state, new[0]));
        order_is_total(order_of(line), order_of(old.last()), order_of(new[0]));
        order_is_total(order_of(old.last()), order_of(new[0]), order_of(head));
        order_is_total(order_of(line), order_of(new[0]), order_of(head));
        order_is_total(order_of(new[0]), order_of(line), order_of(head));
        order_is_total(order_of(head), order_of(line), order_of(new[0]));
        order_is_total(order_of(head), order_of(line), order_of(line));
        assert(all[c].lines[k] == line);
        if order_of(line) == order_of(head) {
            assert(line.component == c && head.component == d);
            assert(all[c].lines[waiting(first, c) as int] == head);
            order_is_total(order_of(line), order_of(head), order_of(line));
        }
    }
}

proof fn fresh_logs_settle(
    o: ObserverModel,
    files: Map<LogComponent, LogFile>,
    places: Map<LogComponent, LogCursor>,
    reason: ReplayReason,
    n: int,
)
    requires
        0 <= n <= 5,
        o.identities == identities_of(files),
        forall|c: LogComponent| !#[trigger] o.witnesses.contains_key(c),
        forall|c: LogComponent| #[trigger]
            places.contains_key(c) ==> files.contains_key(c) && places[c].byte_offset
                <= files[c].bytes@.len(),
    ensures
        settled_first(o, files, places, reason, n).fault is None,
    decreases n,
{
    if n > 0 {
        fresh_logs_settle(o, files, places, reason, n - 1);
        let c = REQUIRED_COMPONENTS@[n - 1];
        rank_of_required(n - 1);
        settled_components(o, files, places, reason, n - 1, c);
        if places.contains_key(c) {
            assert(identities_of(files).contains_key(c));
        }
    }
}

/// Whether logs are others with records appended, and nothing else.
pub open spec fn grown(
    files: Map<LogComponent, LogFile>,
    longer: Map<LogComponent, LogFile>,
) -> bool {
    &&& files.dom() == longer.dom()
    &&& forall|c: LogComponent| #[trigger]
        files.contains_key(c) ==> files[c].identity == longer[c].identity && continues(
            files[c].bytes@,
            longer[c].bytes@,
        )
}

/// Following a session gives what reading it anew gives. An observer that has read a whole
/// session, and then the records that were appended, has given the same records in the same order
/// as one that reads the grown logs from their start, and knows the same. The records of each log
/// stand in order; those of different logs may come in any order, since reading on asks for a new
/// start where it would matter.
pub proof fn following_gives_what_reading_anew_gives(
    session: Seq<char>,
    is_dir: bool,
    files: Map<LogComponent, LogFile>,
    longer: Map<LogComponent, LogFile>,
)
    requires
        grown(files, longer),
        attached_full(session, is_dir, files, files) is Ok,
        polled(
            attached_full(session, is_dir, files, files)->Ok_0.0,
            longer,
            longer,
        ).result is Ok,
        lists_in_order(event_lists(longer, all_starts(longer))),
    ensures
        ({
            let (before, records) = attached_full(session, is_dir, files, files)->Ok_0;
            let then = polled(before, longer, longer);
            attached_full(session, is_dir, longer, longer) == Ok::<
                (ObserverModel, Seq<SourcedModel>),
                ObserverError,
            >((then.observer, records + then.lines))
        }),
{
    let starts = all_starts(files);
    let first = event_lists(files, starts);
    let out1 = stream_outcome(fresh_state(), session, first, false);
    let (before, records) = attached_full(session, is_dir, files, files)->Ok_0;
    unchecked_streams_are_never_late(fresh_state(), session, first);
    whole_streams_have_no_fault(fresh_state(), session, first, false);
    let model1 = ObserverModel {
        session_id: session,
        state: out1.state,
        cursors: Map::empty(),
        identities: identities_of(files),
        witnesses: Map::empty(),
        diagnostics: plain_diagnostics(AttachMethod::FullReplay),
    };
    let reached = places_after(files, starts);
    let attaching = ReplayReason::ChangedWhileAttaching;
    let reading = ReplayReason::ChangedWhileReading;
    settled_components(model1, files, reached, attaching, 5, LogComponent::Arena);

    let places = places_before(before, longer);
    let later = event_lists(longer, places);
    let out2 = stream_outcome(out1.state, session, later, true);
    let then = polled(before, longer, longer);
    whole_streams_have_no_fault(out1.state, session, later, true);
    assert(all_readable(first));
    assert(all_readable(later));

    let starts_longer = all_starts(longer);
    let all = event_lists(longer, starts_longer);
    assert(first.dom() =~= later.dom());
    assert forall|c: LogComponent| #[trigger] files.contains_key(c) implies places[c] == reached[c]
        && reached[c] == place_after(c, files[c].bytes@, file_start()) by {
        settled_components(model1, files, reached, attaching, 5, c);
        assert(reached.contains_key(c));
    }
    assert(all =~= joined(first, later)) by {
        assert forall|c: LogComponent| #[trigger] all.contains_key(c) implies all[c] == joined(
            first,
            later,
        )[c] by {
            assert(files.contains_key(c));
            assert(first.contains_key(c));
            assert(longer[c].bytes@.len() == longer[c].bytes.len());
            candidates_in_steps(c, files[c].bytes@, longer[c].bytes@, file_start());
        }
    }
    readable_lists_have_no_start_fault(first, 5);
    readable_lists_have_no_start_fault(later, 5);
    readable_lists_merge_without_fault(first);
    readable_lists_merge_without_fault(later);
    let old = merged(first).lines;
    let new = merged(later).lines;
    timely_records_come_after(fresh_state(), session, first, later);
    merging_in_steps(first, later);
    reducing_in_steps(fresh_state(), session, old, new);
    timely_records_need_no_check(out1.state, session, new);
    assert(all_readable(all));
    readable_lists_have_no_start_fault(all, 5);
    let out = stream_outcome(fresh_state(), session, all, false);
    assert(out.state == out2.state && out.steps == records + out2.steps && out.end is Done);

    let model = ObserverModel {
        session_id: session,
        state: out.state,
        cursors: Map::empty(),
        identities: identities_of(longer),
        witnesses: Map::empty(),
        diagnostics: plain_diagnostics(AttachMethod::FullReplay),
    };
    let read = ObserverModel { state: out2.state, ..before };
    let ends = places_after(longer, starts_longer);
    let reached_later = places_after(longer, places);
    assert(ends =~= reached_later) by {
        assert forall|c: LogComponent| #[trigger] ends.contains_key(c) implies ends[c]
            == reached_later[c] by {
            assert(files.contains_key(c));
            if emits_events(c) {
                assert(first.contains_key(c));
                assert(longer[c].bytes@.len() == longer[c].bytes.len());
                candidates_in_steps(c, files[c].bytes@, longer[c].bytes@, file_start());
            }
        }
    }
    assert(identities_of(longer) =~= identities_of(files)) by {
        assert forall|c: LogComponent| #[trigger] identities_of(longer).contains_key(c) implies
            identities_of(longer)[c] == identities_of(files)[c] by {
            assert(files.contains_key(c));
        }
    }
    assert forall|c: LogComponent| #[trigger] ends.contains_key(c) implies longer.contains_key(c)
        && ends[c].byte_offset <= longer[c].bytes@.len() by {
        settled_components(read, longer, reached_later, reading, 5, c);
    }
    fresh_logs_settle(model, longer, ends, attaching, 5);
    let anew = settled_first(model, longer, ends, attaching, 5).observer;
    settled_components(model, longer, ends, attaching, 5, LogComponent::Arena);
    settled_components(read, longer, reached_later, reading, 5, LogComponent::Arena);
    assert forall|c: LogComponent|
        #![trigger anew.cursors.contains_key(c)]
        #![trigger anew.witnesses.contains_key(c)]
        anew.cursors.contains_key(c) == then.observer.cursors.contains_key(c)
            && anew.witnesses.contains_key(c) == then.observer.witnesses.contains_key(c) && (
        anew.cursors.contains_key(c) ==> anew.cursors[c] == then.observer.cursors[c]) && (
        anew.witnesses.contains_key(c) ==> anew.witnesses[c] == then.observer.witnesses[c]) by {
        settled_components(model, longer, ends, attaching, 5, c);
        settled_components(read, longer, reached_later, reading, 5, c);
        settled_components(model1, files, reached, attaching, 5, c);
        assert(c.rank() < 5);
        assert(ends.contains_key(c) == files.contains_key(c));
    }
    assert(anew.cursors =~= then.observer.cursors);
    assert(anew.witnesses =~= then.observer.witnesses);
    assert(any_log(longer)) by {
        let c = choose|c: LogComponent| #[trigger] files.contains_key(c);
        assert(longer.contains_key(c));
    }
}

} // verus!
