//! Replaying one saved session: all records of all components in one order.

use vstd::prelude::*;

use crate::log_component::{ComponentMap, LogComponent, REQUIRED_COMPONENTS};
use crate::log_parser::{
    fresh_parser, line_models, line_step, HearthstoneLogParser, LineModel, ParserModel, RawLogLine,
};
use crate::log_reader::{file_start, read_all, read_component_file, ReadError};
use crate::state::{event_models, EventModel, GameEvent};

verus! {

/// The place of a record among all records of a session.
#[derive(Clone, Copy, Debug, PartialEq, Eq, Structural)]
pub struct LineKey {
    pub timestamp_key: Option<u64>,
    pub component: LogComponent,
    pub line_number: u64,
    pub byte_offset: u64,
}

/// The place of a record.
pub open spec fn key_of(line: LineModel) -> LineKey {
    LineKey {
        timestamp_key: line.timestamp_key,
        component: line.component,
        line_number: line.line_number,
        byte_offset: line.byte_offset,
    }
}

/// The time of a place as a number: one without a time comes first.
pub open spec fn time_of(key: LineKey) -> int {
    match key.timestamp_key {
        Some(t) => t as int,
        None => -1,
    }
}

/// Whether a place comes before another one: by time, component, line number and byte.
pub open spec fn key_lt(a: LineKey, b: LineKey) -> bool {
    if time_of(a) != time_of(b) {
        time_of(a) < time_of(b)
    } else if a.component != b.component {
        a.component.rank() < b.component.rank()
    } else if a.line_number != b.line_number {
        a.line_number < b.line_number
    } else {
        a.byte_offset < b.byte_offset
    }
}

pub(crate) fn line_key(line: &RawLogLine) -> (r: LineKey)
    ensures
        r == key_of(line@),
{
    LineKey {
        timestamp_key: line.timestamp_key,
        component: line.component,
        line_number: line.line_number,
        byte_offset: line.byte_offset,
    }
}

impl LineKey {
    /// Whether this place comes before another one.
    pub fn precedes(&self, other: &LineKey) -> (r: bool)
        ensures
            r == key_lt(*self, *other),
    {
        match (self.timestamp_key, other.timestamp_key) {
            (None, Some(_)) => return true,
            (Some(_), None) => return false,
            (Some(a), Some(b)) => {
                if a != b {
                    return a < b;
                }
            },
            (None, None) => {},
        }
        if self.component != other.component {
            let a: usize = self.component.index();
            let b: usize = other.component.index();
            a < b
        } else if self.line_number != other.line_number {
            self.line_number < other.line_number
        } else {
            self.byte_offset < other.byte_offset
        }
    }
}

/// The order of records across components: by time of day, a record without one first, then by
/// component, line number and place in the file.
pub open spec fn line_le(a: LineModel, b: LineModel) -> bool {
    let time_a = match a.timestamp_key {
        Some(t) => t as int,
        None => -1,
    };
    let time_b = match b.timestamp_key {
        Some(t) => t as int,
        None => -1,
    };
    if time_a != time_b {
        time_a < time_b
    } else if a.component != b.component {
        a.component.rank() < b.component.rank()
    } else if a.line_number != b.line_number {
        a.line_number < b.line_number
    } else {
        a.byte_offset <= b.byte_offset
    }
}

/// Whether no record comes before an earlier one.
pub open spec fn lines_sorted(lines: Seq<LineModel>) -> bool {
    forall|i: int, j: int| 0 <= i < j < lines.len() ==> line_le(#[trigger] lines[i], #[trigger] lines[j])
}

/// The records at a place, in turn.
pub open spec fn at_place(lines: Seq<LineModel>, key: LineKey) -> Seq<LineModel>
    decreases lines.len(),
{
    if lines.len() == 0 {
        Seq::empty()
    } else {
        let before = at_place(lines.drop_last(), key);
        if key_of(lines.last()) == key {
            before.push(lines.last())
        } else {
            before
        }
    }
}

/// Whether records are the same ones put in order. Those at the same place stay in turn.
pub open spec fn is_sorting(sorted: Seq<LineModel>, lines: Seq<LineModel>) -> bool {
    &&& lines_sorted(sorted)
    &&& forall|key: LineKey| #[trigger] at_place(sorted, key) == at_place(lines, key)
}

pub(crate) proof fn places_of_joined(a: Seq<LineModel>, b: Seq<LineModel>, key: LineKey)
    ensures
        at_place(a + b, key) == at_place(a, key) + at_place(b, key),
    decreases b.len(),
{
    if b.len() == 0 {
        assert(a + b =~= a);
        assert(at_place(a, key) + at_place(b, key) =~= at_place(a, key));
    } else {
        places_of_joined(a, b.drop_last(), key);
        assert((a + b).drop_last() =~= a + b.drop_last());
        let before = at_place(a, key) + at_place(b.drop_last(), key);
        if key_of(b.last()) == key {
            assert(before.push(b.last()) =~= at_place(a, key) + at_place(
                b.drop_last(),
                key,
            ).push(b.last()));
        }
    }
}

pub(crate) proof fn places_hold_their_records(lines: Seq<LineModel>, key: LineKey)
    ensures
        forall|i: int|
            0 <= i < lines.len() && key_of(#[trigger] lines[i]) == key ==> at_place(lines, key).len()
                > 0,
        at_place(lines, key).len() > 0 ==> exists|i: int|
            0 <= i < lines.len() && key_of(#[trigger] lines[i]) == key,
    decreases lines.len(),
{
    if lines.len() > 0 {
        places_hold_their_records(lines.drop_last(), key);
        assert(forall|i: int|
            0 <= i < lines.len() - 1 ==> lines[i] == #[trigger] lines.drop_last()[i]);
        assert forall|i: int| 0 <= i < lines.len() && key_of(#[trigger] lines[i]) == key implies
            at_place(lines, key).len() > 0 by {
            if i < lines.len() - 1 {
                assert(lines.drop_last()[i] == lines[i]);
            }
        }
        if at_place(lines, key).len() > 0 {
            if key_of(lines.last()) == key {
                assert(key_of(lines[lines.len() - 1]) == key);
            } else {
                let i = choose|i: int|
                    0 <= i < lines.len() - 1 && key_of(#[trigger] lines.drop_last()[i]) == key;
                assert(key_of(lines[i]) == key);
            }
        }
    }
}

/// Putting records in order has one result: whatever sorts them, the same records stand at the
/// same positions.
pub proof fn sortings_are_unique(a: Seq<LineModel>, b: Seq<LineModel>, lines: Seq<LineModel>)
    requires
        is_sorting(a, lines),
        is_sorting(b, lines),
    ensures
        a == b,
{
    assert forall|key: LineKey| #[trigger] at_place(a, key) == at_place(b, key) by {
        assert(at_place(a, key) == at_place(lines, key));
        assert(at_place(b, key) == at_place(lines, key));
    }
    same_places_same_records(a, b);
}

proof fn same_places_same_records(a: Seq<LineModel>, b: Seq<LineModel>)
    requires
        lines_sorted(a),
        lines_sorted(b),
        forall|key: LineKey| #[trigger] at_place(a, key) == at_place(b, key),
    ensures
        a == b,
    decreases a.len(),
{
    if a.len() == 0 {
        if b.len() > 0 {
            let key = key_of(b.last());
            places_hold_their_records(b, key);
            assert(key_of(b[b.len() - 1]) == key);
            assert(at_place(a, key).len() == 0);
        }
        assert(a =~= b);
    } else {
        let key = key_of(a.last());
        places_hold_their_records(a, key);
        places_hold_their_records(b, key);
        assert(key_of(a[a.len() - 1]) == key);
        assert(at_place(b, key).len() > 0);
        let other = key_of(b.last());
        places_hold_their_records(a, other);
        places_hold_their_records(b, other);
        assert(key_of(b[b.len() - 1]) == other);
        assert(at_place(a, other).len() > 0);
        let i = choose|i: int| 0 <= i < a.len() && key_of(#[trigger] a[i]) == other;
        let j = choose|j: int| 0 <= j < b.len() && key_of(#[trigger] b[j]) == key;
        assert(line_le(a[i], a.last()) || i == a.len() - 1);
        assert(line_le(b[j], b.last()) || j == b.len() - 1);
        assert(key == other);
        assert(at_place(a, key).last() == a.last());
        assert(at_place(b, key).last() == b.last());
        assert(a.last() == b.last());
        assert forall|k: LineKey| #[trigger] at_place(a.drop_last(), k) == at_place(
            b.drop_last(),
            k,
        ) by {
            assert(at_place(a, k) == at_place(b, k));
            if k == key {
                assert(at_place(a, k).drop_last() =~= at_place(a.drop_last(), k));
                assert(at_place(b, k).drop_last() =~= at_place(b.drop_last(), k));
            }
        }
        same_places_same_records(a.drop_last(), b.drop_last());
        assert(a =~= a.drop_last().push(a.last()));
        assert(b =~= b.drop_last().push(b.last()));
    }
}

/// Whether a record comes no later than another.
pub fn comes_no_later(a: &RawLogLine, b: &RawLogLine) -> (r: bool)
    ensures
        r == line_le(a@, b@),
{
    let earlier = match (a.timestamp_key, b.timestamp_key) {
        (None, Some(_)) => true,
        (Some(x), Some(y)) => x < y,
        _ => false,
    };
    let same = match (a.timestamp_key, b.timestamp_key) {
        (None, None) => true,
        (Some(x), Some(y)) => x == y,
        _ => false,
    };
    if !same {
        earlier
    } else if a.component != b.component {
        let x: usize = a.component.index();
        let y: usize = b.component.index();
        x < y
    } else if a.line_number != b.line_number {
        a.line_number < b.line_number
    } else {
        a.byte_offset <= b.byte_offset
    }
}

proof fn one_record_at_a_place(line: LineModel, behind: Seq<LineModel>, key: LineKey)
    ensures
        at_place(seq![line] + behind, key) == (if key_of(line) == key {
            seq![line] + at_place(behind, key)
        } else {
            at_place(behind, key)
        }),
{
    places_of_joined(seq![line], behind, key);
    assert(seq![line].drop_last() =~= Seq::<LineModel>::empty());
    assert(at_place(Seq::<LineModel>::empty(), key) =~= Seq::<LineModel>::empty());
    if key_of(line) == key {
        assert(at_place(seq![line], key) =~= seq![line]);
    } else {
        assert(Seq::<LineModel>::empty() + at_place(behind, key) =~= at_place(behind, key));
    }
}

proof fn last_of_second_is_taken(
    a: Seq<LineModel>,
    b: Seq<LineModel>,
    behind: Seq<LineModel>,
    key: LineKey,
)
    requires
        b.len() > 0,
    ensures
        at_place(a, key) + at_place(b, key) + at_place(behind, key) == at_place(a, key) + at_place(
            b.drop_last(),
            key,
        ) + at_place(seq![b.last()] + behind, key),
{
    one_record_at_a_place(b.last(), behind, key);
    assert(at_place(a, key) + at_place(b, key) + at_place(behind, key) =~= at_place(a, key)
        + at_place(b.drop_last(), key) + at_place(seq![b.last()] + behind, key));
}

proof fn last_of_first_is_taken(
    a: Seq<LineModel>,
    b: Seq<LineModel>,
    behind: Seq<LineModel>,
    key: LineKey,
)
    requires
        a.len() > 0,
        lines_sorted(b),
        b.len() > 0 ==> !line_le(a.last(), b.last()),
    ensures
        at_place(a, key) + at_place(b, key) + at_place(behind, key) == at_place(
            a.drop_last(),
            key,
        ) + at_place(b, key) + at_place(seq![a.last()] + behind, key),
{
    one_record_at_a_place(a.last(), behind, key);
    if key_of(a.last()) == key {
        places_hold_their_records(b, key);
        if at_place(b, key).len() > 0 {
            let i = choose|i: int| 0 <= i < b.len() && key_of(#[trigger] b[i]) == key;
            assert(i == b.len() - 1 || line_le(b[i], b.last()));
        }
        assert(at_place(b, key) =~= Seq::<LineModel>::empty());
    }
    assert(at_place(a, key) + at_place(b, key) + at_place(behind, key) =~= at_place(
        a.drop_last(),
        key,
    ) + at_place(b, key) + at_place(seq![a.last()] + behind, key));
}

fn merge_lines(first: Vec<RawLogLine>, second: Vec<RawLogLine>) -> (r: Vec<RawLogLine>)
    requires
        lines_sorted(line_models(first@)),
        lines_sorted(line_models(second@)),
    ensures
        is_sorting(line_models(r@), line_models(first@) + line_models(second@)),
        r@.len() == first@.len() + second@.len(),
{
    let mut a = first;
    let mut b = second;
    let mut back: Vec<RawLogLine> = Vec::new();
    let ghost all = line_models(first@) + line_models(second@);
    proof {
        assert(line_models(back@).reverse() =~= Seq::<LineModel>::empty());
        assert forall|key: LineKey| #[trigger] at_place(all, key) == at_place(
            line_models(a@),
            key,
        ) + at_place(line_models(b@), key) + at_place(line_models(back@).reverse(), key) by {
            places_of_joined(line_models(a@), line_models(b@), key);
            assert(at_place(all, key) + Seq::<LineModel>::empty() =~= at_place(all, key));
        }
    }
    while a.len() > 0 || b.len() > 0
        invariant
            lines_sorted(line_models(a@)),
            lines_sorted(line_models(b@)),
            a@.len() + b@.len() + back@.len() == first@.len() + second@.len(),
            forall|key: LineKey| #[trigger]
                at_place(all, key) == at_place(line_models(a@), key) + at_place(
                    line_models(b@),
                    key,
                ) + at_place(line_models(back@).reverse(), key),
            forall|i: int, j: int|
                0 <= i < j < back@.len() ==> line_le(#[trigger] back@[j]@, #[trigger] back@[i]@),
            forall|i: int, j: int|
                0 <= i < a@.len() && 0 <= j < back@.len() ==> line_le(
                    #[trigger] a@[i]@,
                    #[trigger] back@[j]@,
                ),
            forall|i: int, j: int|
                0 <= i < b@.len() && 0 <= j < back@.len() ==> line_le(
                    #[trigger] b@[i]@,
                    #[trigger] back@[j]@,
                ),
        decreases a.len() + b.len(),
    {
        let ghost a0 = a@;
        let ghost b0 = b@;
        let ghost back0 = back@;
        let from_a = if b.len() == 0 {
            true
        } else if a.len() == 0 {
            false
        } else {
            !comes_no_later(&a[a.len() - 1], &b[b.len() - 1])
        };
        proof {
            assert forall|i: int, j: int| 0 <= i < j < a0.len() implies line_le(
                #[trigger] a0[i]@,
                #[trigger] a0[j]@,
            ) by {
                assert(line_models(a0)[i] == a0[i]@);
                assert(line_models(a0)[j] == a0[j]@);
            }
            assert forall|i: int, j: int| 0 <= i < j < b0.len() implies line_le(
                #[trigger] b0[i]@,
                #[trigger] b0[j]@,
            ) by {
                assert(line_models(b0)[i] == b0[i]@);
                assert(line_models(b0)[j] == b0[j]@);
            }
        }
        if from_a {
            let line = a.pop().unwrap();
            assert(a0 =~= a@.push(line));
            back.push(line);
        } else {
            let line = b.pop().unwrap();
            assert(b0 =~= b@.push(line));
            back.push(line);
        }
        assert(back@.drop_last() =~= back0);
        assert(lines_sorted(line_models(a@))) by {
            assert forall|i: int, j: int| 0 <= i < j < a@.len() implies line_le(
                #[trigger] line_models(a@)[i],
                #[trigger] line_models(a@)[j],
            ) by {
                assert(a@[i] == a0[i]);
                assert(a@[j] == a0[j]);
            }
        }
        assert(lines_sorted(line_models(b@))) by {
            assert forall|i: int, j: int| 0 <= i < j < b@.len() implies line_le(
                #[trigger] line_models(b@)[i],
                #[trigger] line_models(b@)[j],
            ) by {
                assert(b@[i] == b0[i]);
                assert(b@[j] == b0[j]);
            }
        }
        assert forall|key: LineKey| #[trigger] at_place(all, key) == at_place(
            line_models(a@),
            key,
        ) + at_place(line_models(b@), key) + at_place(line_models(back@).reverse(), key) by {
            let behind = line_models(back0).reverse();
            assert(line_models(back@).reverse() =~= seq![back@.last()@] + behind);
            assert(at_place(all, key) == at_place(line_models(a0), key) + at_place(
                line_models(b0),
                key,
            ) + at_place(behind, key));
            if from_a {
                assert(line_models(a0).drop_last() =~= line_models(a@));
                last_of_first_is_taken(line_models(a0), line_models(b0), behind, key);
            } else {
                assert(line_models(b0).drop_last() =~= line_models(b@));
                last_of_second_is_taken(line_models(a0), line_models(b0), behind, key);
            }
        }
    }
    let mut r: Vec<RawLogLine> = Vec::new();
    let ghost sorted_back = back@;
    proof {
        assert(line_models(a@) =~= Seq::<LineModel>::empty());
        assert(line_models(b@) =~= Seq::<LineModel>::empty());
    }
    while back.len() > 0
        invariant
            back@.len() + r@.len() == sorted_back.len(),
            back@ == sorted_back.take(back@.len() as int),
            forall|i: int|
                0 <= i < r@.len() ==> #[trigger] r@[i] == sorted_back[sorted_back.len() - 1 - i],
        decreases back.len(),
    {
        let line = back.pop().unwrap();
        r.push(line);
    }
    proof {
        assert(line_models(r@) =~= line_models(sorted_back).reverse());
        assert forall|key: LineKey| #[trigger] at_place(line_models(r@), key) == at_place(
            all,
            key,
        ) by {
            assert(Seq::<LineModel>::empty() + Seq::<LineModel>::empty() + at_place(
                line_models(r@),
                key,
            ) =~= at_place(line_models(r@), key));
        }
    }
    assert(lines_sorted(line_models(r@))) by {
        assert forall|i: int, j: int| 0 <= i < j < r@.len() implies line_le(
            #[trigger] line_models(r@)[i],
            #[trigger] line_models(r@)[j],
        ) by {
            assert(r@[i] == sorted_back[sorted_back.len() - 1 - i]);
            assert(r@[j] == sorted_back[sorted_back.len() - 1 - j]);
        }
    }
    r
}

/// Puts records into their order.
pub fn sort_lines(lines: Vec<RawLogLine>) -> (r: Vec<RawLogLine>)
    ensures
        is_sorting(line_models(r@), line_models(lines@)),
        r@.len() == lines@.len(),
    decreases lines.len(),
{
    if lines.len() <= 1 {
        return lines;
    }
    let mut first = lines;
    let middle: usize = first.len() / 2;
    let second = first.split_off(middle);
    let ghost a = line_models(first@);
    let ghost b = line_models(second@);
    assert(line_models(lines@) =~= a + b);
    let sorted_first = sort_lines(first);
    let sorted_second = sort_lines(second);
    let r = merge_lines(sorted_first, sorted_second);
    proof {
        let sa = line_models(sorted_first@);
        let sb = line_models(sorted_second@);
        assert forall|key: LineKey| #[trigger] at_place(line_models(r@), key) == at_place(
            line_models(lines@),
            key,
        ) by {
            places_of_joined(a, b, key);
            places_of_joined(sa, sb, key);
            assert(at_place(sa, key) == at_place(a, key));
            assert(at_place(sb, key) == at_place(b, key));
            assert(at_place(line_models(r@), key) == at_place(sa + sb, key));
        }
    }
    r
}

/// An event with the record it was read from.
#[derive(Clone, Debug)]
pub struct ParsedEvent {
    pub component: LogComponent,
    pub line_number: u64,
    pub byte_offset: u64,
    pub timestamp_key: Option<u64>,
    pub event: GameEvent,
}

/// An event with the record it was read from, over texts.
pub struct ParsedEventModel {
    pub component: LogComponent,
    pub line_number: u64,
    pub byte_offset: u64,
    pub timestamp_key: Option<u64>,
    pub event: EventModel,
}

impl View for ParsedEvent {
    type V = ParsedEventModel;

    open spec fn view(&self) -> ParsedEventModel {
        ParsedEventModel {
            component: self.component,
            line_number: self.line_number,
            byte_offset: self.byte_offset,
            timestamp_key: self.timestamp_key,
            event: self.event@,
        }
    }
}

/// The models of events with their records.
pub open spec fn parsed_models(events: Seq<ParsedEvent>) -> Seq<ParsedEventModel> {
    events.map_values(|e: ParsedEvent| e@)
}

/// What a session holds. A pick stands for every card that was chosen at an open latch.
#[derive(Clone, Debug)]
pub struct ParseReport {
    pub raw_line_count: usize,
    pub events: Vec<ParsedEvent>,
}

/// The events of one record with their place.
pub open spec fn placed(line: LineModel, events: Seq<EventModel>) -> Seq<ParsedEventModel> {
    events.map_values(
        |e: EventModel|
            ParsedEventModel {
                component: line.component,
                line_number: line.line_number,
                byte_offset: line.byte_offset,
                timestamp_key: line.timestamp_key,
                event: e,
            },
    )
}

/// The parser state after a sequence of records, and all their events.
pub open spec fn parse_run(s: ParserModel, lines: Seq<LineModel>) -> (
    ParserModel,
    Seq<ParsedEventModel>,
)
    decreases lines.len(),
{
    if lines.len() == 0 {
        (s, Seq::empty())
    } else {
        let before = parse_run(s, lines.drop_last());
        let step = line_step(before.0, lines.last().component, lines.last().message);
        (step.0, before.1 + placed(lines.last(), step.1))
    }
}

/// Parsing records in steps gives what parsing them at once gives.
pub proof fn parsing_in_steps_is_parsing_at_once(
    s: ParserModel,
    first: Seq<LineModel>,
    rest: Seq<LineModel>,
)
    ensures
        ({
            let before = parse_run(s, first);
            let then = parse_run(before.0, rest);
            parse_run(s, first + rest) == (then.0, before.1 + then.1)
        }),
    decreases rest.len(),
{
    let before = parse_run(s, first);
    if rest.len() == 0 {
        assert(first + rest =~= first);
        assert(before.1 + Seq::<ParsedEventModel>::empty() =~= before.1);
    } else {
        parsing_in_steps_is_parsing_at_once(s, first, rest.drop_last());
        assert((first + rest).drop_last() =~= first + rest.drop_last());
        assert((first + rest).last() == rest.last());
        let then = parse_run(before.0, rest.drop_last());
        let step = line_step(then.0, rest.last().component, rest.last().message);
        assert((before.1 + then.1) + placed(rest.last(), step.1) =~= before.1 + (then.1 + placed(
            rest.last(),
            step.1,
        )));
    }
}

/// Records in order, followed by records in order that do not begin before the last one of them,
/// are the ordering of all of them.
pub proof fn orderings_join(
    a: Seq<LineModel>,
    first: Seq<LineModel>,
    b: Seq<LineModel>,
    rest: Seq<LineModel>,
    all: Seq<LineModel>,
)
    requires
        is_sorting(a, first),
        is_sorting(b, rest),
        a.len() > 0 && b.len() > 0 ==> !key_lt(key_of(b[0]), key_of(a.last())),
        forall|key: LineKey| #[trigger]
            at_place(all, key) == at_place(first, key) + at_place(rest, key),
    ensures
        is_sorting(a + b, all),
{
    let both = a + b;
    assert forall|i: int, j: int| 0 <= i < j < both.len() implies line_le(
        #[trigger] both[i],
        #[trigger] both[j],
    ) by {
        if j < a.len() {
            assert(line_le(a[i], a[j]));
        } else if i >= a.len() {
            assert(line_le(b[i - a.len()], b[j - a.len()]));
        } else {
            let last = a.last();
            let k = j - a.len();
            assert(i == a.len() - 1 || line_le(a[i], a[a.len() - 1]));
            assert(k == 0 || line_le(b[0], b[k]));
            assert(last.component.rank() == b[0].component.rank() ==> last.component
                == b[0].component);
            assert(line_le(last, b[0]));
            no_later_than_both(a[i], last, b[0], b[k]);
        }
    }
    assert forall|key: LineKey| #[trigger] at_place(both, key) == at_place(all, key) by {
        places_of_joined(a, b, key);
        assert(at_place(a, key) == at_place(first, key));
        assert(at_place(b, key) == at_place(rest, key));
    }
}

proof fn no_later_than_both(a: LineModel, b: LineModel, c: LineModel, d: LineModel)
    requires
        a == b || line_le(a, b),
        line_le(b, c),
        c == d || line_le(c, d),
    ensures
        line_le(a, d),
{
    assert(line_le(a, c));
}

/// The records of the first `n` components that have a file.
pub open spec fn session_lines(files: Map<LogComponent, Vec<u8>>, n: int) -> Result<
    Seq<LineModel>,
    ReadError,
>
    decreases n,
{
    if n <= 0 {
        Ok(Seq::empty())
    } else {
        match session_lines(files, n - 1) {
            Err(e) => Err(e),
            Ok(lines) => {
                let c = REQUIRED_COMPONENTS@[n - 1];
                if files.contains_key(c) {
                    match read_all(c, files[c]@, file_start()) {
                        Err(e) => Err(e),
                        Ok((more, _)) => Ok(lines + more),
                    }
                } else {
                    Ok(lines)
                }
            },
        }
    }
}

/// The events that stay once it is known of each whether the card it picks is a real one: all but
/// the picks of what is no real card.
pub open spec fn settled_events(events: Seq<ParsedEventModel>, real_cards: Seq<bool>) -> Seq<
    ParsedEventModel,
>
    decreases events.len(),
{
    if events.len() == 0 {
        Seq::empty()
    } else {
        let before = settled_events(events.drop_last(), real_cards);
        if events.last().event is ArenaPick && !real_cards[events.len() - 1] {
            before
        } else {
            before.push(events.last())
        }
    }
}

/// Drops the picks of a report whose cards are no real ones. `real_cards` says of each event
/// whether the card that it picks is real; what it says of other events does not count.
pub fn settle_report(report: ParseReport, real_cards: &Vec<bool>) -> (r: ParseReport)
    requires
        real_cards@.len() == report.events@.len(),
    ensures
        r.raw_line_count == report.raw_line_count,
        parsed_models(r.events@) == settled_events(parsed_models(report.events@), real_cards@),
{
    let ParseReport { raw_line_count, events } = report;
    let ghost all = parsed_models(events@);
    let mut rest = events;
    let mut back: Vec<ParsedEvent> = Vec::new();
    assert(all.take(all.len() as int) =~= all);
    assert(parsed_models(back@).reverse() =~= Seq::<ParsedEventModel>::empty());
    assert(settled_events(all, real_cards@) + Seq::<ParsedEventModel>::empty() =~= settled_events(
        all,
        real_cards@,
    ));
    while rest.len() > 0
        invariant
            rest@.len() <= events@.len(),
            events@.len() == real_cards@.len(),
            rest@ == events@.take(rest@.len() as int),
            all == parsed_models(events@),
            settled_events(all, real_cards@) == settled_events(
                all.take(rest@.len() as int),
                real_cards@,
            ) + parsed_models(back@).reverse(),
        decreases rest.len(),
    {
        let n: usize = rest.len();
        let ghost before = back@;
        let event = rest.pop().unwrap();
        let dropped = match &event.event {
            GameEvent::ArenaPick { .. } => !real_cards[n - 1],
            _ => false,
        };
        proof {
            assert(all.take(n as int).drop_last() =~= all.take(n - 1));
            assert(all.take(n as int).last() == event@);
        }
        if !dropped {
            back.push(event);
            assert(parsed_models(back@) =~= parsed_models(before).push(event@));
            assert(settled_events(all.take(n - 1), real_cards@) + parsed_models(back@).reverse()
                =~= settled_events(all.take(n - 1), real_cards@).push(event@) + parsed_models(
                before,
            ).reverse());
        }
    }
    let mut kept: Vec<ParsedEvent> = Vec::new();
    let ghost wanted = parsed_models(back@).reverse();
    assert(all.take(0) =~= Seq::<ParsedEventModel>::empty());
    assert(settled_events(all, real_cards@) =~= wanted);
    assert(parsed_models(kept@) + wanted =~= wanted);
    while back.len() > 0
        invariant
            parsed_models(kept@) + parsed_models(back@).reverse() == wanted,
        decreases back.len(),
    {
        let ghost before = back@;
        let event = back.pop().unwrap();
        assert(parsed_models(before).reverse() =~= seq![event@] + parsed_models(back@).reverse());
        kept.push(event);
        assert(parsed_models(kept@) + parsed_models(back@).reverse() =~= wanted);
    }
    assert(parsed_models(kept@) =~= wanted);
    ParseReport { raw_line_count, events: kept }
}

/// Reads a whole session from the bytes of its component logs. Its picks are candidates: whether
/// their cards are real ones is settled by `settle_report`.
pub fn parse_session(files: &ComponentMap<Vec<u8>>) -> (r: Result<ParseReport, ReadError>)
    requires
        files.wf(),
    ensures
        match r {
            Err(e) => session_lines(files.entries(), 5) == Err::<Seq<LineModel>, ReadError>(e),
            Ok(report) => {
                &&& session_lines(files.entries(), 5) is Ok
                &&& report.raw_line_count == session_lines(files.entries(), 5)->Ok_0.len()
                &&& exists|lines: Seq<LineModel>| #[trigger]
                    is_sorting(lines, session_lines(files.entries(), 5)->Ok_0) && parsed_models(
                        report.events@,
                    ) == parse_run(fresh_parser(), lines).1
            },
        },
{
    let mut lines: Vec<RawLogLine> = Vec::new();
    let mut i: usize = 0;
    assert(line_models(lines@) =~= Seq::<LineModel>::empty());
    while i < 5
        invariant
            i <= 5,
            files.wf(),
            session_lines(files.entries(), i as int) == Ok::<Seq<LineModel>, ReadError>(
                line_models(lines@),
            ),
        decreases 5 - i,
    {
        let component = REQUIRED_COMPONENTS[i];
        match files.get(component) {
            None => {},
            Some(bytes) => {
                let ghost before = lines@;
                match read_component_file(component, bytes.as_slice()) {
                    Err(e) => {
                        proof {
                            errors_stay(files.entries(), i + 1, 5);
                        }
                        return Err(e);
                    },
                    Ok(mut more) => {
                        let ghost added = more@;
                        lines.append(&mut more);
                        assert(line_models(lines@) =~= line_models(before) + line_models(added));
                    },
                }
            },
        }
        i = i + 1;
    }
    let sorted = sort_lines(lines);
    assert(is_sorting(line_models(sorted@), line_models(lines@)));
    let raw_line_count: usize = sorted.len();
    let mut parser = HearthstoneLogParser::default();
    let events = parse_lines(&mut parser, &sorted);
    assert(parse_run(fresh_parser(), line_models(sorted@)).1 == parsed_models(events@));
    Ok(ParseReport { raw_line_count, events })
}

/// Parses records in turn. Picks are candidates: each choice at an open latch gives one, whatever
/// card was chosen.
pub fn parse_lines(parser: &mut HearthstoneLogParser, lines: &Vec<RawLogLine>) -> (r: Vec<
    ParsedEvent,
>)
    ensures
        (final(parser)@, parsed_models(r@)) == parse_run(old(parser)@, line_models(lines@)),
{
    let ghost first = parser@;
    let mut events: Vec<ParsedEvent> = Vec::new();
    let ghost models = line_models(lines@);
    let mut k: usize = 0;
    assert(models.take(0) =~= Seq::<LineModel>::empty());
    assert(parsed_models(events@) =~= Seq::<ParsedEventModel>::empty());
    while k < lines.len()
        invariant
            k <= lines.len(),
            models == line_models(lines@),
            (parser@, parsed_models(events@)) == parse_run(first, models.take(k as int)),
        decreases lines.len() - k,
    {
        let line = &lines[k];
        let found = parser.parse_candidates(line);
        proof {
            assert(models.take(k + 1).drop_last() =~= models.take(k as int));
            assert(models.take(k + 1).last() == line@);
        }
        place_events(line, found, &mut events);
        k = k + 1;
    }
    assert(models.take(k as int) =~= models);
    events
}

fn place_events(line: &RawLogLine, found: Vec<GameEvent>, events: &mut Vec<ParsedEvent>)
    ensures
        final(events)@.map_values(|e: ParsedEvent| e@) == old(events)@.map_values(
            |e: ParsedEvent| e@,
        ) + placed(line@, event_models(found@)),
{
    let mut back: Vec<ParsedEvent> = Vec::new();
    let mut rest = found;
    let ghost all = placed(line@, event_models(found@));
    let ghost n = found@.len();
    while rest.len() > 0
        invariant
            rest@.len() + back@.len() == n,
            n == found@.len(),
            rest@ == found@.take(rest@.len() as int),
            all == placed(line@, event_models(found@)),
            forall|i: int| 0 <= i < back@.len() ==> (#[trigger] back@[i])@ == all[n - 1 - i],
        decreases rest.len(),
    {
        let event = rest.pop().unwrap();
        back.push(
            ParsedEvent {
                component: line.component,
                line_number: line.line_number,
                byte_offset: line.byte_offset,
                timestamp_key: line.timestamp_key,
                event,
            },
        );
    }
    let ghost base = events@;
    while back.len() > 0
        invariant
            back@.len() <= n,
            n == all.len(),
            forall|i: int| 0 <= i < back@.len() ==> (#[trigger] back@[i])@ == all[n - 1 - i],
            events@.map_values(|e: ParsedEvent| e@) =~= base.map_values(|e: ParsedEvent| e@)
                + all.take(n - back@.len()),
        decreases back.len(),
    {
        let ghost m = back@.len() as int;
        let ghost before = events@;
        assert(back@[m - 1]@ == all[n - m]);
        let event = back.pop().unwrap();
        events.push(event);
        assert(all.take(n - m + 1) =~= all.take(n - m).push(event@));
        assert(events@.map_values(|e: ParsedEvent| e@) =~= before.map_values(
            |e: ParsedEvent| e@,
        ).push(event@));
    }
    assert(all.take(n as int) =~= all);
}

proof fn errors_stay(files: Map<LogComponent, Vec<u8>>, i: int, n: int)
    requires
        0 <= i <= n,
        session_lines(files, i) is Err,
    ensures
        session_lines(files, n) == session_lines(files, i),
    decreases n - i,
{
    if i < n {
        errors_stay(files, i, n - 1);
    }
}

} // verus!
