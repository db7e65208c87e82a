//! How log records are ordered, told apart and handed on.
use crate::card_data::CardCache;
use crate::log_component::{
    component_of_stem, emits_events, filename_of, LogComponent, REQUIRED_COMPONENTS,
};
use crate::log_parser::{line_step, LineModel, ParserModel};
use crate::log_reader::{
    line_start, newline_from_is_first, read_all, read_next, trim_line_end, without_return,
    LogCursor, ReadError,
};
use crate::merge::{
    checksum, event_lists, order_lt, order_of, place_after, reduced, too_late, LineOrder, LogFile,
    ReduceModel,
};
use crate::session::{
    key_lt, key_of, line_le, parse_run, placed, session_lines, settled_events, ParsedEventModel,
};
use crate::snapshot::{
    deck_entries, is_resolved_deck, resolve_snapshot, ArenaSnapshot, ObserverSnapshot,
    ResolvedDeckCard,
};
use crate::state::DeckCard;
use vstd::prelude::*;
use vstd::utf8::{decode_utf8, encode_utf8};

verus! {

/// The place of a log in the order in which logs are looked at.
pub open spec fn place_of_log(c: LogComponent) -> int {
    match c {
        LogComponent::Asset => 5,
        LogComponent::Arena => 4,
        LogComponent::Zone => 3,
        LogComponent::Power => 2,
        LogComponent::LoadingScreen => 1,
    }
}

/// The logs are looked at in the order of their ranks, each once, and that order is the one in
/// which a screen change comes before the game it starts, and both before the draft.
pub proof fn logs_stand_in_one_order(c: LogComponent, d: LogComponent)
    ensures
        c.rank() < d.rank() <==> place_of_log(c) < place_of_log(d),
        c.rank() == d.rank() <==> c == d,
        REQUIRED_COMPONENTS@[place_of_log(c) - 1] == c,
        0 <= c.rank() < 5,
        emits_events(c) <==> !(c is Zone) && !(c is Asset),
{
}

/// A log is found by its own name, and its file is named after it.
pub proof fn logs_are_named_after_their_component(c: LogComponent, name: Seq<char>)
    ensures
        component_of_stem(name) == Some(c) <==> filename_of(c) == name + ".log"@,
{
    reveal_strlit("LoadingScreen");
    reveal_strlit("LoadingScreen.log");
    reveal_strlit("Power");
    reveal_strlit("Power.log");
    reveal_strlit("Zone");
    reveal_strlit("Zone.log");
    reveal_strlit("Arena");
    reveal_strlit("Arena.log");
    reveal_strlit("Asset");
    reveal_strlit("Asset.log");
    reveal_strlit(".log");
    let file = filename_of(c);
    let own = file.take(file.len() - 4);
    assert(own + ".log"@ =~= file);
    if file == name + ".log"@ {
        assert(name =~= (name + ".log"@).take(name.len() as int));
        assert(name == own);
    }
    assert("LoadingScreen.log"@.take(13) =~= "LoadingScreen"@);
    assert("Power.log"@.take(5) =~= "Power"@);
    assert("Zone.log"@.take(4) =~= "Zone"@);
    assert("Arena.log"@.take(5) =~= "Arena"@);
    assert("Asset.log"@.take(5) =~= "Asset"@);
    assert("Power"@[0] == 'P' && "Arena"@[1] == 'r' && "Asset"@[1] == 's' && "Zone"@.len() == 4
        && "LoadingScreen"@.len() == 13);
}

/// Records without a time come first, then those with a time, the earlier ones first. At the same
/// time a log that is looked at earlier comes first, and within a log the earlier place.
pub proof fn records_stand_by_time_log_and_place(a: LineOrder, b: LineOrder)
    ensures
        a.timestamp is None && b.timestamp is Some ==> order_lt(a, b),
        a.timestamp is Some && b.timestamp is Some && a.timestamp->0 < b.timestamp->0 ==> order_lt(
            a,
            b,
        ),
        a.timestamp == b.timestamp && place_of_log(a.component) < place_of_log(b.component)
            ==> order_lt(a, b),
        a.timestamp == b.timestamp && a.component == b.component && a.byte_offset < b.byte_offset
            ==> order_lt(a, b),
        order_lt(a, b) ==> !order_lt(b, a),
{
}

/// The same of the records of a whole session, where the number of a record in its log counts
/// before its place.
pub proof fn session_records_stand_by_time_log_and_number(a: LineModel, b: LineModel)
    ensures
        a.timestamp_key is None && b.timestamp_key is Some ==> line_le(a, b) && !line_le(b, a),
        a.timestamp_key is Some && b.timestamp_key is Some && a.timestamp_key->0
            < b.timestamp_key->0 ==> line_le(a, b) && !line_le(b, a),
        a.timestamp_key == b.timestamp_key && place_of_log(a.component) < place_of_log(b.component)
            ==> line_le(a, b) && !line_le(b, a),
        a.timestamp_key == b.timestamp_key && a.component == b.component && a.line_number
            < b.line_number ==> line_le(a, b) && !line_le(b, a),
        a.timestamp_key == b.timestamp_key && a.component == b.component && a.line_number
            == b.line_number && a.byte_offset < b.byte_offset ==> line_le(a, b) && !line_le(b, a),
        key_lt(key_of(a), key_of(b)) <==> line_le(a, b) && !line_le(b, a),
        key_of(a).line_number == a.line_number,
        key_of(a).byte_offset == a.byte_offset,
{
}

/// Whether an event stands where the record that said it stands.
pub open spec fn stands_at(e: ParsedEventModel, line: LineModel) -> bool {
    &&& e.component == line.component
    &&& e.line_number == line.line_number
    &&& e.byte_offset == line.byte_offset
    &&& e.timestamp_key == line.timestamp_key
}

/// Every event of a session stands where one of its records stands, and the events stand in the
/// order of the records.
pub proof fn events_stand_where_they_were_said(
    s: ParserModel,
    lines: Seq<LineModel>,
    i: int,
) -> (k: int)
    requires
        0 <= i < parse_run(s, lines).1.len(),
    ensures
        0 <= k < lines.len(),
        stands_at(parse_run(s, lines).1[i], lines[k]),
        line_step(parse_run(s, lines.take(k)).0, lines[k].component, lines[k].message).1.contains(
            parse_run(s, lines).1[i].event,
        ),
    decreases lines.len(),
{
    let rest = lines.drop_last();
    let before = parse_run(s, rest);
    if i < before.1.len() {
        let k = events_stand_where_they_were_said(s, rest, i);
        assert(rest.take(k) =~= lines.take(k));
        k
    } else {
        let step = line_step(before.0, lines.last().component, lines.last().message);
        let j = i - before.1.len();
        assert(parse_run(s, lines).1[i] == placed(lines.last(), step.1)[j]);
        assert(step.1[j] == parse_run(s, lines).1[i].event);
        assert(lines.take(lines.len() - 1) =~= rest);
        lines.len() - 1
    }
}

/// Settled events are all events but the picks of what is no real card.
pub proof fn settling_drops_picks_of_no_card(
    events: Seq<ParsedEventModel>,
    real_cards: Seq<bool>,
)
    ensures
        forall|e: ParsedEventModel| #[trigger]
            settled_events(events, real_cards).contains(e) <==> exists|i: int|
                0 <= i < events.len() && #[trigger] events[i] == e && (e.event is ArenaPick
                    ==> real_cards[i]),
        settled_events(events, real_cards).len() <= events.len(),
    decreases events.len(),
{
    let all = settled_events(events, real_cards);
    if events.len() > 0 {
        let rest = events.drop_last();
        let before = settled_events(rest, real_cards);
        settling_drops_picks_of_no_card(rest, real_cards);
        assert forall|e: ParsedEventModel| #[trigger] all.contains(e) <==> exists|i: int|
            0 <= i < events.len() && #[trigger] events[i] == e && (e.event is ArenaPick
                ==> real_cards[i]) by {
            let n = events.len() - 1;
            if all.contains(e) {
                let k = choose|k: int| 0 <= k < all.len() && all[k] == e;
                if k < before.len() {
                    assert(before.contains(e)) by {
                        assert(before[k] == e);
                    }
                    let i = choose|i: int|
                        0 <= i < rest.len() && #[trigger] rest[i] == e && (e.event is ArenaPick
                            ==> real_cards[i]);
                    assert(events[i] == e);
                } else {
                    assert(events[n] == e);
                }
            }
            if exists|i: int|
                0 <= i < events.len() && #[trigger] events[i] == e && (e.event is ArenaPick
                    ==> real_cards[i]) {
                let i = choose|i: int|
                    0 <= i < events.len() && #[trigger] events[i] == e && (e.event is ArenaPick
                        ==> real_cards[i]);
                if i < n {
                    assert(rest[i] == e);
                    assert(before.contains(e));
                    let k = choose|k: int| 0 <= k < before.len() && before[k] == e;
                    assert(all[k] == e);
                } else {
                    assert(all[all.len() - 1] == e);
                }
            }
        }
    } else {
        assert(all.len() == 0);
    }
}

/// Every record that is reduced is told with the session, the file, the place and the check sum of
/// its own text, in the order of the records; and what was reduced last is kept as such.
pub proof fn reduced_records_are_told_by_their_place(
    s: ReduceModel,
    session: Seq<char>,
    lines: Seq<LineModel>,
    fault: Option<ReadError>,
    checked: bool,
)
    ensures
        ({
            let o = reduced(s, session, lines, fault, checked);
            &&& o.steps.len() <= lines.len()
            &&& forall|i: int|
                0 <= i < o.steps.len() ==> {
                    &&& (#[trigger] o.steps[i]).source.session_id == session
                    &&& o.steps[i].source.component == filename_of(lines[i].component)
                    &&& o.steps[i].source.byte_offset == lines[i].byte_offset
                    &&& o.steps[i].source.line_hash == checksum(encode_utf8(lines[i].raw))
                }
            &&& !(o.end is OutOfOrder) ==> o.steps.len() == lines.len()
            &&& o.end is OutOfOrder ==> checked && o.steps.len() < lines.len()
            &&& o.end is Done ==> fault is None
            &&& o.steps.len() == 0 ==> o.state == s
            &&& o.steps.len() > 0 ==> {
                let last = o.steps.len() - 1;
                &&& o.state.order == Some(order_of(lines[last]))
                &&& o.state.source == Some(o.steps[last].source)
            }
        }),
    decreases lines.len(),
{
    let o = reduced(s, session, lines, fault, checked);
    if lines.len() > 0 && !(checked && too_late(s, lines[0])) {
        let rest = lines.skip(1);
        let next = crate::merge::after_line(s, session, lines[0]);
        reduced_records_are_told_by_their_place(next, session, rest, fault, checked);
        let r = reduced(next, session, rest, fault, checked);
        assert forall|i: int| 0 <= i < o.steps.len() implies {
            &&& (#[trigger] o.steps[i]).source.session_id == session
            &&& o.steps[i].source.component == filename_of(lines[i].component)
            &&& o.steps[i].source.byte_offset == lines[i].byte_offset
            &&& o.steps[i].source.line_hash == checksum(encode_utf8(lines[i].raw))
        } by {
            if i > 0 {
                assert(o.steps[i] == r.steps[i - 1]);
                assert(rest[i - 1] == lines[i]);
            }
        }
    }
}

/// Records are refused as too late exactly where they come before the last one that was reduced.
pub proof fn late_records_come_before_the_last(s: ReduceModel, line: LineModel)
    ensures
        too_late(s, line) <==> s.order is Some && {
            let last = s.order->0;
            let time = line.timestamp_key;
            ||| time is None && last.timestamp is Some
            ||| time is Some && last.timestamp is Some && time->0 < last.timestamp->0
            ||| time == last.timestamp && place_of_log(line.component) < place_of_log(last.component)
            ||| time == last.timestamp && line.component == last.component && line.byte_offset
                < last.byte_offset
        },
{
}

/// One more byte is mixed into a check sum, then the sum is multiplied by the prime of the
/// sixty-four-bit Fowler-Noll-Vo hash, whose offset is the sum of no bytes.
pub proof fn check_sums_mix_byte_by_byte(bytes: Seq<u8>, b: u8)
    ensures
        checksum(bytes.push(b)) == ((checksum(bytes) ^ (b as u64)) * 1099511628211)
            % 18446744073709551616,
        checksum(Seq::empty()) == 14695981039346656037,
{
    assert(bytes.push(b).drop_last() =~= bytes);
}

/// The logs from which events come, each from the place that is known of it.
pub proof fn events_come_from_three_logs(
    files: Map<LogComponent, LogFile>,
    places: Map<LogComponent, LogCursor>,
    c: LogComponent,
)
    ensures
        event_lists(files, places).contains_key(c) <==> places.contains_key(c) && (c
            is LoadingScreen || c is Power || c is Arena),
        c is Zone || c is Asset ==> place_after(c, files[c].bytes@, places[c]).byte_offset
            == line_start(files[c].bytes@, files[c].bytes@.len() as int) as u64,
{
}

proof fn line_ends_are_dropped(s: Seq<char>)
    ensures
        trim_line_end(s).len() <= s.len(),
        s.take(trim_line_end(s).len() as int) == trim_line_end(s),
        forall|i: int|
            trim_line_end(s).len() <= i < s.len() ==> (#[trigger] s[i] == '\n' || s[i] == '\r'),
        trim_line_end(s).len() > 0 ==> trim_line_end(s).last() != '\n' && trim_line_end(s).last()
            != '\r',
    decreases s.len(),
{
    if s.len() > 0 && (s.last() == '\n' || s.last() == '\r') {
        let rest = s.drop_last();
        line_ends_are_dropped(rest);
        let n = trim_line_end(s).len() as int;
        assert(s.take(n) =~= rest.take(n));
        assert forall|i: int| n <= i < s.len() implies (#[trigger] s[i] == '\n' || s[i] == '\r') by {
            if i < rest.len() {
                assert(rest[i] == s[i]);
            }
        }
    } else {
        assert(s.take(s.len() as int) =~= s);
    }
}

/// A record runs from the cursor to the next line end. It is told with its component, its number,
/// its own place, and its text without the line end; the cursor moves behind the line end and
/// counts the record. Nothing is read where the line end is missing.
pub proof fn records_run_to_the_line_end(
    component: LogComponent,
    b: Seq<u8>,
    cursor: LogCursor,
)
    requires
        b.len() <= u64::MAX,
    ensures
        ({
            let (next, found) = read_next(component, b, cursor);
            let at = cursor.byte_offset as int;
            &&& found matches Ok(Some(line)) ==> {
                let end = next.byte_offset as int;
                let whole = decode_utf8(b.subrange(at, end));
                &&& at < end <= b.len()
                &&& b[end - 1] == 10
                &&& forall|k: int| at <= k < end - 1 ==> b[k] != 10
                &&& line.component == component
                &&& line.byte_offset == cursor.byte_offset
                &&& line.line_number == cursor.line_number + 1
                &&& next.line_number == cursor.line_number + 1
                &&& line.raw.len() <= whole.len()
                &&& line.raw == whole.take(line.raw.len() as int)
                &&& forall|i: int|
                    line.raw.len() <= i < whole.len() ==> (#[trigger] whole[i] == '\n' || whole[i]
                        == '\r')
                &&& line.raw.len() > 0 ==> line.raw.last() != '\n' && line.raw.last() != '\r'
            }
            &&& found == Ok::<Option<LineModel>, ReadError>(None) ==> forall|k: int|
                at <= k < b.len() ==> b[k] != 10
            &&& !(found matches Ok(Some(_))) ==> next == cursor
        }),
{
    let at = cursor.byte_offset as int;
    newline_from_is_first(b, at);
    let (next, found) = read_next(component, b, cursor);
    if found matches Ok(Some(line)) {
        let end = next.byte_offset as int;
        line_ends_are_dropped(decode_utf8(b.subrange(at, end)));
    }
}

/// A deck is resolved card by card: each keeps its id and its copies, and resolves to what its id
/// resolves to.
pub proof fn decks_resolve_card_by_card(
    r: Seq<ResolvedDeckCard>,
    deck: Seq<DeckCard>,
    cards: CardCache,
    i: int,
)
    requires
        is_resolved_deck(r, deck, cards),
        0 <= i < deck.len(),
    ensures
        r.len() == deck.len(),
        deck_entries(r)[i].card_id == deck[i].card_id@,
        deck_entries(r)[i].count == deck[i].count,
        r[i].resolution@ == cards.resolution(deck[i].card_id@),
{
    assert(r[i].card_id@ == deck[i].card_id@);
}

/// A session is read log by log, each from its start: no line of a log that is there is lost.
pub proof fn sessions_read_all_their_logs(
    files: Map<LogComponent, Vec<u8>>,
    n: int,
    c: LogComponent,
)
    requires
        0 <= n <= 5,
        session_lines(files, n) is Ok,
        files.contains_key(c),
        place_of_log(c) <= n,
    ensures
        read_all(c, files[c]@, LogCursor { byte_offset: 0, line_number: 0 }) matches Ok((own, _))
            && forall|i: int|
            0 <= i < own.len() ==> session_lines(files, n)->Ok_0.contains(#[trigger] own[i]),
    decreases n,
{
    let start = LogCursor { byte_offset: 0, line_number: 0 };
    let d = REQUIRED_COMPONENTS@[n - 1];
    assert(place_of_log(d) == n);
    let before = session_lines(files, n - 1)->Ok_0;
    let all = session_lines(files, n)->Ok_0;
    if place_of_log(c) == n {
        assert(c == d);
        let (own, _) = read_all(c, files[c]@, start)->Ok_0;
        assert forall|i: int| 0 <= i < own.len() implies all.contains(#[trigger] own[i]) by {
            assert(all[before.len() + i] == own[i]);
        }
    } else {
        sessions_read_all_their_logs(files, n - 1, c);
        let (own, _) = read_all(c, files[c]@, start)->Ok_0;
        assert forall|i: int| 0 <= i < own.len() implies all.contains(#[trigger] own[i]) by {
            assert(before.contains(own[i]));
            let k = choose|k: int| 0 <= k < before.len() && before[k] == own[i];
            assert(all[k] == own[i]);
        }
    }
}

/// A snapshot says what the state says: the same mode, hero, deck, run, draft and game, with the
/// cards resolved.
pub proof fn snapshots_say_what_the_state_says(
    s: ArenaSnapshot,
    cards: CardCache,
    r: ObserverSnapshot,
    i: int,
)
    requires
        call_ensures(resolve_snapshot, (s, &cards), r),
    ensures
        r.mode == s.mode,
        r.hero_class == s.hero_class,
        r.deck_state == s.deck_state,
        r.run == s.run,
        r.draft == s.draft,
        r.game_active == s.game_active,
        r.state_schema_version == s.schema_version,
        r.deck@.len() == s.deck@.len(),
        r.remaining_deck@.len() == s.remaining_deck@.len(),
        0 <= i < s.deck@.len() ==> r.deck@[i].card_id@ == s.deck@[i].card_id@ && r.deck@[i].count
            == s.deck@[i].count,
        0 <= i < s.remaining_deck@.len() ==> r.remaining_deck@[i].card_id@
            == s.remaining_deck@[i].card_id@ && r.remaining_deck@[i].count
            == s.remaining_deck@[i].count,
{
    if 0 <= i < s.deck@.len() {
        decks_resolve_card_by_card(r.deck@, s.deck@, cards, i);
    }
    if 0 <= i < s.remaining_deck@.len() {
        decks_resolve_card_by_card(r.remaining_deck@, s.remaining_deck@, cards, i);
    }
}

/// One carriage return at the end of a record belongs to the line end, and nothing else does.
pub proof fn carriage_returns_end_lines(s: Seq<char>)
    ensures
        without_return(s.push('\r')) == s,
        s.len() == 0 || s.last() != '\r' ==> without_return(s) == s,
{
    assert(s.push('\r').drop_last() =~= s);
}

} // verus!
