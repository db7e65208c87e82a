//! Typed parsing of Hearthstone log records.
//!
//! The parser recognises syntax and keeps the little state that gives later records their
//! meaning; what the events do to the Arena state is decided elsewhere.

use vstd::prelude::*;

use crate::log_component::LogComponent;
use crate::pattern;
use crate::pattern::{found_groups, group_if_any, group_or_empty, match_groups};
use crate::state::{event_models, EventModel, GameEvent, GameResult};
use crate::text;
use crate::text::{all_digits, contains_part, decimal, digits_value, parsed_number, upper_ascii_text};

verus! {

/// A log line with its place in the file.
#[derive(Clone, Debug)]
pub struct RawLogLine {
    pub component: LogComponent,
    pub line_number: u64,
    pub byte_offset: u64,
    pub timestamp_key: Option<u64>,
    pub message: String,
    pub raw: String,
}

/// A log line, over texts.
pub struct LineModel {
    pub component: LogComponent,
    pub line_number: u64,
    pub byte_offset: u64,
    pub timestamp_key: Option<u64>,
    pub message: Seq<char>,
    pub raw: Seq<char>,
}

impl View for RawLogLine {
    type V = LineModel;

    open spec fn view(&self) -> LineModel {
        LineModel {
            component: self.component,
            line_number: self.line_number,
            byte_offset: self.byte_offset,
            timestamp_key: self.timestamp_key,
            message: self.message@,
            raw: self.raw@,
        }
    }
}

/// A sequence of log lines, over texts.
pub open spec fn line_models(lines: Seq<RawLogLine>) -> Seq<LineModel> {
    lines.map_values(|l: RawLogLine| l@)
}

/// The time stamp at the head of a log line: level, hour, minute, second, fraction, message.
pub const TIMESTAMP: &'static str =
    r"^(?:[A-Z]\s+)?(?P<hour>\d{1,2}):(?P<minute>\d{2}):(?P<second>\d{2})\.(?P<fraction>\d+)\s+(?P<message>.*)$";

/// The parts of a time stamp: the level with the spaces behind it, where there is one, and the
/// digits of hour, minute, second and fraction.
pub struct Stamp {
    pub level: Seq<char>,
    pub hour: Seq<char>,
    pub minute: Seq<char>,
    pub second: Seq<char>,
    pub fraction: Seq<char>,
}

impl Stamp {
    /// Whether these can be the parts of a time stamp.
    pub open spec fn proper(self) -> bool {
        &&& self.level.len() == 0 || (self.level.len() >= 2 && 'A' <= self.level[0] <= 'Z' && forall|
            i: int,
        |
            1 <= i < self.level.len() ==> #[trigger] self.level[i] == ' ')
        &&& 1 <= self.hour.len() <= 2 && all_digits(self.hour)
        &&& self.minute.len() == 2 && all_digits(self.minute)
        &&& self.second.len() == 2 && all_digits(self.second)
        &&& self.fraction.len() >= 1 && all_digits(self.fraction)
    }

    /// The time stamp as a text.
    pub open spec fn spelled(self) -> Seq<char> {
        self.level + self.hour + seq![':'] + self.minute + seq![':'] + self.second + seq!['.']
            + self.fraction
    }

    /// Whether a text is this time stamp, a space and a message of one line.
    pub open spec fn heads(self, text: Seq<char>) -> bool {
        let n = self.spelled().len() as int;
        &&& self.proper()
        &&& n < text.len()
        &&& text.take(n) == self.spelled()
        &&& text[n] == ' '
        &&& forall|i: int| n <= i < text.len() ==> #[trigger] text[i] != '\n'
    }

    /// Whether groups hold the digits of this time stamp.
    pub open spec fn found(self, groups: Seq<Option<Seq<char>>>) -> bool {
        &&& groups.len() == 6
        &&& groups[1] == Some(self.hour)
        &&& groups[2] == Some(self.minute)
        &&& groups[3] == Some(self.second)
        &&& groups[4] == Some(self.fraction)
    }

    /// The time of day: hour, minute, second, and the first seven digits of the fraction.
    pub open spec fn time(self) -> (nat, nat, nat, nat) {
        (
            digits_value(self.hour),
            digits_value(self.minute),
            digits_value(self.second),
            digits_value(seven_digits(self.fraction)),
        )
    }

    /// The ordering key of the time of day.
    pub open spec fn key(self) -> Option<u64> {
        time_key(self.hour, self.minute, self.second, self.fraction)
    }
}

/// Whether a time of day comes no later than another.
pub open spec fn no_later(a: (nat, nat, nat, nat), b: (nat, nat, nat, nat)) -> bool {
    ||| a.0 < b.0
    ||| a.0 == b.0 && a.1 < b.1
    ||| a.0 == b.0 && a.1 == b.1 && a.2 < b.2
    ||| a.0 == b.0 && a.1 == b.1 && a.2 == b.2 && a.3 <= b.3
}

/// A number below one hundred with two digits; a larger one in full.
pub open spec fn two_digits(n: nat) -> Seq<char> {
    if n < 10 {
        seq!['0'] + decimal(n)
    } else {
        decimal(n)
    }
}

/// The first seven characters of a fraction, filled up with zeros.
pub open spec fn seven_digits(fraction: Seq<char>) -> Seq<char> {
    Seq::new(7, |i: int| if i < fraction.len() { fraction[i] } else { '0' })
}

/// A number of one byte; zero where the text is none.
pub open spec fn byte_or_zero(s: Seq<char>) -> nat {
    match parsed_number(s, 255) {
        Some(n) => n,
        None => 0,
    }
}

/// The ordering key of a time of day.
pub open spec fn time_key(
    hour: Seq<char>,
    minute: Seq<char>,
    second: Seq<char>,
    fraction: Seq<char>,
) -> Option<u64> {
    match parsed_number(
        two_digits(byte_or_zero(hour)) + two_digits(byte_or_zero(minute)) + two_digits(
            byte_or_zero(second),
        ) + seven_digits(fraction),
        u64::MAX as nat,
    ) {
        Some(n) => Some(n as u64),
        None => None,
    }
}

/// The ordering key and the message of a log line, given the groups of its time stamp.
pub open spec fn stamped(groups: Option<Seq<Option<Seq<char>>>>, raw: Seq<char>) -> (
    Option<u64>,
    Seq<char>,
) {
    match groups {
        None => (None, raw),
        Some(g) => (
            time_key(
                group_or_empty(g, 1),
                group_or_empty(g, 2),
                group_or_empty(g, 3),
                match group_if_any(g, 4) {
                    Some(f) => f,
                    None => "0"@,
                },
            ),
            match group_if_any(g, 5) {
                Some(m) => m,
                None => raw,
            },
        ),
    }
}

/// The ordering key and the message of a log line.
pub open spec fn stamp_of(raw: Seq<char>) -> (Option<u64>, Seq<char>) {
    stamped(match_groups(TIMESTAMP@, raw), raw)
}

fn push_two_digits(out: &mut String, n: u64)
    ensures
        final(out)@ == old(out)@ + two_digits(n as nat),
{
    if n < 10 {
        out.push('0');
        text::push_decimal(out, n);
        assert(out@ =~= old(out)@ + two_digits(n as nat));
    } else {
        text::push_decimal(out, n);
    }
}

fn parse_byte_or_zero(s: &str) -> (r: u64)
    ensures
        r == byte_or_zero(s@),
{
    let chars = text::chars_of(s);
    match text::parse_number(chars.as_slice(), 255) {
        Some(n) => n,
        None => 0,
    }
}

/// The ordering key of a time of day: two digits each for hour, minute and second, then
/// seven digits of the fraction.
pub fn time_of_day_key(hour: &str, minute: &str, second: &str, fraction: &str) -> (r: Option<u64>)
    ensures
        r == time_key(hour@, minute@, second@, fraction@),
{
    let mut key = String::new();
    push_two_digits(&mut key, parse_byte_or_zero(hour));
    push_two_digits(&mut key, parse_byte_or_zero(minute));
    push_two_digits(&mut key, parse_byte_or_zero(second));
    let ghost head = two_digits(byte_or_zero(hour@)) + two_digits(byte_or_zero(minute@))
        + two_digits(byte_or_zero(second@));
    assert(key@ =~= head);
    let f = text::chars_of(fraction);
    let mut i: usize = 0;
    while i < 7
        invariant
            i <= 7,
            f@ == fraction@,
            key@ =~= head + seven_digits(fraction@).take(i as int),
        decreases 7 - i,
    {
        if i < f.len() {
            key.push(f[i]);
        } else {
            key.push('0');
        }
        i = i + 1;
    }
    assert(seven_digits(fraction@).take(7) =~= seven_digits(fraction@));
    let chars = text::chars_of(key.as_str());
    text::parse_number(chars.as_slice(), u64::MAX)
}

/// The ordering key and the message of a log line, given the groups of its time stamp.
pub fn stamp_from_groups(groups: Option<Vec<Option<String>>>, raw: &str) -> (r: (
    Option<u64>,
    String,
))
    ensures
        (r.0, r.1@) == stamped(pattern::found_groups(groups), raw@),
{
    match groups {
        None => (None, text::string_of(text::chars_of(raw).as_slice())),
        Some(g) => {
            let hour = pattern::group_text(&g, 1);
            let minute = pattern::group_text(&g, 2);
            let second = pattern::group_text(&g, 3);
            let fraction = match pattern::group_option(&g, 4) {
                Some(f) => f,
                None => text::string_of(text::chars_of("0").as_slice()),
            };
            let message = match pattern::group_option(&g, 5) {
                Some(m) => m,
                None => text::string_of(text::chars_of(raw).as_slice()),
            };
            let key = time_of_day_key(
                hour.as_str(),
                minute.as_str(),
                second.as_str(),
                fraction.as_str(),
            );
            (key, message)
        },
    }
}

/// Splits a log line into its ordering key and its message.
pub fn split_timestamp(raw: &str) -> (r: (Option<u64>, String))
    ensures
        (r.0, r.1@) == stamp_of(raw@),
        contains_part(raw@, r.1@),
        forall|stamp: Stamp| #[trigger] stamp.heads(raw@) ==> r.0 == stamp.key(),
{
    let groups = pattern::first_match(TIMESTAMP, raw);
    proof {
        assert(raw@.subrange(0, raw@.len() as int) =~= raw@);
        assert(text::occurs_at(raw@, raw@, 0));
    }
    stamp_from_groups(groups, raw)
}

/// The ordering key of a log line.
pub fn timestamp_key(raw: &str) -> (r: Option<u64>)
    ensures
        r == stamp_of(raw@).0,
        forall|stamp: Stamp| #[trigger] stamp.heads(raw@) ==> r == stamp.key(),
{
    split_timestamp(raw).0
}

proof fn two_digits_are_two(n: nat)
    requires
        n < 100,
    ensures
        two_digits(n).len() == 2,
        all_digits(two_digits(n)),
        digits_value(two_digits(n)) == n,
{
    text::decimals_are_read(n);
    reveal_with_fuel(decimal, 2);
    if n < 10 {
        let d = two_digits(n);
        assert(d =~= seq!['0', text::digit(n)]);
        text::digits_behind_digits(seq!['0'], decimal(n));
        assert(seq!['0'].drop_last() =~= Seq::<char>::empty());
        assert(digits_value(seq!['0']) == 0) by {
            reveal_with_fuel(digits_value, 2);
        }
        assert forall|i: int| 0 <= i < d.len() implies '0' <= #[trigger] d[i] <= '9' by {
            if i == 1 {
                assert(d[1] == decimal(n)[0]);
            }
        }
    }
}

proof fn powers_of_ten()
    ensures
        text::ten_to(0) == 1,
        text::ten_to(1) == 10,
        text::ten_to(2) == 100,
        text::ten_to(7) == 10_000_000,
{
    reveal_with_fuel(text::ten_to, 9);
}

proof fn seven_digits_are_digits(fraction: Seq<char>)
    requires
        all_digits(fraction),
    ensures
        seven_digits(fraction).len() == 7,
        all_digits(seven_digits(fraction)),
        digits_value(seven_digits(fraction)) < 10_000_000,
{
    let f = seven_digits(fraction);
    assert forall|i: int| 0 <= i < f.len() implies '0' <= #[trigger] f[i] <= '9' by {
        if i < fraction.len() {
            assert(f[i] == fraction[i]);
        } else {
            assert(f[i] == '0');
        }
    }
    text::digits_are_bounded(f);
    powers_of_ten();
}

proof fn short_numbers_are_read(s: Seq<char>)
    requires
        1 <= s.len() <= 2,
        all_digits(s),
    ensures
        digits_value(s) < 100,
        byte_or_zero(s) == digits_value(s),
{
    text::digits_are_bounded(s);
    powers_of_ten();
    assert('0' <= s[0] <= '9');
    assert(text::unsigned_part(s) == s);
}

proof fn digits_join(a: Seq<char>, b: Seq<char>)
    requires
        all_digits(a),
        all_digits(b),
    ensures
        all_digits(a + b),
{
    assert forall|i: int| 0 <= i < (a + b).len() implies '0' <= #[trigger] (a + b)[i] <= '9' by {
        if i < a.len() {
            assert((a + b)[i] == a[i]);
        } else {
            assert((a + b)[i] == b[i - a.len()]);
        }
    }
}

proof fn digits_of_a_time(hour: nat, minute: nat, second: nat, f: Seq<char>)
    requires
        hour < 100,
        minute < 100,
        second < 100,
        f.len() == 7,
        all_digits(f),
    ensures
        ({
            let all = two_digits(hour) + two_digits(minute) + two_digits(second) + f;
            &&& all.len() == 13
            &&& all_digits(all)
            &&& digits_value(all) == ((hour * 100 + minute) * 100 + second) * 10_000_000
                + digits_value(f)
        }),
{
    two_digits_are_two(hour);
    two_digits_are_two(minute);
    two_digits_are_two(second);
    powers_of_ten();
    let h = two_digits(hour);
    let hm = h + two_digits(minute);
    let hms = hm + two_digits(second);
    assert(all_digits(hms + f)) by {
        digits_join(h, two_digits(minute));
        digits_join(hm, two_digits(second));
        digits_join(hms, f);
    }
    assert(digits_value(hm) == hour * 100 + minute) by {
        text::digits_behind_digits(h, two_digits(minute));
    }
    assert(digits_value(hms) == (hour * 100 + minute) * 100 + second) by {
        text::digits_behind_digits(hm, two_digits(second));
    }
    assert(digits_value(hms + f) == digits_value(hms) * 10_000_000 + digits_value(f)) by {
        text::digits_behind_digits(hms, f);
    }
}

/// The key of a time stamp is a number: two digits each for hour, minute and second, then seven
/// for the fraction.
pub proof fn stamps_have_keys(stamp: Stamp)
    requires
        stamp.proper(),
    ensures
        ({
            let (hour, minute, second, fraction) = stamp.time();
            &&& hour < 100 && minute < 100 && second < 100 && fraction < 10_000_000
            &&& stamp.key() is Some
            &&& stamp.key()->0 == ((hour * 100 + minute) * 100 + second) * 10_000_000 + fraction
        }),
{
    let (hour, minute, second, fraction) = stamp.time();
    let f = seven_digits(stamp.fraction);
    short_numbers_are_read(stamp.hour);
    short_numbers_are_read(stamp.minute);
    short_numbers_are_read(stamp.second);
    seven_digits_are_digits(stamp.fraction);
    digits_of_a_time(hour, minute, second, f);
    let all = two_digits(hour) + two_digits(minute) + two_digits(second) + f;
    assert(parsed_number(all, u64::MAX as nat) == Some(digits_value(all))) by {
        assert('0' <= all[0] <= '9');
        assert(text::unsigned_part(all) == all);
    }
}

/// The keys of time stamps come in the order of the times of day.
pub proof fn keys_order_as_times(a: Stamp, b: Stamp)
    requires
        a.proper(),
        b.proper(),
    ensures
        a.key() is Some,
        b.key() is Some,
        a.key()->0 <= b.key()->0 <==> no_later(a.time(), b.time()),
{
    stamps_have_keys(a);
    stamps_have_keys(b);
}

/// Whether a record of the component can hold an event, judged by its fixed words. The letter case
/// counts where it counts for the record itself.
pub open spec fn might_emit(component: LogComponent, raw: Seq<char>) -> bool {
    match component {
        LogComponent::Arena => {
            ||| contains_part(raw, "Draft Deck ID:"@)
            ||| contains_part(raw, "Draft deck contains card"@)
            ||| contains_part(raw, "Client chooses:"@)
            ||| contains_part(raw, "OnBegin"@)
            ||| contains_part(raw, "OnRedraftBegin"@)
            ||| contains_part(raw, "OnChosen()"@)
            ||| contains_part(raw, "SetDraftMode"@)
        },
        LogComponent::LoadingScreen => {
            let upper = upper_ascii_text(raw);
            ||| contains_part(upper, "ARENA"@)
            ||| contains_part(upper, "HUB -> GAMEPLAY"@)
            ||| contains_part(upper, "GAMEPLAY -> HUB"@)
        },
        LogComponent::Power => {
            let upper = upper_ascii_text(raw);
            ||| contains_part(upper, "CREATE_GAME"@)
            ||| contains_part(upper, "PLAYSTATE"@) && contains_part(upper, "WON"@)
        },
        LogComponent::Zone | LogComponent::Asset => false,
    }
}

fn holds_words(s: &[char], words: &str) -> (r: bool)
    ensures
        r == contains_part(s@, words@),
{
    text::contains_chars(s, text::chars_of(words).as_slice())
}

/// A cheap test that spares most records the time stamp and the grammar. A record that fails it
/// changes nothing.
pub fn component_might_emit_event(component: LogComponent, raw: &str) -> (r: bool)
    ensures
        r == might_emit(component, raw@),
{
    match component {
        LogComponent::Arena => {
            text::str_contains(raw, "Draft Deck ID:") || text::str_contains(
                raw,
                "Draft deck contains card",
            ) || text::str_contains(raw, "Client chooses:") || text::str_contains(raw, "OnBegin")
                || text::str_contains(raw, "OnRedraftBegin") || text::str_contains(
                raw,
                "OnChosen()",
            ) || text::str_contains(raw, "SetDraftMode")
        },
        LogComponent::LoadingScreen => {
            let upper = text::to_upper_ascii_chars(text::chars_of(raw).as_slice());
            holds_words(upper.as_slice(), "ARENA") || holds_words(
                upper.as_slice(),
                "HUB -> GAMEPLAY",
            ) || holds_words(upper.as_slice(), "GAMEPLAY -> HUB")
        },
        LogComponent::Power => {
            let upper = text::to_upper_ascii_chars(text::chars_of(raw).as_slice());
            holds_words(upper.as_slice(), "CREATE_GAME") || (holds_words(
                upper.as_slice(),
                "PLAYSTATE",
            ) && holds_words(upper.as_slice(), "WON"))
        },
        LogComponent::Zone | LogComponent::Asset => false,
    }
}

/// The record that begins a deck snapshot: deck id, and the hero where it is given.
pub const DRAFT_DECK: &'static str =
    r"Draft Deck ID:\s*(?P<id>\d+)(?:,\s*Hero Card\s*=\s*(?P<hero>HERO_[A-Z0-9_]+))?";

/// One card of a deck snapshot.
pub const DRAFT_CARD: &'static str = r"Draft deck contains card\s+(?P<card>[A-Z0-9_]+)";

/// The beginning of a run.
pub const ON_BEGIN: &'static str = r"OnBegin\s*-\s*Got new draft deck with ID:\s*(?P<id>\d+)";

/// The beginning of a Redraft.
pub const ON_REDRAFT_BEGIN: &'static str = r"OnRedraftBegin\s*-\s*Got new redraft deck with ID:\s*\d+";

/// The hero that was chosen.
pub const ON_CHOSEN: &'static str = r"OnChosen\(\):\s*hero=(?P<hero>HERO_[A-Z0-9_]+)";

/// A change of the draft mode.
pub const DRAFT_MODE: &'static str = r"SetDraftMode\s*-\s*(?P<mode>[A-Z_]+)";

/// A choice that the client made.
pub const CLIENT_CHOICE: &'static str = r"Client chooses:\s*.*\((?P<card>[A-Z0-9_]+)\)\s*$";

/// What an Arena record is.
#[derive(Clone, Debug, PartialEq, Eq)]
pub enum ArenaRecord {
    DraftDeck { id: String, hero: Option<String> },
    Begin { id: String },
    RedraftBegin,
    Chosen { card: String },
    DeckCard { card: String },
    Choice { card: String },
    Mode { mode: String },
    Other,
}

/// What an Arena record is, over texts.
pub enum ArenaRecordModel {
    DraftDeck { id: Seq<char>, hero: Option<Seq<char>> },
    Begin { id: Seq<char> },
    RedraftBegin,
    Chosen { card: Seq<char> },
    DeckCard { card: Seq<char> },
    Choice { card: Seq<char> },
    Mode { mode: Seq<char> },
    Other,
}

impl View for ArenaRecord {
    type V = ArenaRecordModel;

    open spec fn view(&self) -> ArenaRecordModel {
        match *self {
            ArenaRecord::DraftDeck { id, hero } => ArenaRecordModel::DraftDeck {
                id: id@,
                hero: crate::state::opt_text(hero),
            },
            ArenaRecord::Begin { id } => ArenaRecordModel::Begin { id: id@ },
            ArenaRecord::RedraftBegin => ArenaRecordModel::RedraftBegin,
            ArenaRecord::Chosen { card } => ArenaRecordModel::Chosen { card: card@ },
            ArenaRecord::DeckCard { card } => ArenaRecordModel::DeckCard { card: card@ },
            ArenaRecord::Choice { card } => ArenaRecordModel::Choice { card: card@ },
            ArenaRecord::Mode { mode } => ArenaRecordModel::Mode { mode: mode@ },
            ArenaRecord::Other => ArenaRecordModel::Other,
        }
    }
}

/// The groups of a match, as the engine for regular expressions hands them out.
pub type Groups = Option<Vec<Option<String>>>;

/// What the record forms find in an Arena message, in the order in which they are tried. A form
/// behind one that matched need not be tried.
pub struct ArenaMatches {
    pub draft_deck: Groups,
    pub begin: Groups,
    pub redraft_begin: Groups,
    pub chosen: Groups,
    pub deck_card: Groups,
    pub choice: Groups,
    pub mode: Groups,
}

/// What an Arena message is, given what the record forms find in it: the first form that matches
/// counts.
pub open spec fn record_of_groups(
    draft_deck: Option<Seq<Option<Seq<char>>>>,
    begin: Option<Seq<Option<Seq<char>>>>,
    redraft_begin: Option<Seq<Option<Seq<char>>>>,
    chosen: Option<Seq<Option<Seq<char>>>>,
    deck_card: Option<Seq<Option<Seq<char>>>>,
    choice: Option<Seq<Option<Seq<char>>>>,
    mode: Option<Seq<Option<Seq<char>>>>,
) -> ArenaRecordModel {
    if let Some(g) = draft_deck {
        ArenaRecordModel::DraftDeck { id: group_or_empty(g, 1), hero: group_if_any(g, 2) }
    } else if let Some(g) = begin {
        ArenaRecordModel::Begin { id: group_or_empty(g, 1) }
    } else if redraft_begin is Some {
        ArenaRecordModel::RedraftBegin
    } else if let Some(g) = chosen {
        ArenaRecordModel::Chosen { card: group_or_empty(g, 1) }
    } else if let Some(g) = deck_card {
        ArenaRecordModel::DeckCard { card: group_or_empty(g, 1) }
    } else if let Some(g) = choice {
        ArenaRecordModel::Choice { card: group_or_empty(g, 1) }
    } else if let Some(g) = mode {
        ArenaRecordModel::Mode { mode: group_or_empty(g, 1) }
    } else {
        ArenaRecordModel::Other
    }
}

impl ArenaMatches {
    /// What the message is.
    pub open spec fn record_model(self) -> ArenaRecordModel {
        record_of_groups(
            found_groups(self.draft_deck),
            found_groups(self.begin),
            found_groups(self.redraft_begin),
            found_groups(self.chosen),
            found_groups(self.deck_card),
            found_groups(self.choice),
            found_groups(self.mode),
        )
    }

    /// Matches of no form.
    pub fn none() -> (r: ArenaMatches)
        ensures
            r.record_model() is Other,
            r == (ArenaMatches {
                draft_deck: None,
                begin: None,
                redraft_begin: None,
                chosen: None,
                deck_card: None,
                choice: None,
                mode: None,
            }),
    {
        ArenaMatches {
            draft_deck: None,
            begin: None,
            redraft_begin: None,
            chosen: None,
            deck_card: None,
            choice: None,
            mode: None,
        }
    }

    /// What the message is.
    pub fn record(&self) -> (r: ArenaRecord)
        ensures
            r@ == self.record_model(),
    {
        if let Some(g) = &self.draft_deck {
            return ArenaRecord::DraftDeck {
                id: pattern::group_text(g, 1),
                hero: pattern::group_option(g, 2),
            };
        }
        if let Some(g) = &self.begin {
            return ArenaRecord::Begin { id: pattern::group_text(g, 1) };
        }
        if self.redraft_begin.is_some() {
            return ArenaRecord::RedraftBegin;
        }
        if let Some(g) = &self.chosen {
            return ArenaRecord::Chosen { card: pattern::group_text(g, 1) };
        }
        if let Some(g) = &self.deck_card {
            return ArenaRecord::DeckCard { card: pattern::group_text(g, 1) };
        }
        if let Some(g) = &self.choice {
            return ArenaRecord::Choice { card: pattern::group_text(g, 1) };
        }
        if let Some(g) = &self.mode {
            return ArenaRecord::Mode { mode: pattern::group_text(g, 1) };
        }
        ArenaRecord::Other
    }
}

/// What an Arena message is: the first of the record forms that it matches.
pub open spec fn arena_record_of(message: Seq<char>) -> ArenaRecordModel {
    record_of_groups(
        match_groups(DRAFT_DECK@, message),
        match_groups(ON_BEGIN@, message),
        match_groups(ON_REDRAFT_BEGIN@, message),
        match_groups(ON_CHOSEN@, message),
        match_groups(DRAFT_CARD@, message),
        match_groups(CLIENT_CHOICE@, message),
        match_groups(DRAFT_MODE@, message),
    )
}

/// Recognises an Arena message.
pub fn arena_record(message: &str) -> (r: ArenaRecord)
    ensures
        r@ == arena_record_of(message@),
        !might_emit(LogComponent::Arena, message@) ==> r@ is Other,
{
    let mut found = ArenaMatches::none();
    found.draft_deck = pattern::first_match(DRAFT_DECK, message);
    if found.draft_deck.is_some() {
        return found.record();
    }
    found.begin = pattern::first_match(ON_BEGIN, message);
    if found.begin.is_some() {
        return found.record();
    }
    found.redraft_begin = pattern::first_match(ON_REDRAFT_BEGIN, message);
    if found.redraft_begin.is_some() {
        return found.record();
    }
    found.chosen = pattern::first_match(ON_CHOSEN, message);
    if found.chosen.is_some() {
        return found.record();
    }
    found.deck_card = pattern::first_match(DRAFT_CARD, message);
    if found.deck_card.is_some() {
        return found.record();
    }
    found.choice = pattern::first_match(CLIENT_CHOICE, message);
    if found.choice.is_some() {
        return found.record();
    }
    found.mode = pattern::first_match(DRAFT_MODE, message);
    found.record()
}

/// The version of the parser state in checkpoints.
pub const PARSER_CHECKPOINT_SCHEMA_VERSION: u32 = 6;

/// The parser state that gives later records their meaning, as it is saved.
#[derive(Clone, Copy, Debug, PartialEq, Eq, Structural)]
pub struct ParserCheckpoint {
    pub schema_version: u32,
    pub reading_arena_deck: bool,
    pub arena_picks_enabled: bool,
    pub redraft_boundary_pending: bool,
}

/// The parser state: whether a deck snapshot is being read, whether choices count as picks,
/// and whether a Redraft has begun whose first choice is still to come.
pub struct ParserModel {
    pub reading_arena_deck: bool,
    pub arena_picks_enabled: bool,
    pub redraft_boundary_pending: bool,
}

/// Recognises log records one after the other.
#[derive(Clone, Copy, Debug, PartialEq, Eq, Structural)]
pub struct HearthstoneLogParser {
    reading_arena_deck: bool,
    arena_picks_enabled: bool,
    redraft_boundary_pending: bool,
}

impl View for HearthstoneLogParser {
    type V = ParserModel;

    closed spec fn view(&self) -> ParserModel {
        ParserModel {
            reading_arena_deck: self.reading_arena_deck,
            arena_picks_enabled: self.arena_picks_enabled,
            redraft_boundary_pending: self.redraft_boundary_pending,
        }
    }
}

/// The state of a parser that has read nothing.
pub open spec fn fresh_parser() -> ParserModel {
    ParserModel {
        reading_arena_deck: false,
        arena_picks_enabled: false,
        redraft_boundary_pending: false,
    }
}

/// The saved form of a parser state.
pub open spec fn checkpoint_of(s: ParserModel) -> ParserCheckpoint {
    ParserCheckpoint {
        schema_version: PARSER_CHECKPOINT_SCHEMA_VERSION,
        reading_arena_deck: s.reading_arena_deck,
        arena_picks_enabled: s.arena_picks_enabled,
        redraft_boundary_pending: s.redraft_boundary_pending,
    }
}

/// The parser state that a checkpoint of this schema stands for.
pub open spec fn restored_from(c: ParserCheckpoint) -> Option<ParserModel> {
    if c.schema_version == PARSER_CHECKPOINT_SCHEMA_VERSION {
        Some(
            ParserModel {
                reading_arena_deck: c.reading_arena_deck,
                arena_picks_enabled: c.arena_picks_enabled,
                redraft_boundary_pending: c.redraft_boundary_pending,
            },
        )
    } else {
        None
    }
}

/// Whether a mode closes a deck snapshot.
pub open spec fn closes_snapshot(mode: Seq<char>) -> bool {
    mode == "DRAFTING"@ || mode == "ACTIVE_DRAFT_DECK"@ || mode == "REDRAFTING"@
}

/// The state after an Arena record, and its events, each choice at an open latch being a pick.
pub open spec fn arena_step(s: ParserModel, record: ArenaRecordModel) -> (
    ParserModel,
    Seq<EventModel>,
) {
    match record {
        ArenaRecordModel::DraftDeck { id, hero } => if s.redraft_boundary_pending {
            (s, Seq::empty())
        } else {
            (
                ParserModel { reading_arena_deck: true, arena_picks_enabled: false, ..s },
                seq![EventModel::ArenaDeckSnapshotStarted { draft_deck_id: id, hero_card_id: hero }],
            )
        },
        ArenaRecordModel::Begin { id } => (
            fresh_parser(),
            seq![EventModel::ArenaRunStarted { draft_deck_id: id }],
        ),
        ArenaRecordModel::RedraftBegin => (
            ParserModel {
                reading_arena_deck: false,
                arena_picks_enabled: true,
                redraft_boundary_pending: true,
            },
            Seq::empty(),
        ),
        ArenaRecordModel::Chosen { card } => (s, seq![EventModel::HeroCard { card_id: card }]),
        ArenaRecordModel::DeckCard { card } => (
            s,
            if s.reading_arena_deck && !s.redraft_boundary_pending {
                seq![EventModel::ArenaDeckSnapshotCard { card_id: card }]
            } else {
                Seq::empty()
            },
        ),
        ArenaRecordModel::Choice { card } => {
            let open = s.arena_picks_enabled || s.redraft_boundary_pending;
            (
                ParserModel { arena_picks_enabled: open, redraft_boundary_pending: false, ..s },
                if open {
                    seq![EventModel::ArenaPick { card_id: card }]
                } else {
                    Seq::empty()
                },
            )
        },
        ArenaRecordModel::Mode { mode } => {
            let resumed = s.redraft_boundary_pending && mode == "REDRAFTING"@;
            let completed = s.reading_arena_deck && closes_snapshot(mode);
            (
                ParserModel {
                    reading_arena_deck: s.reading_arena_deck && !completed,
                    arena_picks_enabled: s.arena_picks_enabled || resumed || (completed && (mode
                        == "DRAFTING"@ || mode == "REDRAFTING"@)),
                    redraft_boundary_pending: s.redraft_boundary_pending && !resumed,
                },
                if completed {
                    seq![
                        EventModel::ArenaDeckSnapshotCompleted,
                        EventModel::ArenaDraftMode { mode },
                    ]
                } else {
                    seq![EventModel::ArenaDraftMode { mode }]
                },
            )
        },
        ArenaRecordModel::Other => (s, Seq::empty()),
    }
}

/// The events of a loading-screen message.
pub open spec fn loading_screen_events(message: Seq<char>) -> Seq<EventModel> {
    let upper = upper_ascii_text(message);
    let mode = if contains_part(upper, "ARENA"@) {
        seq![EventModel::GameMode { raw_mode: "ARENA"@ }]
    } else {
        Seq::empty()
    };
    if contains_part(upper, "HUB -> GAMEPLAY"@) {
        mode.push(EventModel::GameStarted)
    } else if contains_part(upper, "GAMEPLAY -> HUB"@) {
        mode.push(EventModel::GameEnded { result: GameResult::Unknown })
    } else {
        mode
    }
}

/// The events of a power message.
pub open spec fn power_events(message: Seq<char>) -> Seq<EventModel> {
    let upper = upper_ascii_text(message);
    if contains_part(upper, "CREATE_GAME"@) {
        seq![EventModel::GameStarted]
    } else if contains_part(upper, "PLAYSTATE"@) && contains_part(upper, "WON"@) {
        seq![EventModel::GameEnded { result: GameResult::Unknown }]
    } else {
        Seq::empty()
    }
}

/// The state after a record, and its events, each choice at an open latch being a pick.
pub open spec fn line_step(s: ParserModel, component: LogComponent, message: Seq<char>) -> (
    ParserModel,
    Seq<EventModel>,
) {
    match component {
        LogComponent::Arena => arena_step(s, arena_record_of(message)),
        LogComponent::LoadingScreen => (s, loading_screen_events(message)),
        LogComponent::Power => (s, power_events(message)),
        LogComponent::Zone | LogComponent::Asset => (s, Seq::empty()),
    }
}

/// The events that stay once it is known whether a chosen card is a real one.
pub open spec fn settled(events: Seq<EventModel>, is_real_card: bool) -> Seq<EventModel> {
    if is_real_card {
        events
    } else {
        events.filter(|e: EventModel| !(e is ArenaPick))
    }
}

/// Drops the picks of a record whose chosen card is no real card.
pub fn settle_picks(events: Vec<GameEvent>, is_real_card: bool) -> (r: Vec<GameEvent>)
    ensures
        event_models(r@) == settled(event_models(events@), is_real_card),
{
    if is_real_card {
        return events;
    }
    let ghost keep = |e: EventModel| !(e is ArenaPick);
    let ghost all = event_models(events@);
    let mut rest = events;
    let mut back: Vec<GameEvent> = Vec::new();
    assert(all.skip(all.len() as int).filter(keep) =~= Seq::<EventModel>::empty());
    while rest.len() > 0
        invariant
            rest@.len() <= events@.len(),
            rest@ == events@.take(rest@.len() as int),
            all == event_models(events@),
            keep == (|e: EventModel| !(e is ArenaPick)),
            event_models(back@).reverse() == all.skip(rest@.len() as int).filter(keep),
        decreases rest.len(),
    {
        let ghost n = rest@.len() as int;
        let ghost before = back@;
        let e = rest.pop().unwrap();
        let is_pick = match &e {
            GameEvent::ArenaPick { .. } => true,
            _ => false,
        };
        proof {
            let tail = all.skip(n - 1);
            assert(tail =~= seq![all[n - 1]] + all.skip(n));
            assert(all[n - 1] == e@);
            Seq::filter_distributes_over_add(seq![all[n - 1]], all.skip(n), keep);
            reveal_with_fuel(Seq::filter, 2);
            assert(seq![all[n - 1]].drop_last() =~= Seq::<EventModel>::empty());
        }
        if !is_pick {
            back.push(e);
            assert(event_models(back@) =~= event_models(before).push(e@));
            assert(event_models(back@).reverse() =~= seq![e@] + event_models(before).reverse());
        }
    }
    assert(all.skip(0) =~= all);
    let mut r: Vec<GameEvent> = Vec::new();
    let ghost kept = event_models(back@).reverse();
    while back.len() > 0
        invariant
            event_models(r@) + event_models(back@).reverse() == kept,
        decreases back.len(),
    {
        let ghost before = back@;
        let e = back.pop().unwrap();
        assert(event_models(before).reverse() =~= seq![e@] + event_models(back@).reverse());
        r.push(e);
        assert(event_models(r@) + event_models(back@).reverse() =~= kept);
    }
    assert(event_models(r@) =~= kept);
    r
}

impl HearthstoneLogParser {
    /// The saved form of the parser state.
    pub fn checkpoint(&self) -> (r: ParserCheckpoint)
        ensures
            r == checkpoint_of(self@),
    {
        ParserCheckpoint {
            schema_version: PARSER_CHECKPOINT_SCHEMA_VERSION,
            reading_arena_deck: self.reading_arena_deck,
            arena_picks_enabled: self.arena_picks_enabled,
            redraft_boundary_pending: self.redraft_boundary_pending,
        }
    }

    /// Restores a parser from a checkpoint of this schema.
    pub fn from_checkpoint(checkpoint: ParserCheckpoint) -> (r: Result<Self, String>)
        ensures
            match r {
                Ok(parser) => restored_from(checkpoint) == Some(parser@),
                Err(reason) => restored_from(checkpoint) is None && reason@ == "unsupported parser checkpoint schema "@ + decimal(
                    checkpoint.schema_version as nat,
                ) + "; expected "@ + decimal(PARSER_CHECKPOINT_SCHEMA_VERSION as nat),
            },
    {
        if checkpoint.schema_version != PARSER_CHECKPOINT_SCHEMA_VERSION {
            let mut reason = String::new();
            reason.append("unsupported parser checkpoint schema ");
            text::push_decimal(&mut reason, checkpoint.schema_version as u64);
            reason.append("; expected ");
            text::push_decimal(&mut reason, PARSER_CHECKPOINT_SCHEMA_VERSION as u64);
            assert(reason@ =~= "unsupported parser checkpoint schema "@ + decimal(
                checkpoint.schema_version as nat,
            ) + "; expected "@ + decimal(PARSER_CHECKPOINT_SCHEMA_VERSION as nat));
            return Err(reason);
        }
        Ok(
            HearthstoneLogParser {
                reading_arena_deck: checkpoint.reading_arena_deck,
                arena_picks_enabled: checkpoint.arena_picks_enabled,
                redraft_boundary_pending: checkpoint.redraft_boundary_pending,
            },
        )
    }

    /// Lets later choices count as picks, once an authoritative deck baseline is known.
    pub fn enable_arena_picks_after_authoritative_baseline(&mut self)
        ensures
            final(self)@ == (ParserModel { arena_picks_enabled: true, ..old(self)@ }),
    {
        self.arena_picks_enabled = true;
    }

    /// Stops later choices from counting as picks.
    pub fn disable_arena_picks(&mut self)
        ensures
            final(self)@ == (ParserModel { arena_picks_enabled: false, ..old(self)@ }),
    {
        self.arena_picks_enabled = false;
    }

    /// Whether choices count as picks.
    pub fn arena_picks_enabled(&self) -> (r: bool)
        ensures
            r == self@.arena_picks_enabled,
    {
        self.arena_picks_enabled
    }

    /// Takes one recognised Arena record. Each choice at an open latch gives a pick, whatever
    /// card was chosen.
    pub fn apply_arena_record(&mut self, record: ArenaRecord) -> (r: Vec<GameEvent>)
        ensures
            (final(self)@, event_models(r@)) == arena_step(old(self)@, record@),
    {
        let ghost wanted = arena_step(old(self)@, record@).1;
        let mut events: Vec<GameEvent> = Vec::new();
        match record {
            ArenaRecord::DraftDeck { id, hero } => {
                if !self.redraft_boundary_pending {
                    self.reading_arena_deck = true;
                    self.arena_picks_enabled = false;
                    events.push(
                        GameEvent::ArenaDeckSnapshotStarted { draft_deck_id: id, hero_card_id: hero },
                    );
                }
            },
            ArenaRecord::Begin { id } => {
                self.reading_arena_deck = false;
                self.arena_picks_enabled = false;
                self.redraft_boundary_pending = false;
                events.push(GameEvent::ArenaRunStarted { draft_deck_id: id });
            },
            ArenaRecord::RedraftBegin => {
                self.reading_arena_deck = false;
                self.arena_picks_enabled = true;
                self.redraft_boundary_pending = true;
            },
            ArenaRecord::Chosen { card } => {
                events.push(GameEvent::HeroCard { card_id: card });
            },
            ArenaRecord::DeckCard { card } => {
                if !self.redraft_boundary_pending && self.reading_arena_deck {
                    events.push(GameEvent::ArenaDeckSnapshotCard { card_id: card });
                }
            },
            ArenaRecord::Choice { card } => {
                if self.redraft_boundary_pending {
                    self.redraft_boundary_pending = false;
                    self.arena_picks_enabled = true;
                }
                if self.arena_picks_enabled {
                    events.push(GameEvent::ArenaPick { card_id: card });
                }
            },
            ArenaRecord::Mode { mode } => {
                let redrafting = text::str_eq(mode.as_str(), "REDRAFTING");
                let drafting = text::str_eq(mode.as_str(), "DRAFTING");
                let active = text::str_eq(mode.as_str(), "ACTIVE_DRAFT_DECK");
                if self.redraft_boundary_pending && redrafting {
                    self.redraft_boundary_pending = false;
                    self.arena_picks_enabled = true;
                }
                if self.reading_arena_deck && (drafting || active || redrafting) {
                    self.reading_arena_deck = false;
                    events.push(GameEvent::ArenaDeckSnapshotCompleted);
                    if drafting || redrafting {
                        self.arena_picks_enabled = true;
                    }
                }
                events.push(GameEvent::ArenaDraftMode { mode });
            },
            ArenaRecord::Other => {},
        }
        assert(event_models(events@) =~= wanted);
        events
    }

    /// Reads one record. Each choice at an open latch gives a pick, whatever card was chosen.
    pub fn parse_candidates(&mut self, line: &RawLogLine) -> (r: Vec<GameEvent>)
        ensures
            (final(self)@, event_models(r@)) == line_step(
                old(self)@,
                line.component,
                line.message@,
            ),
            !might_emit(line.component, line.message@) ==> final(self)@ == old(self)@ && r@.len()
                == 0,
    {
        let r = match line.component {
            LogComponent::Arena => self.apply_arena_record(arena_record(line.message.as_str())),
            LogComponent::LoadingScreen => parse_loading_screen_line(line.message.as_str()),
            LogComponent::Power => parse_power_line(line.message.as_str()),
            LogComponent::Zone | LogComponent::Asset => {
                let none: Vec<GameEvent> = Vec::new();
                assert(event_models(none@) =~= Seq::<EventModel>::empty());
                none
            },
        };
        assert(event_models(r@).len() == r@.len());
        r
    }

    /// Reads one record. `is_real_card` tells whether the card that the record chooses, if it
    /// chooses one, is a real card: a hero or another entity never becomes a pick.
    pub fn parse_line(&mut self, line: &RawLogLine, is_real_card: bool) -> (r: Vec<GameEvent>)
        ensures
            final(self)@ == line_step(old(self)@, line.component, line.message@).0,
            event_models(r@) == settled(
                line_step(old(self)@, line.component, line.message@).1,
                is_real_card,
            ),
            !might_emit(line.component, line.message@) ==> final(self)@ == old(self)@ && r@.len()
                == 0,
    {
        let candidates = self.parse_candidates(line);
        let r = settle_picks(candidates, is_real_card);
        proof {
            if candidates@.len() == 0 {
                assert(event_models(candidates@) =~= Seq::<EventModel>::empty());
                reveal(Seq::filter);
            }
            assert(event_models(r@).len() == r@.len());
        }
        r
    }
}

impl Default for HearthstoneLogParser {
    fn default() -> (r: Self)
        ensures
            r@ == fresh_parser(),
    {
        HearthstoneLogParser {
            reading_arena_deck: false,
            arena_picks_enabled: false,
            redraft_boundary_pending: false,
        }
    }
}

/// The events of a loading-screen message.
pub fn parse_loading_screen_line(message: &str) -> (r: Vec<GameEvent>)
    ensures
        event_models(r@) == loading_screen_events(message@),
{
    let upper = text::to_upper_ascii_chars(text::chars_of(message).as_slice());
    let arena = text::chars_of("ARENA");
    let started = text::chars_of("HUB -> GAMEPLAY");
    let ended = text::chars_of("GAMEPLAY -> HUB");
    let mut events: Vec<GameEvent> = Vec::new();
    if text::contains_chars(upper.as_slice(), arena.as_slice()) {
        events.push(GameEvent::GameMode { raw_mode: text::string_of(arena.as_slice()) });
    }
    if text::contains_chars(upper.as_slice(), started.as_slice()) {
        events.push(GameEvent::GameStarted);
    } else if text::contains_chars(upper.as_slice(), ended.as_slice()) {
        events.push(GameEvent::GameEnded { result: GameResult::Unknown });
    }
    assert(event_models(events@) =~= loading_screen_events(message@));
    events
}

/// The events of a power message.
pub fn parse_power_line(message: &str) -> (r: Vec<GameEvent>)
    ensures
        event_models(r@) == power_events(message@),
{
    let upper = text::to_upper_ascii_chars(text::chars_of(message).as_slice());
    let created = text::chars_of("CREATE_GAME");
    let play_state = text::chars_of("PLAYSTATE");
    let won = text::chars_of("WON");
    let mut events: Vec<GameEvent> = Vec::new();
    if text::contains_chars(upper.as_slice(), created.as_slice()) {
        events.push(GameEvent::GameStarted);
    } else if text::contains_chars(upper.as_slice(), play_state.as_slice())
        && text::contains_chars(upper.as_slice(), won.as_slice()) {
        events.push(GameEvent::GameEnded { result: GameResult::Unknown });
    }
    assert(event_models(events@) =~= power_events(message@));
    events
}

/// Saving and restoring a parser keeps everything it knows.
pub proof fn checkpoint_restores_the_parser(s: ParserModel)
    ensures
        restored_from(checkpoint_of(s)) == Some(s),
{
}

/// A new run, or a deck snapshot outside a pending Redraft, closes the latch for picks: a choice right
/// after it is no pick.
pub proof fn boundaries_stop_picks(s: ParserModel, boundary: ArenaRecordModel, card: Seq<char>)
    requires
        boundary is Begin || (boundary is DraftDeck && !s.redraft_boundary_pending),
    ensures
        !arena_step(s, boundary).0.arena_picks_enabled,
        arena_step(arena_step(s, boundary).0, ArenaRecordModel::Choice { card }).1 == Seq::<
            EventModel,
        >::empty(),
{
}

/// A chosen card that is no real card never becomes a pick, whatever the state of the latch.
pub proof fn entities_never_become_picks(
    s: ParserModel,
    component: LogComponent,
    message: Seq<char>,
)
    ensures
        forall|i: int|
            0 <= i < settled(line_step(s, component, message).1, false).len() ==> !(#[trigger] settled(
                line_step(s, component, message).1,
                false,
            )[i] is ArenaPick),
{
    let events = line_step(s, component, message).1;
    broadcast use vstd::seq_lib::group_filter_ensures;

}

/// A pick comes only from an Arena choice, and only where the latch is open or a Redraft waits
/// for its first choice.
pub proof fn picks_need_an_open_latch(
    s: ParserModel,
    component: LogComponent,
    message: Seq<char>,
    i: int,
)
    requires
        0 <= i < line_step(s, component, message).1.len(),
        line_step(s, component, message).1[i] is ArenaPick,
    ensures
        component is Arena,
        arena_record_of(message) is Choice,
        s.arena_picks_enabled || s.redraft_boundary_pending,
{
}

/// A card counts towards a deck snapshot only while one is being read.
pub proof fn snapshot_cards_need_an_open_snapshot(s: ParserModel, record: ArenaRecordModel, i: int)
    requires
        0 <= i < arena_step(s, record).1.len(),
        arena_step(s, record).1[i] is ArenaDeckSnapshotCard,
    ensures
        s.reading_arena_deck,
        !s.redraft_boundary_pending,
{
}

/// Records of a component that emits no events leave the parser as it is.
pub proof fn inert_components_change_nothing(
    s: ParserModel,
    component: LogComponent,
    message: Seq<char>,
)
    requires
        !crate::log_component::emits_events(component),
    ensures
        line_step(s, component, message) == (s, Seq::<EventModel>::empty()),
        !might_emit(component, message),
{
}

/// A text that might hold an event does so as a part of a longer one.
pub proof fn longer_records_might_emit(component: LogComponent, part: Seq<char>, whole: Seq<char>)
    requires
        contains_part(whole, part),
        might_emit(component, part),
    ensures
        might_emit(component, whole),
{
    let words = seq![
        "Draft Deck ID:"@,
        "Draft deck contains card"@,
        "Client chooses:"@,
        "OnBegin"@,
        "OnRedraftBegin"@,
        "OnChosen()"@,
        "SetDraftMode"@,
    ];
    assert forall|i: int|
        0 <= i < words.len() && contains_part(part, #[trigger] words[i]) implies contains_part(
        whole,
        words[i],
    ) by {
        text::parts_of_parts(whole, part, words[i]);
    }
    assert(words[0] == "Draft Deck ID:"@ && words[1] == "Draft deck contains card"@ && words[2]
        == "Client chooses:"@ && words[3] == "OnBegin"@ && words[4] == "OnRedraftBegin"@
        && words[5] == "OnChosen()"@ && words[6] == "SetDraftMode"@);
    let upper = upper_ascii_text(whole);
    let upper_part = upper_ascii_text(part);
    text::upper_parts(whole, part);
    let loud = seq![
        "ARENA"@,
        "HUB -> GAMEPLAY"@,
        "GAMEPLAY -> HUB"@,
        "CREATE_GAME"@,
        "PLAYSTATE"@,
        "WON"@,
    ];
    assert forall|i: int|
        0 <= i < loud.len() && contains_part(upper_part, #[trigger] loud[i]) implies contains_part(
        upper,
        loud[i],
    ) by {
        text::parts_of_parts(upper, upper_part, loud[i]);
    }
    assert(loud[0] == "ARENA"@ && loud[1] == "HUB -> GAMEPLAY"@ && loud[2] == "GAMEPLAY -> HUB"@
        && loud[3] == "CREATE_GAME"@ && loud[4] == "PLAYSTATE"@ && loud[5] == "WON"@);
}

/// Whether the record forms that match an Arena message find their fixed words in it.
pub open spec fn forms_hold_their_words(message: Seq<char>) -> bool {
    &&& match_groups(DRAFT_DECK@, message) is Some ==> contains_part(message, "Draft Deck ID:"@)
    &&& match_groups(ON_BEGIN@, message) is Some ==> contains_part(message, "OnBegin"@)
    &&& match_groups(ON_REDRAFT_BEGIN@, message) is Some ==> contains_part(
        message,
        "OnRedraftBegin"@,
    )
    &&& match_groups(ON_CHOSEN@, message) is Some ==> contains_part(message, "OnChosen()"@)
    &&& match_groups(DRAFT_CARD@, message) is Some ==> contains_part(
        message,
        "Draft deck contains card"@,
    )
    &&& match_groups(CLIENT_CHOICE@, message) is Some ==> contains_part(message, "Client chooses:"@)
    &&& match_groups(DRAFT_MODE@, message) is Some ==> contains_part(message, "SetDraftMode"@)
}

/// A record that fails the cheap test gives no event and leaves the parser as it is, whatever its
/// state. The message is what follows the time stamp in the record. Of an Arena message the fixed
/// words of the forms that match it are taken as found.
pub proof fn records_that_fail_the_test_change_nothing(
    s: ParserModel,
    component: LogComponent,
    raw: Seq<char>,
    message: Seq<char>,
)
    requires
        contains_part(raw, message),
        component is Arena ==> forms_hold_their_words(message),
    ensures
        line_step(s, component, message).1.len() > 0 ==> might_emit(component, raw),
        !might_emit(component, raw) ==> line_step(s, component, message) == (s, Seq::<
            EventModel,
        >::empty()),
{
    if might_emit(component, message) {
        longer_records_might_emit(component, message, raw);
    }
}

/// The parser state after a sequence of Arena records, and all their events.
pub open spec fn arena_run(s: ParserModel, records: Seq<ArenaRecordModel>) -> (
    ParserModel,
    Seq<EventModel>,
)
    decreases records.len(),
{
    if records.len() == 0 {
        (s, Seq::empty())
    } else {
        let before = arena_run(s, records.drop_last());
        let step = arena_step(before.0, records.last());
        (step.0, before.1 + step.1)
    }
}

/// From a closed latch no sequence of choices, hero choices and card lists alone makes a pick:
/// it takes a mode marker, the beginning of a Redraft, or an explicit baseline.
pub proof fn previews_alone_never_open_the_latch(s: ParserModel, records: Seq<ArenaRecordModel>)
    requires
        !s.arena_picks_enabled,
        !s.redraft_boundary_pending,
        forall|i: int|
            0 <= i < records.len() ==> !(#[trigger] records[i] is Mode) && !(
            records[i] is RedraftBegin),
    ensures
        !arena_run(s, records).0.arena_picks_enabled,
        !arena_run(s, records).0.redraft_boundary_pending,
        forall|i: int|
            0 <= i < arena_run(s, records).1.len() ==> !(#[trigger] arena_run(
                s,
                records,
            ).1[i] is ArenaPick),
    decreases records.len(),
{
    if records.len() > 0 {
        let head = records.drop_last();
        assert forall|i: int| 0 <= i < head.len() implies !(#[trigger] head[i] is Mode) && !(
        head[i] is RedraftBegin) by {
            assert(head[i] == records[i]);
        }
        previews_alone_never_open_the_latch(s, head);
        let before = arena_run(s, head);
        let last = records[records.len() - 1];
        assert(records.last() == last);
        let step = arena_step(before.0, last);
        assert forall|i: int| 0 <= i < (before.1 + step.1).len() implies !(#[trigger] (before.1
            + step.1)[i] is ArenaPick) by {
            if i < before.1.len() {
                assert((before.1 + step.1)[i] == before.1[i]);
            }
        }
    }
}

/// Whether words in capital letters stand in a text, whatever the letter case there.
pub open spec fn says_words(text: Seq<char>, words: Seq<char>) -> bool {
    exists|at: int| #[trigger] says_words_at(text, words, at)
}

/// Whether words in capital letters stand at a place of a text, whatever the letter case there.
pub open spec fn says_words_at(text: Seq<char>, words: Seq<char>, at: int) -> bool {
    &&& 0 <= at && at + words.len() <= text.len()
    &&& forall|k: int|
        0 <= k < words.len() ==> text[at + k] == #[trigger] words[k] || ('a' <= text[at + k] <= 'z'
            && text[at + k] as int == words[k] as int + 32)
}

proof fn capitals_of(c: char, w: char)
    requires
        !('a' <= w <= 'z'),
    ensures
        text::upper_ascii(c) == w <==> (c == w || ('a' <= c <= 'z' && c as int == w as int + 32)),
{
}

proof fn upper_case_says_words(text: Seq<char>, words: Seq<char>)
    requires
        forall|k: int| 0 <= k < words.len() ==> !('a' <= #[trigger] words[k] <= 'z'),
    ensures
        contains_part(upper_ascii_text(text), words) <==> says_words(text, words),
{
    let upper = upper_ascii_text(text);
    if contains_part(upper, words) {
        let at = choose|at: int| text::occurs_at(upper, words, at);
        assert forall|k: int| 0 <= k < words.len() implies text[at + k] == #[trigger] words[k] || (
        'a' <= text[at + k] <= 'z' && text[at + k] as int == words[k] as int + 32) by {
            assert(upper.subrange(at, at + words.len())[k] == words[k]);
            assert(text::upper_ascii(text[at + k]) == words[k]);
            capitals_of(text[at + k], words[k]);
        }
        assert(says_words_at(text, words, at));
    }
    if says_words(text, words) {
        let at = choose|at: int| #[trigger] says_words_at(text, words, at);
        assert(upper.subrange(at, at + words.len()) =~= words) by {
            assert forall|k: int| 0 <= k < words.len() implies upper[at + k] == words[k] by {
                assert(text[at + k] == words[k] || text[at + k] as int == words[k] as int + 32);
                capitals_of(text[at + k], words[k]);
            }
        }
        assert(text::occurs_at(upper, words, at));
    }
}

/// Whether some event is the start of a game.
pub open spec fn starts_a_game(events: Seq<EventModel>) -> bool {
    exists|i: int| 0 <= i < events.len() && (#[trigger] events[i]) is GameStarted
}

/// Whether some event is the end of a game.
pub open spec fn ends_a_game(events: Seq<EventModel>) -> bool {
    exists|i: int| 0 <= i < events.len() && (#[trigger] events[i]) is GameEnded
}

/// Whether some event names a game mode.
pub open spec fn names_a_mode(events: Seq<EventModel>) -> bool {
    exists|i: int| 0 <= i < events.len() && (#[trigger] events[i]) is GameMode
}

/// A loading screen from the hub to a game starts the game, one from a game to the hub ends it,
/// without telling its result; any other starts and ends nothing. The mode is named exactly where
/// the Arena is, and nothing else is told.
pub proof fn scenes_start_and_end_games(message: Seq<char>)
    ensures
        starts_a_game(loading_screen_events(message)) <==> says_words(message, "HUB -> GAMEPLAY"@),
        ends_a_game(loading_screen_events(message)) <==> says_words(message, "GAMEPLAY -> HUB"@)
            && !says_words(message, "HUB -> GAMEPLAY"@),
        names_a_mode(loading_screen_events(message)) <==> says_words(message, "ARENA"@),
        forall|i: int|
            0 <= i < loading_screen_events(message).len() ==> match #[trigger] loading_screen_events(
                message,
            )[i] {
                EventModel::GameMode { raw_mode } => raw_mode == "ARENA"@,
                EventModel::GameStarted => true,
                EventModel::GameEnded { result } => result == GameResult::Unknown,
                _ => false,
            },
        loading_screen_events(message).len() <= 2,
{
    reveal_strlit("ARENA");
    reveal_strlit("HUB -> GAMEPLAY");
    reveal_strlit("GAMEPLAY -> HUB");
    upper_case_says_words(message, "ARENA"@);
    upper_case_says_words(message, "HUB -> GAMEPLAY"@);
    upper_case_says_words(message, "GAMEPLAY -> HUB"@);
    let events = loading_screen_events(message);
    let upper = upper_ascii_text(message);
    if contains_part(upper, "ARENA"@) {
        assert(events[0] is GameMode);
    }
    if contains_part(upper, "HUB -> GAMEPLAY"@) || contains_part(upper, "GAMEPLAY -> HUB"@) {
        assert(events[events.len() - 1] is GameStarted || events[events.len() - 1] is GameEnded);
    }
}

/// A game that is created starts, and a won play state ends it, without telling its result; no
/// other power message tells anything, and none tells two things.
pub proof fn power_messages_start_and_end_games(message: Seq<char>)
    ensures
        starts_a_game(power_events(message)) <==> says_words(message, "CREATE_GAME"@),
        ends_a_game(power_events(message)) <==> says_words(message, "PLAYSTATE"@) && says_words(
            message,
            "WON"@,
        ) && !says_words(message, "CREATE_GAME"@),
        forall|i: int|
            0 <= i < power_events(message).len() ==> match #[trigger] power_events(message)[i] {
                EventModel::GameStarted => true,
                EventModel::GameEnded { result } => result == GameResult::Unknown,
                _ => false,
            },
        power_events(message).len() <= 1,
{
    reveal_strlit("CREATE_GAME");
    reveal_strlit("PLAYSTATE");
    reveal_strlit("WON");
    upper_case_says_words(message, "CREATE_GAME"@);
    upper_case_says_words(message, "PLAYSTATE"@);
    upper_case_says_words(message, "WON"@);
    let events = power_events(message);
    if events.len() > 0 {
        assert(events[0] is GameStarted || events[0] is GameEnded);
    }
}

/// What a record of a component tells reaches no other one: only the loading screen names the
/// game mode, only it and the power log start and end games, only the Arena log tells of runs,
/// decks, heroes and picks.
pub proof fn components_keep_to_their_events(
    s: ParserModel,
    component: LogComponent,
    message: Seq<char>,
    i: int,
)
    requires
        0 <= i < line_step(s, component, message).1.len(),
    ensures
        match line_step(s, component, message).1[i] {
            EventModel::GameMode { .. } => component is LoadingScreen && says_words(
                message,
                "ARENA"@,
            ),
            EventModel::GameStarted => (component is LoadingScreen && says_words(
                message,
                "HUB -> GAMEPLAY"@,
            )) || (component is Power && says_words(message, "CREATE_GAME"@)),
            EventModel::GameEnded { .. } => (component is LoadingScreen && says_words(
                message,
                "GAMEPLAY -> HUB"@,
            )) || (component is Power && says_words(message, "WON"@)),
            _ => component is Arena,
        },
{
    scenes_start_and_end_games(message);
    power_messages_start_and_end_games(message);
}

/// Every event of an Arena record says what the record says: the same deck, hero, card or mode.
pub proof fn events_say_what_their_record_says(s: ParserModel, record: ArenaRecordModel, i: int)
    requires
        0 <= i < arena_step(s, record).1.len(),
    ensures
        match arena_step(s, record).1[i] {
            EventModel::ArenaDeckSnapshotStarted { draft_deck_id, hero_card_id } => record
                == (ArenaRecordModel::DraftDeck { id: draft_deck_id, hero: hero_card_id }),
            EventModel::ArenaRunStarted { draft_deck_id } => record == (ArenaRecordModel::Begin {
                id: draft_deck_id,
            }),
            EventModel::HeroCard { card_id } => record == (ArenaRecordModel::Chosen {
                card: card_id,
            }),
            EventModel::ArenaDeckSnapshotCard { card_id } => record
                == (ArenaRecordModel::DeckCard { card: card_id }),
            EventModel::ArenaPick { card_id } => record == (ArenaRecordModel::Choice {
                card: card_id,
            }),
            EventModel::ArenaDraftMode { mode } => record == (ArenaRecordModel::Mode { mode }),
            EventModel::ArenaDeckSnapshotCompleted => record is Mode,
            _ => false,
        },
{
}

/// The modes that end the listing of a deck.
pub open spec fn ends_listing(mode: Seq<char>) -> bool {
    ||| mode == "DRAFTING"@
    ||| mode == "REDRAFTING"@
    ||| mode == "ACTIVE_DRAFT_DECK"@
}

/// A record tells something exactly where it is due: a run, a hero and a mode always, a deck
/// outside a Redraft that has just begun, its cards while it is listed, and a chosen card where
/// picks count. A mode that ends a listing says so first.
pub proof fn records_tell_what_is_due(s: ParserModel, record: ArenaRecordModel)
    ensures
        arena_step(s, record).1.len() == (match record {
            ArenaRecordModel::DraftDeck { .. } => if s.redraft_boundary_pending {
                0nat
            } else {
                1
            },
            ArenaRecordModel::Begin { .. } => 1,
            ArenaRecordModel::RedraftBegin => 0,
            ArenaRecordModel::Chosen { .. } => 1,
            ArenaRecordModel::DeckCard { .. } => if s.reading_arena_deck
                && !s.redraft_boundary_pending {
                1
            } else {
                0
            },
            ArenaRecordModel::Choice { .. } => if s.arena_picks_enabled
                || s.redraft_boundary_pending {
                1
            } else {
                0
            },
            ArenaRecordModel::Mode { mode } => if s.reading_arena_deck && ends_listing(mode) {
                2
            } else {
                1
            },
            ArenaRecordModel::Other => 0,
        }),
        arena_step(s, record).1.len() == 2 ==> arena_step(s, record).1[0]
            is ArenaDeckSnapshotCompleted && arena_step(s, record).1[1] is ArenaDraftMode,
        arena_step(s, record).1.len() == 1 ==> !(arena_step(s, record).1[0]
            is ArenaDeckSnapshotCompleted),
{
}

/// The cards that are listed, in order, each as often as it is listed.
pub open spec fn listed_cards(records: Seq<ArenaRecordModel>) -> Seq<Seq<char>>
    decreases records.len(),
{
    if records.len() == 0 {
        Seq::empty()
    } else {
        match records.last() {
            ArenaRecordModel::DeckCard { card } => listed_cards(records.drop_last()).push(card),
            _ => listed_cards(records.drop_last()),
        }
    }
}

/// The latch for picks opens with a drafting or redrafting marker behind a listing, with the
/// beginning of a Redraft and with the choice or the marker that follows it, and with nothing
/// else; it shuts with a new run and with a new listing, and with nothing else.
pub proof fn the_latch_turns_where_it_should(s: ParserModel, record: ArenaRecordModel)
    ensures
        ({
            let then = arena_step(s, record).0;
            &&& !s.arena_picks_enabled && then.arena_picks_enabled ==> {
                ||| record is RedraftBegin
                ||| s.redraft_boundary_pending && record is Choice
                ||| s.redraft_boundary_pending && record == (ArenaRecordModel::Mode {
                    mode: "REDRAFTING"@,
                })
                ||| s.reading_arena_deck && (record == (ArenaRecordModel::Mode {
                    mode: "DRAFTING"@,
                }) || record == (ArenaRecordModel::Mode { mode: "REDRAFTING"@ }))
            }
            &&& s.arena_picks_enabled && !then.arena_picks_enabled ==> record is Begin || (record
                is DraftDeck && !s.redraft_boundary_pending)
            &&& record is RedraftBegin ==> then.arena_picks_enabled && then.redraft_boundary_pending
            &&& record is Begin ==> !then.arena_picks_enabled && !then.redraft_boundary_pending
                && !then.reading_arena_deck
            &&& record is DraftDeck && !s.redraft_boundary_pending ==> then.reading_arena_deck
                && !then.arena_picks_enabled
            &&& record is DraftDeck && s.redraft_boundary_pending ==> then == s
            &&& s.redraft_boundary_pending && record is Choice ==> then.arena_picks_enabled
                && !then.redraft_boundary_pending
            &&& s.reading_arena_deck && !s.redraft_boundary_pending ==> (record
                == (ArenaRecordModel::Mode { mode: "DRAFTING"@ }) || record
                == (ArenaRecordModel::Mode { mode: "REDRAFTING"@ }) ==> then.arena_picks_enabled)
            &&& record matches ArenaRecordModel::Mode { mode } ==> (then.reading_arena_deck
                <==> s.reading_arena_deck && !ends_listing(mode))
            &&& record is Chosen || record is DeckCard || record is Other ==> then == s
            &&& record is Choice ==> then.reading_arena_deck == s.reading_arena_deck
        }),
{
    reveal_strlit("DRAFTING");
    reveal_strlit("REDRAFTING");
    reveal_strlit("ACTIVE_DRAFT_DECK");
}

/// What a record is follows from the first form that matches it, in the order of runs, decks,
/// cards, choices and modes; where none does it is of no account.
pub proof fn records_follow_the_first_form(m: ArenaMatches)
    ensures
        ({
            let r = m.record_model();
            &&& r is DraftDeck <==> m.draft_deck is Some
            &&& r is Begin <==> m.draft_deck is None && m.begin is Some
            &&& r is RedraftBegin <==> m.draft_deck is None && m.begin is None && m.redraft_begin
                is Some
            &&& r is Chosen <==> m.draft_deck is None && m.begin is None && m.redraft_begin is None
                && m.chosen is Some
            &&& r is DeckCard <==> m.draft_deck is None && m.begin is None && m.redraft_begin is None
                && m.chosen is None && m.deck_card is Some
            &&& r is Choice <==> m.draft_deck is None && m.begin is None && m.redraft_begin is None
                && m.chosen is None && m.deck_card is None && m.choice is Some
            &&& r is Mode <==> m.draft_deck is None && m.begin is None && m.redraft_begin is None
                && m.chosen is None && m.deck_card is None && m.choice is None && m.mode is Some
        }),
{
}

} // verus!
