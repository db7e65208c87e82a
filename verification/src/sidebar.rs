//! The deck panel as it was read from the screen: which cards it shows, and what that proves.
//!
//! A panel that is clipped or scrolled shows a part of the deck only. Such a read never counts as
//! the whole deck: it can raise what is known of a card, and never lowers or removes anything.
use crate::card_data::{
    collectible, filter_step, found_cards, join_words, spaced_words, CardCache, CardMetadata,
    CardModel,
};
use crate::ini::{char_place, find_char};
use crate::text::{
    self, all_digits, digits_value, is_space, lower_ascii_text, occurs_at, parsed_number, texts,
    trimmed,
};
use crate::text_map::{sorted_texts_are_distinct, sorted_texts_are_unique, TextMap};
use vstd::prelude::*;

verus! {

/// The number of cards in a full deck.
pub const ARENA_DECK_CAPACITY: u8 = 30;

/// A line that was read from the screen.
pub struct SidebarTextObservation {
    pub text: String,
    /// How sure the reader was: the bits of a single-precision number.
    pub confidence: u32,
}

impl SidebarTextObservation {
    /// A line with the reader's confidence.
    pub fn new(text: String, confidence: u32) -> (r: Self)
        ensures
            r.text@ == text@,
            r.confidence == confidence,
    {
        SidebarTextObservation { text, confidence }
    }
}

impl View for SidebarTextObservation {
    type V = (Seq<char>, u32);

    open spec fn view(&self) -> (Seq<char>, u32) {
        (self.text@, self.confidence)
    }
}

/// The lines of a read.
pub open spec fn lines_read(observations: Seq<SidebarTextObservation>) -> Seq<(Seq<char>, u32)> {
    observations.map_values(|o: SidebarTextObservation| o@)
}

/// The counter of the deck panel.
#[derive(Clone, Copy, Debug, PartialEq, Eq, Structural)]
pub struct DeckCount {
    pub observed: u8,
    pub capacity: u8,
}

/// A card that the panel shows.
pub struct SidebarCard {
    pub card_id: String,
    pub name: String,
    pub quantity: u8,
    /// How sure the reader was: the bits of a single-precision number.
    pub ocr_confidence: u32,
}

/// The model of a card that the panel shows.
pub struct ShownModel {
    pub card_id: Seq<char>,
    pub name: Seq<char>,
    pub quantity: u8,
    pub ocr_confidence: u32,
}

impl View for SidebarCard {
    type V = ShownModel;

    open spec fn view(&self) -> ShownModel {
        ShownModel {
            card_id: self.card_id@,
            name: self.name@,
            quantity: self.quantity,
            ocr_confidence: self.ocr_confidence,
        }
    }
}

/// The models of the cards that a panel shows.
pub open spec fn shown_models(cards: Seq<SidebarCard>) -> Seq<ShownModel> {
    cards.map_values(|c: SidebarCard| c@)
}

/// What a read proves.
#[derive(Clone, Copy, Debug, PartialEq, Eq, Structural)]
pub enum SidebarDeckStatus {
    /// Nothing shows that this is the deck panel.
    Unanchored,
    /// The panel was found, but its counter was not read.
    MissingCount,
    /// Every card that the counter counts is visible.
    Complete,
    /// Only a part of the cards is visible.
    Partial,
    /// The visible cards contradict the counter, or the counter is impossible.
    Inconsistent,
}

/// What could not be used.
pub enum SidebarIssue {
    AmbiguousCardName { text: String, candidate_ids: Vec<String> },
    InvalidQuantity { text: String },
    InvalidDeckCount { text: String },
}

/// The model of what could not be used.
pub enum IssueModel {
    AmbiguousCardName { text: Seq<char>, candidate_ids: Seq<Seq<char>> },
    InvalidQuantity { text: Seq<char> },
    InvalidDeckCount { text: Seq<char> },
}

impl View for SidebarIssue {
    type V = IssueModel;

    open spec fn view(&self) -> IssueModel {
        match self {
            SidebarIssue::AmbiguousCardName { text, candidate_ids } => IssueModel::AmbiguousCardName {
                text: text@,
                candidate_ids: texts(candidate_ids@),
            },
            SidebarIssue::InvalidQuantity { text } => IssueModel::InvalidQuantity { text: text@ },
            SidebarIssue::InvalidDeckCount { text } => IssueModel::InvalidDeckCount { text: text@ },
        }
    }
}

/// The models of what could not be used.
pub open spec fn issue_models(issues: Seq<SidebarIssue>) -> Seq<IssueModel> {
    issues.map_values(|i: SidebarIssue| i@)
}

/// A read of the deck panel.
pub struct SidebarDeckRead {
    pub anchored: bool,
    pub count: Option<DeckCount>,
    pub visible_cards: Vec<SidebarCard>,
    pub visible_quantity: u16,
    pub status: SidebarDeckStatus,
    pub issues: Vec<SidebarIssue>,
}

/// The model of a read.
pub struct ReadModel {
    pub anchored: bool,
    pub count: Option<DeckCount>,
    pub visible_cards: Seq<ShownModel>,
    pub visible_quantity: nat,
    pub status: SidebarDeckStatus,
    pub issues: Seq<IssueModel>,
}

impl View for SidebarDeckRead {
    type V = ReadModel;

    open spec fn view(&self) -> ReadModel {
        ReadModel {
            anchored: self.anchored,
            count: self.count,
            visible_cards: shown_models(self.visible_cards@),
            visible_quantity: self.visible_quantity as nat,
            status: self.status,
            issues: issue_models(self.issues@),
        }
    }
}

/// Whether a line is the heading of the deck panel.
pub open spec fn heads_deck(text: Seq<char>) -> bool {
    lower_ascii_text(spaced_words(text)) == lower_ascii_text("Your Deck"@)
}

fn is_deck_anchor(text: &str) -> (r: bool)
    ensures
        r == heads_deck(text@),
{
    let words = join_words(&text::chars_of(text));
    let heading = text::chars_of("Your Deck");
    text::eq_ignore_ascii_case(words.as_slice(), heading.as_slice())
}

/// A text without its white space.
pub open spec fn compact(s: Seq<char>) -> Seq<char> {
    s.filter(|c: char| !is_space(c))
}

fn remove_space(s: &Vec<char>) -> (r: Vec<char>)
    ensures
        r@ == compact(s@),
{
    let ghost keep = |c: char| !is_space(c);
    let mut out: Vec<char> = Vec::new();
    let mut i: usize = 0;
    assert(s@.take(0).filter(keep) =~= Seq::<char>::empty()) by {
        reveal(Seq::filter);
    }
    while i < s.len()
        invariant
            i <= s.len(),
            keep == (|c: char| !is_space(c)),
            out@ == s@.take(i as int).filter(keep),
        decreases s.len() - i,
    {
        proof {
            filter_step(s@, keep, i as int);
        }
        if !text::is_whitespace(s[i]) {
            out.push(s[i]);
        }
        i = i + 1;
    }
    assert(s@.take(i as int) =~= s@);
    out
}

/// What a line says of the counter.
#[derive(Clone, Copy, Debug, PartialEq, Eq, Structural)]
pub enum CountParse {
    Valid(DeckCount),
    Invalid,
    NotCount,
}

/// The small number that digits stand for.
pub open spec fn small_number(s: Seq<char>) -> Option<u8> {
    if s.len() > 0 && all_digits(s) && digits_value(s) <= u8::MAX {
        Some(digits_value(s) as u8)
    } else {
        None
    }
}

/// What a line says of the counter.
pub open spec fn counter(text: Seq<char>) -> CountParse {
    let line = compact(text);
    match char_place(line, '/', 0) {
        None => CountParse::NotCount,
        Some(k) => match (small_number(line.take(k)), small_number(line.skip(k + 1))) {
            (Some(observed), Some(capacity)) => CountParse::Valid(DeckCount { observed, capacity }),
            _ => CountParse::Invalid,
        },
    }
}

fn read_small_number(s: &[char]) -> (r: Option<u8>)
    ensures
        r == small_number(s@),
{
    if s.len() == 0 || s[0] == '+' {
        return None;
    }
    match text::parse_number(s, 255) {
        None => None,
        Some(n) => Some(n as u8),
    }
}

fn parse_deck_count(text: &str) -> (r: CountParse)
    ensures
        r == counter(text@),
{
    let line = remove_space(&text::chars_of(text));
    match find_char(line.as_slice(), '/', 0) {
        None => CountParse::NotCount,
        Some(k) => {
            let head = vstd::slice::slice_subrange(line.as_slice(), 0, k);
            let tail = vstd::slice::slice_subrange(line.as_slice(), k + 1, line.len());
            assert(head@ =~= line@.take(k as int));
            assert(tail@ =~= line@.skip(k + 1));
            match (read_small_number(head), read_small_number(tail)) {
                (Some(observed), Some(capacity)) => CountParse::Valid(
                    DeckCount { observed, capacity },
                ),
                _ => CountParse::Invalid,
            }
        },
    }
}

/// The last index, not above `to`, at which `part` stands in `whole`.
pub open spec fn last_place(whole: Seq<char>, part: Seq<char>, to: int) -> Option<int>
    decreases to + 1,
{
    if to < 0 {
        None
    } else if occurs_at(whole, part, to) {
        Some(to)
    } else {
        last_place(whole, part, to - 1)
    }
}

fn find_last(whole: &[char], part: &[char]) -> (r: Option<usize>)
    ensures
        match r {
            Some(k) => last_place(whole@, part@, whole@.len() as int) == Some(k as int)
                && occurs_at(whole@, part@, k as int),
            None => last_place(whole@, part@, whole@.len() as int) is None,
        },
{
    let mut i: usize = whole.len();
    loop
        invariant
            i <= whole.len(),
            last_place(whole@, part@, whole@.len() as int) == last_place(whole@, part@, i as int),
        decreases i,
    {
        if text::chars_at(whole, part, i) {
            return Some(i);
        }
        if i == 0 {
            assert(last_place(whole@, part@, -1) is None);
            return None;
        }
        i = i - 1;
    }
}

/// The last white space of a text, before index `to`.
pub open spec fn last_space(s: Seq<char>, to: int) -> Option<int>
    decreases to,
{
    if to <= 0 {
        None
    } else if is_space(s[to - 1]) {
        Some(to - 1)
    } else {
        last_space(s, to - 1)
    }
}

fn find_last_space(s: &[char]) -> (r: Option<usize>)
    ensures
        match r {
            Some(k) => last_space(s@, s@.len() as int) == Some(k as int) && k < s@.len(),
            None => last_space(s@, s@.len() as int) is None,
        },
{
    let mut i: usize = s.len();
    while i > 0
        invariant
            i <= s.len(),
            last_space(s@, s@.len() as int) == last_space(s@, i as int),
        decreases i,
    {
        if text::is_whitespace(s[i - 1]) {
            return Some(i - 1);
        }
        i = i - 1;
    }
    None
}

/// The name and the quantity of a line, where its quantity is one.
pub open spec fn named_quantity(name: Seq<char>, digits: Seq<char>) -> Option<(Seq<char>, u8)> {
    match parsed_number(digits, u8::MAX as nat) {
        Some(n) => if 0 < n <= ARENA_DECK_CAPACITY && trimmed(name).len() > 0 {
            Some((trimmed(name), n as u8))
        } else {
            None
        },
        None => None,
    }
}

/// Whether a character stands for a multiplication.
pub open spec fn multiplies(c: char) -> bool {
    c == 'x' || c == 'X' || c == '\u{d7}'
}

/// A character between two spaces.
pub open spec fn spaced(c: char) -> Seq<char> {
    seq![' ', c, ' ']
}

/// The name and the quantity of a line that ends in a word such as `x2`.
pub open spec fn joined_quantity(line: Seq<char>) -> Option<(Seq<char>, u8)> {
    match last_space(line, line.len() as int) {
        None => Some((line, 1)),
        Some(k) => {
            let suffix = trimmed(line.skip(k));
            if suffix.len() > 0 && multiplies(suffix[0]) {
                named_quantity(line.take(k), suffix.skip(1))
            } else {
                Some((line, 1))
            }
        },
    }
}

/// The name and the quantity of a line; `None` where its quantity is malformed.
pub open spec fn quantity(text: Seq<char>) -> Option<(Seq<char>, u8)> {
    let line = trimmed(text);
    match last_place(line, spaced('x'), line.len() as int) {
        Some(k) => named_quantity(line.take(k), line.skip(k + 3)),
        None => match last_place(line, spaced('X'), line.len() as int) {
            Some(k) => named_quantity(line.take(k), line.skip(k + 3)),
            None => match last_place(line, spaced('\u{d7}'), line.len() as int) {
                Some(k) => named_quantity(line.take(k), line.skip(k + 3)),
                None => joined_quantity(line),
            },
        },
    }
}

/// Whether a result of a split is what the model says.
spec fn split_is(r: Option<(String, u8)>, model: Option<(Seq<char>, u8)>) -> bool {
    match (r, model) {
        (Some((name, n)), Some((wanted, m))) => name@ == wanted && n == m,
        (None, None) => true,
        _ => false,
    }
}

fn parsed_quantity(name: &[char], digits: &[char]) -> (r: Option<(String, u8)>)
    ensures
        split_is(r, named_quantity(name@, digits@)),
{
    match text::parse_number(digits, 255) {
        None => None,
        Some(n) => {
            let kept = text::trim_chars(name);
            if 0 < n && n <= ARENA_DECK_CAPACITY as u64 && kept.len() > 0 {
                Some((text::string_of(kept), n as u8))
            } else {
                None
            }
        },
    }
}

/// The quantity after a separator, where the line holds the separator.
fn separated(line: &[char], c: char) -> (r: Option<Option<(String, u8)>>)
    ensures
        match last_place(line@, spaced(c), line@.len() as int) {
            Some(k) => r matches Some(q) && split_is(
                q,
                named_quantity(line@.take(k), line@.skip(k + 3)),
            ),
            None => r is None,
        },
{
    let mut mark: Vec<char> = Vec::new();
    mark.push(' ');
    mark.push(c);
    mark.push(' ');
    assert(mark@ =~= spaced(c));
    match find_last(line, mark.as_slice()) {
        None => None,
        Some(k) => {
            let name = vstd::slice::slice_subrange(line, 0, k);
            assert(mark@.len() == 3);
            assert(line@.len() == line.len());
            assert(k + 3 <= line.len());
            let digits = vstd::slice::slice_subrange(line, k + 3, line.len());
            assert(name@ =~= line@.take(k as int));
            assert(digits@ =~= line@.skip(k + 3));
            Some(parsed_quantity(name, digits))
        },
    }
}

fn split_joined(line: &[char]) -> (r: Option<(String, u8)>)
    ensures
        split_is(r, joined_quantity(line@)),
{
    match find_last_space(line) {
        None => Some((text::string_of(line), 1)),
        Some(k) => {
            let name = vstd::slice::slice_subrange(line, 0, k);
            let tail = vstd::slice::slice_subrange(line, k, line.len());
            assert(name@ =~= line@.take(k as int));
            assert(tail@ =~= line@.skip(k as int));
            let suffix = text::trim_chars(tail);
            if suffix.len() > 0 && (suffix[0] == 'x' || suffix[0] == 'X' || suffix[0]
                == '\u{d7}') {
                let digits = vstd::slice::slice_subrange(suffix, 1, suffix.len());
                assert(digits@ =~= suffix@.skip(1));
                parsed_quantity(name, digits)
            } else {
                Some((text::string_of(line), 1))
            }
        },
    }
}

fn split_quantity(text: &str) -> (r: Option<(String, u8)>)
    ensures
        split_is(r, quantity(text@)),
{
    let chars = text::chars_of(text);
    let line = text::trim_chars(chars.as_slice());
    match separated(line, 'x') {
        Some(q) => return q,
        None => {},
    }
    match separated(line, 'X') {
        Some(q) => return q,
        None => {},
    }
    match separated(line, '\u{d7}') {
        Some(q) => return q,
        None => {},
    }
    split_joined(line)
}

/// Whether a card is no hero.
pub open spec fn no_hero(card: CardModel) -> bool {
    !occurs_at(card.id, "HERO_"@, 0)
}

/// The cards that a name may stand for: no heroes, and collectible ones where there are any.
pub open spec fn eligible(cards: Seq<CardModel>) -> Seq<CardModel> {
    let others = cards.filter(|c: CardModel| no_hero(c));
    let preferred = others.filter(|c: CardModel| collectible(c));
    if preferred.len() == 0 {
        others
    } else {
        preferred
    }
}

fn eligible_candidates<'a>(candidates: Vec<&'a CardMetadata>) -> (r: Vec<&'a CardMetadata>)
    ensures
        found_cards(r@) == eligible(found_cards(candidates@)),
{
    let ghost all = found_cards(candidates@);
    let ghost keep = |c: CardModel| no_hero(c);
    let ghost prefer = |c: CardModel| collectible(c);
    let mut others: Vec<&CardMetadata> = Vec::new();
    let mut preferred: Vec<&CardMetadata> = Vec::new();
    let mut i: usize = 0;
    assert(all.take(0).filter(keep) =~= Seq::<CardModel>::empty()) by {
        reveal(Seq::filter);
    }
    assert(found_cards(others@) =~= Seq::<CardModel>::empty());
    while i < candidates.len()
        invariant
            i <= candidates.len(),
            all == found_cards(candidates@),
            keep == (|c: CardModel| no_hero(c)),
            found_cards(others@) == all.take(i as int).filter(keep),
        decreases candidates.len() - i,
    {
        let card: &CardMetadata = candidates[i];
        proof {
            filter_step(all, keep, i as int);
        }
        let ghost before = others@;
        if !text::str_starts_with(card.id.as_str(), "HERO_") {
            others.push(card);
            assert(found_cards(others@) =~= found_cards(before).push(card@));
        }
        i = i + 1;
    }
    assert(all.take(i as int) =~= all);
    let ghost kept = found_cards(others@);
    let mut j: usize = 0;
    assert(kept.take(0).filter(prefer) =~= Seq::<CardModel>::empty()) by {
        reveal(Seq::filter);
    }
    assert(found_cards(preferred@) =~= Seq::<CardModel>::empty());
    while j < others.len()
        invariant
            j <= others.len(),
            kept == found_cards(others@),
            prefer == (|c: CardModel| collectible(c)),
            found_cards(preferred@) == kept.take(j as int).filter(prefer),
        decreases others.len() - j,
    {
        let card: &CardMetadata = others[j];
        proof {
            filter_step(kept, prefer, j as int);
        }
        let ghost before = preferred@;
        let wanted = match card.collectible {
            Some(b) => b,
            None => false,
        };
        if wanted {
            preferred.push(card);
            assert(found_cards(preferred@) =~= found_cards(before).push(card@));
        }
        j = j + 1;
    }
    assert(kept.take(j as int) =~= kept);
    assert(preferred@.len() == found_cards(preferred@).len());
    if preferred.len() == 0 {
        others
    } else {
        preferred
    }
}

/// The cards with a name that a line may stand for.
pub open spec fn candidates(cards: Seq<CardModel>, name: Seq<char>) -> Seq<CardModel> {
    eligible(
        cards.filter(|c: CardModel| lower_ascii_text(c.name) == lower_ascii_text(trimmed(name))),
    )
}

/// What a line of the panel shows.
pub enum RowModel {
    Nothing,
    Card(ShownModel),
    Issue(IssueModel),
}

/// What a line of the panel shows.
pub open spec fn row(line: (Seq<char>, u32), cards: Seq<CardModel>) -> RowModel {
    if heads_deck(line.0) || counter(line.0) != CountParse::NotCount {
        RowModel::Nothing
    } else {
        match quantity(line.0) {
            None => RowModel::Issue(IssueModel::InvalidQuantity { text: line.0 }),
            Some((name, n)) => {
                let found = candidates(cards, name);
                if found.len() == 1 {
                    RowModel::Card(
                        ShownModel {
                            card_id: found[0].id,
                            name: found[0].name,
                            quantity: n,
                            ocr_confidence: line.1,
                        },
                    )
                } else if found.len() == 0 {
                    RowModel::Nothing
                } else {
                    RowModel::Issue(
                        IssueModel::AmbiguousCardName {
                            text: name,
                            candidate_ids: found.map_values(|c: CardModel| c.id),
                        },
                    )
                }
            },
        }
    }
}

/// The cards that the lines of a panel show.
pub open spec fn shown(lines: Seq<(Seq<char>, u32)>, cards: Seq<CardModel>) -> Seq<ShownModel>
    decreases lines.len(),
{
    if lines.len() == 0 {
        Seq::empty()
    } else {
        match row(lines.last(), cards) {
            RowModel::Card(card) => shown(lines.drop_last(), cards).push(card),
            _ => shown(lines.drop_last(), cards),
        }
    }
}

/// What could not be used of the lines of a panel.
pub open spec fn row_issues(lines: Seq<(Seq<char>, u32)>, cards: Seq<CardModel>) -> Seq<IssueModel>
    decreases lines.len(),
{
    if lines.len() == 0 {
        Seq::empty()
    } else {
        match row(lines.last(), cards) {
            RowModel::Issue(issue) => row_issues(lines.drop_last(), cards).push(issue),
            _ => row_issues(lines.drop_last(), cards),
        }
    }
}

/// The first counter among the lines.
pub open spec fn first_count(lines: Seq<(Seq<char>, u32)>) -> Option<DeckCount>
    decreases lines.len(),
{
    if lines.len() == 0 {
        None
    } else {
        match first_count(lines.drop_last()) {
            Some(count) => Some(count),
            None => match counter(lines.last().0) {
                CountParse::Valid(count) => Some(count),
                _ => None,
            },
        }
    }
}

/// The lines that look like a counter and are none.
pub open spec fn count_issues(lines: Seq<(Seq<char>, u32)>) -> Seq<IssueModel>
    decreases lines.len(),
{
    if lines.len() == 0 {
        Seq::empty()
    } else if counter(lines.last().0) == CountParse::Invalid {
        count_issues(lines.drop_last()).push(
            IssueModel::InvalidDeckCount { text: lines.last().0 },
        )
    } else {
        count_issues(lines.drop_last())
    }
}

/// Whether the heading of the panel is among the lines.
pub open spec fn anchored(lines: Seq<(Seq<char>, u32)>) -> bool {
    exists|i: int| 0 <= i < lines.len() && heads_deck((#[trigger] lines[i]).0)
}

/// The number of copies that cards stand for.
pub open spec fn copies(cards: Seq<ShownModel>) -> nat
    decreases cards.len(),
{
    if cards.len() == 0 {
        0
    } else {
        copies(cards.drop_last()) + cards.last().quantity as nat
    }
}

/// What a read proves.
pub open spec fn status_of(
    is_anchored: bool,
    count: Option<DeckCount>,
    visible: nat,
) -> SidebarDeckStatus {
    if !is_anchored {
        SidebarDeckStatus::Unanchored
    } else {
        match count {
            None => SidebarDeckStatus::MissingCount,
            Some(c) => if c.capacity != ARENA_DECK_CAPACITY || c.observed > c.capacity {
                SidebarDeckStatus::Inconsistent
            } else if visible == c.observed {
                SidebarDeckStatus::Complete
            } else if visible < c.observed {
                SidebarDeckStatus::Partial
            } else {
                SidebarDeckStatus::Inconsistent
            },
        }
    }
}

/// The cards that a read shows: none where it is not proved to be of the panel.
pub open spec fn visible(lines: Seq<(Seq<char>, u32)>, cards: Seq<CardModel>) -> Seq<ShownModel> {
    if anchored(lines) {
        shown(lines, cards)
    } else {
        Seq::empty()
    }
}

/// The read that lines amount to.
pub open spec fn deck_read(lines: Seq<(Seq<char>, u32)>, cards: Seq<CardModel>) -> ReadModel {
    let cards_seen = visible(lines, cards);
    let count = first_count(lines);
    ReadModel {
        anchored: anchored(lines),
        count,
        visible_cards: cards_seen,
        visible_quantity: copies(cards_seen),
        status: status_of(anchored(lines), count, copies(cards_seen)),
        issues: count_issues(lines) + if anchored(lines) {
            row_issues(lines, cards)
        } else {
            Seq::empty()
        },
    }
}

/// A line shows at most a deck's worth of copies, so few lines have a total that fits.
pub proof fn few_lines_fit(lines: Seq<(Seq<char>, u32)>, cards: Seq<CardModel>)
    ensures
        copies(visible(lines, cards)) <= 30 * lines.len(),
{
    rows_are_small(lines, cards);
}

proof fn rows_are_small(lines: Seq<(Seq<char>, u32)>, cards: Seq<CardModel>)
    ensures
        copies(shown(lines, cards)) <= 30 * lines.len(),
    decreases lines.len(),
{
    if lines.len() > 0 {
        let before = lines.drop_last();
        rows_are_small(before, cards);
        match row(lines.last(), cards) {
            RowModel::Card(card) => {
                assert(shown(lines, cards).drop_last() =~= shown(before, cards));
                assert(card.quantity <= 30);
            },
            _ => {},
        }
    }
}

/// What a line of the panel shows.
enum Row {
    Nothing,
    Card(SidebarCard),
    Issue(SidebarIssue),
}

spec fn row_is(r: Row, model: RowModel) -> bool {
    match (r, model) {
        (Row::Nothing, RowModel::Nothing) => true,
        (Row::Card(card), RowModel::Card(wanted)) => card@ == wanted,
        (Row::Issue(issue), RowModel::Issue(wanted)) => issue@ == wanted,
        _ => false,
    }
}

fn ids_of(cards: &Vec<&CardMetadata>) -> (r: Vec<String>)
    ensures
        texts(r@) == found_cards(cards@).map_values(|c: CardModel| c.id),
{
    let mut out: Vec<String> = Vec::new();
    let mut i: usize = 0;
    while i < cards.len()
        invariant
            i <= cards.len(),
            out@.len() == i,
            forall|k: int| 0 <= k < i ==> (#[trigger] out@[k])@ == cards@[k]@.id,
        decreases cards.len() - i,
    {
        let card: &CardMetadata = cards[i];
        out.push(text::copy(card.id.as_str()));
        i = i + 1;
    }
    assert(texts(out@) =~= found_cards(cards@).map_values(|c: CardModel| c.id));
    out
}

fn read_row(observation: &SidebarTextObservation, cards: &CardCache) -> (r: Row)
    requires
        cards.wf(),
    ensures
        row_is(r, row(observation@, cards.cards())),
{
    let line = observation.text.as_str();
    if is_deck_anchor(line) {
        return Row::Nothing;
    }
    match parse_deck_count(line) {
        CountParse::NotCount => {},
        _ => return Row::Nothing,
    }
    match split_quantity(line) {
        None => Row::Issue(SidebarIssue::InvalidQuantity { text: text::copy(line) }),
        Some((name, n)) => {
            let found = eligible_candidates(cards.find_by_name(name.as_str()));
            let ghost models = found_cards(found@);
            assert(models == candidates(cards.cards(), name@));
            assert(models.len() == found@.len());
            if found.len() == 0 {
                return Row::Nothing;
            }
            let first: &CardMetadata = found[0];
            assert(models[0] == first@);
            if found.len() == 1 {
                Row::Card(
                    SidebarCard {
                        card_id: text::copy(first.id.as_str()),
                        name: text::copy(first.name.as_str()),
                        quantity: n,
                        ocr_confidence: observation.confidence,
                    },
                )
            } else {
                Row::Issue(
                    SidebarIssue::AmbiguousCardName { text: name, candidate_ids: ids_of(&found) },
                )
            }
        },
    }
}

fn find_anchor(observations: &Vec<SidebarTextObservation>) -> (r: bool)
    ensures
        r == anchored(lines_read(observations@)),
{
    let ghost lines = lines_read(observations@);
    let mut i: usize = 0;
    while i < observations.len()
        invariant
            i <= observations.len(),
            lines == lines_read(observations@),
            forall|k: int| 0 <= k < i ==> !heads_deck((#[trigger] lines[k]).0),
        decreases observations.len() - i,
    {
        assert(lines[i as int] == observations@[i as int]@);
        if is_deck_anchor(observations[i].text.as_str()) {
            return true;
        }
        i = i + 1;
    }
    false
}

proof fn prefixes_show_less(lines: Seq<(Seq<char>, u32)>, cards: Seq<CardModel>, i: int)
    requires
        0 <= i <= lines.len(),
    ensures
        copies(shown(lines.take(i), cards)) <= copies(shown(lines, cards)),
    decreases lines.len() - i,
{
    if i == lines.len() {
        assert(lines.take(i) =~= lines);
    } else {
        prefixes_show_less(lines, cards, i + 1);
        assert(lines.take(i + 1).drop_last() =~= lines.take(i));
        match row(lines.take(i + 1).last(), cards) {
            RowModel::Card(card) => {
                assert(shown(lines.take(i + 1), cards).drop_last() =~= shown(lines.take(i), cards));
            },
            _ => {},
        }
    }
}

/// Makes a read of the lines of the deck panel, in whatever order they were read. A name counts
/// only where it is exactly that of one card; the case of ASCII letters does not matter.
pub fn interpret_deck_sidebar(
    observations: &Vec<SidebarTextObservation>,
    cards: &CardCache,
) -> (r: SidebarDeckRead)
    requires
        cards.wf(),
        copies(visible(lines_read(observations@), cards.cards())) <= u16::MAX,
    ensures
        r@ == deck_read(lines_read(observations@), cards.cards()),
{
    let ghost lines = lines_read(observations@);
    let ghost known = cards.cards();
    let is_anchored = find_anchor(observations);
    let mut issues: Vec<SidebarIssue> = Vec::new();
    let mut count: Option<DeckCount> = None;
    let mut i: usize = 0;
    assert(lines.take(0) =~= Seq::<(Seq<char>, u32)>::empty());
    assert(issue_models(issues@) =~= Seq::<IssueModel>::empty());
    while i < observations.len()
        invariant
            i <= observations.len(),
            lines == lines_read(observations@),
            count == first_count(lines.take(i as int)),
            issue_models(issues@) == count_issues(lines.take(i as int)),
        decreases observations.len() - i,
    {
        let line = observations[i].text.as_str();
        proof {
            assert(lines.take(i + 1).drop_last() =~= lines.take(i as int));
            assert(lines.take(i + 1).last() == observations@[i as int]@);
        }
        let ghost before = issues@;
        match parse_deck_count(line) {
            CountParse::Valid(value) => {
                if count.is_none() {
                    count = Some(value);
                }
            },
            CountParse::Invalid => {
                issues.push(SidebarIssue::InvalidDeckCount { text: text::copy(line) });
                assert(issue_models(issues@) =~= issue_models(before).push(
                    IssueModel::InvalidDeckCount { text: line@ },
                ));
            },
            CountParse::NotCount => {},
        }
        i = i + 1;
    }
    assert(lines.take(i as int) =~= lines);
    let ghost first_issues = issue_models(issues@);
    let mut visible_cards: Vec<SidebarCard> = Vec::new();
    let mut visible_quantity: u16 = 0;
    assert(shown_models(visible_cards@) =~= Seq::<ShownModel>::empty());
    assert(first_issues + Seq::<IssueModel>::empty() =~= first_issues);
    if is_anchored {
        let mut j: usize = 0;
        assert(lines.take(0) =~= Seq::<(Seq<char>, u32)>::empty());
        while j < observations.len()
            invariant
                j <= observations.len(),
                cards.wf(),
                known == cards.cards(),
                lines == lines_read(observations@),
                copies(shown(lines, known)) <= u16::MAX,
                shown_models(visible_cards@) == shown(lines.take(j as int), known),
                visible_quantity == copies(shown(lines.take(j as int), known)),
                issue_models(issues@) == first_issues + row_issues(lines.take(j as int), known),
            decreases observations.len() - j,
        {
            proof {
                assert(lines.take(j + 1).drop_last() =~= lines.take(j as int));
                assert(lines.take(j + 1).last() == observations@[j as int]@);
                prefixes_show_less(lines, known, j + 1);
            }
            let ghost cards_before = visible_cards@;
            let ghost issues_before = issues@;
            match read_row(&observations[j], cards) {
                Row::Nothing => {},
                Row::Card(card) => {
                    assert(shown(lines.take(j + 1), known).drop_last() =~= shown(
                        lines.take(j as int),
                        known,
                    ));
                    visible_quantity = visible_quantity + card.quantity as u16;
                    visible_cards.push(card);
                    assert(shown_models(visible_cards@) =~= shown_models(cards_before).push(card@));
                },
                Row::Issue(issue) => {
                    issues.push(issue);
                    assert(issue_models(issues@) =~= issue_models(issues_before).push(issue@));
                    assert(issue_models(issues@) =~= first_issues + row_issues(
                        lines.take(j + 1),
                        known,
                    ));
                },
            }
            j = j + 1;
        }
        assert(lines.take(j as int) =~= lines);
    }
    let status = if !is_anchored {
        SidebarDeckStatus::Unanchored
    } else {
        match count {
            None => SidebarDeckStatus::MissingCount,
            Some(c) => if c.capacity != ARENA_DECK_CAPACITY || c.observed > c.capacity {
                SidebarDeckStatus::Inconsistent
            } else if visible_quantity == c.observed as u16 {
                SidebarDeckStatus::Complete
            } else if visible_quantity < c.observed as u16 {
                SidebarDeckStatus::Partial
            } else {
                SidebarDeckStatus::Inconsistent
            },
        }
    };
    let r = SidebarDeckRead {
        anchored: is_anchored,
        count,
        visible_cards,
        visible_quantity,
        status,
        issues,
    };
    assert(r@.issues =~= deck_read(lines, known).issues);
    r
}

/// The number of copies of one card among those that are shown.
pub open spec fn copies_of(cards: Seq<ShownModel>, id: Seq<char>) -> nat
    decreases cards.len(),
{
    if cards.len() == 0 {
        0
    } else {
        copies_of(cards.drop_last(), id) + if cards.last().card_id == id {
            cards.last().quantity as nat
        } else {
            0
        }
    }
}

/// Whether a card is shown.
pub open spec fn shows(cards: Seq<ShownModel>, id: Seq<char>) -> bool {
    exists|i: int| 0 <= i < cards.len() && (#[trigger] cards[i]).card_id == id
}

/// A number of copies as far as a count holds it.
pub open spec fn capped(n: nat) -> u8 {
    if n < u8::MAX {
        n as u8
    } else {
        u8::MAX
    }
}

/// Whether a map holds the cards that are shown, each with its copies.
pub open spec fn counts_are(counts: TextMap<u8>, cards: Seq<ShownModel>) -> bool {
    &&& counts.wf()
    &&& forall|id: Seq<char>| #[trigger] counts.has(id) <==> shows(cards, id)
    &&& forall|id: Seq<char>| counts.has(id) ==> #[trigger] counts.at(id) == capped(
        copies_of(cards, id),
    )
}

proof fn showing_one_more(cards: Seq<ShownModel>, i: int, id: Seq<char>)
    requires
        0 <= i < cards.len(),
    ensures
        shows(cards.take(i + 1), id) <==> shows(cards.take(i), id) || cards[i].card_id == id,
        copies_of(cards.take(i + 1), id) == copies_of(cards.take(i), id) + if cards[i].card_id
            == id {
            cards[i].quantity as nat
        } else {
            0
        },
        !shows(cards.take(i), id) ==> copies_of(cards.take(i), id) == 0,
{
    let head = cards.take(i);
    let longer = cards.take(i + 1);
    assert(longer.drop_last() =~= head);
    assert(longer.last() == cards[i]);
    if shows(head, id) {
        let k = choose|k: int| 0 <= k < head.len() && (#[trigger] head[k]).card_id == id;
        assert(longer[k].card_id == id);
    }
    if shows(longer, id) {
        let k = choose|k: int| 0 <= k < longer.len() && (#[trigger] longer[k]).card_id == id;
        if k < i {
            assert(head[k].card_id == id);
        }
    }
    if cards[i].card_id == id {
        assert(longer[i].card_id == id);
    }
    unshown_cards_have_no_copies(head, id);
}

proof fn unshown_cards_have_no_copies(cards: Seq<ShownModel>, id: Seq<char>)
    ensures
        !shows(cards, id) ==> copies_of(cards, id) == 0,
    decreases cards.len(),
{
    if cards.len() > 0 && !shows(cards, id) {
        let head = cards.drop_last();
        assert forall|k: int| 0 <= k < head.len() implies (#[trigger] head[k]).card_id != id by {
            assert(cards[k].card_id != id);
        }
        assert(cards[cards.len() - 1].card_id != id);
        unshown_cards_have_no_copies(head, id);
    }
}

/// Two maps of the same cards are alike.
pub proof fn counts_are_determined(a: TextMap<u8>, b: TextMap<u8>, cards: Seq<ShownModel>)
    requires
        counts_are(a, cards),
        counts_are(b, cards),
    ensures
        a.keys() == b.keys(),
        a.values() == b.values(),
{
    maps_agree(a, b);
}

proof fn maps_agree(a: TextMap<u8>, b: TextMap<u8>)
    requires
        a.wf(),
        b.wf(),
        forall|id: Seq<char>| #[trigger] a.has(id) <==> b.has(id),
        forall|id: Seq<char>| a.has(id) ==> #[trigger] a.at(id) == b.at(id),
    ensures
        a.keys() == b.keys(),
        a.values() == b.values(),
{
    assert forall|k: Seq<char>| a.keys().contains(k) <==> b.keys().contains(k) by {
        assert(a.has(k) <==> b.has(k));
    }
    sorted_texts_are_unique(a.keys(), b.keys());
    assert forall|i: int| 0 <= i < a.values().len() implies a.values()[i] == b.values()[i] by {
        a.value_at(i);
        b.value_at(i);
        assert(a.at(a.keys()[i]) == b.at(a.keys()[i]));
    }
    assert(a.values() =~= b.values());
}

impl SidebarDeckRead {
    /// The cards of the deck, where the read proves that all of them are visible.
    pub fn authoritative_counts(&self) -> (r: Option<TextMap<u8>>)
        ensures
            match r {
                Some(counts) => self.status == SidebarDeckStatus::Complete && counts_are(
                    counts,
                    self@.visible_cards,
                ),
                None => self.status != SidebarDeckStatus::Complete,
            },
    {
        if self.status == SidebarDeckStatus::Complete {
            Some(self.card_counts())
        } else {
            None
        }
    }

    /// The cards that are visible. Several rows of one card count together.
    pub fn card_counts(&self) -> (r: TextMap<u8>)
        ensures
            counts_are(r, self@.visible_cards),
    {
        let ghost all = self@.visible_cards;
        let mut counts: TextMap<u8> = TextMap::new();
        let mut i: usize = 0;
        assert(all.take(0) =~= Seq::<ShownModel>::empty());
        while i < self.visible_cards.len()
            invariant
                i <= self.visible_cards.len(),
                all == shown_models(self.visible_cards@),
                counts_are(counts, all.take(i as int)),
            decreases self.visible_cards.len() - i,
        {
            let card = &self.visible_cards[i];
            assert(all[i as int] == card@);
            let before: u8 = match counts.get(card.card_id.as_str()) {
                Some(n) => *n,
                None => 0,
            };
            let ghost earlier = counts;
            counts.insert(text::copy(card.card_id.as_str()), before.saturating_add(card.quantity));
            proof {
                assert forall|id: Seq<char>| #[trigger] counts.has(id) <==> shows(
                    all.take(i + 1),
                    id,
                ) by {
                    showing_one_more(all, i as int, id);
                    assert(earlier.has(id) <==> shows(all.take(i as int), id));
                }
                assert forall|id: Seq<char>| counts.has(id) implies #[trigger] counts.at(id)
                    == capped(copies_of(all.take(i + 1), id)) by {
                    showing_one_more(all, i as int, id);
                    assert(earlier.has(id) <==> shows(all.take(i as int), id));
                    if earlier.has(id) {
                        assert(earlier.at(id) == capped(copies_of(all.take(i as int), id)));
                    }
                }
            }
            i = i + 1;
        }
        assert(all.take(i as int) =~= all);
        counts
    }
}

/// How a read changed what is known of a deck.
#[derive(Clone, Copy, Debug, PartialEq, Eq, Structural)]
pub enum ReconciliationKind {
    /// A complete read took the place of what was known.
    AuthoritativeReplace,
    /// A partial read raised what was known.
    PartialLowerBoundMerge,
    /// The read changed nothing.
    Unchanged,
}

/// What is known of a deck after a read.
pub struct SidebarReconciliation {
    pub kind: ReconciliationKind,
    pub counts: TextMap<u8>,
}

/// What is known of the copies of a card.
pub open spec fn known_copies(known: TextMap<u8>, id: Seq<char>) -> u8 {
    match known.lookup(id) {
        Some(n) => n,
        None => 0,
    }
}

/// The larger of two counts.
pub open spec fn larger(a: u8, b: u8) -> u8 {
    if a >= b {
        a
    } else {
        b
    }
}

/// Whether a map holds, of each card, the larger of what was known and what is shown.
pub open spec fn is_merge(m: TextMap<u8>, known: TextMap<u8>, cards: Seq<ShownModel>) -> bool {
    &&& m.wf()
    &&& forall|id: Seq<char>| #[trigger] m.has(id) <==> known.has(id) || shows(cards, id)
    &&& forall|id: Seq<char>|
        m.has(id) ==> #[trigger] m.at(id) == larger(
            known_copies(known, id),
            capped(copies_of(cards, id)),
        )
}

/// The sum of counts.
pub open spec fn sum(counts: Seq<u8>) -> nat
    decreases counts.len(),
{
    if counts.len() == 0 {
        0
    } else {
        sum(counts.drop_last()) + counts.last() as nat
    }
}

/// Whether two maps hold the same.
pub open spec fn same_counts(a: TextMap<u8>, b: TextMap<u8>) -> bool {
    a.wf() && a.keys() == b.keys() && a.values() == b.values()
}

/// Whether a reconciliation is the one that a read calls for.
pub open spec fn reconciled(
    known: TextMap<u8>,
    read: ReadModel,
    r: SidebarReconciliation,
) -> bool {
    match read.status {
        SidebarDeckStatus::Complete => r.kind == ReconciliationKind::AuthoritativeReplace
            && counts_are(r.counts, read.visible_cards),
        SidebarDeckStatus::Partial => match read.count {
            None => r.kind == ReconciliationKind::Unchanged && same_counts(r.counts, known),
            Some(count) => exists|m: TextMap<u8>| #[trigger]
                is_merge(m, known, read.visible_cards) && if sum(m.values()) > count.observed {
                    r.kind == ReconciliationKind::Unchanged && same_counts(r.counts, known)
                } else {
                    &&& same_counts(r.counts, m)
                    &&& r.kind == if same_counts(m, known) {
                        ReconciliationKind::Unchanged
                    } else {
                        ReconciliationKind::PartialLowerBoundMerge
                    }
                },
        },
        _ => r.kind == ReconciliationKind::Unchanged && same_counts(r.counts, known),
    }
}

fn copy_counts(known: &TextMap<u8>) -> (r: TextMap<u8>)
    requires
        known.wf(),
    ensures
        same_counts(r, *known),
{
    let mut out: TextMap<u8> = TextMap::new();
    let mut i: usize = 0;
    while i < known.len()
        invariant
            i <= known.keys().len(),
            known.wf(),
            out.wf(),
            forall|k: int| 0 <= k < i ==> out.has(#[trigger] known.keys()[k]) && out.at(
                known.keys()[k],
            ) == known.values()[k],
            forall|id: Seq<char>| #[trigger]
                out.has(id) ==> exists|k: int| 0 <= k < i && #[trigger] known.keys()[k] == id,
        decreases known.keys().len() - i,
    {
        let ghost before = out;
        let ghost here = known.keys()[i as int];
        out.insert(text::copy(known.key_at(i)), *known.entry_at(i));
        proof {
            assert forall|k: int| 0 <= k < i + 1 implies out.has(#[trigger] known.keys()[k])
                && out.at(known.keys()[k]) == known.values()[k] by {
                if k < i && known.keys()[k] == here {
                    sorted_texts_are_distinct(known.keys(), k, i as int);
                }
            }
            assert forall|id: Seq<char>| #[trigger] out.has(id) implies exists|k: int|
                0 <= k < i + 1 && #[trigger] known.keys()[k] == id by {
                if id == here {
                    assert(known.keys()[i as int] == id);
                } else {
                    assert(before.has(id));
                }
            }
        }
        i = i + 1;
    }
    proof {
        assert forall|id: Seq<char>| #[trigger] out.has(id) <==> known.has(id) by {
            if known.has(id) {
                let k = known.keys().index_of(id);
                assert(known.keys()[k] == id);
            }
        }
        assert forall|id: Seq<char>| out.has(id) implies #[trigger] out.at(id) == known.at(id) by {
            let k = choose|k: int| 0 <= k < known.keys().len() && #[trigger] known.keys()[k] == id;
            known.value_at(k);
        }
        maps_agree(out, *known);
    }
    out
}

fn sum_counts(counts: &TextMap<u8>) -> (r: u64)
    requires
        counts.wf(),
    ensures
        r == sum(counts.values()) || (r == u64::MAX && sum(counts.values()) >= r),
{
    let ghost all = counts.values();
    let mut total: u64 = 0;
    let mut i: usize = 0;
    assert(all.take(0) =~= Seq::<u8>::empty());
    while i < counts.len()
        invariant
            i <= all.len(),
            counts.wf(),
            all == counts.values(),
            total == sum(all.take(i as int)) || (total == u64::MAX && sum(all.take(i as int))
                >= total),
        decreases all.len() - i,
    {
        proof {
            assert(all.take(i + 1).drop_last() =~= all.take(i as int));
            assert(all.take(i + 1).last() == all[i as int]);
        }
        total = total.saturating_add(*counts.entry_at(i) as u64);
        i = i + 1;
    }
    assert(all.take(i as int) =~= all);
    total
}

fn merge_counts(known: &TextMap<u8>, read: &SidebarDeckRead) -> (r: (TextMap<u8>, bool))
    requires
        known.wf(),
    ensures
        is_merge(r.0, *known, read@.visible_cards),
        r.1 == !same_counts(r.0, *known),
{
    let counts = read.card_counts();
    let ghost cards = read@.visible_cards;
    let mut merged = copy_counts(known);
    let mut changed = false;
    let mut i: usize = 0;
    proof {
        assert(merged.keys() == known.keys());
        assert forall|id: Seq<char>| merged.has(id) implies #[trigger] merged.at(id) == known_copies(
            *known,
            id,
        ) by {}
    }
    while i < counts.len()
        invariant
            i <= counts.keys().len(),
            known.wf(),
            counts_are(counts, cards),
            merged.wf(),
            forall|id: Seq<char>| #[trigger]
                merged.has(id) <==> known.has(id) || exists|k: int|
                    0 <= k < i && #[trigger] counts.keys()[k] == id,
            forall|k: int| 0 <= k < i ==> merged.at(#[trigger] counts.keys()[k]) == larger(
                known_copies(*known, counts.keys()[k]),
                counts.values()[k],
            ),
            forall|id: Seq<char>|
                known.has(id) && !(exists|k: int| 0 <= k < i && #[trigger] counts.keys()[k] == id)
                    ==> #[trigger] merged.at(id) == known_copies(*known, id),
            !changed ==> same_counts(merged, *known),
            changed ==> exists|id: Seq<char>| #[trigger]
                merged.has(id) && (!known.has(id) || merged.at(id) != known.at(id)),
        decreases counts.keys().len() - i,
    {
        let ghost before = merged;
        let ghost here = counts.keys()[i as int];
        proof {
            assert forall|k: int| 0 <= k < i implies #[trigger] counts.keys()[k] != here by {
                if counts.keys()[k] == here {
                    sorted_texts_are_distinct(counts.keys(), k, i as int);
                }
            }
        }
        let shown_now: u8 = *counts.entry_at(i);
        let id = counts.key_at(i);
        let (present, was): (bool, u8) = match merged.get(id) {
            Some(n) => (true, *n),
            None => (false, 0),
        };
        assert(was == known_copies(*known, here));
        assert(present == known.has(here));
        let now: u8 = if was >= shown_now {
            was
        } else {
            shown_now
        };
        merged.insert(text::copy(id), now);
        if !present || now != was {
            changed = true;
            assert(merged.has(here));
        } else {
            proof {
                assert(merged.keys() == before.keys());
                assert forall|k: int| 0 <= k < merged.values().len() implies merged.values()[k]
                    == before.values()[k] by {
                    merged.value_at(k);
                    before.value_at(k);
                }
                assert(merged.values() =~= before.values());
            }
        }
        proof {
            assert forall|id: Seq<char>| #[trigger] merged.has(id) <==> known.has(id) || exists|
                k: int,
            |
                0 <= k < i + 1 && #[trigger] counts.keys()[k] == id by {
                if id == here {
                    assert(counts.keys()[i as int] == id);
                }
            }
            assert forall|k: int| 0 <= k < i + 1 implies merged.at(#[trigger] counts.keys()[k])
                == larger(known_copies(*known, counts.keys()[k]), counts.values()[k]) by {
                if k < i {
                    assert(before.has(counts.keys()[k]));
                }
            }
            assert forall|id: Seq<char>|
                known.has(id) && !(exists|k: int|
                    0 <= k < i + 1 && #[trigger] counts.keys()[k]
                        == id) implies #[trigger] merged.at(id) == known_copies(*known, id) by {
                assert(counts.keys()[i as int] != id);
                assert(before.has(id));
                assert(before.at(id) == known_copies(*known, id));
            }
            if changed && present && now == was {
                let id = choose|id: Seq<char>| #[trigger]
                    before.has(id) && (!known.has(id) || before.at(id) != known.at(id));
                assert(merged.has(id));
            }
        }
        i = i + 1;
    }
    proof {
        assert forall|id: Seq<char>| #[trigger] merged.has(id) <==> known.has(id) || shows(
            cards,
            id,
        ) by {
            assert(counts.has(id) <==> shows(cards, id));
            if counts.has(id) {
                let k = counts.keys().index_of(id);
                assert(counts.keys()[k] == id);
            }
            if exists|k: int| 0 <= k < counts.keys().len() && #[trigger] counts.keys()[k] == id {
                assert(counts.has(id));
            }
        }
        assert forall|id: Seq<char>| merged.has(id) implies #[trigger] merged.at(id) == larger(
            known_copies(*known, id),
            capped(copies_of(cards, id)),
        ) by {
            if counts.has(id) {
                let k = counts.keys().index_of(id);
                assert(counts.keys()[k] == id);
                counts.value_at(k);
                assert(counts.at(id) == capped(copies_of(cards, id)));
            } else {
                assert(!shows(cards, id));
                unshown_cards_have_no_copies(cards, id);
                assert(!(exists|k: int|
                    0 <= k < counts.keys().len() && #[trigger] counts.keys()[k] == id));
            }
        }
    }
    (merged, changed)
}

/// Brings together what is known of a deck and what the panel shows.
pub fn reconcile_deck_sidebar(known: &TextMap<u8>, read: &SidebarDeckRead) -> (r:
    SidebarReconciliation)
    requires
        known.wf(),
    ensures
        reconciled(*known, read@, r),
{
    match read.authoritative_counts() {
        Some(counts) => {
            return SidebarReconciliation {
                kind: ReconciliationKind::AuthoritativeReplace,
                counts,
            };
        },
        None => {},
    }
    let count: DeckCount = match (read.status, read.count) {
        (SidebarDeckStatus::Partial, Some(count)) => count,
        _ => {
            return SidebarReconciliation {
                kind: ReconciliationKind::Unchanged,
                counts: copy_counts(known),
            };
        },
    };
    let (merged, changed) = merge_counts(known, read);
    assert(is_merge(merged, *known, read@.visible_cards));
    if sum_counts(&merged) > count.observed as u64 {
        SidebarReconciliation { kind: ReconciliationKind::Unchanged, counts: copy_counts(known) }
    } else {
        SidebarReconciliation {
            kind: if changed {
                ReconciliationKind::PartialLowerBoundMerge
            } else {
                ReconciliationKind::Unchanged
            },
            counts: merged,
        }
    }
}

/// A complete read shows the whole deck: its panel and its counter were read, and the visible
/// cards are as many as the counter says.
pub proof fn complete_reads_show_the_whole_deck(
    lines: Seq<(Seq<char>, u32)>,
    cards: Seq<CardModel>,
)
    requires
        deck_read(lines, cards).status == SidebarDeckStatus::Complete,
    ensures
        anchored(lines),
        first_count(lines) matches Some(count) && count.capacity == ARENA_DECK_CAPACITY
            && count.observed <= ARENA_DECK_CAPACITY && copies(deck_read(lines, cards).visible_cards)
            == count.observed,
{
}

/// Only a complete read can lower or remove what is known of a card.
pub proof fn partial_reads_remove_nothing(
    known: TextMap<u8>,
    read: ReadModel,
    r: SidebarReconciliation,
    id: Seq<char>,
)
    requires
        known.wf(),
        reconciled(known, read, r),
        read.status != SidebarDeckStatus::Complete,
        known.has(id),
    ensures
        r.counts.has(id),
        r.counts.at(id) >= known.at(id),
{
    if read.status == SidebarDeckStatus::Partial && read.count is Some && !same_counts(
        r.counts,
        known,
    ) {
        let m = choose|m: TextMap<u8>| #[trigger]
            is_merge(m, known, read.visible_cards) && same_counts(r.counts, m);
        assert(m.has(id));
        assert(r.counts.has(id));
        assert(r.counts.at(id) == m.at(id));
    } else {
        assert(r.counts.has(id));
    }
}

/// A read that is neither complete nor partial changes nothing.
pub proof fn unproved_reads_change_nothing(
    known: TextMap<u8>,
    read: ReadModel,
    r: SidebarReconciliation,
)
    requires
        reconciled(known, read, r),
        read.status != SidebarDeckStatus::Complete,
        read.status != SidebarDeckStatus::Partial,
    ensures
        r.kind == ReconciliationKind::Unchanged,
        same_counts(r.counts, known),
{
}

/// A partial read never makes the deck larger than its counter.
pub proof fn merged_decks_fit_their_counter(
    known: TextMap<u8>,
    read: ReadModel,
    r: SidebarReconciliation,
)
    requires
        reconciled(known, read, r),
        r.kind == ReconciliationKind::PartialLowerBoundMerge,
    ensures
        read.count matches Some(count) && sum(r.counts.values()) <= count.observed,
{
}

} // verus!
