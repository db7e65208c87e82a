//! What is read of a deck panel, and what that says of the deck.
use crate::card_data::{spaced_words, CardModel};
use crate::card_laws::bare;
use crate::config_laws::{same_word, words_are_compared_without_case};
use crate::ini::{char_place, char_place_is_first};
use crate::setup_laws::same_letter;
use crate::sidebar::{
    anchored, candidates, compact, copies, copies_of, count_issues, counter, first_count,
    heads_deck, last_place, multiplies, quantity, reconciled, row, row_issues, shown, shows, spaced,
    status_of, visible, CountParse, DeckCount, IssueModel, ReadModel, ReconciliationKind, RowModel,
    ShownModel, SidebarReconciliation,
};
use crate::text::{
    all_digits, decimal, decimals_are_read, digits_value, is_space, occurs_at, parsed_number,
    trim_end, trim_start, trimmed, unsigned_part,
};
use crate::text_map::TextMap;
use vstd::prelude::*;

verus! {

/// A deck panel counts as read by what it shows: without its heading it is none, without a counter
/// nothing can be said, and with one that does not count up to thirty, or counts fewer cards than
/// are seen, it contradicts itself. Otherwise it is complete where all counted cards are seen, and
/// partial where some are not.
pub proof fn panels_are_complete_where_all_counted_cards_are_seen(
    is_anchored: bool,
    count: Option<DeckCount>,
    seen: nat,
)
    ensures
        ({
            let s = status_of(is_anchored, count, seen);
            let sound = count matches Some(c) && c.capacity == 30 && c.observed <= 30;
            let counted = count->0.observed;
            &&& s is Unanchored <==> !is_anchored
            &&& s is MissingCount <==> is_anchored && count is None
            &&& s is Complete <==> is_anchored && sound && seen == counted
            &&& s is Partial <==> is_anchored && sound && seen < counted
            &&& s is Inconsistent <==> is_anchored && count is Some && (!sound || seen > counted)
        }),
{
}

/// A line heads the panel exactly where its words are those of the heading, in whatever letter
/// case.
pub proof fn headings_are_read_without_case(text: Seq<char>)
    ensures
        heads_deck(text) <==> same_word(spaced_words(text), "Your Deck"@),
{
    words_are_compared_without_case(spaced_words(text), "Your Deck"@);
}

/// A counter gives first the cards that are there, then those that there can be. A line without a
/// slash is no counter, and one with anything but two small numbers is a bad one.
pub proof fn counters_give_cards_then_capacity(text: Seq<char>, a: Seq<char>, b: Seq<char>)
    ensures
        counter(text) is NotCount <==> !compact(text).contains('/'),
        compact(text) == a + seq!['/'] + b && a.len() > 0 && b.len() > 0 && all_digits(a)
            && all_digits(b) && digits_value(a) <= 255 && digits_value(b) <= 255 ==> counter(text)
            == CountParse::Valid(
            DeckCount { observed: digits_value(a) as u8, capacity: digits_value(b) as u8 },
        ),
{
    let line = compact(text);
    char_place_is_first(line, '/', 0);
    if line.contains('/') {
        let i = choose|i: int| 0 <= i < line.len() && line[i] == '/';
        assert(line[i] == '/');
    }
    if line == a + seq!['/'] + b && a.len() > 0 && b.len() > 0 && all_digits(a) && all_digits(b)
        && digits_value(a) <= 255 && digits_value(b) <= 255 {
        let k = char_place(line, '/', 0)->0;
        assert(line[a.len() as int] == '/');
        assert(k <= a.len());
        if k < a.len() {
            assert(line[k] == a[k]);
        }
        assert(line.take(k) =~= a);
        assert(line.skip(k + 1) =~= b);
    }
}

proof fn trimming_keeps_bare_texts(s: Seq<char>)
    requires
        bare(s),
    ensures
        trimmed(s) == s,
{
    assert(trim_start(s) == s);
    assert(trim_end(s) == s);
}

/// A name with a mark of multiplication and a number is that many copies of the card with the name,
/// from one to thirty, and with no other number it is none. A single word is one copy.
pub proof fn printed_quantities_are_read(name: Seq<char>, n: nat)
    requires
        bare(name),
        name.len() > 0,
    ensures
        1 <= n <= 30 ==> quantity(name + seq![' ', 'x', ' '] + decimal(n)) == Some((name, n as u8)),
        n == 0 || n > 30 ==> quantity(name + seq![' ', 'x', ' '] + decimal(n)) is None,
        (forall|i: int| 0 <= i < name.len() ==> !is_space(#[trigger] name[i])) ==> quantity(name)
            == Some((name, 1u8)),
{
    let d = decimal(n);
    decimals_are_read(n);
    let line = name + seq![' ', 'x', ' '] + d;
    assert(line.len() > 0);
    assert(bare(line)) by {
        assert(line[0] == name[0]);
        assert(line.last() == d.last());
        assert('0' <= d[d.len() - 1] <= '9');
    }
    trimming_keeps_bare_texts(line);
    assert(line.subrange(name.len() as int, name.len() as int + 3) =~= spaced('x'));
    last_mark(line, name.len() as int, line.len() as int);
    assert(line.take(name.len() as int) =~= name);
    assert(line.skip(name.len() as int + 3) =~= d);
    trimming_keeps_bare_texts(name);
    assert(unsigned_part(d) == d) by {
        assert('0' <= d[0] <= '9');
    }
    assert(parsed_number(d, 255) == if n <= 255 {
        Some(n)
    } else {
        None
    });
    if forall|i: int| 0 <= i < name.len() ==> !is_space(#[trigger] name[i]) {
        no_mark(name, 'x', name.len() as int);
        no_mark(name, 'X', name.len() as int);
        no_mark(name, '\u{d7}', name.len() as int);
        no_space(name, name.len() as int);
    }
}

proof fn no_mark(s: Seq<char>, c: char, to: int)
    requires
        forall|i: int| 0 <= i < s.len() ==> !is_space(#[trigger] s[i]),
    ensures
        last_place(s, spaced(c), to) is None,
    decreases to + 1,
{
    if to >= 0 {
        if occurs_at(s, spaced(c), to) {
            assert(s.subrange(to, to + 3)[0] == ' ');
            assert(is_space(s[to]));
        }
        no_mark(s, c, to - 1);
    }
}

proof fn no_space(s: Seq<char>, to: int)
    requires
        to <= s.len(),
        forall|i: int| 0 <= i < s.len() ==> !is_space(#[trigger] s[i]),
    ensures
        crate::sidebar::last_space(s, to) is None,
    decreases to,
{
    if to > 0 {
        no_space(s, to - 1);
    }
}

proof fn last_mark(line: Seq<char>, at: int, to: int)
    requires
        0 <= at <= to,
        occurs_at(line, spaced('x'), at),
        forall|i: int| at + 3 <= i < line.len() ==> '0' <= #[trigger] line[i] <= '9',
    ensures
        last_place(line, spaced('x'), to) == Some(at),
    decreases to,
{
    if to > at {
        if occurs_at(line, spaced('x'), to) {
            let part = line.subrange(to, to + 3);
            assert(part[0] == ' ' && part[1] == 'x' && part[2] == ' ');
            assert(line[to + 2] == ' ');
            assert(line[to] == ' ');
            assert(line[to + 1] == 'x');
        }
        last_mark(line, at, to - 1);
    }
}

/// Whether a card could be the one with a name: it has the name, in whatever letter case, and is no
/// hero.
pub open spec fn could_be(card: CardModel, name: Seq<char>) -> bool {
    same_word(card.name, trimmed(name)) && !occurs_at(card.id, "HERO_"@, 0)
}

proof fn filtered<A>(s: Seq<A>, keep: spec_fn(A) -> bool, x: A)
    ensures
        s.filter(keep).contains(x) <==> s.contains(x) && keep(x),
{
    s.filter_lemma(keep);
    if s.filter(keep).contains(x) {
        s.lemma_filter_contains_rev(keep, x);
        let i = choose|i: int| 0 <= i < s.filter(keep).len() && s.filter(keep)[i] == x;
        assert(keep(s.filter(keep)[i]));
    }
    if s.contains(x) && keep(x) {
        let i = choose|i: int| 0 <= i < s.len() && s[i] == x;
        assert(s.filter(keep).contains(s[i]));
    }
}

/// Whether a collectible card could be the one with a name.
pub open spec fn some_collectible(cards: Seq<CardModel>, name: Seq<char>) -> bool {
    exists|d: CardModel|
        cards.contains(d) && #[trigger] could_be(d, name) && d.collectible == Some(true)
}

proof fn candidates_are_cards(cards: Seq<CardModel>, name: Seq<char>, c: CardModel)
    ensures
        candidates(cards, name).contains(c) <==> cards.contains(c) && could_be(c, name) && (
        c.collectible == Some(true) || !some_collectible(cards, name)),
{
    let has_name = |c: CardModel|
        crate::text::lower_ascii_text(c.name) == crate::text::lower_ascii_text(trimmed(name));
    let is_card = |c: CardModel| crate::sidebar::no_hero(c);
    let can_be_had = |c: CardModel| crate::card_data::collectible(c);
    let named = cards.filter(has_name);
    let others = named.filter(is_card);
    let preferred = others.filter(can_be_had);
    assert forall|d: CardModel| #[trigger] others.contains(d) <==> cards.contains(d) && could_be(
        d,
        name,
    ) by {
        filtered(cards, has_name, d);
        filtered(named, is_card, d);
        words_are_compared_without_case(d.name, trimmed(name));
    }
    filtered(others, can_be_had, c);
    if some_collectible(cards, name) {
        let d = choose|d: CardModel|
            cards.contains(d) && #[trigger] could_be(d, name) && d.collectible == Some(true);
        filtered(others, can_be_had, d);
        assert(preferred.contains(d));
        assert(preferred.len() > 0);
    } else {
        if preferred.len() > 0 {
            let d = preferred[0];
            assert(preferred.contains(d));
            filtered(others, can_be_had, d);
            assert(could_be(d, name));
        }
    }
}

/// The name of the card that a line gives.
pub open spec fn read_name(line: (Seq<char>, u32)) -> Seq<char> {
    match quantity(line.0) {
        Some((name, n)) => name,
        None => Seq::empty(),
    }
}

/// Whether some card with an id could be meant by a name.
pub open spec fn some_card_is(cards: Seq<CardModel>, name: Seq<char>, id: Seq<char>) -> bool {
    exists|c: CardModel| cards.contains(c) && #[trigger] could_be(c, name) && c.id == id
}

/// A line of the panel is read as a card only where exactly one card could be meant by its name,
/// counting collectible cards alone where there are any. It is then read with the number of copies
/// of the line. Where several cards could be meant, all are named; where none could, nothing is
/// read.
pub proof fn lines_are_read_as_the_card_they_name(line: (Seq<char>, u32), cards: Seq<CardModel>)
    ensures
        row(line, cards) matches RowModel::Card(card) ==> {
            &&& quantity(line.0) matches Some((name, n))
            &&& card.quantity == n
            &&& card.ocr_confidence == line.1
            &&& exists|c: CardModel|
                cards.contains(c) && #[trigger] could_be(c, name) && c.id == card.card_id && c.name
                    == card.name && (c.collectible == Some(true) || !some_collectible(cards, name))
            &&& forall|c: CardModel|
                cards.contains(c) && #[trigger] could_be(c, name) && (c.collectible == Some(true)
                    || !some_collectible(cards, name)) ==> c.id == card.card_id
        },
        row(line, cards) matches RowModel::Issue(issue) ==> (issue matches IssueModel::AmbiguousCardName {
            text,
            candidate_ids,
        } ==> quantity(line.0) is Some && text == read_name(line) && candidate_ids.len() > 1
            && forall|k: int|
            0 <= k < candidate_ids.len() ==> some_card_is(cards, text, #[trigger] candidate_ids[k])),
        heads_deck(line.0) || !(counter(line.0) is NotCount) ==> row(line, cards) is Nothing,
        !heads_deck(line.0) && counter(line.0) is NotCount && quantity(line.0) is None ==> row(
            line,
            cards,
        ) == RowModel::Issue(IssueModel::InvalidQuantity { text: line.0 }),
{
    if quantity(line.0) is Some {
        let (name, _) = quantity(line.0)->0;
        let found = candidates(cards, name);
        assert forall|c: CardModel| #[trigger] found.contains(c) <==> cards.contains(c) && could_be(
            c,
            name,
        ) && (c.collectible == Some(true) || !some_collectible(cards, name)) by {
            candidates_are_cards(cards, name, c);
        }
        if found.len() == 1 {
            assert(found.contains(found[0]));
            assert(could_be(found[0], name));
            assert forall|c: CardModel|
                cards.contains(c) && #[trigger] could_be(c, name) && (c.collectible == Some(true)
                    || !some_collectible(cards, name)) implies c.id == found[0].id by {
                assert(found.contains(c));
                let i = choose|i: int| 0 <= i < found.len() && found[i] == c;
            }
        }
        if let RowModel::Issue(IssueModel::AmbiguousCardName { text, candidate_ids }) = row(
            line,
            cards,
        ) {
            assert(candidate_ids.len() == found.len());
            assert forall|k: int| 0 <= k < candidate_ids.len() implies some_card_is(
                cards,
                name,
                #[trigger] candidate_ids[k],
            ) by {
                assert(candidate_ids[k] == found[k].id);
                assert(found.contains(found[k]));
                assert(could_be(found[k], name));
            }
        }
    }
}

/// The cards that are seen are those of the lines that are read as cards, in the order of the
/// lines; without the heading of the panel none is.
pub proof fn cards_are_seen_line_by_line(lines: Seq<(Seq<char>, u32)>, cards: Seq<CardModel>)
    ensures
        forall|i: int|
            0 <= i < lines.len() ==> (row(#[trigger] lines[i], cards) matches RowModel::Card(card)
                ==> shown(lines, cards).contains(card)),
        forall|k: int|
            0 <= k < shown(lines, cards).len() ==> exists|i: int|
                0 <= i < lines.len() && row(#[trigger] lines[i], cards) == RowModel::Card(
                    #[trigger] shown(lines, cards)[k],
                ),
        shown(lines, cards).len() <= lines.len(),
        anchored(lines) ==> visible(lines, cards) == shown(lines, cards),
        !anchored(lines) ==> visible(lines, cards).len() == 0,
    decreases lines.len(),
{
    let all = shown(lines, cards);
    if lines.len() > 0 {
        let rest = lines.drop_last();
        let before = shown(rest, cards);
        cards_are_seen_line_by_line(rest, cards);
        assert forall|i: int| 0 <= i < lines.len() implies (row(#[trigger] lines[i], cards) matches RowModel::Card(
            card,
        ) ==> all.contains(card)) by {
            if row(lines[i], cards) is Card {
                let card = row(lines[i], cards)->Card_0;
                if i < rest.len() {
                    assert(rest[i] == lines[i]);
                    let k = choose|k: int| 0 <= k < before.len() && before[k] == card;
                    assert(all[k] == card);
                } else {
                    assert(all[all.len() - 1] == card);
                }
            }
        }
        assert forall|k: int| 0 <= k < all.len() implies exists|i: int|
            0 <= i < lines.len() && row(#[trigger] lines[i], cards) == RowModel::Card(
                #[trigger] all[k],
            ) by {
            if k < before.len() {
                assert(all[k] == before[k]);
                let i = choose|i: int|
                    0 <= i < rest.len() && row(#[trigger] rest[i], cards) == RowModel::Card(
                        before[k],
                    );
                assert(lines[i] == rest[i]);
            } else {
                assert(lines[lines.len() - 1] == lines.last());
            }
        }
    }
}

/// The counter of a panel is its first line that is one.
pub proof fn the_first_counter_counts(lines: Seq<(Seq<char>, u32)>)
    ensures
        match first_count(lines) {
            Some(count) => exists|i: int|
                0 <= i < lines.len() && counter((#[trigger] lines[i]).0) == CountParse::Valid(count)
                    && forall|j: int|
                    0 <= j < i ==> !(counter((#[trigger] lines[j]).0) is Valid),
            None => forall|j: int| 0 <= j < lines.len() ==> !(counter((#[trigger] lines[j]).0) is Valid),
        },
    decreases lines.len(),
{
    if lines.len() > 0 {
        let rest = lines.drop_last();
        the_first_counter_counts(rest);
        match first_count(rest) {
            Some(count) => {
                let i = choose|i: int|
                    0 <= i < rest.len() && counter((#[trigger] rest[i]).0) == CountParse::Valid(
                        count,
                    ) && forall|j: int| 0 <= j < i ==> !(counter((#[trigger] rest[j]).0) is Valid);
                assert(lines[i] == rest[i]);
                assert forall|j: int| 0 <= j < i implies !(counter((#[trigger] lines[j]).0) is Valid) by {
                    assert(rest[j] == lines[j]);
                }
            },
            None => {
                assert forall|j: int| 0 <= j < rest.len() implies !(counter((#[trigger] lines[j]).0) is Valid) by {
                    assert(rest[j] == lines[j]);
                }
                assert(lines[lines.len() - 1] == lines.last());
            },
        }
    }
}

/// The copies of a card that are seen.
pub open spec fn seen(cards: Seq<ShownModel>, id: Seq<char>) -> nat
    decreases cards.len(),
{
    if cards.len() == 0 {
        0
    } else if cards[0].card_id == id {
        cards[0].quantity as nat + seen(cards.skip(1), id)
    } else {
        seen(cards.skip(1), id)
    }
}

proof fn seen_of_longer(cards: Seq<ShownModel>, card: ShownModel, id: Seq<char>)
    ensures
        seen(cards.push(card), id) == seen(cards, id) + if card.card_id == id {
            card.quantity as nat
        } else {
            0
        },
    decreases cards.len(),
{
    let all = cards.push(card);
    if cards.len() == 0 {
        assert(all.skip(1) =~= Seq::<ShownModel>::empty());
        assert(seen(all.skip(1), id) == 0);
    } else {
        assert(all.skip(1) =~= cards.skip(1).push(card));
        seen_of_longer(cards.skip(1), card, id);
    }
}

proof fn copies_are_seen(cards: Seq<ShownModel>, id: Seq<char>)
    ensures
        copies_of(cards, id) == seen(cards, id),
    decreases cards.len(),
{
    if cards.len() > 0 {
        copies_are_seen(cards.drop_last(), id);
        seen_of_longer(cards.drop_last(), cards.last(), id);
        assert(cards.drop_last().push(cards.last()) =~= cards);
    }
}

/// A complete panel says what the deck is: each card as often as it is seen, and no other. A
/// partial one only says what the deck has at least: a card has then the copies that were known
/// or those that are seen, whichever are more. Any other panel says nothing.
pub proof fn panels_say_what_they_show(
    known: TextMap<u8>,
    read: ReadModel,
    r: SidebarReconciliation,
    id: Seq<char>,
)
    requires
        known.wf(),
        reconciled(known, read, r),
        seen(read.visible_cards, id) <= 255,
    ensures
        r.kind is AuthoritativeReplace <==> read.status is Complete,
        read.status is Complete ==> (r.counts.has(id) <==> shows(read.visible_cards, id)),
        read.status is Complete && r.counts.has(id) ==> r.counts.at(id) == seen(
            read.visible_cards,
            id,
        ),
        r.kind is PartialLowerBoundMerge ==> read.status is Partial,
        r.kind is PartialLowerBoundMerge ==> (r.counts.has(id) <==> known.has(id) || shows(
            read.visible_cards,
            id,
        )),
        r.kind is PartialLowerBoundMerge && r.counts.has(id) ==> {
            let before = if known.has(id) {
                known.at(id) as nat
            } else {
                0
            };
            let now = seen(read.visible_cards, id);
            &&& r.counts.at(id) >= before
            &&& r.counts.at(id) >= now
            &&& r.counts.at(id) == before || r.counts.at(id) == now
        },
{
    copies_are_seen(read.visible_cards, id);
    if r.kind is PartialLowerBoundMerge {
        let count = read.count->0;
        let m = choose|m: TextMap<u8>| #[trigger]
            crate::sidebar::is_merge(m, known, read.visible_cards) && if crate::sidebar::sum(
                m.values(),
            ) > count.observed {
                r.kind == ReconciliationKind::Unchanged && crate::sidebar::same_counts(
                    r.counts,
                    known,
                )
            } else {
                &&& crate::sidebar::same_counts(r.counts, m)
                &&& r.kind == if crate::sidebar::same_counts(m, known) {
                    ReconciliationKind::Unchanged
                } else {
                    ReconciliationKind::PartialLowerBoundMerge
                }
            };
        assert(r.counts.has(id) == m.has(id));
        if m.has(id) {
            assert(r.counts.at(id) == m.at(id));
        }
    }
    if read.status is Complete {
        assert(crate::sidebar::counts_are(r.counts, read.visible_cards));
        if r.counts.has(id) {
            assert(r.counts.at(id) == crate::sidebar::capped(copies_of(read.visible_cards, id)));
        }
    }
}

/// Every line that is a counter of no deck is told as such, and no other line is.
pub proof fn bad_counters_are_told(lines: Seq<(Seq<char>, u32)>, text: Seq<char>)
    ensures
        count_issues(lines).contains(IssueModel::InvalidDeckCount { text }) <==> exists|i: int|
            0 <= i < lines.len() && (#[trigger] lines[i]).0 == text && counter(text)
                == CountParse::Invalid,
    decreases lines.len(),
{
    let issue = IssueModel::InvalidDeckCount { text };
    if lines.len() > 0 {
        let rest = lines.drop_last();
        bad_counters_are_told(rest, text);
        let before = count_issues(rest);
        let all = count_issues(lines);
        if before.contains(issue) {
            let i = choose|i: int|
                0 <= i < rest.len() && (#[trigger] rest[i]).0 == text && counter(text)
                    == CountParse::Invalid;
            assert(lines[i].0 == text);
            let k = choose|k: int| 0 <= k < before.len() && before[k] == issue;
            assert(all[k] == issue);
        }
        if counter(lines.last().0) == CountParse::Invalid && lines.last().0 == text {
            assert(all.last() == issue);
            assert(lines[lines.len() - 1].0 == text);
        }
        if exists|i: int|
            0 <= i < lines.len() && (#[trigger] lines[i]).0 == text && counter(text)
                == CountParse::Invalid {
            let i = choose|i: int|
                0 <= i < lines.len() && (#[trigger] lines[i]).0 == text && counter(text)
                    == CountParse::Invalid;
            if i < rest.len() {
                assert(rest[i].0 == text);
            }
        }
        if all.contains(issue) && !before.contains(issue) {
            let k = choose|k: int| 0 <= k < all.len() && all[k] == issue;
            if k < before.len() {
                assert(before[k] == issue);
            }
            assert(lines[lines.len() - 1].0 == text);
        }
    }
}

/// Every line that cannot be read as one card is told with its own reason, and no other line is.
pub proof fn bad_lines_are_told(
    lines: Seq<(Seq<char>, u32)>,
    cards: Seq<CardModel>,
    issue: IssueModel,
)
    ensures
        row_issues(lines, cards).contains(issue) <==> exists|i: int|
            0 <= i < lines.len() && row(#[trigger] lines[i], cards) == RowModel::Issue(issue),
    decreases lines.len(),
{
    if lines.len() > 0 {
        let rest = lines.drop_last();
        bad_lines_are_told(rest, cards, issue);
        let before = row_issues(rest, cards);
        let all = row_issues(lines, cards);
        if before.contains(issue) {
            let i = choose|i: int|
                0 <= i < rest.len() && row(#[trigger] rest[i], cards) == RowModel::Issue(issue);
            assert(row(lines[i], cards) == RowModel::Issue(issue));
            let k = choose|k: int| 0 <= k < before.len() && before[k] == issue;
            assert(all[k] == issue);
        }
        if row(lines.last(), cards) == RowModel::Issue(issue) {
            assert(all.last() == issue);
            assert(row(lines[lines.len() - 1], cards) == RowModel::Issue(issue));
        }
        if exists|i: int|
            0 <= i < lines.len() && row(#[trigger] lines[i], cards) == RowModel::Issue(issue) {
            let i = choose|i: int|
                0 <= i < lines.len() && row(#[trigger] lines[i], cards) == RowModel::Issue(issue);
            if i < rest.len() {
                assert(row(rest[i], cards) == RowModel::Issue(issue));
            }
        }
        if all.contains(issue) && !before.contains(issue) {
            let k = choose|k: int| 0 <= k < all.len() && all[k] == issue;
            if k < before.len() {
                assert(before[k] == issue);
            }
            assert(row(lines[lines.len() - 1], cards) == RowModel::Issue(issue));
        }
    }
}

/// The copies of a card may be marked by a small or a large letter, or by the sign for it.
pub proof fn copies_may_be_marked_in_three_ways(c: char)
    ensures
        same_letter(c, 'x') ==> multiplies(c),
        c == '\u{d7}' ==> multiplies(c),
        multiplies(c) ==> same_letter(c, 'x') || c as u32 == 215,
{
}

} // verus!
