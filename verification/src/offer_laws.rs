//! What the analysis of an offer says of the offered card and the deck it would join.
use crate::analysis::AnalysisFacts;
use crate::card_data::CardCache;
use crate::deck_laws::{all_copies, copies, copies_tagged, cost_of, other_slots, tag_slots, tagged};
use crate::deck_profile::{slots, SlotKind};
use crate::offer::{
    a_pick_adds_one_slot, categories, is_offer_analysis, picked, signals, OfferAnalysis,
    SignalModel, VerifiedSignal,
};
use crate::state::EntryModel;
use crate::text::{occurs_at, texts, trimmed};
use crate::text_map::sorted_texts_are_distinct;
use vstd::prelude::*;

verus! {

/// Whether another copy of a card can be counted.
pub open spec fn room_for(deck: Seq<EntryModel>, id: Seq<char>) -> bool {
    forall|i: int| 0 <= i < deck.len() && (#[trigger] deck[i]).card_id == id ==> deck[i].count < 255
}

/// One where a statement holds, and nothing where it does not.
pub open spec fn one_if(holds: bool) -> int {
    if holds {
        1
    } else {
        0
    }
}

proof fn copies_are_of_the_deck(deck: Seq<EntryModel>, test: spec_fn(EntryModel) -> bool)
    ensures
        copies(deck, test) <= all_copies(deck),
    decreases deck.len(),
{
    if deck.len() > 0 {
        copies_are_of_the_deck(deck.skip(1), test);
    }
}

proof fn slots_of_kind_are_of_the_deck(
    kind: SlotKind,
    catalog: CardCache,
    facts: AnalysisFacts,
    deck: Seq<EntryModel>,
)
    ensures
        slots(kind, catalog, facts, deck) <= slots(SlotKind::All, catalog, facts, deck),
    decreases deck.len(),
{
    if deck.len() > 0 {
        slots_of_kind_are_of_the_deck(kind, catalog, facts, deck.drop_last());
    }
}

proof fn a_pick_counts_once(
    kind: SlotKind,
    catalog: CardCache,
    facts: AnalysisFacts,
    deck: Seq<EntryModel>,
    id: Seq<char>,
)
    requires
        room_for(deck, id),
        all_copies(deck) < 16383,
    ensures
        slots(kind, catalog, facts, picked(deck, id)) == slots(kind, catalog, facts, deck) + one_if(
            crate::deck_profile::falls_under(
                kind,
                catalog,
                facts,
                EntryModel { card_id: id, count: 1 },
            ),
        ),
        slots(kind, catalog, facts, deck) < 16383,
{
    a_pick_adds_one_slot(kind, catalog, facts, deck, id);
    slots_of_kind_are_of_the_deck(kind, catalog, facts, deck);
    other_slots(catalog, facts, deck);
}

/// A pick adds one to the band of its own cost, one to each feature and synergy it is tagged with,
/// and nothing to anything else.
pub proof fn picks_count_where_they_belong(
    r: OfferAnalysis,
    catalog: CardCache,
    facts: AnalysisFacts,
    deck: Seq<EntryModel>,
    expected: Option<u16>,
    id: Seq<char>,
)
    requires
        is_offer_analysis(r, catalog, facts, deck, expected, id),
        room_for(deck, id),
        all_copies(deck) < 16383,
    ensures
        r.card_id@ == id,
        ({
            let d = r.deck_delta;
            let cost = cost_of(catalog, id);
            &&& d.zero_to_two == one_if(cost matches Some(c) && c < 3)
            &&& d.three == one_if(cost == Some(3u8))
            &&& d.four_to_six == one_if(cost matches Some(c) && 3 < c && c < 7)
            &&& d.seven_plus == one_if(cost matches Some(c) && c >= 7)
            &&& d.unknown_cost == one_if(cost is None)
            &&& d.removal == one_if(tagged(catalog, facts, id, "removal"@))
            &&& d.board_clears == one_if(tagged(catalog, facts, id, "board_clear"@))
            &&& d.card_draw == one_if(tagged(catalog, facts, id, "card_draw"@))
            &&& d.discover_and_generation == one_if(tagged(catalog, facts, id, "discover"@))
                + one_if(tagged(catalog, facts, id, "generation"@))
            &&& d.reach == one_if(tagged(catalog, facts, id, "reach"@))
            &&& d.taunts == one_if(tagged(catalog, facts, id, "taunt"@))
            &&& d.stabilization == one_if(tagged(catalog, facts, id, "stabilization"@))
            &&& forall|k: Seq<char>| #[trigger]
                d.synergy_counts.has(k) <==> tagged(catalog, facts, id, "synergy:"@ + k)
            &&& forall|k: Seq<char>| #[trigger]
                d.synergy_counts.has(k) ==> d.synergy_counts.at(k) == 1
        }),
        expected matches Some(n) ==> r.uncertainty.deck_slots_not_observed == Some(
            if all_copies(deck) + 1 < n {
                (n - all_copies(deck) - 1) as u16
            } else {
                0u16
            },
        ),
        expected is None ==> r.uncertainty.deck_slots_not_observed is None,
{
    a_pick_counts_once(SlotKind::Cost { least: 0, most: 2 }, catalog, facts, deck, id);
    a_pick_counts_once(SlotKind::Cost { least: 3, most: 3 }, catalog, facts, deck, id);
    a_pick_counts_once(SlotKind::Cost { least: 4, most: 6 }, catalog, facts, deck, id);
    a_pick_counts_once(SlotKind::Cost { least: 7, most: 255 }, catalog, facts, deck, id);
    a_pick_counts_once(SlotKind::UnknownCost, catalog, facts, deck, id);
    a_pick_counts_once(SlotKind::All, catalog, facts, deck, id);
    other_slots(catalog, facts, deck);
    a_pick_counts_once(SlotKind::Tagged { tag: "removal"@ }, catalog, facts, deck, id);
    a_pick_counts_once(SlotKind::Tagged { tag: "board_clear"@ }, catalog, facts, deck, id);
    a_pick_counts_once(SlotKind::Tagged { tag: "card_draw"@ }, catalog, facts, deck, id);
    a_pick_counts_once(SlotKind::Tagged { tag: "discover"@ }, catalog, facts, deck, id);
    a_pick_counts_once(SlotKind::Tagged { tag: "generation"@ }, catalog, facts, deck, id);
    a_pick_counts_once(SlotKind::Tagged { tag: "reach"@ }, catalog, facts, deck, id);
    a_pick_counts_once(SlotKind::Tagged { tag: "taunt"@ }, catalog, facts, deck, id);
    a_pick_counts_once(SlotKind::Tagged { tag: "stabilization"@ }, catalog, facts, deck, id);
    assert forall|k: Seq<char>| #[trigger]
        r.deck_delta.synergy_counts.has(k) <==> tagged(catalog, facts, id, "synergy:"@ + k) by {
        a_pick_counts_once(SlotKind::Tagged { tag: "synergy:"@ + k }, catalog, facts, deck, id);
    }
    assert forall|k: Seq<char>| #[trigger]
        r.deck_delta.synergy_counts.has(k) implies r.deck_delta.synergy_counts.at(k) == 1 by {
        a_pick_counts_once(SlotKind::Tagged { tag: "synergy:"@ + k }, catalog, facts, deck, id);
    }
}

proof fn categories_are_tags(tags: Seq<Seq<char>>, prefix: Seq<char>, c: Seq<char>)
    ensures
        categories(tags, prefix).contains(c) <==> tags.contains(prefix + c),
    decreases tags.len(),
{
    let all = categories(tags, prefix);
    if tags.len() > 0 {
        let rest = tags.drop_last();
        let tag = tags.last();
        categories_are_tags(rest, prefix, c);
        assert(tags =~= rest.push(tag));
        let before = categories(rest, prefix);
        if occurs_at(tag, prefix, 0) {
            let name = tag.skip(prefix.len() as int);
            assert(prefix + name =~= tag) by {
                assert(tag.subrange(0, prefix.len() as int) + name =~= tag);
            }
            assert(all == before.push(name));
            if before.contains(c) {
                let i = choose|i: int| 0 <= i < before.len() && before[i] == c;
                assert(all[i] == c);
            }
            if c == name {
                assert(all[before.len() as int] == c);
                assert(tags[rest.len() as int] == prefix + c);
            }
            if prefix + c == tag {
                assert((prefix + c).skip(prefix.len() as int) =~= c);
            }
        } else {
            if prefix + c == tag {
                assert((prefix + c).subrange(0, prefix.len() as int) =~= prefix);
            }
        }
        if rest.contains(prefix + c) {
            let i = choose|i: int| 0 <= i < rest.len() && rest[i] == prefix + c;
            assert(tags[i] == prefix + c);
        }
        if all.contains(c) {
            let i = choose|i: int| 0 <= i < all.len() && all[i] == c;
            if i < before.len() {
                assert(before[i] == c);
            }
        }
        if tags.contains(prefix + c) {
            let i = choose|i: int| 0 <= i < tags.len() && tags[i] == prefix + c;
            if i < rest.len() {
                assert(rest[i] == prefix + c);
            }
        }
    }
}

/// Whether a signal tells a category with what a deck holds of it before and after a pick.
pub open spec fn tells(
    rows: Seq<SignalModel>,
    category: Seq<char>,
    before: nat,
    after: nat,
) -> bool {
    exists|i: int|
        0 <= i < rows.len() && (#[trigger] rows[i]).category == category
            && rows[i].observed_before_pick == before && rows[i].observed_after_pick == after
}

/// Whether a signal tells a category.
pub open spec fn names_category(rows: Seq<SignalModel>, category: Seq<char>) -> bool {
    exists|i: int| 0 <= i < rows.len() && (#[trigger] rows[i]).category == category
}

proof fn signals_by_category(
    wanted: Seq<Seq<char>>,
    supported: bool,
    catalog: CardCache,
    facts: AnalysisFacts,
    before: Seq<EntryModel>,
    after: Seq<EntryModel>,
    c: Seq<char>,
)
    ensures
        ({
            let rows = signals(wanted, supported, catalog, facts, before, after);
            let held = copies_tagged(catalog, facts, before, "synergy:"@ + c);
            let then = copies_tagged(catalog, facts, after, "synergy:"@ + c);
            &&& names_category(rows, c) <==> wanted.contains(c) && supported == (held > 0)
            &&& names_category(rows, c) ==> tells(rows, c, held, then)
            &&& forall|i: int|
                0 <= i < rows.len() && (#[trigger] rows[i]).category == c
                    ==> rows[i].observed_before_pick == held && rows[i].observed_after_pick == then
        }),
    decreases wanted.len(),
{
    tag_slots(catalog, facts, before, "synergy:"@ + c);
    tag_slots(catalog, facts, after, "synergy:"@ + c);
    let rows = signals(wanted, supported, catalog, facts, before, after);
    let held = copies_tagged(catalog, facts, before, "synergy:"@ + c);
    let then = copies_tagged(catalog, facts, after, "synergy:"@ + c);
    if wanted.len() > 0 {
        let rest = wanted.drop_last();
        let old = signals(rest, supported, catalog, facts, before, after);
        signals_by_category(rest, supported, catalog, facts, before, after, c);
        assert(wanted =~= rest.push(wanted.last()));
        if wanted.contains(c) && c != wanted.last() {
            let i = choose|i: int| 0 <= i < wanted.len() && wanted[i] == c;
            assert(rest[i] == c);
        }
        if rest.contains(c) {
            let i = choose|i: int| 0 <= i < rest.len() && rest[i] == c;
            assert(wanted[i] == c);
        }
        if c == wanted.last() {
            assert(wanted[rest.len() as int] == c);
        }
        if rows.len() > old.len() {
            assert(rows.drop_last() =~= old);
            assert(rows.last().category == wanted.last());
            if c == wanted.last() {
                assert(rows[old.len() as int].category == c);
            }
            if names_category(old, c) {
                let i = choose|i: int| 0 <= i < old.len() && (#[trigger] old[i]).category == c;
                assert(rows[i].category == c);
            }
            if names_category(rows, c) && c != wanted.last() {
                let i = choose|i: int| 0 <= i < rows.len() && (#[trigger] rows[i]).category == c;
                assert(old[i].category == c);
            }
            assert forall|i: int| 0 <= i < rows.len() && (#[trigger] rows[i]).category == c implies
                rows[i].observed_before_pick == held && rows[i].observed_after_pick == then by {
                if i < old.len() {
                    assert(old[i].category == c);
                }
            }
            if names_category(rows, c) {
                let i = choose|i: int| 0 <= i < rows.len() && (#[trigger] rows[i]).category == c;
                assert(rows[i].observed_before_pick == held && rows[i].observed_after_pick == then);
            }
        } else {
            assert(rows == old);
        }
    }
}

/// An offered card's synergies are those it is tagged with and the deck already holds cards of; its
/// anti-synergies are the requirements that no card of the deck serves. Each tells how many such
/// cards the deck holds, and how many it would with the card.
pub proof fn signals_tell_what_the_deck_holds(
    r: OfferAnalysis,
    catalog: CardCache,
    facts: AnalysisFacts,
    deck: Seq<EntryModel>,
    expected: Option<u16>,
    id: Seq<char>,
    c: Seq<char>,
)
    requires
        is_offer_analysis(r, catalog, facts, deck, expected, id),
        room_for(deck, id),
        all_copies(deck) < 16383,
    ensures
        ({
            let good = r.verified_synergies@.map_values(|s: VerifiedSignal| s@);
            let bad = r.verified_anti_synergies@.map_values(|s: VerifiedSignal| s@);
            let tags = facts.tags_of(trimmed(id));
            let held = copies_tagged(catalog, facts, deck, "synergy:"@ + c);
            let then = held + one_if(tagged(catalog, facts, id, "synergy:"@ + c));
            &&& names_category(good, c) <==> tags.contains("synergy:"@ + c) && held > 0
            &&& names_category(bad, c) <==> tags.contains("requires:"@ + c) && held == 0
            &&& forall|i: int|
                0 <= i < good.len() && (#[trigger] good[i]).category == c
                    ==> good[i].observed_before_pick == held && good[i].observed_after_pick == then
            &&& forall|i: int|
                0 <= i < bad.len() && (#[trigger] bad[i]).category == c
                    ==> bad[i].observed_before_pick == 0 && bad[i].observed_after_pick == then
        }),
{
    let tags = facts.tags_of(trimmed(id));
    let after = picked(deck, id);
    categories_are_tags(tags, "synergy:"@, c);
    categories_are_tags(tags, "requires:"@, c);
    signals_by_category(categories(tags, "synergy:"@), true, catalog, facts, deck, after, c);
    signals_by_category(categories(tags, "requires:"@), false, catalog, facts, deck, after, c);
    a_pick_counts_once(SlotKind::Tagged { tag: "synergy:"@ + c }, catalog, facts, deck, id);
    tag_slots(catalog, facts, deck, "synergy:"@ + c);
    tag_slots(catalog, facts, after, "synergy:"@ + c);
}

/// Whether tags name a category, as a synergy or as a requirement.
pub open spec fn named(tags: Seq<Seq<char>>, c: Seq<char>) -> bool {
    tags.contains("synergy:"@ + c) || tags.contains("requires:"@ + c)
}

/// Whether tags name a requirement.
pub open spec fn requires_something(tags: Seq<Seq<char>>) -> bool {
    exists|c: Seq<char>| tags.contains(#[trigger] ("requires:"@ + c))
}

/// Whether tags name a category.
pub open spec fn names_something(tags: Seq<Seq<char>>) -> bool {
    exists|c: Seq<char>| #[trigger] named(tags, c)
}

/// Whether tags name two different categories.
pub open spec fn names_several(tags: Seq<Seq<char>>) -> bool {
    exists|c: Seq<char>, d: Seq<char>| c != d && #[trigger] named(tags, c) && #[trigger] named(tags, d)
}

/// How far a pick commits the draft follows the categories it names. It is unknown exactly where
/// the card or its facts are. Otherwise a card that names none leaves all open, one that names a
/// requirement among several categories commits strongly, and one that names a single category,
/// and does not require it, commits lightly. The priorities are the named categories.
pub proof fn commitments_follow_the_named_categories(
    r: OfferAnalysis,
    catalog: CardCache,
    facts: AnalysisFacts,
    deck: Seq<EntryModel>,
    expected: Option<u16>,
    id: Seq<char>,
)
    requires
        is_offer_analysis(r, catalog, facts, deck, expected, id),
    ensures
        ({
            let o = r.draft_optionality;
            let tags = facts.tags_of(trimmed(id));
            let known = catalog.card(trimmed(id)) is Some && facts.record(trimmed(id)) is Some;
            &&& o.commitment is Unknown <==> !known
            &&& o.commitment is Open <==> known && !names_something(tags)
            &&& o.commitment is Strong <==> known && requires_something(tags) && names_several(tags)
            &&& o.commitment is Light <==> known && names_something(tags) && !requires_something(tags)
                && !names_several(tags)
            &&& o.preserves_open_paths <==> !names_something(tags)
            &&& forall|c: Seq<char>| #[trigger]
                texts(o.future_priorities@).contains(c) <==> named(tags, c)
        }),
{
    let o = r.draft_optionality;
    let tags = facts.tags_of(trimmed(id));
    let list = texts(o.future_priorities@);
    let needs = categories(tags, "requires:"@);
    assert forall|c: Seq<char>| #[trigger] list.contains(c) <==> named(tags, c) by {
        categories_are_tags(tags, "synergy:"@, c);
        categories_are_tags(tags, "requires:"@, c);
    }
    if list.len() > 0 {
        assert(list.contains(list[0]));
        assert(named(tags, list[0]));
    }
    if names_something(tags) {
        let c = choose|c: Seq<char>| #[trigger] named(tags, c);
        assert(list.contains(c));
    }
    if list.len() > 1 {
        assert(list.contains(list[0]));
        assert(list.contains(list[1]));
        assert(named(tags, list[0]) && named(tags, list[1]));
        if list[0] == list[1] {
            sorted_texts_are_distinct(list, 0, 1);
        }
    }
    if names_several(tags) {
        let (c, d) = choose|c: Seq<char>, d: Seq<char>|
            c != d && #[trigger] named(tags, c) && #[trigger] named(tags, d);
        assert(list.contains(c) && list.contains(d));
        let i = choose|i: int| 0 <= i < list.len() && list[i] == c;
        let j = choose|j: int| 0 <= j < list.len() && list[j] == d;
        assert(i != j);
    }
    if needs.len() > 0 {
        assert(needs.contains(needs[0]));
        categories_are_tags(tags, "requires:"@, needs[0]);
    }
    if requires_something(tags) {
        let c = choose|c: Seq<char>| tags.contains(#[trigger] ("requires:"@ + c));
        categories_are_tags(tags, "requires:"@, c);
        assert(needs.contains(c));
        assert(named(tags, c));
    }
}

} // verus!
