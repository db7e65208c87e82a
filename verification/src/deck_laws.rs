//! What the analysis of a deck says of the cards in it.
use crate::analysis::AnalysisFacts;
use crate::card_data::CardCache;
use crate::deck_profile::{
    falls_under, is_profile, known_cost_slots, lacks_facts, lacks_metadata, slots, weakness_if,
    DeckProfile, DeckWeakness, SlotKind,
};
use crate::state::EntryModel;
use crate::text::{texts, trimmed};
use vstd::prelude::*;

verus! {

/// The copies of the entries of a deck that pass a test.
pub open spec fn copies(deck: Seq<EntryModel>, test: spec_fn(EntryModel) -> bool) -> nat
    decreases deck.len(),
{
    if deck.len() == 0 {
        0
    } else if test(deck[0]) {
        deck[0].count as nat + copies(deck.skip(1), test)
    } else {
        copies(deck.skip(1), test)
    }
}

/// All copies of a deck.
pub open spec fn all_copies(deck: Seq<EntryModel>) -> nat {
    copies(deck, |e: EntryModel| true)
}

/// The cost of a card, where it is known.
pub open spec fn cost_of(catalog: CardCache, id: Seq<char>) -> Option<u8> {
    match catalog.card(trimmed(id)) {
        Some(card) => card.cost,
        None => None,
    }
}

/// The copies of cards that cost from one number to another.
pub open spec fn copies_costing(
    catalog: CardCache,
    deck: Seq<EntryModel>,
    least: int,
    most: int,
) -> nat {
    copies(
        deck,
        |e: EntryModel|
            cost_of(catalog, e.card_id) matches Some(cost) && least <= cost as int <= most,
    )
}

/// The copies of cards whose cost is known.
pub open spec fn copies_of_known_cost(catalog: CardCache, deck: Seq<EntryModel>) -> nat {
    copies(deck, |e: EntryModel| cost_of(catalog, e.card_id) is Some)
}

/// The copies of cards whose cost is not known.
pub open spec fn copies_of_unknown_cost(catalog: CardCache, deck: Seq<EntryModel>) -> nat {
    copies(deck, |e: EntryModel| cost_of(catalog, e.card_id) is None)
}

/// Whether a card is in the catalog and has a tag.
pub open spec fn tagged(
    catalog: CardCache,
    facts: AnalysisFacts,
    id: Seq<char>,
    tag: Seq<char>,
) -> bool {
    catalog.card(trimmed(id)) is Some && facts.tags_of(trimmed(id)).contains(tag)
}

/// The copies of cards with a tag.
pub open spec fn copies_tagged(
    catalog: CardCache,
    facts: AnalysisFacts,
    deck: Seq<EntryModel>,
    tag: Seq<char>,
) -> nat {
    copies(deck, |e: EntryModel| tagged(catalog, facts, e.card_id, tag))
}

pub(crate) proof fn copies_agree(
    deck: Seq<EntryModel>,
    a: spec_fn(EntryModel) -> bool,
    b: spec_fn(EntryModel) -> bool,
)
    requires
        forall|e: EntryModel| #[trigger] a(e) == b(e),
    ensures
        copies(deck, a) == copies(deck, b),
    decreases deck.len(),
{
    if deck.len() > 0 {
        copies_agree(deck.skip(1), a, b);
        assert(a(deck[0]) == b(deck[0]));
    }
}

pub(crate) proof fn copies_split(
    deck: Seq<EntryModel>,
    whole: spec_fn(EntryModel) -> bool,
    a: spec_fn(EntryModel) -> bool,
    b: spec_fn(EntryModel) -> bool,
)
    requires
        forall|e: EntryModel| #[trigger] whole(e) <==> a(e) || b(e),
        forall|e: EntryModel| !(#[trigger] a(e) && b(e)),
    ensures
        copies(deck, whole) == copies(deck, a) + copies(deck, b),
    decreases deck.len(),
{
    if deck.len() > 0 {
        copies_split(deck.skip(1), whole, a, b);
        assert(whole(deck[0]) <==> a(deck[0]) || b(deck[0]));
        assert(!(a(deck[0]) && b(deck[0])));
    }
}

pub(crate) proof fn copies_of_longer(
    deck: Seq<EntryModel>,
    e: EntryModel,
    test: spec_fn(EntryModel) -> bool,
)
    ensures
        copies(deck.push(e), test) == copies(deck, test) + if test(e) {
            e.count as nat
        } else {
            0
        },
    decreases deck.len(),
{
    let all = deck.push(e);
    if deck.len() == 0 {
        assert(all.skip(1) =~= Seq::<EntryModel>::empty());
        assert(copies(all.skip(1), test) == 0);
    } else {
        assert(all.skip(1) =~= deck.skip(1).push(e));
        copies_of_longer(deck.skip(1), e, test);
    }
}

proof fn slots_are_copies(
    kind: SlotKind,
    catalog: CardCache,
    facts: AnalysisFacts,
    deck: Seq<EntryModel>,
    test: spec_fn(EntryModel) -> bool,
)
    requires
        forall|e: EntryModel|
            #[trigger] test(e) <==> crate::deck_profile::falls_under(kind, catalog, facts, e),
    ensures
        slots(kind, catalog, facts, deck) == copies(deck, test),
    decreases deck.len(),
{
    if deck.len() > 0 {
        slots_are_copies(kind, catalog, facts, deck.drop_last(), test);
        copies_of_longer(deck.drop_last(), deck.last(), test);
        assert(deck.drop_last().push(deck.last()) =~= deck);
        assert(test(deck.last()) <==> crate::deck_profile::falls_under(
            kind,
            catalog,
            facts,
            deck.last(),
        ));
    }
}

pub(crate) proof fn band_slots(
    catalog: CardCache,
    facts: AnalysisFacts,
    deck: Seq<EntryModel>,
    least: u8,
    most: u8,
)
    ensures
        slots(SlotKind::Cost { least, most }, catalog, facts, deck) == copies_costing(
            catalog,
            deck,
            least as int,
            most as int,
        ),
{
    slots_are_copies(
        SlotKind::Cost { least, most },
        catalog,
        facts,
        deck,
        |e: EntryModel|
            cost_of(catalog, e.card_id) matches Some(cost) && least as int <= cost as int
                <= most as int,
    );
}

pub(crate) proof fn tag_slots(
    catalog: CardCache,
    facts: AnalysisFacts,
    deck: Seq<EntryModel>,
    tag: Seq<char>,
)
    ensures
        slots(SlotKind::Tagged { tag }, catalog, facts, deck) == copies_tagged(
            catalog,
            facts,
            deck,
            tag,
        ),
{
    slots_are_copies(
        SlotKind::Tagged { tag },
        catalog,
        facts,
        deck,
        |e: EntryModel| tagged(catalog, facts, e.card_id, tag),
    );
}

pub(crate) proof fn other_slots(catalog: CardCache, facts: AnalysisFacts, deck: Seq<EntryModel>)
    ensures
        slots(SlotKind::All, catalog, facts, deck) == all_copies(deck),
        slots(SlotKind::UnknownCost, catalog, facts, deck) == copies_of_unknown_cost(catalog, deck),
{
    slots_are_copies(SlotKind::All, catalog, facts, deck, |e: EntryModel| true);
    slots_are_copies(
        SlotKind::UnknownCost,
        catalog,
        facts,
        deck,
        |e: EntryModel| cost_of(catalog, e.card_id) is None,
    );
}

pub(crate) proof fn bands_are_all(catalog: CardCache, deck: Seq<EntryModel>)
    ensures
        copies_of_known_cost(catalog, deck) == copies_costing(catalog, deck, 0, 2) + copies_costing(
            catalog,
            deck,
            3,
            3,
        ) + copies_costing(catalog, deck, 4, 6) + copies_costing(catalog, deck, 7, 255),
        all_copies(deck) == copies_of_known_cost(catalog, deck) + copies_of_unknown_cost(
            catalog,
            deck,
        ),
{
    let known = |e: EntryModel| cost_of(catalog, e.card_id) is Some;
    let unknown = |e: EntryModel| cost_of(catalog, e.card_id) is None;
    copies_split(deck, |e: EntryModel| true, known, unknown);
    let between = |least: int, most: int|
        (|e: EntryModel|
            cost_of(catalog, e.card_id) matches Some(cost) && least <= cost as int <= most);
    copies_split(deck, known, between(0, 6), between(7, 255));
    copies_split(deck, between(0, 6), between(0, 3), between(4, 6));
    copies_split(deck, between(0, 3), between(0, 2), between(3, 3));
    copies_agree(
        deck,
        between(0, 2),
        |e: EntryModel| cost_of(catalog, e.card_id) matches Some(cost) && 0 <= cost as int <= 2,
    );
    copies_agree(
        deck,
        between(3, 3),
        |e: EntryModel| cost_of(catalog, e.card_id) matches Some(cost) && 3 <= cost as int <= 3,
    );
    copies_agree(
        deck,
        between(4, 6),
        |e: EntryModel| cost_of(catalog, e.card_id) matches Some(cost) && 4 <= cost as int <= 6,
    );
    copies_agree(
        deck,
        between(7, 255),
        |e: EntryModel| cost_of(catalog, e.card_id) matches Some(cost) && 7 <= cost as int <= 255,
    );
}

/// A number of copies, or the most that a count of a profile can be.
pub open spec fn counted(n: nat) -> nat {
    if n <= 65535 {
        n
    } else {
        65535
    }
}

/// A profile counts the copies of the deck: all of them, those of each band of costs, those whose
/// cost is not known, and those with each feature.
pub proof fn profiles_count_the_deck(
    p: DeckProfile,
    catalog: CardCache,
    facts: AnalysisFacts,
    deck: Seq<EntryModel>,
    expected: Option<u16>,
)
    requires
        is_profile(p, catalog, facts, deck, expected),
    ensures
        p.observed_slots == counted(all_copies(deck)),
        p.mana_curve.zero_to_two == counted(copies_costing(catalog, deck, 0, 2)),
        p.mana_curve.three == counted(copies_costing(catalog, deck, 3, 3)),
        p.mana_curve.four_to_six == counted(copies_costing(catalog, deck, 4, 6)),
        p.mana_curve.seven_plus == counted(copies_costing(catalog, deck, 7, 255)),
        p.mana_curve.unknown_cost == counted(copies_of_unknown_cost(catalog, deck)),
        p.uncertainty.unknown_cost_slots == counted(copies_of_unknown_cost(catalog, deck)),
        p.early_game_density == counted(copies_costing(catalog, deck, 0, 2)),
        p.removal == copies_tagged(catalog, facts, deck, "removal"@),
        p.board_clears == copies_tagged(catalog, facts, deck, "board_clear"@),
        p.card_draw == copies_tagged(catalog, facts, deck, "card_draw"@),
        p.discover_and_generation == counted(
            copies_tagged(catalog, facts, deck, "discover"@) + copies_tagged(
                catalog,
                facts,
                deck,
                "generation"@,
            ),
        ),
        p.reach == copies_tagged(catalog, facts, deck, "reach"@),
        p.taunts == copies_tagged(catalog, facts, deck, "taunt"@),
        p.stabilization == copies_tagged(catalog, facts, deck, "stabilization"@),
        forall|category: Seq<char>| #[trigger]
            p.synergy_counts.has(category) ==> p.synergy_counts.at(category) == copies_tagged(
                catalog,
                facts,
                deck,
                "synergy:"@ + category,
            ),
        p.expected_slots == expected,
        expected matches Some(n) ==> p.uncertainty.deck_slots_not_observed == Some(
            if p.observed_slots < n {
                (n - p.observed_slots) as u16
            } else {
                0u16
            },
        ),
        expected is None ==> p.uncertainty.deck_slots_not_observed is None,
{
    other_slots(catalog, facts, deck);
    band_slots(catalog, facts, deck, 0, 2);
    band_slots(catalog, facts, deck, 3, 3);
    band_slots(catalog, facts, deck, 4, 6);
    band_slots(catalog, facts, deck, 7, 255);
    tag_slots(catalog, facts, deck, "removal"@);
    tag_slots(catalog, facts, deck, "board_clear"@);
    tag_slots(catalog, facts, deck, "card_draw"@);
    tag_slots(catalog, facts, deck, "discover"@);
    tag_slots(catalog, facts, deck, "generation"@);
    tag_slots(catalog, facts, deck, "reach"@);
    tag_slots(catalog, facts, deck, "taunt"@);
    tag_slots(catalog, facts, deck, "stabilization"@);
    assert forall|category: Seq<char>| #[trigger]
        p.synergy_counts.has(category) implies p.synergy_counts.at(category) == copies_tagged(
        catalog,
        facts,
        deck,
        "synergy:"@ + category,
    ) by {
        tag_slots(catalog, facts, deck, "synergy:"@ + category);
    }
}

/// The pace of a deck follows its cheap and its expensive cards: at least four more cards of up to
/// two mana than of seven and more make it fast, at least three more of the latter make it slow.
/// It is left open exactly where fewer than eight costs are known, or a cost, an expected card or
/// the facts of a card are missing.
pub proof fn paces_follow_cheap_and_expensive_cards(
    p: DeckProfile,
    catalog: CardCache,
    facts: AnalysisFacts,
    deck: Seq<EntryModel>,
    expected: Option<u16>,
)
    requires
        is_profile(p, catalog, facts, deck, expected),
        all_copies(deck) <= 65535,
    ensures
        ({
            let cheap = copies_costing(catalog, deck, 0, 2);
            let expensive = copies_costing(catalog, deck, 7, 255);
            let open = {
                ||| copies_of_known_cost(catalog, deck) < 8
                ||| copies_of_unknown_cost(catalog, deck) > 0
                ||| expected matches Some(n) && all_copies(deck) < n
                ||| p.uncertainty.missing_analysis_fact_ids@.len() > 0
            };
            &&& p.expected_speed is Uncertain <==> open
            &&& p.expected_speed is Tempo <==> !open && cheap >= expensive + 4
            &&& p.expected_speed is Control <==> !open && expensive >= cheap + 3
            &&& p.expected_speed is Midrange <==> !open && cheap < expensive + 4 && expensive < cheap
                + 3
        }),
{
    profiles_count_the_deck(p, catalog, facts, deck, expected);
    bands_are_all(catalog, deck);
}

/// The same of any deck, over the counts of its profile, which stop at the most they can be.
pub proof fn paces_follow_the_curve(
    p: DeckProfile,
    catalog: CardCache,
    facts: AnalysisFacts,
    deck: Seq<EntryModel>,
    expected: Option<u16>,
)
    requires
        is_profile(p, catalog, facts, deck, expected),
    ensures
        p.expected_speed is Tempo ==> p.mana_curve.zero_to_two >= counted(
            (p.mana_curve.seven_plus + 4) as nat,
        ),
        p.expected_speed is Control ==> p.mana_curve.seven_plus >= counted(
            (p.mana_curve.zero_to_two + 3) as nat,
        ) && p.mana_curve.zero_to_two < counted((p.mana_curve.seven_plus + 4) as nat),
        p.expected_speed is Midrange ==> p.mana_curve.zero_to_two < p.mana_curve.seven_plus + 4
            && p.mana_curve.seven_plus < p.mana_curve.zero_to_two + 3,
{
}

proof fn each_weakness_is_named_once(a: bool, b: bool, c: bool, d: bool)
    ensures
        ({
            let w = weakness_if(a, DeckWeakness::InsufficientEarlyBoardPresence) + weakness_if(
                b,
                DeckWeakness::LimitedRemoval,
            ) + weakness_if(c, DeckWeakness::LimitedCardDraw) + weakness_if(
                d,
                DeckWeakness::ExpensiveCurve,
            );
            &&& w.contains(DeckWeakness::InsufficientEarlyBoardPresence) <==> a
            &&& w.contains(DeckWeakness::LimitedRemoval) <==> b
            &&& w.contains(DeckWeakness::LimitedCardDraw) <==> c
            &&& w.contains(DeckWeakness::ExpensiveCurve) <==> d
            &&& forall|i: int, j: int|
                0 <= i < j < w.len() ==> #[trigger] w[i] != #[trigger] w[j]
        }),
{
    let w = weakness_if(a, DeckWeakness::InsufficientEarlyBoardPresence) + weakness_if(
        b,
        DeckWeakness::LimitedRemoval,
    ) + weakness_if(c, DeckWeakness::LimitedCardDraw) + weakness_if(
        d,
        DeckWeakness::ExpensiveCurve,
    );
    let n1 = if a {
        1int
    } else {
        0
    };
    let n2 = n1 + if b {
        1int
    } else {
        0
    };
    let n3 = n2 + if c {
        1int
    } else {
        0
    };
    if a {
        assert(w[0] == DeckWeakness::InsufficientEarlyBoardPresence);
    }
    if b {
        assert(w[n1] == DeckWeakness::LimitedRemoval);
    }
    if c {
        assert(w[n2] == DeckWeakness::LimitedCardDraw);
    }
    if d {
        assert(w[n3] == DeckWeakness::ExpensiveCurve);
    }
}

/// A deck is called weak exactly where it is. With eight known costs: in the early game where less
/// than a quarter of them is cheap, and expensive where more cost seven and above than up to two.
/// Without removal once ten costs are known, without card draw once twelve are, and both only
/// where the facts of all cards are known. No weakness is named twice.
pub proof fn weaknesses_are_real(
    p: DeckProfile,
    catalog: CardCache,
    facts: AnalysisFacts,
    deck: Seq<EntryModel>,
    expected: Option<u16>,
)
    requires
        is_profile(p, catalog, facts, deck, expected),
        all_copies(deck) <= 65535,
    ensures
        ({
            let known = copies_of_known_cost(catalog, deck);
            let cheap = copies_costing(catalog, deck, 0, 2);
            let expensive = copies_costing(catalog, deck, 7, 255);
            let judged = p.uncertainty.missing_analysis_fact_ids@.len() == 0;
            &&& p.weaknesses@.contains(DeckWeakness::InsufficientEarlyBoardPresence) <==> known >= 8
                && cheap * 4 < known
            &&& p.weaknesses@.contains(DeckWeakness::ExpensiveCurve) <==> known >= 8 && cheap
                < expensive
            &&& p.weaknesses@.contains(DeckWeakness::LimitedRemoval) <==> judged && known >= 10
                && copies_tagged(catalog, facts, deck, "removal"@) == 0
            &&& p.weaknesses@.contains(DeckWeakness::LimitedCardDraw) <==> judged && known >= 12
                && copies_tagged(catalog, facts, deck, "card_draw"@) == 0
            &&& forall|i: int, j: int|
                0 <= i < j < p.weaknesses@.len() ==> #[trigger] p.weaknesses@[i]
                    != #[trigger] p.weaknesses@[j]
        }),
{
    profiles_count_the_deck(p, catalog, facts, deck, expected);
    bands_are_all(catalog, deck);
    let judged = p.uncertainty.missing_analysis_fact_ids@.len() == 0;
    let known = copies_of_known_cost(catalog, deck);
    let cheap = copies_costing(catalog, deck, 0, 2);
    assert(known_cost_slots(p.observed_slots, p.mana_curve) == known);
    each_weakness_is_named_once(
        known >= 8 && 4 * cheap < known,
        judged && known >= 10 && p.removal == 0,
        judged && known >= 12 && p.card_draw == 0,
        known >= 8 && copies_costing(catalog, deck, 7, 255) > cheap,
    );
}

/// A profile names the ids of the cards that the catalog does not know, and of those it knows but
/// of which no facts are known. It counts a category where some card of the deck belongs to it.
pub proof fn profiles_name_what_is_missing(
    p: DeckProfile,
    catalog: CardCache,
    facts: AnalysisFacts,
    deck: Seq<EntryModel>,
    expected: Option<u16>,
    i: int,
    category: Seq<char>,
)
    requires
        is_profile(p, catalog, facts, deck, expected),
        0 <= i < deck.len(),
    ensures
        ({
            let id = deck[i].card_id;
            let known = catalog.card(trimmed(id)) is Some;
            let judged = facts.record(trimmed(id)) is Some;
            &&& texts(p.uncertainty.missing_metadata_ids@).contains(id) <==> !known
            &&& texts(p.uncertainty.missing_analysis_fact_ids@).contains(id) <==> known && !judged
        }),
        forall|id: Seq<char>| #[trigger]
            texts(p.uncertainty.missing_metadata_ids@).contains(id) ==> exists|k: int|
                0 <= k < deck.len() && (#[trigger] deck[k]).card_id == id,
        forall|id: Seq<char>| #[trigger]
            texts(p.uncertainty.missing_analysis_fact_ids@).contains(id) ==> exists|k: int|
                0 <= k < deck.len() && (#[trigger] deck[k]).card_id == id,
        p.synergy_counts.has(category) <==> exists|k: int|
            0 <= k < deck.len() && tagged(
                catalog,
                facts,
                (#[trigger] deck[k]).card_id,
                "synergy:"@ + category,
            ),
{
    let id = deck[i].card_id;
    let kind = SlotKind::Tagged { tag: "synergy:"@ + category };
    assert(lacks_metadata(catalog, deck, id) <==> catalog.card(trimmed(id)) is None);
    assert(lacks_facts(catalog, facts, deck, id) <==> catalog.card(trimmed(id)) is Some
        && facts.record(trimmed(id)) is None);
    if exists|k: int|
        0 <= k < deck.len() && tagged(
            catalog,
            facts,
            (#[trigger] deck[k]).card_id,
            "synergy:"@ + category,
        ) {
        let k = choose|k: int|
            0 <= k < deck.len() && tagged(
                catalog,
                facts,
                (#[trigger] deck[k]).card_id,
                "synergy:"@ + category,
            );
        assert(falls_under(kind, catalog, facts, deck[k]));
    }
}

} // verus!
