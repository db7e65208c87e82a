//! What the adjustments of a rating say of the offered card and the deck it would join.
use crate::analysis::AnalysisFacts;
use crate::card_data::{CardCache, CardModel};
use crate::deck_laws::{
    band_slots, bands_are_all, copies, copies_costing, copies_of_known_cost, copies_tagged, cost_of,
    counted, tag_slots,
};
use crate::deck_profile::{curve_of, AnalysisInput};
use crate::offer::categories;
use crate::ratings::{CardRating, ProviderRating};
use crate::scoring::{
    adjustments_for, board_card, curve_rows, delta_sum, known_slots, limited, measured, repeat_rows,
    requirement_rows, score_with_ratings, synergy_rows, weapon, weapon_rows, weight, with_limit,
    AdjustmentKind, AdjustmentModel, Measure, OfferScore,
};
use crate::state::EntryModel;
use crate::text::{lower_ascii_text, occurs_at, trimmed, upper_ascii_text};
use vstd::prelude::*;

verus! {

/// What the entries of a deck amount to.
pub open spec fn amount(deck: Seq<EntryModel>, worth: spec_fn(EntryModel) -> nat) -> nat
    decreases deck.len(),
{
    if deck.len() == 0 {
        0
    } else {
        worth(deck[0]) + amount(deck.skip(1), worth)
    }
}

/// Whether a text is a word in whatever letter case. The word is given in capitals.
pub open spec fn spells(s: Seq<char>, word: Seq<char>) -> bool {
    &&& s.len() == word.len()
    &&& forall|i: int|
        0 <= i < s.len() ==> (#[trigger] s[i] == word[i] || s[i] as int == word[i] as int + 32)
}

/// Whether a card is a minion or a weapon.
pub open spec fn minion_or_weapon(card: CardModel) -> bool {
    card.card_type matches Some(kind) && (spells(kind, "MINION"@) || spells(kind, "WEAPON"@))
}

/// Whether a card is a weapon.
pub open spec fn is_a_weapon(card: CardModel) -> bool {
    card.card_type matches Some(kind) && spells(kind, "WEAPON"@)
}

/// The copies of minions and weapons that cost two.
pub open spec fn two_drops(catalog: CardCache, deck: Seq<EntryModel>) -> nat {
    copies(
        deck,
        |e: EntryModel|
            catalog.card(trimmed(e.card_id)) matches Some(card) && minion_or_weapon(card)
                && card.cost == Some(2u8),
    )
}

/// The copies of weapons.
pub open spec fn weapons_in(catalog: CardCache, deck: Seq<EntryModel>) -> nat {
    copies(deck, |e: EntryModel| catalog.card(trimmed(e.card_id)) matches Some(card) && is_a_weapon(card))
}

/// The charges of the weapons of one entry.
pub open spec fn charges_of(catalog: CardCache, e: EntryModel) -> nat {
    match catalog.card(trimmed(e.card_id)) {
        Some(card) => match card.durability {
            Some(charges) => if is_a_weapon(card) {
                (charges * e.count) as nat
            } else {
                0
            },
            None => 0,
        },
        None => 0,
    }
}

/// The charges of all weapons.
pub open spec fn charges_in(catalog: CardCache, deck: Seq<EntryModel>) -> nat {
    amount(deck, |e: EntryModel| charges_of(catalog, e))
}

/// The copies of cards in the same band of costs as a card of a given cost.
pub open spec fn copies_in_band(catalog: CardCache, deck: Seq<EntryModel>, cost: int) -> nat {
    if cost < 3 {
        copies_costing(catalog, deck, 0, 2)
    } else if cost < 4 {
        copies_costing(catalog, deck, 3, 3)
    } else if cost < 7 {
        copies_costing(catalog, deck, 4, 6)
    } else {
        copies_costing(catalog, deck, 7, 255)
    }
}

/// The share of a deck, in percent, that the band of a cost should not go beyond.
pub open spec fn share_of_band(cost: int) -> int {
    if cost >= 7 {
        25
    } else if cost == 3 {
        35
    } else if cost < 3 {
        45
    } else {
        55
    }
}

/// What rows sum up to.
pub open spec fn tally(rows: Seq<AdjustmentModel>, worth: spec_fn(AdjustmentModel) -> int) -> int
    decreases rows.len(),
{
    if rows.len() == 0 {
        0
    } else {
        worth(rows[0]) + tally(rows.skip(1), worth)
    }
}

/// What the tags of a card sum up to.
pub open spec fn over_tags(tags: Seq<Seq<char>>, worth: spec_fn(Seq<char>) -> int) -> int
    decreases tags.len(),
{
    if tags.len() == 0 {
        0
    } else {
        worth(tags[0]) + over_tags(tags.skip(1), worth)
    }
}

/// The points that one synergy tag gives: one for each card of the deck with it, up to three.
pub open spec fn synergy_points(
    catalog: CardCache,
    facts: AnalysisFacts,
    deck: Seq<EntryModel>,
    tag: Seq<char>,
) -> int {
    if occurs_at(tag, "synergy:"@, 0) {
        let n = copies_tagged(catalog, facts, deck, tag) as int;
        if n <= 3 {
            n
        } else {
            3
        }
    } else {
        0
    }
}

/// The cards of the deck that serve a requirement: those with the synergy it names.
pub open spec fn serving(
    catalog: CardCache,
    facts: AnalysisFacts,
    deck: Seq<EntryModel>,
    tag: Seq<char>,
) -> nat {
    copies_tagged(catalog, facts, deck, "synergy:"@ + tag.skip("requires:"@.len() as int))
}

proof fn tallies_add(
    a: Seq<AdjustmentModel>,
    b: Seq<AdjustmentModel>,
    worth: spec_fn(AdjustmentModel) -> int,
)
    ensures
        tally(a + b, worth) == tally(a, worth) + tally(b, worth),
    decreases a.len(),
{
    if a.len() == 0 {
        assert(a + b =~= b);
    } else {
        assert((a + b).skip(1) =~= a.skip(1) + b);
        tallies_add(a.skip(1), b, worth);
    }
}

proof fn tally_of_one(a: AdjustmentModel, worth: spec_fn(AdjustmentModel) -> int)
    ensures
        tally(seq![a], worth) == worth(a),
{
    assert(seq![a].skip(1) =~= Seq::<AdjustmentModel>::empty());
    assert(tally(seq![a].skip(1), worth) == 0);
}

proof fn tally_of_longer(
    rows: Seq<AdjustmentModel>,
    a: AdjustmentModel,
    worth: spec_fn(AdjustmentModel) -> int,
)
    ensures
        tally(rows.push(a), worth) == tally(rows, worth) + worth(a),
{
    assert(rows.push(a) =~= rows + seq![a]);
    tallies_add(rows, seq![a], worth);
    tally_of_one(a, worth);
}

proof fn over_longer_tags(
    tags: Seq<Seq<char>>,
    tag: Seq<char>,
    worth: spec_fn(Seq<char>) -> int,
)
    ensures
        over_tags(tags.push(tag), worth) == over_tags(tags, worth) + worth(tag),
    decreases tags.len(),
{
    let all = tags.push(tag);
    if tags.len() == 0 {
        assert(all.skip(1) =~= Seq::<Seq<char>>::empty());
        assert(over_tags(all.skip(1), worth) == 0);
    } else {
        assert(all.skip(1) =~= tags.skip(1).push(tag));
        over_longer_tags(tags.skip(1), tag, worth);
    }
}

proof fn amount_of_longer(
    deck: Seq<EntryModel>,
    e: EntryModel,
    worth: spec_fn(EntryModel) -> nat,
)
    ensures
        amount(deck.push(e), worth) == amount(deck, worth) + worth(e),
    decreases deck.len(),
{
    let all = deck.push(e);
    if deck.len() == 0 {
        assert(all.skip(1) =~= Seq::<EntryModel>::empty());
        assert(amount(all.skip(1), worth) == 0);
    } else {
        assert(all.skip(1) =~= deck.skip(1).push(e));
        amount_of_longer(deck.skip(1), e, worth);
    }
}

proof fn measured_is_amount(
    m: Measure,
    catalog: CardCache,
    deck: Seq<EntryModel>,
    worth: spec_fn(EntryModel) -> nat,
)
    requires
        forall|e: EntryModel| #[trigger] worth(e) == weight(m, catalog, e),
    ensures
        measured(m, catalog, deck) == amount(deck, worth),
    decreases deck.len(),
{
    if deck.len() > 0 {
        measured_is_amount(m, catalog, deck.drop_last(), worth);
        amount_of_longer(deck.drop_last(), deck.last(), worth);
        assert(deck.drop_last().push(deck.last()) =~= deck);
        assert(worth(deck.last()) == weight(m, catalog, deck.last()));
    }
}

proof fn amount_is_copies(
    deck: Seq<EntryModel>,
    worth: spec_fn(EntryModel) -> nat,
    test: spec_fn(EntryModel) -> bool,
)
    requires
        forall|e: EntryModel|
            #[trigger] worth(e) == if test(e) {
                e.count as nat
            } else {
                0nat
            },
    ensures
        amount(deck, worth) == copies(deck, test),
    decreases deck.len(),
{
    if deck.len() > 0 {
        amount_is_copies(deck.skip(1), worth, test);
        assert(worth(deck[0]) == if test(deck[0]) {
            deck[0].count as nat
        } else {
            0nat
        });
    }
}

proof fn measured_is_copies(
    m: Measure,
    catalog: CardCache,
    deck: Seq<EntryModel>,
    test: spec_fn(EntryModel) -> bool,
)
    requires
        forall|e: EntryModel|
            #[trigger] test(e) ==> weight(m, catalog, e) == e.count as nat,
        forall|e: EntryModel| !(#[trigger] test(e)) ==> weight(m, catalog, e) == 0,
    ensures
        measured(m, catalog, deck) == copies(deck, test),
{
    let worth = |e: EntryModel| weight(m, catalog, e);
    measured_is_amount(m, catalog, deck, worth);
    assert forall|e: EntryModel|
        #[trigger] worth(e) == if test(e) {
            e.count as nat
        } else {
            0nat
        } by {
        if test(e) {
        } else {
        }
    }
    amount_is_copies(deck, worth, test);
}

/// Whether a word is written in capitals.
pub open spec fn in_capitals(word: Seq<char>) -> bool {
    forall|i: int| 0 <= i < word.len() ==> 'A' <= #[trigger] word[i] <= 'Z'
}

pub(crate) proof fn spelling_ignores_case(s: Seq<char>, word: Seq<char>)
    requires
        in_capitals(word),
    ensures
        spells(s, word) <==> upper_ascii_text(s) == word,
        spells(s, word) <==> lower_ascii_text(s) == lower_ascii_text(word),
{
    let up = upper_ascii_text(s);
    let low = lower_ascii_text(s);
    let small = lower_ascii_text(word);
    if spells(s, word) {
        assert forall|i: int| 0 <= i < s.len() implies #[trigger] up[i] == word[i] && low[i]
            == small[i] by {
            assert(s[i] == word[i] || s[i] as int == word[i] as int + 32);
        }
        assert(up =~= word);
        assert(low =~= small);
    }
    if up == word {
        assert forall|i: int| 0 <= i < s.len() implies (#[trigger] s[i] == word[i] || s[i] as int
            == word[i] as int + 32) by {
            assert(up[i] == word[i]);
        }
        assert(up.len() == s.len());
    }
    if low == small {
        assert(low.len() == s.len());
        assert(small.len() == word.len());
        assert forall|i: int| 0 <= i < s.len() implies (#[trigger] s[i] == word[i] || s[i] as int
            == word[i] as int + 32) by {
            assert(low[i] == small[i]);
        }
    }
}

proof fn kinds_of_cards(card: CardModel)
    ensures
        board_card(card) == minion_or_weapon(card),
        weapon(card) == is_a_weapon(card),
{
    reveal_strlit("MINION");
    reveal_strlit("WEAPON");
    if card.card_type is Some {
        spelling_ignores_case(card.card_type->0, "MINION"@);
        spelling_ignores_case(card.card_type->0, "WEAPON"@);
    }
}

proof fn measures_are_counts(catalog: CardCache, deck: Seq<EntryModel>, id: Seq<char>)
    ensures
        measured(Measure::BoardTwos, catalog, deck) == two_drops(catalog, deck),
        measured(Measure::Weapons, catalog, deck) == weapons_in(catalog, deck),
        measured(Measure::Charges, catalog, deck) == charges_in(catalog, deck),
        measured(Measure::Copies { id }, catalog, deck) == copies(
            deck,
            |e: EntryModel| e.card_id == id,
        ),
{
    assert forall|card: CardModel| #[trigger] board_card(card) == minion_or_weapon(card) by {
        kinds_of_cards(card);
    }
    assert forall|card: CardModel| #[trigger] weapon(card) == is_a_weapon(card) by {
        kinds_of_cards(card);
    }
    measured_is_copies(
        Measure::BoardTwos,
        catalog,
        deck,
        |e: EntryModel|
            catalog.card(trimmed(e.card_id)) matches Some(card) && minion_or_weapon(card)
                && card.cost == Some(2u8),
    );
    measured_is_copies(
        Measure::Weapons,
        catalog,
        deck,
        |e: EntryModel|
            catalog.card(trimmed(e.card_id)) matches Some(card) && is_a_weapon(card),
    );
    measured_is_amount(
        Measure::Charges,
        catalog,
        deck,
        |e: EntryModel| charges_of(catalog, e),
    );
    measured_is_copies(
        Measure::Copies { id },
        catalog,
        deck,
        |e: EntryModel| e.card_id == id,
    );
}

/// The worth of a row to the number, or to the points, of a kind.
pub open spec fn of_kind(kind: AdjustmentKind, points: bool) -> spec_fn(AdjustmentModel) -> int {
    |a: AdjustmentModel|
        if a.kind == kind {
            if points {
                a.delta
            } else {
                1
            }
        } else {
            0
        }
}

/// The number of rows of one kind.
pub open spec fn rows_of(rows: Seq<AdjustmentModel>, kind: AdjustmentKind) -> int {
    tally(rows, of_kind(kind, false))
}

/// The points of the rows of one kind.
pub open spec fn points_of(rows: Seq<AdjustmentModel>, kind: AdjustmentKind) -> int {
    tally(rows, of_kind(kind, true))
}

/// Whether a synergy or a requirement is told by a row.
pub open spec fn semantic(kind: AdjustmentKind) -> bool {
    kind is VerifiedSynergy || kind is SupportedPayoff || kind is UnsupportedPayoff
}

/// What one tag adds to the rows, or to the points, of a kind.
pub open spec fn told_by_tag(
    catalog: CardCache,
    facts: AnalysisFacts,
    deck: Seq<EntryModel>,
    kind: AdjustmentKind,
    points: bool,
    tag: Seq<char>,
) -> int {
    match kind {
        AdjustmentKind::VerifiedSynergy => if points {
            synergy_points(catalog, facts, deck, tag)
        } else if synergy_points(catalog, facts, deck, tag) > 0 {
            1
        } else {
            0
        },
        AdjustmentKind::SupportedPayoff => if occurs_at(tag, "requires:"@, 0) && serving(
            catalog,
            facts,
            deck,
            tag,
        ) > 0 {
            if points {
                3
            } else {
                1
            }
        } else {
            0
        },
        AdjustmentKind::UnsupportedPayoff => if occurs_at(tag, "requires:"@, 0) && serving(
            catalog,
            facts,
            deck,
            tag,
        ) == 0 {
            if points {
                -5
            } else {
                1
            }
        } else {
            0
        },
        _ => 0,
    }
}

proof fn semantic_rows_by_tag(
    tags: Seq<Seq<char>>,
    catalog: CardCache,
    facts: AnalysisFacts,
    deck: Seq<EntryModel>,
    kind: AdjustmentKind,
    points: bool,
)
    ensures
        tally(
            synergy_rows(categories(tags, "synergy:"@), catalog, facts, deck),
            of_kind(kind, points),
        ) + tally(
            requirement_rows(categories(tags, "requires:"@), catalog, facts, deck),
            of_kind(kind, points),
        ) == over_tags(
            tags,
            |tag: Seq<char>| told_by_tag(catalog, facts, deck, kind, points, tag),
        ),
    decreases tags.len(),
{
    let worth = of_kind(kind, points);
    let told = |tag: Seq<char>| told_by_tag(catalog, facts, deck, kind, points, tag);
    if tags.len() > 0 {
        let rest = tags.drop_last();
        let tag = tags.last();
        semantic_rows_by_tag(rest, catalog, facts, deck, kind, points);
        over_longer_tags(rest, tag, told);
        assert(rest.push(tag) =~= tags);
        let a = categories(rest, "synergy:"@);
        let b = categories(rest, "requires:"@);
        let old_a = synergy_rows(a, catalog, facts, deck);
        let old_b = requirement_rows(b, catalog, facts, deck);
        reveal_strlit("synergy:");
        reveal_strlit("requires:");
        if occurs_at(tag, "synergy:"@, 0) {
            assert(tag.subrange(0, 8)[0] == 's');
            assert(!occurs_at(tag, "requires:"@, 0)) by {
                if occurs_at(tag, "requires:"@, 0) {
                    assert(tag.subrange(0, 9)[0] == 'r');
                }
            }
            let name = tag.skip(8);
            assert("synergy:"@ + name =~= tag) by {
                assert(tag.subrange(0, 8) + name =~= tag);
            }
            assert(a.push(name).drop_last() =~= a);
            tag_slots(catalog, facts, deck, tag);
            let new_a = synergy_rows(a.push(name), catalog, facts, deck);
            if copies_tagged(catalog, facts, deck, tag) > 0 {
                assert(new_a.drop_last() =~= old_a);
                assert(old_a.push(new_a.last()) =~= new_a);
                tally_of_longer(old_a, new_a.last(), worth);
            }
        } else if occurs_at(tag, "requires:"@, 0) {
            let name = tag.skip(9);
            assert(b.push(name).drop_last() =~= b);
            tag_slots(catalog, facts, deck, "synergy:"@ + name);
            let new_b = requirement_rows(b.push(name), catalog, facts, deck);
            assert(new_b.drop_last() =~= old_b);
            assert(old_b.push(new_b.last()) =~= new_b);
            tally_of_longer(old_b, new_b.last(), worth);
        }
    }
}

proof fn tally_of_the_parts(
    id: Seq<char>,
    catalog: CardCache,
    facts: AnalysisFacts,
    deck: Seq<EntryModel>,
    worth: spec_fn(AdjustmentModel) -> int,
)
    ensures
        ({
            let card = catalog.card(trimmed(id));
            let tags = facts.tags_of(trimmed(id));
            tally(adjustments_for(id, catalog, facts, deck), worth) == (if card is Some {
                tally(
                    curve_rows(card->0, curve_of(catalog, facts, deck), catalog, deck),
                    worth,
                ) + tally(weapon_rows(card->0, catalog, deck), worth)
            } else {
                0
            }) + tally(synergy_rows(categories(tags, "synergy:"@), catalog, facts, deck), worth)
                + tally(requirement_rows(categories(tags, "requires:"@), catalog, facts, deck), worth)
                + tally(repeat_rows(id, catalog, deck), worth)
        }),
{
    let card = catalog.card(trimmed(id));
    let tags = facts.tags_of(trimmed(id));
    let a = if card is Some {
        curve_rows(card->0, curve_of(catalog, facts, deck), catalog, deck) + weapon_rows(
            card->0,
            catalog,
            deck,
        )
    } else {
        Seq::empty()
    };
    let b = synergy_rows(categories(tags, "synergy:"@), catalog, facts, deck);
    let c = requirement_rows(categories(tags, "requires:"@), catalog, facts, deck);
    let d = repeat_rows(id, catalog, deck);
    if card is Some {
        tallies_add(
            curve_rows(card->0, curve_of(catalog, facts, deck), catalog, deck),
            weapon_rows(card->0, catalog, deck),
            worth,
        );
    }
    tallies_add(a, b, worth);
    tallies_add(a + b, c, worth);
    tallies_add(a + b + c, d, worth);
}

proof fn tally_of_short(rows: Seq<AdjustmentModel>, worth: spec_fn(AdjustmentModel) -> int)
    requires
        rows.len() <= 1,
    ensures
        tally(rows, worth) == if rows.len() == 0 {
            0
        } else {
            worth(rows[0])
        },
{
    if rows.len() == 1 {
        assert(rows =~= seq![rows[0]]);
        tally_of_one(rows[0], worth);
    }
}

proof fn tally_with_the_limit(
    rows: Seq<AdjustmentModel>,
    kind: AdjustmentKind,
    points: bool,
)
    requires
        !(kind is AdjustmentLimit),
    ensures
        tally(with_limit(rows), of_kind(kind, points)) == tally(rows, of_kind(kind, points)),
{
    let all = with_limit(rows);
    if all.len() != rows.len() {
        tally_of_longer(rows, all.last(), of_kind(kind, points));
        assert(rows.push(all.last()) =~= all);
    }
}

/// Whether an offered card is a two-drop that the deck lacks: at least four costs are known, and
/// fewer than a fifth of these cards are minions or weapons that cost two.
pub open spec fn lacking_two_drop(
    id: Seq<char>,
    catalog: CardCache,
    deck: Seq<EntryModel>,
) -> bool {
    &&& catalog.card(trimmed(id)) matches Some(card)
    &&& card.cost == Some(2u8)
    &&& minion_or_weapon(card)
    &&& copies_of_known_cost(catalog, deck) >= 4
    &&& counted(two_drops(catalog, deck)) * 5 < counted(copies_of_known_cost(catalog, deck))
}

proof fn known_costs_are_counted(catalog: CardCache, facts: AnalysisFacts, deck: Seq<EntryModel>)
    ensures
        known_slots(curve_of(catalog, facts, deck)) == counted(copies_of_known_cost(catalog, deck)),
        ({
            let curve = curve_of(catalog, facts, deck);
            &&& curve.zero_to_two == counted(copies_costing(catalog, deck, 0, 2))
            &&& curve.three == counted(copies_costing(catalog, deck, 3, 3))
            &&& curve.four_to_six == counted(copies_costing(catalog, deck, 4, 6))
            &&& curve.seven_plus == counted(copies_costing(catalog, deck, 7, 255))
        }),
{
    bands_are_all(catalog, deck);
    band_slots(catalog, facts, deck, 0, 2);
    band_slots(catalog, facts, deck, 3, 3);
    band_slots(catalog, facts, deck, 4, 6);
    band_slots(catalog, facts, deck, 7, 255);
}

/// A card that would crowd its band of costs loses three points, once, and no other card does. The
/// band is the one of the card's own cost, and the cards of the deck in it are counted with the
/// offered one against all cards of known cost.
pub proof fn crowded_bands_lose_points(
    id: Seq<char>,
    catalog: CardCache,
    facts: AnalysisFacts,
    deck: Seq<EntryModel>,
)
    ensures
        ({
            let rows = with_limit(adjustments_for(id, catalog, facts, deck));
            let known = counted(copies_of_known_cost(catalog, deck));
            let crowded = {
                &&& cost_of(catalog, id) matches Some(cost)
                &&& !lacking_two_drop(id, catalog, deck)
                &&& known >= 5
                &&& (counted(copies_in_band(catalog, deck, cost as int)) + 1) * 100 > (known + 1)
                    * share_of_band(cost as int)
            };
            &&& rows_of(rows, AdjustmentKind::CrowdedCurveBand) == if crowded {
                1int
            } else {
                0
            }
            &&& points_of(rows, AdjustmentKind::CrowdedCurveBand) == if crowded {
                -3int
            } else {
                0
            }
        }),
{
    kind_of_plain_rows(id, catalog, facts, deck, AdjustmentKind::CrowdedCurveBand, true);
    kind_of_plain_rows(id, catalog, facts, deck, AdjustmentKind::CrowdedCurveBand, false);
    known_costs_are_counted(catalog, facts, deck);
    measures_are_counts(catalog, deck, id);
    if catalog.card(trimmed(id)) is Some {
        kinds_of_cards(catalog.card(trimmed(id))->0);
    }
}

/// A two-drop that the deck lacks gains four points, once, and no other card does.
pub proof fn lacking_two_drops_gain_points(
    id: Seq<char>,
    catalog: CardCache,
    facts: AnalysisFacts,
    deck: Seq<EntryModel>,
)
    ensures
        ({
            let rows = with_limit(adjustments_for(id, catalog, facts, deck));
            &&& rows_of(rows, AdjustmentKind::MissingTwoDrop) == if lacking_two_drop(
                id,
                catalog,
                deck,
            ) {
                1int
            } else {
                0
            }
            &&& points_of(rows, AdjustmentKind::MissingTwoDrop) == if lacking_two_drop(
                id,
                catalog,
                deck,
            ) {
                4int
            } else {
                0
            }
        }),
{
    kind_of_plain_rows(id, catalog, facts, deck, AdjustmentKind::MissingTwoDrop, true);
    kind_of_plain_rows(id, catalog, facts, deck, AdjustmentKind::MissingTwoDrop, false);
    known_costs_are_counted(catalog, facts, deck);
    measures_are_counts(catalog, deck, id);
    if catalog.card(trimmed(id)) is Some {
        kinds_of_cards(catalog.card(trimmed(id))->0);
    }
}

proof fn kind_of_plain_rows(
    id: Seq<char>,
    catalog: CardCache,
    facts: AnalysisFacts,
    deck: Seq<EntryModel>,
    kind: AdjustmentKind,
    points: bool,
)
    requires
        !semantic(kind),
        !(kind is AdjustmentLimit),
    ensures
        ({
            let card = catalog.card(trimmed(id));
            let worth = of_kind(kind, points);
            let curve = curve_rows(card->0, curve_of(catalog, facts, deck), catalog, deck);
            let weapons = weapon_rows(card->0, catalog, deck);
            let repeats = repeat_rows(id, catalog, deck);
            tally(with_limit(adjustments_for(id, catalog, facts, deck)), worth) == (if card is Some
                && curve.len() > 0 {
                worth(curve[0])
            } else {
                0
            }) + (if card is Some && weapons.len() > 0 {
                worth(weapons[0])
            } else {
                0
            }) + (if repeats.len() > 0 {
                worth(repeats[0])
            } else {
                0
            })
        }),
{
    let card = catalog.card(trimmed(id));
    let tags = facts.tags_of(trimmed(id));
    let worth = of_kind(kind, points);
    tally_with_the_limit(adjustments_for(id, catalog, facts, deck), kind, points);
    tally_of_the_parts(id, catalog, facts, deck, worth);
    semantic_rows_by_tag(tags, catalog, facts, deck, kind, points);
    nothing_over_tags(
        tags,
        |tag: Seq<char>| told_by_tag(catalog, facts, deck, kind, points, tag),
    );
    tally_of_short(repeat_rows(id, catalog, deck), worth);
    if card is Some {
        tally_of_short(
            curve_rows(card->0, curve_of(catalog, facts, deck), catalog, deck),
            worth,
        );
        tally_of_short(weapon_rows(card->0, catalog, deck), worth);
    }
}

proof fn nothing_over_tags(tags: Seq<Seq<char>>, worth: spec_fn(Seq<char>) -> int)
    requires
        forall|tag: Seq<char>| #[trigger] worth(tag) == 0,
    ensures
        over_tags(tags, worth) == 0,
    decreases tags.len(),
{
    if tags.len() > 0 {
        nothing_over_tags(tags.skip(1), worth);
        assert(worth(tags[0]) == 0);
    }
}

/// A weapon that makes at least three weapons with more than six charges loses a point for each
/// charge beyond five, five at most. No other card does.
pub proof fn too_many_charges_lose_points(
    id: Seq<char>,
    catalog: CardCache,
    facts: AnalysisFacts,
    deck: Seq<EntryModel>,
)
    ensures
        ({
            let rows = with_limit(adjustments_for(id, catalog, facts, deck));
            let too_many = {
                &&& catalog.card(trimmed(id)) matches Some(card)
                &&& is_a_weapon(card)
                &&& card.durability matches Some(charges)
                &&& weapons_in(catalog, deck) >= 2
                &&& charges_in(catalog, deck) + charges >= 7
            };
            &&& rows_of(rows, AdjustmentKind::TooManyWeaponCharges) == if too_many {
                1int
            } else {
                0
            }
            &&& !too_many ==> points_of(rows, AdjustmentKind::TooManyWeaponCharges) == 0
            &&& too_many ==> {
                let charges = charges_in(catalog, deck) + catalog.card(trimmed(id))->0.durability->0;
                points_of(rows, AdjustmentKind::TooManyWeaponCharges) == if charges >= 10 {
                    -5
                } else {
                    5 - charges
                }
            }
        }),
{
    kind_of_plain_rows(id, catalog, facts, deck, AdjustmentKind::TooManyWeaponCharges, true);
    kind_of_plain_rows(id, catalog, facts, deck, AdjustmentKind::TooManyWeaponCharges, false);
    measures_are_counts(catalog, deck, id);
    if catalog.card(trimmed(id)) is Some {
        kinds_of_cards(catalog.card(trimmed(id))->0);
    }
}

/// A card of which the deck holds two copies loses a point, one of which it holds more loses two,
/// and no other card loses any for being repeated.
pub proof fn repeated_cards_lose_points(
    id: Seq<char>,
    catalog: CardCache,
    facts: AnalysisFacts,
    deck: Seq<EntryModel>,
)
    ensures
        ({
            let rows = with_limit(adjustments_for(id, catalog, facts, deck));
            let held = copies(deck, |e: EntryModel| e.card_id == id);
            &&& points_of(rows, AdjustmentKind::RepeatedCard) == if held < 2 {
                0int
            } else if held == 2 {
                -1
            } else {
                -2
            }
            &&& rows_of(rows, AdjustmentKind::RepeatedCard) == if held < 2 {
                0int
            } else {
                1
            }
        }),
{
    kind_of_plain_rows(id, catalog, facts, deck, AdjustmentKind::RepeatedCard, true);
    kind_of_plain_rows(id, catalog, facts, deck, AdjustmentKind::RepeatedCard, false);
    measures_are_counts(catalog, deck, id);
}

proof fn kind_of_semantic_rows(
    id: Seq<char>,
    catalog: CardCache,
    facts: AnalysisFacts,
    deck: Seq<EntryModel>,
    kind: AdjustmentKind,
    points: bool,
)
    requires
        semantic(kind),
    ensures
        tally(with_limit(adjustments_for(id, catalog, facts, deck)), of_kind(kind, points))
            == over_tags(
            facts.tags_of(trimmed(id)),
            |tag: Seq<char>| told_by_tag(catalog, facts, deck, kind, points, tag),
        ),
{
    let card = catalog.card(trimmed(id));
    let worth = of_kind(kind, points);
    tally_with_the_limit(adjustments_for(id, catalog, facts, deck), kind, points);
    tally_of_the_parts(id, catalog, facts, deck, worth);
    semantic_rows_by_tag(facts.tags_of(trimmed(id)), catalog, facts, deck, kind, points);
    tally_of_short(repeat_rows(id, catalog, deck), worth);
    if card is Some {
        tally_of_short(
            curve_rows(card->0, curve_of(catalog, facts, deck), catalog, deck),
            worth,
        );
        tally_of_short(weapon_rows(card->0, catalog, deck), worth);
    }
}

/// A card gains, for each of its synergy tags, a point for each card of the deck with that tag, up
/// to three, in one row where there is such a card. For each of its requirements it gains three
/// points where a card of the deck has the synergy that is required, and loses five where none
/// has.
pub proof fn synergies_and_requirements_count(
    id: Seq<char>,
    catalog: CardCache,
    facts: AnalysisFacts,
    deck: Seq<EntryModel>,
    kind: AdjustmentKind,
)
    requires
        kind is VerifiedSynergy || kind is SupportedPayoff || kind is UnsupportedPayoff,
    ensures
        points_of(with_limit(adjustments_for(id, catalog, facts, deck)), kind) == over_tags(
            facts.tags_of(trimmed(id)),
            |tag: Seq<char>| told_by_tag(catalog, facts, deck, kind, true, tag),
        ),
        rows_of(with_limit(adjustments_for(id, catalog, facts, deck)), kind) == over_tags(
            facts.tags_of(trimmed(id)),
            |tag: Seq<char>| told_by_tag(catalog, facts, deck, kind, false, tag),
        ),
{
    kind_of_semantic_rows(id, catalog, facts, deck, kind, true);
    kind_of_semantic_rows(id, catalog, facts, deck, kind, false);
}

proof fn sum_is_tally(rows: Seq<AdjustmentModel>)
    ensures
        delta_sum(rows) == tally(rows, |a: AdjustmentModel| a.delta),
    decreases rows.len(),
{
    if rows.len() > 0 {
        sum_is_tally(rows.drop_last());
        tally_of_longer(rows.drop_last(), rows.last(), |a: AdjustmentModel| a.delta);
        assert(rows.drop_last().push(rows.last()) =~= rows);
    }
}

/// The points that a deck adds to a rating are those of all rows together. They are what the rows
/// before the limit give where that is at most twelve either way, and twelve the same way where
/// it is more; then, and only then, one more row says so.
pub proof fn adjustments_stay_within_twelve(
    id: Seq<char>,
    catalog: CardCache,
    facts: AnalysisFacts,
    deck: Seq<EntryModel>,
)
    ensures
        ({
            let rows = adjustments_for(id, catalog, facts, deck);
            let shown = with_limit(rows);
            let own = tally(rows, |a: AdjustmentModel| a.delta);
            let total = limited(delta_sum(rows));
            &&& total == tally(shown, |a: AdjustmentModel| a.delta)
            &&& -12 <= own <= 12 ==> total == own && shown == rows
            &&& own > 12 ==> total == 12
            &&& own < -12 ==> total == -12
            &&& (own > 12 || own < -12) ==> shown.len() == rows.len() + 1 && shown.last().kind
                == AdjustmentKind::AdjustmentLimit && rows.is_prefix_of(shown)
        }),
{
    let rows = adjustments_for(id, catalog, facts, deck);
    let shown = with_limit(rows);
    sum_is_tally(rows);
    sum_is_tally(shown);
    if shown.len() != rows.len() {
        tally_of_longer(rows, shown.last(), |a: AdjustmentModel| a.delta);
        assert(rows.push(shown.last()) =~= shown);
        assert(shown.take(rows.len() as int) =~= rows);
    }
}

/// A card without a rating has no score: nothing is adjusted and no provider is named. One with a
/// rating keeps it, and the ratings of the providers with it.
pub proof fn unrated_cards_are_not_adjusted(
    base: Option<CardRating>,
    ratings: Vec<ProviderRating>,
    input: AnalysisInput,
    id: &str,
    catalog: CardCache,
    facts: AnalysisFacts,
    r: OfferScore,
)
    requires
        call_ensures(score_with_ratings, (base, ratings, &input, id, &catalog, &facts), r),
    ensures
        r.card_id@ == id@,
        r.base_rating == base,
        base is None ==> r.adjustment == 0 && r.adjustments@.len() == 0 && r.provider_ratings@.len()
            == 0,
        base is Some ==> r.provider_ratings@ == ratings@,
{
}

} // verus!
