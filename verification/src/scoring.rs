//! Adjusting a provider's rating of an offered card to the deck it would join.
//!
//! A deck score never exists without a rating: curve and synergy facts adjust a rating, they
//! are no rating system of their own. Adjustments are whole rating points.

use vstd::prelude::*;

use crate::analysis::AnalysisFacts;
use crate::card_data::{CardCache, CardMetadata, CardModel};
use crate::deck_profile::{
    analyze_deck, cap, countable, counts_synergies, curve_of, synergy_slots, AnalysisInput,
    DeckProfile, ManaCurve,
};
use crate::offer::{categories, profile_synergy_is_slots, synergy_of, tag_categories};
use crate::ratings::{CardRating, ProviderRating, RatingProvider};
use crate::state::{deck_model, EntryModel, HeroClass};
use crate::text;
use crate::text::{
    chars_of, decimal, lower_ascii_text, push_decimal, string_of, texts, trimmed, upper_ascii_text,
};

verus! {

/// Why a rating is adjusted.
#[derive(Clone, Copy, Debug, PartialEq, Eq, Structural)]
pub enum AdjustmentKind {
    MissingTwoDrop,
    CrowdedCurveBand,
    VerifiedSynergy,
    SupportedPayoff,
    UnsupportedPayoff,
    RepeatedCard,
    TooManyWeaponCharges,
    AdjustmentLimit,
}

/// One adjustment with its reason.
#[derive(Debug, PartialEq, Eq)]
pub struct ScoreAdjustment {
    pub kind: AdjustmentKind,
    pub delta: i64,
    pub detail: String,
}

/// One adjustment with its reason, over texts.
pub struct AdjustmentModel {
    pub kind: AdjustmentKind,
    pub delta: int,
    pub detail: Seq<char>,
}

impl View for ScoreAdjustment {
    type V = AdjustmentModel;

    open spec fn view(&self) -> AdjustmentModel {
        AdjustmentModel { kind: self.kind, delta: self.delta as int, detail: self.detail@ }
    }
}

/// The adjustments, over texts.
pub open spec fn adjustment_models(rows: Seq<ScoreAdjustment>) -> Seq<AdjustmentModel> {
    rows.map_values(|a: ScoreAdjustment| a@)
}

/// The most that a deck may change a rating.
pub const MAX_DECK_ADJUSTMENT: i64 = 12;

/// Whether a card stays on the board.
pub open spec fn board_card(card: CardModel) -> bool {
    card.card_type is Some && (upper_ascii_text(card.card_type->0) == "MINION"@ || upper_ascii_text(
        card.card_type->0,
    ) == "WEAPON"@)
}

/// Whether a card is a weapon.
pub open spec fn weapon(card: CardModel) -> bool {
    card.card_type is Some && lower_ascii_text(card.card_type->0) == lower_ascii_text("WEAPON"@)
}

/// Whether a card stays on the board.
pub fn is_board_card(card: &CardMetadata) -> (r: bool)
    ensures
        r == board_card(card@),
{
    match &card.card_type {
        Some(kind) => {
            let upper = text::to_upper_ascii_chars(chars_of(kind.as_str()).as_slice());
            let upper = string_of(upper.as_slice());
            text::str_eq(upper.as_str(), "MINION") || text::str_eq(upper.as_str(), "WEAPON")
        },
        None => false,
    }
}

/// Whether a card is a weapon.
pub fn is_weapon(card: &CardMetadata) -> (r: bool)
    ensures
        r == weapon(card@),
{
    match &card.card_type {
        Some(kind) => {
            let own = chars_of(kind.as_str());
            let wanted = chars_of("WEAPON");
            text::eq_ignore_ascii_case(own.as_slice(), wanted.as_slice())
        },
        None => false,
    }
}

/// What the entries of a deck are counted by.
pub enum Measure {
    /// Copies of board cards that cost two.
    BoardTwos,
    /// Copies of weapons.
    Weapons,
    /// Base charges of weapons.
    Charges,
    /// Copies of one card.
    Copies { id: Seq<char> },
}

/// How much one entry counts.
pub open spec fn weight(m: Measure, catalog: CardCache, e: EntryModel) -> nat {
    let card = catalog.card(trimmed(e.card_id));
    match m {
        Measure::BoardTwos => if card is Some && card->0.cost == Some(2u8) && board_card(card->0) {
            e.count as nat
        } else {
            0
        },
        Measure::Weapons => if card is Some && weapon(card->0) {
            e.count as nat
        } else {
            0
        },
        Measure::Charges => if card is Some && weapon(card->0) && card->0.durability is Some {
            card->0.durability->0 as nat * e.count as nat
        } else {
            0
        },
        Measure::Copies { id } => if e.card_id == id {
            e.count as nat
        } else {
            0
        },
    }
}

/// How much a deck counts.
pub open spec fn measured(m: Measure, catalog: CardCache, deck: Seq<EntryModel>) -> nat
    decreases deck.len(),
{
    if deck.len() == 0 {
        0
    } else {
        measured(m, catalog, deck.drop_last()) + weight(m, catalog, deck.last())
    }
}

/// The slots with a known cost.
pub open spec fn known_slots(curve: ManaCurve) -> u16 {
    cap((curve.zero_to_two + curve.three + curve.four_to_six + curve.seven_plus) as nat)
}

/// The band of a cost: its name, its slots, and the most it should hold in percent.
pub open spec fn band_of(cost: u8, curve: ManaCurve) -> (Seq<char>, u16, int) {
    if cost <= 2 {
        ("0-2"@, curve.zero_to_two, 45)
    } else if cost == 3 {
        ("3"@, curve.three, 35)
    } else if cost <= 6 {
        ("4-6"@, curve.four_to_six, 55)
    } else {
        ("7+"@, curve.seven_plus, 25)
    }
}

/// The curve's adjustment for a card: a bonus for a missing two-drop, or else a penalty for a
/// crowded band.
pub open spec fn curve_rows(
    card: CardModel,
    curve: ManaCurve,
    catalog: CardCache,
    deck: Seq<EntryModel>,
) -> Seq<AdjustmentModel> {
    let known = known_slots(curve);
    let twos = cap(measured(Measure::BoardTwos, catalog, deck));
    if known >= 4 && 5 * twos < known && card.cost == Some(2u8) && board_card(card) {
        seq![
            AdjustmentModel {
                kind: AdjustmentKind::MissingTwoDrop,
                delta: 4,
                detail: "Only "@ + decimal(twos as nat) + " two-cost board card(s) in "@ + decimal(
                    known as nat,
                ) + " known deck slots"@,
            },
        ]
    } else if card.cost is Some {
        let (name, count, percent) = band_of(card.cost->0, curve);
        if known >= 5 && (count + 1) * 100 > (known + 1) * percent {
            seq![
                AdjustmentModel {
                    kind: AdjustmentKind::CrowdedCurveBand,
                    delta: -3,
                    detail: "The "@ + name + "-cost band would contain "@ + decimal(
                        (count + 1) as nat,
                    ) + " of "@ + decimal((known + 1) as nat) + " known slots"@,
                },
            ]
        } else {
            Seq::empty()
        }
    } else {
        Seq::empty()
    }
}

/// The penalty for a weapon beyond two weapons and six charges.
pub open spec fn weapon_rows(card: CardModel, catalog: CardCache, deck: Seq<EntryModel>) -> Seq<
    AdjustmentModel,
> {
    if weapon(card) && card.durability is Some {
        let weapons = cap(cap(measured(Measure::Weapons, catalog, deck)) as nat + 1);
        let charges = cap(
            cap(measured(Measure::Charges, catalog, deck)) as nat + card.durability->0 as nat,
        );
        if weapons >= 3 && charges > 6 {
            seq![
                AdjustmentModel {
                    kind: AdjustmentKind::TooManyWeaponCharges,
                    delta: if charges - 5 < 5 {
                        -(charges - 5)
                    } else {
                        -5
                    },
                    detail: "Would reach "@ + decimal(weapons as nat) + " weapons and "@ + decimal(
                        charges as nat,
                    ) + " base weapon charges"@,
                },
            ]
        } else {
            Seq::empty()
        }
    } else {
        Seq::empty()
    }
}

/// The bonuses for synergies that the deck already has.
pub open spec fn synergy_rows(
    wanted: Seq<Seq<char>>,
    catalog: CardCache,
    facts: AnalysisFacts,
    deck: Seq<EntryModel>,
) -> Seq<AdjustmentModel>
    decreases wanted.len(),
{
    if wanted.len() == 0 {
        Seq::empty()
    } else {
        let rest = synergy_rows(wanted.drop_last(), catalog, facts, deck);
        let support = synergy_slots(wanted.last(), catalog, facts, deck);
        if support > 0 {
            rest.push(
                AdjustmentModel {
                    kind: AdjustmentKind::VerifiedSynergy,
                    delta: if support < 3 {
                        support as int
                    } else {
                        3
                    },
                    detail: "Matches "@ + decimal(support) + " observed `"@ + wanted.last()
                        + "` synergy card(s)"@,
                },
            )
        } else {
            rest
        }
    }
}

/// The bonuses and penalties for requirements that the deck meets or does not meet.
pub open spec fn requirement_rows(
    wanted: Seq<Seq<char>>,
    catalog: CardCache,
    facts: AnalysisFacts,
    deck: Seq<EntryModel>,
) -> Seq<AdjustmentModel>
    decreases wanted.len(),
{
    if wanted.len() == 0 {
        Seq::empty()
    } else {
        let rest = requirement_rows(wanted.drop_last(), catalog, facts, deck);
        let support = synergy_slots(wanted.last(), catalog, facts, deck);
        if support == 0 {
            rest.push(
                AdjustmentModel {
                    kind: AdjustmentKind::UnsupportedPayoff,
                    delta: -5,
                    detail: "Requires `"@ + wanted.last() + "` support, but none is observed"@,
                },
            )
        } else {
            rest.push(
                AdjustmentModel {
                    kind: AdjustmentKind::SupportedPayoff,
                    delta: 3,
                    detail: "Its `"@ + wanted.last() + "` requirement has "@ + decimal(support)
                        + " observed enabler(s)"@,
                },
            )
        }
    }
}

/// The penalty for a third or later copy.
pub open spec fn repeat_rows(id: Seq<char>, catalog: CardCache, deck: Seq<EntryModel>) -> Seq<
    AdjustmentModel,
> {
    let existing = cap(measured(Measure::Copies { id }, catalog, deck));
    if existing >= 2 {
        seq![
            AdjustmentModel {
                kind: AdjustmentKind::RepeatedCard,
                delta: if existing - 1 < 2 {
                    -1
                } else {
                    -2
                },
                detail: "The deck already contains "@ + decimal(existing as nat) + " copies"@,
            },
        ]
    } else {
        Seq::empty()
    }
}

/// All adjustments for a card, before the limit.
pub open spec fn adjustments_for(
    id: Seq<char>,
    catalog: CardCache,
    facts: AnalysisFacts,
    deck: Seq<EntryModel>,
) -> Seq<AdjustmentModel> {
    let card = catalog.card(trimmed(id));
    let tags = facts.tags_of(trimmed(id));
    (if card is Some {
        curve_rows(card->0, curve_of(catalog, facts, deck), catalog, deck) + weapon_rows(
            card->0,
            catalog,
            deck,
        )
    } else {
        Seq::empty()
    }) + synergy_rows(categories(tags, "synergy:"@), catalog, facts, deck) + requirement_rows(
        categories(tags, "requires:"@),
        catalog,
        facts,
        deck,
    ) + repeat_rows(id, catalog, deck)
}

/// The sum of adjustments.
pub open spec fn delta_sum(rows: Seq<AdjustmentModel>) -> int
    decreases rows.len(),
{
    if rows.len() == 0 {
        0
    } else {
        delta_sum(rows.drop_last()) + rows.last().delta
    }
}

/// A sum within the limit.
pub open spec fn limited(sum: int) -> int {
    if sum > MAX_DECK_ADJUSTMENT {
        MAX_DECK_ADJUSTMENT as int
    } else if sum < -MAX_DECK_ADJUSTMENT {
        -MAX_DECK_ADJUSTMENT
    } else {
        sum
    }
}

/// The adjustments with a last row that brings their sum within the limit, where it is not.
pub open spec fn with_limit(rows: Seq<AdjustmentModel>) -> Seq<AdjustmentModel> {
    let sum = delta_sum(rows);
    if limited(sum) != sum {
        rows.push(
            AdjustmentModel {
                kind: AdjustmentKind::AdjustmentLimit,
                delta: limited(sum) - sum,
                detail: "Deck adjustments are limited to ±12 rating points"@,
            },
        )
    } else {
        rows
    }
}

/// The adjustment is the sum of the visible rows, and never beyond the limit.
pub proof fn rows_explain_the_adjustment(rows: Seq<AdjustmentModel>)
    ensures
        delta_sum(with_limit(rows)) == limited(delta_sum(rows)),
        -MAX_DECK_ADJUSTMENT <= delta_sum(with_limit(rows)) <= MAX_DECK_ADJUSTMENT,
{
    let sum = delta_sum(rows);
    if limited(sum) != sum {
        let row = AdjustmentModel {
            kind: AdjustmentKind::AdjustmentLimit,
            delta: limited(sum) - sum,
            detail: "Deck adjustments are limited to ±12 rating points"@,
        };
        assert(rows.push(row).drop_last() =~= rows);
    }
}

fn measure_board_twos(input: &AnalysisInput, catalog: &CardCache) -> (r: u16)
    requires
        catalog.wf(),
    ensures
        r == cap(measured(Measure::BoardTwos, *catalog, deck_model(input.deck@))),
{
    let ghost deck = deck_model(input.deck@);
    let mut total: u16 = 0;
    let mut i: usize = 0;
    assert(deck.take(0) =~= Seq::<EntryModel>::empty());
    while i < input.deck.len()
        invariant
            i <= input.deck.len(),
            deck == deck_model(input.deck@),
            catalog.wf(),
            total == cap(measured(Measure::BoardTwos, *catalog, deck.take(i as int))),
        decreases input.deck.len() - i,
    {
        assert(deck.take(i + 1).drop_last() =~= deck.take(i as int));
        assert(deck.take(i + 1).last() == deck[i as int]);
        match catalog.get(input.deck[i].card_id.as_str()) {
            Some(card) => {
                if card.cost == Some(2u8) && is_board_card(card) {
                    total = total.saturating_add(input.deck[i].count as u16);
                }
            },
            None => {},
        }
        i = i + 1;
    }
    assert(deck.take(i as int) =~= deck);
    total
}

fn measure_weapons(input: &AnalysisInput, catalog: &CardCache) -> (r: (u16, u16))
    requires
        catalog.wf(),
    ensures
        r.0 == cap(measured(Measure::Weapons, *catalog, deck_model(input.deck@))),
        r.1 == cap(measured(Measure::Charges, *catalog, deck_model(input.deck@))),
{
    let ghost deck = deck_model(input.deck@);
    let mut weapons: u16 = 0;
    let mut charges: u16 = 0;
    let mut i: usize = 0;
    assert(deck.take(0) =~= Seq::<EntryModel>::empty());
    while i < input.deck.len()
        invariant
            i <= input.deck.len(),
            deck == deck_model(input.deck@),
            catalog.wf(),
            weapons == cap(measured(Measure::Weapons, *catalog, deck.take(i as int))),
            charges == cap(measured(Measure::Charges, *catalog, deck.take(i as int))),
        decreases input.deck.len() - i,
    {
        assert(deck.take(i + 1).drop_last() =~= deck.take(i as int));
        assert(deck.take(i + 1).last() == deck[i as int]);
        match catalog.get(input.deck[i].card_id.as_str()) {
            Some(card) => {
                if is_weapon(card) {
                    let copies: u16 = input.deck[i].count as u16;
                    weapons = weapons.saturating_add(copies);
                    let durability: u16 = match card.durability {
                        Some(d) => d as u16,
                        None => 0,
                    };
                    assert(durability * copies <= 65025) by (nonlinear_arith)
                        requires
                            durability <= 255,
                            copies <= 255,
                    ;
                    assert(0 * copies == 0);
                    charges = charges.saturating_add(durability * copies);
                }
            },
            None => {},
        }
        i = i + 1;
    }
    assert(deck.take(i as int) =~= deck);
    (weapons, charges)
}

fn measure_copies(input: &AnalysisInput, card_id: &str, Ghost(catalog): Ghost<CardCache>) -> (r:
    u16)
    ensures
        r == cap(measured(Measure::Copies { id: card_id@ }, catalog, deck_model(input.deck@))),
{
    let ghost deck = deck_model(input.deck@);
    let mut total: u16 = 0;
    let mut i: usize = 0;
    assert(deck.take(0) =~= Seq::<EntryModel>::empty());
    while i < input.deck.len()
        invariant
            i <= input.deck.len(),
            deck == deck_model(input.deck@),
            total == cap(
                measured(Measure::Copies { id: card_id@ }, catalog, deck.take(i as int)),
            ),
        decreases input.deck.len() - i,
    {
        assert(deck.take(i + 1).drop_last() =~= deck.take(i as int));
        assert(deck.take(i + 1).last() == deck[i as int]);
        if text::str_eq(input.deck[i].card_id.as_str(), card_id) {
            total = total.saturating_add(input.deck[i].count as u16);
        }
        i = i + 1;
    }
    assert(deck.take(i as int) =~= deck);
    total
}

fn push_row(
    rows: &mut Vec<ScoreAdjustment>,
    kind: AdjustmentKind,
    delta: i64,
    detail: String,
)
    ensures
        adjustment_models(final(rows)@) == adjustment_models(old(rows)@).push(
            AdjustmentModel { kind, delta: delta as int, detail: detail@ },
        ),
{
    rows.push(ScoreAdjustment { kind, delta, detail });
    assert(adjustment_models(rows@) =~= adjustment_models(old(rows)@).push(
        AdjustmentModel { kind, delta: delta as int, detail: detail@ },
    ));
}

fn add_curve_adjustment(
    input: &AnalysisInput,
    card: &CardMetadata,
    catalog: &CardCache,
    curve: &ManaCurve,
    rows: &mut Vec<ScoreAdjustment>,
)
    requires
        catalog.wf(),
    ensures
        adjustment_models(final(rows)@) == adjustment_models(old(rows)@) + curve_rows(
            card@,
            *curve,
            *catalog,
            deck_model(input.deck@),
        ),
{
    let ghost base = adjustment_models(rows@);
    let known: u16 = curve.zero_to_two.saturating_add(curve.three).saturating_add(
        curve.four_to_six,
    ).saturating_add(curve.seven_plus);
    let twos: u16 = measure_board_twos(input, catalog);
    let board_two = card.cost == Some(2u8) && is_board_card(card);
    if known >= 4 && (twos as u32) * 5 < known as u32 && board_two {
        let mut detail = String::new();
        detail.append("Only ");
        push_decimal(&mut detail, twos as u64);
        detail.append(" two-cost board card(s) in ");
        push_decimal(&mut detail, known as u64);
        detail.append(" known deck slots");
        assert(detail@ =~= "Only "@ + decimal(twos as nat) + " two-cost board card(s) in "@
            + decimal(known as nat) + " known deck slots"@);
        push_row(rows, AdjustmentKind::MissingTwoDrop, 4, detail);
        assert(adjustment_models(rows@) =~= base + curve_rows(
            card@,
            *curve,
            *catalog,
            deck_model(input.deck@),
        ));
        return;
    }
    match card.cost {
        None => {
            assert(adjustment_models(rows@) =~= base + Seq::<AdjustmentModel>::empty());
        },
        Some(cost) => {
            let (name, count, percent): (&str, u16, u32) = if cost <= 2 {
                ("0-2", curve.zero_to_two, 45)
            } else if cost == 3 {
                ("3", curve.three, 35)
            } else if cost <= 6 {
                ("4-6", curve.four_to_six, 55)
            } else {
                ("7+", curve.seven_plus, 25)
            };
            let after_slots: u32 = known as u32 + 1;
            let after_count: u32 = count as u32 + 1;
            assert(after_slots * percent <= 65536 * 55) by (nonlinear_arith)
                requires
                    after_slots <= 65536,
                    percent <= 55,
            ;
            if known >= 5 && after_count * 100 > after_slots * percent {
                let mut detail = String::new();
                detail.append("The ");
                detail.append(name);
                detail.append("-cost band would contain ");
                push_decimal(&mut detail, after_count as u64);
                detail.append(" of ");
                push_decimal(&mut detail, after_slots as u64);
                detail.append(" known slots");
                assert(detail@ =~= "The "@ + name@ + "-cost band would contain "@ + decimal(
                    after_count as nat,
                ) + " of "@ + decimal(after_slots as nat) + " known slots"@);
                push_row(rows, AdjustmentKind::CrowdedCurveBand, -3, detail);
            }
            assert(adjustment_models(rows@) =~= base + curve_rows(
                card@,
                *curve,
                *catalog,
                deck_model(input.deck@),
            ));
        },
    }
}

fn add_weapon_pressure_adjustment(
    input: &AnalysisInput,
    offered: &CardMetadata,
    catalog: &CardCache,
    rows: &mut Vec<ScoreAdjustment>,
)
    requires
        catalog.wf(),
    ensures
        adjustment_models(final(rows)@) == adjustment_models(old(rows)@) + weapon_rows(
            offered@,
            *catalog,
            deck_model(input.deck@),
        ),
{
    let ghost base = adjustment_models(rows@);
    let ghost wanted = weapon_rows(offered@, *catalog, deck_model(input.deck@));
    if !is_weapon(offered) {
        assert(adjustment_models(rows@) =~= base + wanted);
        return;
    }
    match offered.durability {
        None => {
            assert(adjustment_models(rows@) =~= base + wanted);
        },
        Some(durability) => {
            let (weapon_count, charge_count) = measure_weapons(input, catalog);
            let weapons: u16 = weapon_count.saturating_add(1);
            let charges: u16 = charge_count.saturating_add(durability as u16);
            if weapons >= 3 && charges > 6 {
                let beyond: i64 = charges as i64 - 5;
                let delta: i64 = if beyond < 5 {
                    -beyond
                } else {
                    -5
                };
                let mut detail = String::new();
                detail.append("Would reach ");
                push_decimal(&mut detail, weapons as u64);
                detail.append(" weapons and ");
                push_decimal(&mut detail, charges as u64);
                detail.append(" base weapon charges");
                assert(detail@ =~= "Would reach "@ + decimal(weapons as nat) + " weapons and "@
                    + decimal(charges as nat) + " base weapon charges"@);
                push_row(rows, AdjustmentKind::TooManyWeaponCharges, delta, detail);
            }
            assert(adjustment_models(rows@) =~= base + wanted);
        },
    }
}

fn add_semantic_adjustments(
    card_id: &str,
    facts: &AnalysisFacts,
    profile: &DeckProfile,
    rows: &mut Vec<ScoreAdjustment>,
    Ghost(catalog): Ghost<CardCache>,
    Ghost(deck): Ghost<Seq<EntryModel>>,
)
    requires
        facts.wf(),
        counts_synergies(profile.synergy_counts, catalog, *facts, deck),
    ensures
        adjustment_models(final(rows)@) == adjustment_models(old(rows)@) + synergy_rows(
            categories(facts.tags_of(trimmed(card_id@)), "synergy:"@),
            catalog,
            *facts,
            deck,
        ) + requirement_rows(
            categories(facts.tags_of(trimmed(card_id@)), "requires:"@),
            catalog,
            *facts,
            deck,
        ),
{
    let ghost base = adjustment_models(rows@);
    let tags = facts.tags(card_id);
    let synergies = tag_categories(&tags, "synergy:");
    let requirements = tag_categories(&tags, "requires:");
    let ghost a = texts(synergies@);
    let ghost b = texts(requirements@);
    let mut i: usize = 0;
    assert(a.take(0) =~= Seq::<Seq<char>>::empty());
    assert(adjustment_models(rows@) =~= base + synergy_rows(a.take(0), catalog, *facts, deck));
    while i < synergies.len()
        invariant
            i <= synergies.len(),
            a == texts(synergies@),
            counts_synergies(profile.synergy_counts, catalog, *facts, deck),
            adjustment_models(rows@) == base + synergy_rows(
                a.take(i as int),
                catalog,
                *facts,
                deck,
            ),
        decreases synergies.len() - i,
    {
        assert(a.take(i + 1).drop_last() =~= a.take(i as int));
        assert(a.take(i + 1).last() == a[i as int]);
        let category = synergies[i].as_str();
        proof {
            profile_synergy_is_slots(*profile, catalog, *facts, deck, category@);
        }
        let support: u16 = synergy_of(profile, category);
        if support > 0 {
            let delta: i64 = if support < 3 {
                support as i64
            } else {
                3
            };
            let mut detail = String::new();
            detail.append("Matches ");
            push_decimal(&mut detail, support as u64);
            detail.append(" observed `");
            detail.append(category);
            detail.append("` synergy card(s)");
            assert(detail@ =~= "Matches "@ + decimal(support as nat) + " observed `"@ + category@
                + "` synergy card(s)"@);
            push_row(rows, AdjustmentKind::VerifiedSynergy, delta, detail);
        }
        assert(adjustment_models(rows@) =~= base + synergy_rows(
            a.take(i + 1),
            catalog,
            *facts,
            deck,
        ));
        i = i + 1;
    }
    assert(a.take(i as int) =~= a);
    let ghost middle = adjustment_models(rows@);
    let mut m: usize = 0;
    assert(b.take(0) =~= Seq::<Seq<char>>::empty());
    assert(adjustment_models(rows@) =~= middle + requirement_rows(
        b.take(0),
        catalog,
        *facts,
        deck,
    ));
    while m < requirements.len()
        invariant
            m <= requirements.len(),
            b == texts(requirements@),
            counts_synergies(profile.synergy_counts, catalog, *facts, deck),
            adjustment_models(rows@) == middle + requirement_rows(
                b.take(m as int),
                catalog,
                *facts,
                deck,
            ),
        decreases requirements.len() - m,
    {
        assert(b.take(m + 1).drop_last() =~= b.take(m as int));
        assert(b.take(m + 1).last() == b[m as int]);
        let category = requirements[m].as_str();
        proof {
            profile_synergy_is_slots(*profile, catalog, *facts, deck, category@);
        }
        let support: u16 = synergy_of(profile, category);
        let mut detail = String::new();
        if support == 0 {
            detail.append("Requires `");
            detail.append(category);
            detail.append("` support, but none is observed");
            assert(detail@ =~= "Requires `"@ + category@ + "` support, but none is observed"@);
            push_row(rows, AdjustmentKind::UnsupportedPayoff, -5, detail);
        } else {
            detail.append("Its `");
            detail.append(category);
            detail.append("` requirement has ");
            push_decimal(&mut detail, support as u64);
            detail.append(" observed enabler(s)");
            assert(detail@ =~= "Its `"@ + category@ + "` requirement has "@ + decimal(
                support as nat,
            ) + " observed enabler(s)"@);
            push_row(rows, AdjustmentKind::SupportedPayoff, 3, detail);
        }
        assert(adjustment_models(rows@) =~= middle + requirement_rows(
            b.take(m + 1),
            catalog,
            *facts,
            deck,
        ));
        m = m + 1;
    }
    assert(b.take(m as int) =~= b);
}

fn add_repeat_adjustment(
    input: &AnalysisInput,
    card_id: &str,
    rows: &mut Vec<ScoreAdjustment>,
    Ghost(catalog): Ghost<CardCache>,
)
    ensures
        adjustment_models(final(rows)@) == adjustment_models(old(rows)@) + repeat_rows(
            card_id@,
            catalog,
            deck_model(input.deck@),
        ),
{
    let ghost base = adjustment_models(rows@);
    let existing: u16 = measure_copies(input, card_id, Ghost(catalog));
    if existing >= 2 {
        let delta: i64 = if existing - 1 < 2 {
            -1
        } else {
            -2
        };
        let mut detail = String::new();
        detail.append("The deck already contains ");
        push_decimal(&mut detail, existing as u64);
        detail.append(" copies");
        assert(detail@ =~= "The deck already contains "@ + decimal(existing as nat) + " copies"@);
        push_row(rows, AdjustmentKind::RepeatedCard, delta, detail);
    }
    assert(adjustment_models(rows@) =~= base + repeat_rows(
        card_id@,
        catalog,
        deck_model(input.deck@),
    ));
}

/// Whether every adjustment is a few points.
pub open spec fn small_deltas(rows: Seq<AdjustmentModel>) -> bool {
    forall|i: int| 0 <= i < rows.len() ==> -5 <= (#[trigger] rows[i]).delta <= 5
}

proof fn semantic_rows_are_small(
    synergies: Seq<Seq<char>>,
    requirements: Seq<Seq<char>>,
    catalog: CardCache,
    facts: AnalysisFacts,
    deck: Seq<EntryModel>,
)
    ensures
        small_deltas(synergy_rows(synergies, catalog, facts, deck)),
        synergy_rows(synergies, catalog, facts, deck).len() <= synergies.len(),
        small_deltas(requirement_rows(requirements, catalog, facts, deck)),
        requirement_rows(requirements, catalog, facts, deck).len() <= requirements.len(),
    decreases synergies.len() + requirements.len(),
{
    if synergies.len() > 0 {
        semantic_rows_are_small(synergies.drop_last(), requirements, catalog, facts, deck);
    }
    if requirements.len() > 0 {
        semantic_rows_are_small(synergies, requirements.drop_last(), catalog, facts, deck);
    }
}

proof fn categories_are_few(tags: Seq<Seq<char>>, prefix: Seq<char>)
    ensures
        categories(tags, prefix).len() <= tags.len(),
    decreases tags.len(),
{
    if tags.len() > 0 {
        categories_are_few(tags.drop_last(), prefix);
    }
}

proof fn small_deltas_sum(rows: Seq<AdjustmentModel>)
    requires
        small_deltas(rows),
    ensures
        -5 * rows.len() <= delta_sum(rows) <= 5 * rows.len(),
    decreases rows.len(),
{
    if rows.len() > 0 {
        assert(rows.last() == rows[rows.len() - 1]);
        assert forall|i: int| 0 <= i < rows.drop_last().len() implies -5 <= (
        #[trigger] rows.drop_last()[i]).delta <= 5 by {
            assert(rows.drop_last()[i] == rows[i]);
        }
        small_deltas_sum(rows.drop_last());
    }
}

proof fn adjustments_are_small(
    id: Seq<char>,
    catalog: CardCache,
    facts: AnalysisFacts,
    deck: Seq<EntryModel>,
)
    ensures
        small_deltas(adjustments_for(id, catalog, facts, deck)),
        adjustments_for(id, catalog, facts, deck).len() <= 2 * facts.tags_of(trimmed(id)).len() + 3,
{
    let tags = facts.tags_of(trimmed(id));
    categories_are_few(tags, "synergy:"@);
    categories_are_few(tags, "requires:"@);
    semantic_rows_are_small(
        categories(tags, "synergy:"@),
        categories(tags, "requires:"@),
        catalog,
        facts,
        deck,
    );
}

/// The number of facts about one card whose adjustments can be added up.
pub const MAX_FACTS: u64 = 0x00ff_ffff_ffff_ffff;

/// The adjustment of a rating to a deck: its rows, and their sum within the limit.
pub fn deck_adjustments(
    input: &AnalysisInput,
    card_id: &str,
    catalog: &CardCache,
    facts: &AnalysisFacts,
) -> (r: (i64, Vec<ScoreAdjustment>))
    requires
        catalog.wf(),
        facts.wf(),
        countable(*catalog, *facts, deck_model(input.deck@)),
        facts.tags_of(trimmed(card_id@)).len() <= MAX_FACTS,
    ensures
        r.0 == limited(
            delta_sum(adjustments_for(card_id@, *catalog, *facts, deck_model(input.deck@))),
        ),
        adjustment_models(r.1@) == with_limit(
            adjustments_for(card_id@, *catalog, *facts, deck_model(input.deck@)),
        ),
{
    let ghost deck = deck_model(input.deck@);
    let profile = analyze_deck(input, catalog, facts);
    let mut rows: Vec<ScoreAdjustment> = Vec::new();
    assert(adjustment_models(rows@) =~= Seq::<AdjustmentModel>::empty());
    match catalog.get(card_id) {
        Some(card) => {
            add_curve_adjustment(input, card, catalog, &profile.mana_curve, &mut rows);
            add_weapon_pressure_adjustment(input, card, catalog, &mut rows);
            assert(adjustment_models(rows@) =~= curve_rows(
                card@,
                curve_of(*catalog, *facts, deck),
                *catalog,
                deck,
            ) + weapon_rows(card@, *catalog, deck));
        },
        None => {},
    }
    add_semantic_adjustments(card_id, facts, &profile, &mut rows, Ghost(*catalog), Ghost(deck));
    add_repeat_adjustment(input, card_id, &mut rows, Ghost(*catalog));
    let ghost wanted = adjustments_for(card_id@, *catalog, *facts, deck);
    assert(adjustment_models(rows@) =~= wanted);
    proof {
        adjustments_are_small(card_id@, *catalog, *facts, deck);
    }
    let mut sum: i64 = 0;
    let mut i: usize = 0;
    assert(wanted.take(0) =~= Seq::<AdjustmentModel>::empty());
    while i < rows.len()
        invariant
            i <= rows.len(),
            wanted == adjustment_models(rows@),
            small_deltas(wanted),
            wanted.len() <= 2 * MAX_FACTS + 3,
            sum == delta_sum(wanted.take(i as int)),
        decreases rows.len() - i,
    {
        proof {
            assert(wanted.take(i + 1).drop_last() =~= wanted.take(i as int));
            assert(wanted.take(i + 1).last() == wanted[i as int]);
            assert(small_deltas(wanted.take(i as int)));
            small_deltas_sum(wanted.take(i as int));
            assert(-5 <= wanted[i as int].delta <= 5);
        }
        sum = sum + rows[i].delta;
        i = i + 1;
    }
    proof {
        assert(wanted.take(i as int) =~= wanted);
        small_deltas_sum(wanted);
    }
    let adjustment: i64 = if sum > MAX_DECK_ADJUSTMENT {
        MAX_DECK_ADJUSTMENT
    } else if sum < -MAX_DECK_ADJUSTMENT {
        -MAX_DECK_ADJUSTMENT
    } else {
        sum
    };
    if adjustment != sum {
        push_row(
            &mut rows,
            AdjustmentKind::AdjustmentLimit,
            adjustment - sum,
            text::copy("Deck adjustments are limited to ±12 rating points"),
        );
    }
    (adjustment, rows)
}

/// An offered card with its rating and its adjustment to the deck.
#[derive(Debug)]
pub struct OfferScore {
    pub card_id: String,
    pub base_rating: Option<CardRating>,
    pub provider_ratings: Vec<ProviderRating>,
    /// What is added to the rating; nothing where there is no rating.
    pub adjustment: i64,
    pub adjustments: Vec<ScoreAdjustment>,
}

/// Joins the ratings that a provider gave with the adjustment to the deck. Without a rating
/// there is neither evidence nor adjustment.
pub fn score_with_ratings(
    base_rating: Option<CardRating>,
    provider_ratings: Vec<ProviderRating>,
    input: &AnalysisInput,
    card_id: &str,
    catalog: &CardCache,
    facts: &AnalysisFacts,
) -> (r: OfferScore)
    requires
        catalog.wf(),
        facts.wf(),
        countable(*catalog, *facts, deck_model(input.deck@)),
        facts.tags_of(trimmed(card_id@)).len() <= MAX_FACTS,
    ensures
        r.card_id@ == card_id@,
        r.base_rating == base_rating,
        base_rating is None ==> r.provider_ratings@.len() == 0 && r.adjustment == 0
            && r.adjustments@.len() == 0,
        base_rating is Some ==> r.provider_ratings == provider_ratings && r.adjustment == limited(
            delta_sum(adjustments_for(card_id@, *catalog, *facts, deck_model(input.deck@))),
        ) && adjustment_models(r.adjustments@) == with_limit(
            adjustments_for(card_id@, *catalog, *facts, deck_model(input.deck@)),
        ),
{
    if base_rating.is_none() {
        return OfferScore {
            card_id: text::copy(card_id),
            base_rating: None,
            provider_ratings: Vec::new(),
            adjustment: 0,
            adjustments: Vec::new(),
        };
    }
    let (adjustment, adjustments) = deck_adjustments(input, card_id, catalog, facts);
    OfferScore {
        card_id: text::copy(card_id),
        base_rating,
        provider_ratings,
        adjustment,
        adjustments,
    }
}

/// Scores an offered card with a provider's rating. What the provider answers decides whether
/// there is a score; the adjustment depends on the deck alone.
pub fn score_offer<P: RatingProvider>(
    provider: &P,
    class: Option<HeroClass>,
    input: &AnalysisInput,
    card_id: &str,
    catalog: &CardCache,
    facts: &AnalysisFacts,
) -> (r: OfferScore)
    requires
        catalog.wf(),
        facts.wf(),
        countable(*catalog, *facts, deck_model(input.deck@)),
        facts.tags_of(trimmed(card_id@)).len() <= MAX_FACTS,
    ensures
        r.card_id@ == card_id@,
        call_ensures(P::rating, (provider, card_id, class), r.base_rating),
        r.base_rating is None ==> r.provider_ratings@.len() == 0 && r.adjustment == 0
            && r.adjustments@.len() == 0,
        r.base_rating is Some ==> call_ensures(
            P::provider_ratings,
            (provider, card_id, class),
            r.provider_ratings,
        ),
        r.base_rating is Some ==> r.adjustment == limited(
            delta_sum(adjustments_for(card_id@, *catalog, *facts, deck_model(input.deck@))),
        ) && adjustment_models(r.adjustments@) == with_limit(
            adjustments_for(card_id@, *catalog, *facts, deck_model(input.deck@)),
        ),
{
    let base_rating = provider.rating(card_id, class);
    let provider_ratings = provider.provider_ratings(card_id, class);
    score_with_ratings(base_rating, provider_ratings, input, card_id, catalog, facts)
}

} // verus!
