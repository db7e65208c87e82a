//! The profile of a deck: its mana curve, its verified features, and what is not known of it.

use vstd::prelude::*;

use crate::analysis::{is_feature, is_feature_tag, AnalysisFacts, ANALYSIS_SCHEMA_VERSION};
use crate::card_data::CardCache;
use crate::state::{deck_model, DeckCard, EntryModel};
use crate::text;
use crate::text::{occurs_at, prefix_stands_at_the_head, texts, trimmed};
use crate::text_map::{sorted_texts_are_distinct, strictly_sorted, TextMap, TextSet};

verus! {

/// The deck that is analysed, with the size that the rules expect, if they say.
#[derive(Debug, PartialEq, Eq)]
pub struct AnalysisInput {
    pub deck: Vec<DeckCard>,
    pub expected_slots: Option<u16>,
}

/// The number of card slots by mana cost.
#[derive(Clone, Copy, Debug, PartialEq, Eq, Structural)]
pub struct ManaCurve {
    pub zero_to_two: u16,
    pub three: u16,
    pub four_to_six: u16,
    pub seven_plus: u16,
    pub unknown_cost: u16,
}

/// The pace that a deck's curve suggests.
#[derive(Clone, Copy, Debug, PartialEq, Eq, Structural)]
pub enum DeckSpeed {
    Tempo,
    Midrange,
    Control,
    Uncertain,
}

/// What a deck lacks.
#[derive(Clone, Copy, Debug, PartialEq, Eq, Structural)]
pub enum DeckWeakness {
    InsufficientEarlyBoardPresence,
    LimitedRemoval,
    LimitedCardDraw,
    ExpensiveCurve,
}

/// What is not known of a deck.
#[derive(Debug, PartialEq, Eq)]
pub struct AnalysisUncertainty {
    pub missing_metadata_ids: Vec<String>,
    pub missing_analysis_fact_ids: Vec<String>,
    pub unknown_cost_slots: u16,
    pub deck_slots_not_observed: Option<u16>,
}

/// The profile of a deck.
#[derive(Debug)]
pub struct DeckProfile {
    pub schema_version: u32,
    pub observed_slots: u16,
    pub expected_slots: Option<u16>,
    pub mana_curve: ManaCurve,
    pub early_game_density: u16,
    pub removal: u16,
    pub board_clears: u16,
    pub card_draw: u16,
    pub discover_and_generation: u16,
    pub reach: u16,
    pub taunts: u16,
    pub stabilization: u16,
    /// The number of slots by synergy.
    pub synergy_counts: TextMap<u16>,
    pub expected_speed: DeckSpeed,
    pub weaknesses: Vec<DeckWeakness>,
    pub uncertainty: AnalysisUncertainty,
}

/// The slots that are counted together.
pub enum SlotKind {
    /// All slots.
    All,
    /// Slots of cards with a known cost within bounds.
    Cost { least: u8, most: u8 },
    /// Slots of cards that are unknown, or whose cost is.
    UnknownCost,
    /// Slots of known cards with a verified tag.
    Tagged { tag: Seq<char> },
}

/// Whether the slots of a deck entry are counted.
pub open spec fn falls_under(
    kind: SlotKind,
    catalog: CardCache,
    facts: AnalysisFacts,
    e: EntryModel,
) -> bool {
    let card = catalog.card(trimmed(e.card_id));
    match kind {
        SlotKind::All => true,
        SlotKind::Cost { least, most } => card is Some && card->0.cost is Some && least
            <= card->0.cost->0 <= most,
        SlotKind::UnknownCost => card is None || card->0.cost is None,
        SlotKind::Tagged { tag } => card is Some && facts.tags_of(trimmed(e.card_id)).contains(tag),
    }
}

/// The number of slots of a kind in a deck.
pub open spec fn slots(
    kind: SlotKind,
    catalog: CardCache,
    facts: AnalysisFacts,
    deck: Seq<EntryModel>,
) -> nat
    decreases deck.len(),
{
    if deck.len() == 0 {
        0
    } else {
        let before = slots(kind, catalog, facts, deck.drop_last());
        if falls_under(kind, catalog, facts, deck.last()) {
            before + deck.last().count as nat
        } else {
            before
        }
    }
}

/// A number, or the greatest that sixteen bits hold.
pub open spec fn cap(n: nat) -> u16 {
    if n <= u16::MAX {
        n as u16
    } else {
        u16::MAX
    }
}

/// Whether slots with a tag are counted.
pub open spec fn counted_tag(tag: Seq<char>) -> bool {
    is_feature(tag) || occurs_at(tag, "synergy:"@, 0)
}

/// Whether every count of tagged slots fits into sixteen bits.
pub open spec fn countable(
    catalog: CardCache,
    facts: AnalysisFacts,
    deck: Seq<EntryModel>,
) -> bool {
    forall|tag: Seq<char>| #[trigger]
        counted_tag(tag) ==> slots(SlotKind::Tagged { tag }, catalog, facts, deck) <= u16::MAX
}

/// Whether any entry of a deck is counted.
pub open spec fn any_falls_under(
    kind: SlotKind,
    catalog: CardCache,
    facts: AnalysisFacts,
    deck: Seq<EntryModel>,
) -> bool {
    exists|i: int| 0 <= i < deck.len() && falls_under(kind, catalog, facts, #[trigger] deck[i])
}

/// Whether a deck holds an unknown card with this id.
pub open spec fn lacks_metadata(catalog: CardCache, deck: Seq<EntryModel>, id: Seq<char>) -> bool {
    exists|i: int|
        0 <= i < deck.len() && (#[trigger] deck[i]).card_id == id && catalog.card(
            trimmed(id),
        ) is None
}

/// Whether a deck holds a known card with this id of which no facts are known.
pub open spec fn lacks_facts(
    catalog: CardCache,
    facts: AnalysisFacts,
    deck: Seq<EntryModel>,
    id: Seq<char>,
) -> bool {
    exists|i: int|
        0 <= i < deck.len() && (#[trigger] deck[i]).card_id == id && catalog.card(
            trimmed(id),
        ) is Some && facts.record(trimmed(id)) is None
}

/// The mana curve of a deck.
pub open spec fn curve_of(
    catalog: CardCache,
    facts: AnalysisFacts,
    deck: Seq<EntryModel>,
) -> ManaCurve {
    ManaCurve {
        zero_to_two: cap(slots(SlotKind::Cost { least: 0, most: 2 }, catalog, facts, deck)),
        three: cap(slots(SlotKind::Cost { least: 3, most: 3 }, catalog, facts, deck)),
        four_to_six: cap(slots(SlotKind::Cost { least: 4, most: 6 }, catalog, facts, deck)),
        seven_plus: cap(slots(SlotKind::Cost { least: 7, most: 255 }, catalog, facts, deck)),
        unknown_cost: cap(slots(SlotKind::UnknownCost, catalog, facts, deck)),
    }
}

/// The number of slots with a feature.
pub open spec fn feature_slots(
    feature: Seq<char>,
    catalog: CardCache,
    facts: AnalysisFacts,
    deck: Seq<EntryModel>,
) -> nat {
    slots(SlotKind::Tagged { tag: feature }, catalog, facts, deck)
}

/// The number of slots with a synergy.
pub open spec fn synergy_slots(
    category: Seq<char>,
    catalog: CardCache,
    facts: AnalysisFacts,
    deck: Seq<EntryModel>,
) -> nat {
    slots(SlotKind::Tagged { tag: "synergy:"@ + category }, catalog, facts, deck)
}

/// Whether a map counts the synergies of a deck.
pub open spec fn counts_synergies(
    counts: TextMap<u16>,
    catalog: CardCache,
    facts: AnalysisFacts,
    deck: Seq<EntryModel>,
) -> bool {
    &&& counts.wf()
    &&& forall|k: Seq<char>| #[trigger]
        counts.has(k) <==> any_falls_under(
            SlotKind::Tagged { tag: "synergy:"@ + k },
            catalog,
            facts,
            deck,
        )
    &&& forall|k: Seq<char>| #[trigger]
        counts.has(k) ==> counts.at(k) == synergy_slots(k, catalog, facts, deck)
}

/// The slots of cards with a known cost.
pub open spec fn known_cost_slots(observed: u16, curve: ManaCurve) -> int {
    if observed >= curve.unknown_cost {
        observed - curve.unknown_cost
    } else {
        0
    }
}

/// The expected slots that were not observed.
pub open spec fn unobserved_slots(observed: u16, expected: Option<u16>) -> Option<u16> {
    match expected {
        Some(e) => Some(
            if e >= observed {
                (e - observed) as u16
            } else {
                0
            },
        ),
        None => None,
    }
}

/// The pace of a deck; uncertain while much of it is unknown.
pub open spec fn speed_of(
    observed: u16,
    expected: Option<u16>,
    curve: ManaCurve,
    facts_missing: bool,
) -> DeckSpeed {
    if known_cost_slots(observed, curve) < 8 || curve.unknown_cost > 0 || (unobserved_slots(
        observed,
        expected,
    ) is Some && unobserved_slots(observed, expected)->0 > 0) || facts_missing {
        DeckSpeed::Uncertain
    } else if curve.zero_to_two >= cap((curve.seven_plus + 4) as nat) {
        DeckSpeed::Tempo
    } else if curve.seven_plus >= cap((curve.zero_to_two + 3) as nat) {
        DeckSpeed::Control
    } else {
        DeckSpeed::Midrange
    }
}

/// One weakness, where it holds.
pub open spec fn weakness_if(holds: bool, weakness: DeckWeakness) -> Seq<DeckWeakness> {
    if holds {
        seq![weakness]
    } else {
        Seq::empty()
    }
}

/// The weaknesses of a deck.
pub open spec fn weaknesses_of(
    observed: u16,
    curve: ManaCurve,
    removal: u16,
    card_draw: u16,
    facts_missing: bool,
) -> Seq<DeckWeakness> {
    let known = known_cost_slots(observed, curve);
    weakness_if(
        known >= 8 && 4 * curve.zero_to_two < known,
        DeckWeakness::InsufficientEarlyBoardPresence,
    ) + weakness_if(!facts_missing && known >= 10 && removal == 0, DeckWeakness::LimitedRemoval)
        + weakness_if(!facts_missing && known >= 12 && card_draw == 0, DeckWeakness::LimitedCardDraw)
        + weakness_if(known >= 8 && curve.seven_plus > curve.zero_to_two, DeckWeakness::ExpensiveCurve)
}

/// Whether a list names the unknown cards of a deck, and another the cards without facts, both
/// in order and each once.
pub open spec fn names_the_missing(
    u: AnalysisUncertainty,
    catalog: CardCache,
    facts: AnalysisFacts,
    deck: Seq<EntryModel>,
) -> bool {
    &&& strictly_sorted(texts(u.missing_metadata_ids@))
    &&& forall|id: Seq<char>| #[trigger]
        texts(u.missing_metadata_ids@).contains(id) <==> lacks_metadata(catalog, deck, id)
    &&& strictly_sorted(texts(u.missing_analysis_fact_ids@))
    &&& forall|id: Seq<char>| #[trigger]
        texts(u.missing_analysis_fact_ids@).contains(id) <==> lacks_facts(catalog, facts, deck, id)
}

/// Whether a profile is that of a deck.
pub open spec fn is_profile(
    p: DeckProfile,
    catalog: CardCache,
    facts: AnalysisFacts,
    deck: Seq<EntryModel>,
    expected: Option<u16>,
) -> bool {
    let curve = curve_of(catalog, facts, deck);
    let observed = cap(slots(SlotKind::All, catalog, facts, deck));
    &&& p.schema_version == ANALYSIS_SCHEMA_VERSION
    &&& p.observed_slots == observed
    &&& p.expected_slots == expected
    &&& p.mana_curve == curve
    &&& p.early_game_density == curve.zero_to_two
    &&& p.removal == feature_slots("removal"@, catalog, facts, deck)
    &&& p.board_clears == feature_slots("board_clear"@, catalog, facts, deck)
    &&& p.card_draw == feature_slots("card_draw"@, catalog, facts, deck)
    &&& p.discover_and_generation == cap(
        feature_slots("discover"@, catalog, facts, deck) + feature_slots(
            "generation"@,
            catalog,
            facts,
            deck,
        ),
    )
    &&& p.reach == feature_slots("reach"@, catalog, facts, deck)
    &&& p.taunts == feature_slots("taunt"@, catalog, facts, deck)
    &&& p.stabilization == feature_slots("stabilization"@, catalog, facts, deck)
    &&& counts_synergies(p.synergy_counts, catalog, facts, deck)
    &&& names_the_missing(p.uncertainty, catalog, facts, deck)
    &&& p.expected_speed == speed_of(
        observed,
        expected,
        curve,
        p.uncertainty.missing_analysis_fact_ids@.len() > 0,
    )
    &&& p.weaknesses@ == weaknesses_of(
        observed,
        curve,
        p.removal,
        p.card_draw,
        p.uncertainty.missing_analysis_fact_ids@.len() > 0,
    )
    &&& p.uncertainty.unknown_cost_slots == curve.unknown_cost
    &&& p.uncertainty.deck_slots_not_observed == unobserved_slots(observed, expected)
}

proof fn slots_of_longer(
    kind: SlotKind,
    catalog: CardCache,
    facts: AnalysisFacts,
    deck: Seq<EntryModel>,
    e: EntryModel,
)
    ensures
        slots(kind, catalog, facts, deck.push(e)) == slots(kind, catalog, facts, deck) + (
        if falls_under(kind, catalog, facts, e) {
            e.count as nat
        } else {
            0
        }),
{
    assert(deck.push(e).drop_last() =~= deck);
}

/// Leaving the last entry out of a countable deck leaves a countable one.
proof fn shorter_is_countable(
    catalog: CardCache,
    facts: AnalysisFacts,
    deck: Seq<EntryModel>,
    n: int,
)
    requires
        0 <= n <= deck.len(),
        countable(catalog, facts, deck),
    ensures
        countable(catalog, facts, deck.take(n)),
    decreases deck.len() - n,
{
    if n == deck.len() {
        assert(deck.take(n) =~= deck);
    } else {
        shorter_is_countable(catalog, facts, deck, n + 1);
        assert(deck.take(n + 1) =~= deck.take(n).push(deck[n]));
        assert forall|tag: Seq<char>| #[trigger] counted_tag(tag) implies slots(
            SlotKind::Tagged { tag },
            catalog,
            facts,
            deck.take(n),
        ) <= u16::MAX by {
            slots_of_longer(SlotKind::Tagged { tag }, catalog, facts, deck.take(n), deck[n]);
        }
    }
}

struct Accumulator {
    observed_slots: u16,
    curve: ManaCurve,
    feature_counts: TextMap<u16>,
    synergy_counts: TextMap<u16>,
    missing_metadata_ids: TextSet,
    missing_analysis_fact_ids: TextSet,
}

spec fn count_or_zero(counts: TextMap<u16>, key: Seq<char>) -> u16 {
    if counts.has(key) {
        counts.at(key)
    } else {
        0
    }
}

fn read_count(counts: &TextMap<u16>, key: &str) -> (r: u16)
    requires
        counts.wf(),
    ensures
        r == count_or_zero(*counts, key@),
{
    match counts.get(key) {
        Some(n) => *n,
        None => 0,
    }
}

fn raise_count(counts: &mut TextMap<u16>, key: String, by: u16)
    requires
        old(counts).wf(),
        count_or_zero(*old(counts), key@) + by <= u16::MAX,
    ensures
        final(counts).wf(),
        final(counts).has(key@),
        final(counts).at(key@) == count_or_zero(*old(counts), key@) + by,
        forall|k: Seq<char>| k != key@ ==> (#[trigger] final(counts).has(k) <==> old(counts).has(k)),
        forall|k: Seq<char>|
            k != key@ && old(counts).has(k) ==> #[trigger] final(counts).at(k) == old(counts).at(k),
{
    let now: u16 = read_count(counts, key.as_str());
    counts.insert(key, now + by);
}

impl Accumulator {
    spec fn counts(
        &self,
        catalog: CardCache,
        facts: AnalysisFacts,
        deck: Seq<EntryModel>,
    ) -> bool {
        &&& self.observed_slots == cap(slots(SlotKind::All, catalog, facts, deck))
        &&& self.curve == curve_of(catalog, facts, deck)
        &&& self.feature_counts.wf()
        &&& forall|tag: Seq<char>| #[trigger]
            is_feature(tag) ==> count_or_zero(self.feature_counts, tag) == slots(
                SlotKind::Tagged { tag },
                catalog,
                facts,
                deck,
            )
        &&& counts_synergies(self.synergy_counts, catalog, facts, deck)
        &&& self.missing_metadata_ids.wf()
        &&& forall|id: Seq<char>| #[trigger]
            self.missing_metadata_ids.has(id) <==> lacks_metadata(catalog, deck, id)
        &&& self.missing_analysis_fact_ids.wf()
        &&& forall|id: Seq<char>| #[trigger]
            self.missing_analysis_fact_ids.has(id) <==> lacks_facts(catalog, facts, deck, id)
    }

    fn new(Ghost(catalog): Ghost<CardCache>, Ghost(facts): Ghost<AnalysisFacts>) -> (r: Self)
        ensures
            r.counts(catalog, facts, Seq::<EntryModel>::empty()),
    {
        Accumulator {
            observed_slots: 0,
            curve: ManaCurve {
                zero_to_two: 0,
                three: 0,
                four_to_six: 0,
                seven_plus: 0,
                unknown_cost: 0,
            },
            feature_counts: TextMap::new(),
            synergy_counts: TextMap::new(),
            missing_metadata_ids: TextSet::new(),
            missing_analysis_fact_ids: TextSet::new(),
        }
    }

    fn add_curve(
        &mut self,
        cost: Option<u8>,
        known: bool,
        count: u16,
        Ghost(catalog): Ghost<CardCache>,
        Ghost(facts): Ghost<AnalysisFacts>,
        Ghost(deck): Ghost<Seq<EntryModel>>,
        Ghost(e): Ghost<EntryModel>,
    )
        requires
            old(self).counts(catalog, facts, deck),
            count == e.count,
            known == (catalog.card(trimmed(e.card_id)) is Some),
            known ==> cost == catalog.card(trimmed(e.card_id))->0.cost,
        ensures
            *final(self) == (Accumulator {
                observed_slots: cap(slots(SlotKind::All, catalog, facts, deck.push(e))),
                curve: curve_of(catalog, facts, deck.push(e)),
                ..*old(self)
            }),
    {
        proof {
            slots_of_longer(SlotKind::All, catalog, facts, deck, e);
            slots_of_longer(SlotKind::Cost { least: 0, most: 2 }, catalog, facts, deck, e);
            slots_of_longer(SlotKind::Cost { least: 3, most: 3 }, catalog, facts, deck, e);
            slots_of_longer(SlotKind::Cost { least: 4, most: 6 }, catalog, facts, deck, e);
            slots_of_longer(SlotKind::Cost { least: 7, most: 255 }, catalog, facts, deck, e);
            slots_of_longer(SlotKind::UnknownCost, catalog, facts, deck, e);
        }
        self.observed_slots = self.observed_slots.saturating_add(count);
        let mut curve = self.curve;
        match cost {
            Some(c) if known => {
                if c <= 2 {
                    curve.zero_to_two = curve.zero_to_two.saturating_add(count);
                } else if c == 3 {
                    curve.three = curve.three.saturating_add(count);
                } else if c <= 6 {
                    curve.four_to_six = curve.four_to_six.saturating_add(count);
                } else {
                    curve.seven_plus = curve.seven_plus.saturating_add(count);
                }
            },
            _ => {
                curve.unknown_cost = curve.unknown_cost.saturating_add(count);
            },
        }
        self.curve = curve;
    }

    fn add_tags(
        &mut self,
        tags: &TextSet,
        count: u16,
        Ghost(catalog): Ghost<CardCache>,
        Ghost(facts): Ghost<AnalysisFacts>,
        Ghost(deck): Ghost<Seq<EntryModel>>,
        Ghost(e): Ghost<EntryModel>,
    )
        requires
            old(self).feature_counts.wf(),
            forall|tag: Seq<char>| #[trigger]
                is_feature(tag) ==> count_or_zero(old(self).feature_counts, tag) == slots(
                    SlotKind::Tagged { tag },
                    catalog,
                    facts,
                    deck,
                ),
            counts_synergies(old(self).synergy_counts, catalog, facts, deck),
            countable(catalog, facts, deck.push(e)),
            count == e.count,
            catalog.card(trimmed(e.card_id)) is Some,
            tags.wf(),
            tags.elems() == facts.tags_of(trimmed(e.card_id)),
        ensures
            final(self).feature_counts.wf(),
            forall|tag: Seq<char>| #[trigger]
                is_feature(tag) ==> count_or_zero(final(self).feature_counts, tag) == slots(
                    SlotKind::Tagged { tag },
                    catalog,
                    facts,
                    deck.push(e),
                ),
            counts_synergies(final(self).synergy_counts, catalog, facts, deck.push(e)),
            *final(self) == (Accumulator {
                feature_counts: final(self).feature_counts,
                synergy_counts: final(self).synergy_counts,
                ..*old(self)
            }),
    {
        let ghost all = tags.elems();
        let mut i: usize = 0;
        proof {
            tags.elems_are_sorted();
        }
        while i < tags.len()
            invariant
                i <= all.len(),
                all == tags.elems(),
                all == facts.tags_of(trimmed(e.card_id)),
                strictly_sorted(all),
                catalog.card(trimmed(e.card_id)) is Some,
                countable(catalog, facts, deck.push(e)),
                count == e.count,
                *self == (Accumulator {
                    feature_counts: self.feature_counts,
                    synergy_counts: self.synergy_counts,
                    ..*old(self)
                }),
                self.feature_counts.wf(),
                self.synergy_counts.wf(),
                forall|tag: Seq<char>| #[trigger]
                    is_feature(tag) ==> count_or_zero(self.feature_counts, tag) == slots(
                        SlotKind::Tagged { tag },
                        catalog,
                        facts,
                        deck,
                    ) + (if all.take(i as int).contains(tag) {
                        count as nat
                    } else {
                        0
                    }),
                forall|k: Seq<char>| #[trigger]
                    self.synergy_counts.has(k) <==> (any_falls_under(
                        SlotKind::Tagged { tag: "synergy:"@ + k },
                        catalog,
                        facts,
                        deck,
                    ) || all.take(i as int).contains("synergy:"@ + k)),
                forall|k: Seq<char>| #[trigger]
                    self.synergy_counts.has(k) ==> self.synergy_counts.at(k) == synergy_slots(
                        k,
                        catalog,
                        facts,
                        deck,
                    ) + (if all.take(i as int).contains("synergy:"@ + k) {
                        count as nat
                    } else {
                        0
                    }),
            decreases all.len() - i,
        {
            let tag = tags.text_at(i);
            let ghost t = tag@;
            let ghost n = i as int;
            let ghost before = *self;
            proof {
                assert(!all.take(n).contains(t)) by {
                    if all.take(n).contains(t) {
                        let j = all.take(n).index_of(t);
                        assert(all[j] == t);
                        sorted_texts_are_distinct(all, j, n);
                    }
                }
                assert forall|x: Seq<char>| #[trigger] all.take(n + 1).contains(x) <==> (all.take(
                    n,
                ).contains(x) || x == t) by {
                    if all.take(n).contains(x) {
                        let j = all.take(n).index_of(x);
                        assert(all.take(n + 1)[j] == x);
                    }
                    if x == t {
                        assert(all.take(n + 1)[n] == x);
                    }
                    if all.take(n + 1).contains(x) {
                        let j = all.take(n + 1).index_of(x);
                        if j < n {
                            assert(all.take(n)[j] == x);
                        }
                    }
                }
                slots_of_longer(SlotKind::Tagged { tag: t }, catalog, facts, deck, e);
                assert(all.contains(t)) by {
                    assert(all[n] == t);
                }
            }
            if is_feature_tag(tag) {
                assert(counted_tag(t));
                raise_count(&mut self.feature_counts, text::copy(tag), count);
                proof {
                    features_are_no_synergies(t);
                    assert forall|k: Seq<char>| "synergy:"@ + k != t by {
                        prefix_stands_at_the_head("synergy:"@, k);
                    }
                }
            } else {
                match text::strip_prefix(tag, "synergy:") {
                    Some(category) => {
                        assert(counted_tag(t));
                        let ghost c = category@;
                        assert(t == "synergy:"@ + c);
                        proof {
                            if !before.synergy_counts.has(c) {
                                assert(!any_falls_under(
                                    SlotKind::Tagged { tag: t },
                                    catalog,
                                    facts,
                                    deck,
                                ));
                                none_falls_under(SlotKind::Tagged { tag: t }, catalog, facts, deck);
                            }
                        }
                        raise_count(&mut self.synergy_counts, category, count);
                        proof {
                            assert forall|k: Seq<char>| "synergy:"@ + k == t implies k == c by {
                                prefix_stands_at_the_head("synergy:"@, k);
                                prefix_stands_at_the_head("synergy:"@, c);
                            }
                        }
                    },
                    None => {
                        proof {
                            assert forall|k: Seq<char>| "synergy:"@ + k != t by {
                                prefix_stands_at_the_head("synergy:"@, k);
                            }
                        }
                    },
                }
            }
            i = i + 1;
        }
        proof {
            assert(all.take(i as int) =~= all);
            assert forall|tag: Seq<char>| #[trigger] is_feature(tag) implies count_or_zero(
                self.feature_counts,
                tag,
            ) == slots(SlotKind::Tagged { tag }, catalog, facts, deck.push(e)) by {
                slots_of_longer(SlotKind::Tagged { tag }, catalog, facts, deck, e);
            }
            assert forall|k: Seq<char>| #[trigger] self.synergy_counts.has(k) <==> any_falls_under(
                SlotKind::Tagged { tag: "synergy:"@ + k },
                catalog,
                facts,
                deck.push(e),
            ) by {
                any_of_longer(SlotKind::Tagged { tag: "synergy:"@ + k }, catalog, facts, deck, e);
            }
            assert forall|k: Seq<char>| #[trigger]
                self.synergy_counts.has(k) implies self.synergy_counts.at(k) == synergy_slots(
                k,
                catalog,
                facts,
                deck.push(e),
            ) by {
                slots_of_longer(SlotKind::Tagged { tag: "synergy:"@ + k }, catalog, facts, deck, e);
            }
        }
    }

    fn add(
        &mut self,
        entry: &DeckCard,
        catalog: &CardCache,
        facts: &AnalysisFacts,
        Ghost(deck): Ghost<Seq<EntryModel>>,
    )
        requires
            catalog.wf(),
            facts.wf(),
            old(self).counts(*catalog, *facts, deck),
            countable(*catalog, *facts, deck.push(entry@)),
        ensures
            final(self).counts(*catalog, *facts, deck.push(entry@)),
    {
        let ghost e = entry@;
        let ghost longer = deck.push(e);
        let ghost before = *self;
        let count: u16 = entry.count as u16;
        let (known, cost) = match catalog.get(entry.card_id.as_str()) {
            Some(card) => (true, card.cost),
            None => (false, None),
        };
        self.add_curve(
            cost,
            known,
            count,
            Ghost(*catalog),
            Ghost(*facts),
            Ghost(deck),
            Ghost(e),
        );
        proof {
            assert forall|id: Seq<char>| #[trigger] lacks_metadata(*catalog, longer, id) <==> (
            lacks_metadata(*catalog, deck, id) || (id == e.card_id && !known)) by {
                lacks_metadata_of_longer(*catalog, deck, e, id);
            }
            assert forall|id: Seq<char>| #[trigger] lacks_facts(*catalog, *facts, longer, id) <==> (
            lacks_facts(*catalog, *facts, deck, id) || (id == e.card_id && known && facts.record(
                trimmed(e.card_id),
            ) is None)) by {
                lacks_facts_of_longer(*catalog, *facts, deck, e, id);
            }
        }
        let id = text::trim(entry.card_id.as_str());
        if !known {
            self.missing_metadata_ids.insert(entry.card_id.clone());
            proof {
                untagged_entry_changes_no_tags(*catalog, *facts, deck, e, before.synergy_counts);
                assert forall|tag: Seq<char>| #[trigger] is_feature(tag) implies count_or_zero(
                    self.feature_counts,
                    tag,
                ) == slots(SlotKind::Tagged { tag }, *catalog, *facts, longer) by {
                    slots_of_longer(SlotKind::Tagged { tag }, *catalog, *facts, deck, e);
                }
            }
            return;
        }
        match facts.by_id.get(id.as_str()) {
            None => {
                self.missing_analysis_fact_ids.insert(entry.card_id.clone());
                proof {
                    untagged_entry_changes_no_tags(*catalog, *facts, deck, e, before.synergy_counts);
                    assert forall|tag: Seq<char>| #[trigger] is_feature(tag) implies count_or_zero(
                        self.feature_counts,
                        tag,
                    ) == slots(SlotKind::Tagged { tag }, *catalog, *facts, longer) by {
                        slots_of_longer(SlotKind::Tagged { tag }, *catalog, *facts, deck, e);
                    }
                }
            },
            Some(tags) => {
                self.add_tags(
                    tags,
                    count,
                    Ghost(*catalog),
                    Ghost(*facts),
                    Ghost(deck),
                    Ghost(e),
                );
            },
        }
    }

    fn feature(&self, feature: &str) -> (r: u16)
        requires
            self.feature_counts.wf(),
        ensures
            r == count_or_zero(self.feature_counts, feature@),
    {
        read_count(&self.feature_counts, feature)
    }

    fn profile(
        self,
        expected_slots: Option<u16>,
        Ghost(catalog): Ghost<CardCache>,
        Ghost(facts): Ghost<AnalysisFacts>,
        Ghost(deck): Ghost<Seq<EntryModel>>,
    ) -> (r: DeckProfile)
        requires
            self.counts(catalog, facts, deck),
        ensures
            is_profile(r, catalog, facts, deck, expected_slots),
    {
        proof {
            named_features_are_features();
        }
        let removal: u16 = self.feature("removal");
        let board_clears: u16 = self.feature("board_clear");
        let card_draw: u16 = self.feature("card_draw");
        let discover: u16 = self.feature("discover");
        let generation: u16 = self.feature("generation");
        let discover_and_generation: u16 = discover.saturating_add(generation);
        let reach: u16 = self.feature("reach");
        let taunts: u16 = self.feature("taunt");
        let stabilization: u16 = self.feature("stabilization");
        let curve = self.curve;
        let observed: u16 = self.observed_slots;
        let known: u16 = observed.saturating_sub(curve.unknown_cost);
        let missing_slots = match expected_slots {
            Some(expected) => Some(expected.saturating_sub(observed)),
            None => None,
        };
        let slots_missing = match missing_slots {
            Some(n) => n > 0,
            None => false,
        };
        let missing_metadata_ids = self.missing_metadata_ids.to_vec();
        let missing_analysis_fact_ids = self.missing_analysis_fact_ids.to_vec();
        let facts_missing = missing_analysis_fact_ids.len() > 0;
        proof {
            self.missing_metadata_ids.elems_are_sorted();
            self.missing_analysis_fact_ids.elems_are_sorted();
            assert forall|id: Seq<char>| #[trigger]
                texts(missing_metadata_ids@).contains(id) <==> lacks_metadata(
                catalog,
                deck,
                id,
            ) by {
                assert(self.missing_metadata_ids.has(id) <==> lacks_metadata(catalog, deck, id));
            }
            assert forall|id: Seq<char>| #[trigger]
                texts(missing_analysis_fact_ids@).contains(id) <==> lacks_facts(
                catalog,
                facts,
                deck,
                id,
            ) by {
                assert(self.missing_analysis_fact_ids.has(id) <==> lacks_facts(
                    catalog,
                    facts,
                    deck,
                    id,
                ));
            }
        }
        let expected_speed = if known < 8 || curve.unknown_cost > 0 || slots_missing
            || facts_missing {
            DeckSpeed::Uncertain
        } else if curve.zero_to_two >= curve.seven_plus.saturating_add(4) {
            DeckSpeed::Tempo
        } else if curve.seven_plus >= curve.zero_to_two.saturating_add(3) {
            DeckSpeed::Control
        } else {
            DeckSpeed::Midrange
        };
        let mut weaknesses: Vec<DeckWeakness> = Vec::new();
        if known >= 8 && (curve.zero_to_two as u32) * 4 < known as u32 {
            weaknesses.push(DeckWeakness::InsufficientEarlyBoardPresence);
        }
        if !facts_missing && known >= 10 && removal == 0 {
            weaknesses.push(DeckWeakness::LimitedRemoval);
        }
        if !facts_missing && known >= 12 && card_draw == 0 {
            weaknesses.push(DeckWeakness::LimitedCardDraw);
        }
        if known >= 8 && curve.seven_plus > curve.zero_to_two {
            weaknesses.push(DeckWeakness::ExpensiveCurve);
        }
        assert(weaknesses@ =~= weaknesses_of(observed, curve, removal, card_draw, facts_missing));
        DeckProfile {
            schema_version: ANALYSIS_SCHEMA_VERSION,
            observed_slots: observed,
            expected_slots,
            mana_curve: curve,
            early_game_density: curve.zero_to_two,
            removal,
            board_clears,
            card_draw,
            discover_and_generation,
            reach,
            taunts,
            stabilization,
            synergy_counts: self.synergy_counts,
            expected_speed,
            weaknesses,
            uncertainty: AnalysisUncertainty {
                missing_metadata_ids,
                missing_analysis_fact_ids,
                unknown_cost_slots: curve.unknown_cost,
                deck_slots_not_observed: missing_slots,
            },
        }
    }
}

proof fn named_features_are_features()
    ensures
        is_feature("removal"@),
        is_feature("board_clear"@),
        is_feature("card_draw"@),
        is_feature("discover"@),
        is_feature("generation"@),
        is_feature("reach"@),
        is_feature("taunt"@),
        is_feature("stabilization"@),
{
    use_feature(0);
    use_feature(1);
    use_feature(2);
    use_feature(3);
    use_feature(4);
    use_feature(5);
    use_feature(6);
    use_feature(7);
}

proof fn use_feature(i: int)
    requires
        0 <= i < 10,
    ensures
        is_feature(crate::analysis::FEATURE_TAGS@[i]@),
{
}

proof fn features_are_no_synergies(tag: Seq<char>)
    requires
        is_feature(tag),
    ensures
        !occurs_at(tag, "synergy:"@, 0),
{
    reveal_strlit("synergy:");
    reveal_strlit("removal");
    reveal_strlit("board_clear");
    reveal_strlit("card_draw");
    reveal_strlit("discover");
    reveal_strlit("generation");
    reveal_strlit("reach");
    reveal_strlit("taunt");
    reveal_strlit("stabilization");
    reveal_strlit("token");
    reveal_strlit("deathrattle");
    if occurs_at(tag, "synergy:"@, 0) {
        assert(tag.subrange(0, 8)[1] == 'y');
        assert(tag[1] == 'y');
        assert(tag.len() >= 8);
    }
}

proof fn none_falls_under(
    kind: SlotKind,
    catalog: CardCache,
    facts: AnalysisFacts,
    deck: Seq<EntryModel>,
)
    requires
        !any_falls_under(kind, catalog, facts, deck),
    ensures
        slots(kind, catalog, facts, deck) == 0,
    decreases deck.len(),
{
    if deck.len() > 0 {
        assert(deck[deck.len() - 1] == deck.last());
        let shorter = deck.drop_last();
        assert(!any_falls_under(kind, catalog, facts, shorter)) by {
            if any_falls_under(kind, catalog, facts, shorter) {
                let i = choose|i: int|
                    0 <= i < shorter.len() && falls_under(
                        kind,
                        catalog,
                        facts,
                        #[trigger] shorter[i],
                    );
                assert(falls_under(kind, catalog, facts, deck[i]));
            }
        }
        none_falls_under(kind, catalog, facts, shorter);
    }
}

proof fn any_of_longer(
    kind: SlotKind,
    catalog: CardCache,
    facts: AnalysisFacts,
    deck: Seq<EntryModel>,
    e: EntryModel,
)
    ensures
        any_falls_under(kind, catalog, facts, deck.push(e)) <==> (any_falls_under(
            kind,
            catalog,
            facts,
            deck,
        ) || falls_under(kind, catalog, facts, e)),
{
    let longer = deck.push(e);
    if any_falls_under(kind, catalog, facts, deck) {
        let i = choose|i: int|
            0 <= i < deck.len() && falls_under(kind, catalog, facts, #[trigger] deck[i]);
        assert(falls_under(kind, catalog, facts, longer[i]));
    }
    if falls_under(kind, catalog, facts, e) {
        assert(falls_under(kind, catalog, facts, longer[deck.len() as int]));
    }
    if any_falls_under(kind, catalog, facts, longer) {
        let i = choose|i: int|
            0 <= i < longer.len() && falls_under(kind, catalog, facts, #[trigger] longer[i]);
        if i < deck.len() {
            assert(falls_under(kind, catalog, facts, deck[i]));
        }
    }
}

proof fn untagged_entry_changes_no_tags(
    catalog: CardCache,
    facts: AnalysisFacts,
    deck: Seq<EntryModel>,
    e: EntryModel,
    counts: TextMap<u16>,
)
    requires
        counts_synergies(counts, catalog, facts, deck),
        catalog.card(trimmed(e.card_id)) is None || facts.record(trimmed(e.card_id)) is None,
    ensures
        counts_synergies(counts, catalog, facts, deck.push(e)),
{
    assert forall|k: Seq<char>| #[trigger] counts.has(k) <==> any_falls_under(
        SlotKind::Tagged { tag: "synergy:"@ + k },
        catalog,
        facts,
        deck.push(e),
    ) by {
        any_of_longer(SlotKind::Tagged { tag: "synergy:"@ + k }, catalog, facts, deck, e);
    }
    assert forall|k: Seq<char>| #[trigger] counts.has(k) implies counts.at(k) == synergy_slots(
        k,
        catalog,
        facts,
        deck.push(e),
    ) by {
        slots_of_longer(SlotKind::Tagged { tag: "synergy:"@ + k }, catalog, facts, deck, e);
    }
}

proof fn lacks_metadata_of_longer(
    catalog: CardCache,
    deck: Seq<EntryModel>,
    e: EntryModel,
    id: Seq<char>,
)
    ensures
        lacks_metadata(catalog, deck.push(e), id) <==> (lacks_metadata(catalog, deck, id) || (id
            == e.card_id && catalog.card(trimmed(id)) is None)),
{
    let longer = deck.push(e);
    if lacks_metadata(catalog, deck, id) {
        let i = choose|i: int| 0 <= i < deck.len() && (#[trigger] deck[i]).card_id == id;
        assert(longer[i].card_id == id);
    }
    if id == e.card_id {
        assert(longer[deck.len() as int].card_id == id);
    }
    if lacks_metadata(catalog, longer, id) {
        let i = choose|i: int| 0 <= i < longer.len() && (#[trigger] longer[i]).card_id == id;
        if i < deck.len() {
            assert(deck[i].card_id == id);
        }
    }
}

proof fn lacks_facts_of_longer(
    catalog: CardCache,
    facts: AnalysisFacts,
    deck: Seq<EntryModel>,
    e: EntryModel,
    id: Seq<char>,
)
    ensures
        lacks_facts(catalog, facts, deck.push(e), id) <==> (lacks_facts(catalog, facts, deck, id)
            || (id == e.card_id && catalog.card(trimmed(id)) is Some && facts.record(
            trimmed(id),
        ) is None)),
{
    let longer = deck.push(e);
    if lacks_facts(catalog, facts, deck, id) {
        let i = choose|i: int| 0 <= i < deck.len() && (#[trigger] deck[i]).card_id == id;
        assert(longer[i].card_id == id);
    }
    if id == e.card_id {
        assert(longer[deck.len() as int].card_id == id);
    }
    if lacks_facts(catalog, facts, longer, id) {
        let i = choose|i: int| 0 <= i < longer.len() && (#[trigger] longer[i]).card_id == id;
        if i < deck.len() {
            assert(deck[i].card_id == id);
        }
    }
}

/// Analyses a deck. The counts of tagged slots must fit into sixteen bits.
pub fn analyze_deck(input: &AnalysisInput, catalog: &CardCache, facts: &AnalysisFacts) -> (r:
    DeckProfile)
    requires
        catalog.wf(),
        facts.wf(),
        countable(*catalog, *facts, deck_model(input.deck@)),
    ensures
        is_profile(r, *catalog, *facts, deck_model(input.deck@), input.expected_slots),
{
    let ghost deck = deck_model(input.deck@);
    let mut accumulator = Accumulator::new(Ghost(*catalog), Ghost(*facts));
    let mut i: usize = 0;
    assert(deck.take(0) =~= Seq::<EntryModel>::empty());
    while i < input.deck.len()
        invariant
            i <= input.deck.len(),
            deck == deck_model(input.deck@),
            catalog.wf(),
            facts.wf(),
            countable(*catalog, *facts, deck),
            accumulator.counts(*catalog, *facts, deck.take(i as int)),
        decreases input.deck.len() - i,
    {
        proof {
            shorter_is_countable(*catalog, *facts, deck, i + 1);
            assert(deck.take(i + 1) =~= deck.take(i as int).push(deck[i as int]));
        }
        accumulator.add(&input.deck[i], catalog, facts, Ghost(deck.take(i as int)));
        i = i + 1;
    }
    assert(deck.take(i as int) =~= deck);
    accumulator.profile(input.expected_slots, Ghost(*catalog), Ghost(*facts), Ghost(deck))
}

} // verus!
