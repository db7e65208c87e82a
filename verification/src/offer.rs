//! What picking an offered card would do to a deck.

use vstd::prelude::*;

use crate::analysis::AnalysisFacts;
use crate::card_data::CardCache;
use crate::deck_profile::{
    analyze_deck, any_falls_under, cap, countable, counts_synergies, curve_of, falls_under,
    feature_slots, is_profile, names_the_missing, slots, synergy_slots, unobserved_slots,
    AnalysisInput, AnalysisUncertainty, DeckProfile, SlotKind,
};
use crate::state::{deck_model, DeckCard, EntryModel};
use crate::text;
use crate::text::{occurs_at, texts, trimmed};
use crate::text_map::{strictly_sorted, TextMap, TextSet};

verus! {

/// How the counts of a deck change.
#[derive(Debug)]
pub struct DeckDelta {
    pub zero_to_two: i16,
    pub three: i16,
    pub four_to_six: i16,
    pub seven_plus: i16,
    pub unknown_cost: i16,
    pub removal: i16,
    pub board_clears: i16,
    pub card_draw: i16,
    pub discover_and_generation: i16,
    pub reach: i16,
    pub taunts: i16,
    pub stabilization: i16,
    /// The changes by synergy; a synergy that does not change has no entry.
    pub synergy_counts: TextMap<i16>,
}

/// A synergy with its number of slots before and after the pick.
#[derive(Debug, PartialEq, Eq)]
pub struct VerifiedSignal {
    pub category: String,
    pub observed_before_pick: u16,
    pub observed_after_pick: u16,
}

/// A synergy with its numbers of slots, over texts.
pub struct SignalModel {
    pub category: Seq<char>,
    pub observed_before_pick: nat,
    pub observed_after_pick: nat,
}

impl View for VerifiedSignal {
    type V = SignalModel;

    open spec fn view(&self) -> SignalModel {
        SignalModel {
            category: self.category@,
            observed_before_pick: self.observed_before_pick as nat,
            observed_after_pick: self.observed_after_pick as nat,
        }
    }
}

/// How far a pick commits the draft.
#[derive(Clone, Copy, Debug, PartialEq, Eq, Structural)]
pub enum DraftCommitment {
    Open,
    Light,
    Moderate,
    Strong,
    Unknown,
}

/// What a pick leaves open.
#[derive(Debug, PartialEq, Eq)]
pub struct DraftOptionality {
    pub commitment: DraftCommitment,
    /// The categories whose later cards gain from the pick.
    pub future_priorities: Vec<String>,
    /// Whether the card names no synergy and no requirement.
    pub preserves_open_paths: bool,
}

/// What picking an offered card would do.
#[derive(Debug)]
pub struct OfferAnalysis {
    pub card_id: String,
    pub deck_delta: DeckDelta,
    pub verified_synergies: Vec<VerifiedSignal>,
    pub verified_anti_synergies: Vec<VerifiedSignal>,
    pub draft_optionality: DraftOptionality,
    pub uncertainty: AnalysisUncertainty,
}

/// Whether the first entry with an id stands at a place.
pub open spec fn first_at(deck: Seq<EntryModel>, id: Seq<char>, at: int) -> bool {
    &&& 0 <= at < deck.len()
    &&& deck[at].card_id == id
    &&& forall|j: int| 0 <= j < at ==> (#[trigger] deck[j]).card_id != id
}

/// One more copy, as far as the counter reaches.
pub open spec fn one_more(count: u8) -> u8 {
    if count < u8::MAX {
        (count + 1) as u8
    } else {
        count
    }
}

/// The deck after a card was picked: one more copy of the first entry with its id, or a new
/// entry at the end.
pub open spec fn picked(deck: Seq<EntryModel>, id: Seq<char>) -> Seq<EntryModel> {
    if exists|at: int| #[trigger] first_at(deck, id, at) {
        let at = choose|at: int| #[trigger] first_at(deck, id, at);
        deck.update(at, EntryModel { card_id: id, count: one_more(deck[at].count) })
    } else {
        deck.push(EntryModel { card_id: id, count: 1 })
    }
}

/// A count as far as a signed number of sixteen bits reaches.
pub open spec fn clipped(n: u16) -> int {
    if n <= i16::MAX {
        n as int
    } else {
        i16::MAX as int
    }
}

/// The change from one count to another.
pub open spec fn change(before: u16, after: u16) -> int {
    clipped(after) - clipped(before)
}

/// The change from one count to another.
pub fn signed_delta(after: u16, before: u16) -> (r: i16)
    ensures
        r == change(before, after),
{
    let a: i16 = if after <= 32767 {
        after as i16
    } else {
        32767
    };
    let b: i16 = if before <= 32767 {
        before as i16
    } else {
        32767
    };
    a - b
}

/// Whether changes lead from one deck to another.
pub open spec fn is_delta(
    d: DeckDelta,
    catalog: CardCache,
    facts: AnalysisFacts,
    before: Seq<EntryModel>,
    after: Seq<EntryModel>,
) -> bool {
    let a = curve_of(catalog, facts, before);
    let b = curve_of(catalog, facts, after);
    &&& d.zero_to_two == change(a.zero_to_two, b.zero_to_two)
    &&& d.three == change(a.three, b.three)
    &&& d.four_to_six == change(a.four_to_six, b.four_to_six)
    &&& d.seven_plus == change(a.seven_plus, b.seven_plus)
    &&& d.unknown_cost == change(a.unknown_cost, b.unknown_cost)
    &&& d.removal == feature_change("removal"@, catalog, facts, before, after)
    &&& d.board_clears == feature_change("board_clear"@, catalog, facts, before, after)
    &&& d.card_draw == feature_change("card_draw"@, catalog, facts, before, after)
    &&& d.discover_and_generation == change(
        both_features("discover"@, "generation"@, catalog, facts, before),
        both_features("discover"@, "generation"@, catalog, facts, after),
    )
    &&& d.reach == feature_change("reach"@, catalog, facts, before, after)
    &&& d.taunts == feature_change("taunt"@, catalog, facts, before, after)
    &&& d.stabilization == feature_change("stabilization"@, catalog, facts, before, after)
    &&& d.synergy_counts.wf()
    &&& forall|k: Seq<char>| #[trigger]
        d.synergy_counts.has(k) <==> synergy_change(k, catalog, facts, before, after) != 0
    &&& forall|k: Seq<char>| #[trigger]
        d.synergy_counts.has(k) ==> d.synergy_counts.at(k) == synergy_change(
            k,
            catalog,
            facts,
            before,
            after,
        )
}

/// The change in the slots with a feature.
pub open spec fn feature_change(
    feature: Seq<char>,
    catalog: CardCache,
    facts: AnalysisFacts,
    before: Seq<EntryModel>,
    after: Seq<EntryModel>,
) -> int {
    change(
        cap(feature_slots(feature, catalog, facts, before)),
        cap(feature_slots(feature, catalog, facts, after)),
    )
}

/// The slots with either of two features.
pub open spec fn both_features(
    one: Seq<char>,
    other: Seq<char>,
    catalog: CardCache,
    facts: AnalysisFacts,
    deck: Seq<EntryModel>,
) -> u16 {
    cap(feature_slots(one, catalog, facts, deck) + feature_slots(other, catalog, facts, deck))
}

/// The change in the slots with a synergy.
pub open spec fn synergy_change(
    category: Seq<char>,
    catalog: CardCache,
    facts: AnalysisFacts,
    before: Seq<EntryModel>,
    after: Seq<EntryModel>,
) -> int {
    change(
        cap(synergy_slots(category, catalog, facts, before)),
        cap(synergy_slots(category, catalog, facts, after)),
    )
}

/// The categories of the tags with a prefix, in the order of the tags.
pub open spec fn categories(tags: Seq<Seq<char>>, prefix: Seq<char>) -> Seq<Seq<char>>
    decreases tags.len(),
{
    if tags.len() == 0 {
        Seq::empty()
    } else if occurs_at(tags.last(), prefix, 0) {
        categories(tags.drop_last(), prefix).push(tags.last().skip(prefix.len() as int))
    } else {
        categories(tags.drop_last(), prefix)
    }
}

/// The signals of the categories that the deck does, or does not, support.
pub open spec fn signals(
    wanted: Seq<Seq<char>>,
    supported: bool,
    catalog: CardCache,
    facts: AnalysisFacts,
    before: Seq<EntryModel>,
    after: Seq<EntryModel>,
) -> Seq<SignalModel>
    decreases wanted.len(),
{
    if wanted.len() == 0 {
        Seq::empty()
    } else {
        let rest = signals(wanted.drop_last(), supported, catalog, facts, before, after);
        let category = wanted.last();
        if supported == (synergy_slots(category, catalog, facts, before) > 0) {
            rest.push(
                SignalModel {
                    category,
                    observed_before_pick: synergy_slots(category, catalog, facts, before),
                    observed_after_pick: synergy_slots(category, catalog, facts, after),
                },
            )
        } else {
            rest
        }
    }
}

/// How far a card commits the draft, by the number of its categories and requirements.
pub open spec fn commitment_of(known: bool, structural: nat, requirements: nat) -> DraftCommitment {
    if !known {
        DraftCommitment::Unknown
    } else if structural == 0 {
        DraftCommitment::Open
    } else if requirements > 0 && structural > 1 {
        DraftCommitment::Strong
    } else if requirements > 0 || structural > 1 {
        DraftCommitment::Moderate
    } else {
        DraftCommitment::Light
    }
}

/// Whether an analysis tells what picking a card would do to a deck.
pub open spec fn is_offer_analysis(
    r: OfferAnalysis,
    catalog: CardCache,
    facts: AnalysisFacts,
    deck: Seq<EntryModel>,
    expected: Option<u16>,
    id: Seq<char>,
) -> bool {
    let after = picked(deck, id);
    let tags = facts.tags_of(trimmed(id));
    let priorities = texts(r.draft_optionality.future_priorities@);
    &&& r.card_id@ == id
    &&& is_delta(r.deck_delta, catalog, facts, deck, after)
    &&& r.verified_synergies@.map_values(|s: VerifiedSignal| s@) == signals(
        categories(tags, "synergy:"@),
        true,
        catalog,
        facts,
        deck,
        after,
    )
    &&& r.verified_anti_synergies@.map_values(|s: VerifiedSignal| s@) == signals(
        categories(tags, "requires:"@),
        false,
        catalog,
        facts,
        deck,
        after,
    )
    &&& strictly_sorted(priorities)
    &&& forall|c: Seq<char>| #[trigger]
        priorities.contains(c) <==> (categories(tags, "synergy:"@).contains(c) || categories(
            tags,
            "requires:"@,
        ).contains(c))
    &&& r.draft_optionality.preserves_open_paths == (priorities.len() == 0)
    &&& r.draft_optionality.commitment == commitment_of(
        catalog.card(trimmed(id)) is Some && facts.record(trimmed(id)) is Some,
        priorities.len(),
        categories(tags, "requires:"@).len(),
    )
    &&& names_the_missing(r.uncertainty, catalog, facts, after)
    &&& r.uncertainty.unknown_cost_slots == curve_of(catalog, facts, after).unknown_cost
    &&& r.uncertainty.deck_slots_not_observed == unobserved_slots(
        cap(slots(SlotKind::All, catalog, facts, after)),
        expected,
    )
}

/// The slots that a profile counts for a synergy.
pub open spec fn profile_synergy(p: DeckProfile, category: Seq<char>) -> u16 {
    if p.synergy_counts.has(category) {
        p.synergy_counts.at(category)
    } else {
        0
    }
}

/// The slots that the profile of a deck counts for a synergy are those of the deck.
pub proof fn profile_synergy_is_slots(
    p: DeckProfile,
    catalog: CardCache,
    facts: AnalysisFacts,
    deck: Seq<EntryModel>,
    category: Seq<char>,
)
    requires
        counts_synergies(p.synergy_counts, catalog, facts, deck),
    ensures
        profile_synergy(p, category) == synergy_slots(category, catalog, facts, deck),
        profile_synergy(p, category) == cap(synergy_slots(category, catalog, facts, deck)),
{
    if !p.synergy_counts.has(category) {
        no_slots_without_entries(
            SlotKind::Tagged { tag: "synergy:"@ + category },
            catalog,
            facts,
            deck,
        );
    }
}

proof fn no_slots_without_entries(
    kind: SlotKind,
    catalog: CardCache,
    facts: AnalysisFacts,
    deck: Seq<EntryModel>,
)
    requires
        !any_falls_under(kind, catalog, facts, deck),
    ensures
        slots(kind, catalog, facts, deck) == 0,
    decreases deck.len(),
{
    if deck.len() > 0 {
        assert(deck[deck.len() - 1] == deck.last());
        let shorter = deck.drop_last();
        if any_falls_under(kind, catalog, facts, shorter) {
            let i = choose|i: int|
                0 <= i < shorter.len() && falls_under(kind, catalog, facts, #[trigger] shorter[i]);
            assert(falls_under(kind, catalog, facts, deck[i]));
        }
        no_slots_without_entries(kind, catalog, facts, shorter);
    }
}

/// The slots that a profile counts for a synergy.
pub fn synergy_of(p: &DeckProfile, category: &str) -> (r: u16)
    requires
        p.synergy_counts.wf(),
    ensures
        r == profile_synergy(*p, category@),
{
    match p.synergy_counts.get(category) {
        Some(n) => *n,
        None => 0,
    }
}

fn note_change(
    counts: &mut TextMap<i16>,
    category: &str,
    before: &DeckProfile,
    after: &DeckProfile,
)
    requires
        old(counts).wf(),
        before.synergy_counts.wf(),
        after.synergy_counts.wf(),
        old(counts).has(category@) ==> old(counts).at(category@) == change(
            profile_synergy(*before, category@),
            profile_synergy(*after, category@),
        ),
        old(counts).has(category@) ==> change(
            profile_synergy(*before, category@),
            profile_synergy(*after, category@),
        ) != 0,
    ensures
        final(counts).wf(),
        final(counts).has(category@) <==> change(
            profile_synergy(*before, category@),
            profile_synergy(*after, category@),
        ) != 0,
        final(counts).has(category@) ==> final(counts).at(category@) == change(
            profile_synergy(*before, category@),
            profile_synergy(*after, category@),
        ),
        forall|k: Seq<char>|
            k != category@ ==> (#[trigger] final(counts).has(k) <==> old(counts).has(k)),
        forall|k: Seq<char>|
            k != category@ && old(counts).has(k) ==> #[trigger] final(counts).at(k) == old(
                counts,
            ).at(k),
{
    let difference: i16 = signed_delta(synergy_of(after, category), synergy_of(before, category));
    if difference != 0 {
        counts.insert(text::copy(category), difference);
    }
}

/// Whether changes lead from one profile to another.
pub open spec fn leads_to(d: DeckDelta, before: DeckProfile, after: DeckProfile) -> bool {
    let a = before.mana_curve;
    let b = after.mana_curve;
    &&& d.zero_to_two == change(a.zero_to_two, b.zero_to_two)
    &&& d.three == change(a.three, b.three)
    &&& d.four_to_six == change(a.four_to_six, b.four_to_six)
    &&& d.seven_plus == change(a.seven_plus, b.seven_plus)
    &&& d.unknown_cost == change(a.unknown_cost, b.unknown_cost)
    &&& d.removal == change(before.removal, after.removal)
    &&& d.board_clears == change(before.board_clears, after.board_clears)
    &&& d.card_draw == change(before.card_draw, after.card_draw)
    &&& d.discover_and_generation == change(
        before.discover_and_generation,
        after.discover_and_generation,
    )
    &&& d.reach == change(before.reach, after.reach)
    &&& d.taunts == change(before.taunts, after.taunts)
    &&& d.stabilization == change(before.stabilization, after.stabilization)
    &&& d.synergy_counts.wf()
    &&& forall|k: Seq<char>| #[trigger]
        d.synergy_counts.has(k) <==> change(profile_synergy(before, k), profile_synergy(after, k))
            != 0
    &&& forall|k: Seq<char>| #[trigger]
        d.synergy_counts.has(k) ==> d.synergy_counts.at(k) == change(
            profile_synergy(before, k),
            profile_synergy(after, k),
        )
}

proof fn profile_changes_are_deck_changes(
    d: DeckDelta,
    before: DeckProfile,
    after: DeckProfile,
    catalog: CardCache,
    facts: AnalysisFacts,
    deck: Seq<EntryModel>,
    later: Seq<EntryModel>,
    expected: Option<u16>,
)
    requires
        is_profile(before, catalog, facts, deck, expected),
        is_profile(after, catalog, facts, later, expected),
        leads_to(d, before, after),
    ensures
        is_delta(d, catalog, facts, deck, later),
{
    assert forall|k: Seq<char>| #[trigger] d.synergy_counts.has(k) <==> synergy_change(
        k,
        catalog,
        facts,
        deck,
        later,
    ) != 0 by {
        profile_synergy_is_slots(before, catalog, facts, deck, k);
        profile_synergy_is_slots(after, catalog, facts, later, k);
    }
    assert forall|k: Seq<char>| #[trigger] d.synergy_counts.has(k) implies d.synergy_counts.at(k)
        == synergy_change(k, catalog, facts, deck, later) by {
        profile_synergy_is_slots(before, catalog, facts, deck, k);
        profile_synergy_is_slots(after, catalog, facts, later, k);
    }
}

/// The changes from one profile to another.
pub fn diff_profiles(before: &DeckProfile, after: &DeckProfile) -> (r: DeckDelta)
    requires
        before.synergy_counts.wf(),
        after.synergy_counts.wf(),
    ensures
        leads_to(r, *before, *after),
{
    let mut counts: TextMap<i16> = TextMap::new();
    let mut i: usize = 0;
    let ghost first = before.synergy_counts.keys();
    let ghost second = after.synergy_counts.keys();
    while i < before.synergy_counts.len()
        invariant
            i <= first.len(),
            first == before.synergy_counts.keys(),
            before.synergy_counts.wf(),
            after.synergy_counts.wf(),
            counts.wf(),
            forall|k: Seq<char>| #[trigger]
                counts.has(k) ==> counts.at(k) == change(
                    profile_synergy(*before, k),
                    profile_synergy(*after, k),
                ) && change(profile_synergy(*before, k), profile_synergy(*after, k)) != 0,
            forall|j: int|
                0 <= j < i ==> (counts.has(#[trigger] first[j]) <==> change(
                    profile_synergy(*before, first[j]),
                    profile_synergy(*after, first[j]),
                ) != 0),
        decreases first.len() - i,
    {
        note_change(&mut counts, before.synergy_counts.key_at(i), before, after);
        i = i + 1;
    }
    let mut m: usize = 0;
    while m < after.synergy_counts.len()
        invariant
            m <= second.len(),
            first == before.synergy_counts.keys(),
            second == after.synergy_counts.keys(),
            before.synergy_counts.wf(),
            after.synergy_counts.wf(),
            counts.wf(),
            forall|k: Seq<char>| #[trigger]
                counts.has(k) ==> counts.at(k) == change(
                    profile_synergy(*before, k),
                    profile_synergy(*after, k),
                ) && change(profile_synergy(*before, k), profile_synergy(*after, k)) != 0,
            forall|j: int|
                0 <= j < first.len() ==> (counts.has(#[trigger] first[j]) <==> change(
                    profile_synergy(*before, first[j]),
                    profile_synergy(*after, first[j]),
                ) != 0),
            forall|j: int|
                0 <= j < m ==> (counts.has(#[trigger] second[j]) <==> change(
                    profile_synergy(*before, second[j]),
                    profile_synergy(*after, second[j]),
                ) != 0),
        decreases second.len() - m,
    {
        note_change(&mut counts, after.synergy_counts.key_at(m), before, after);
        m = m + 1;
    }
    proof {
        assert forall|k: Seq<char>| #[trigger] counts.has(k) <==> change(
            profile_synergy(*before, k),
            profile_synergy(*after, k),
        ) != 0 by {
            if before.synergy_counts.has(k) {
                let j = first.index_of(k);
                assert(first[j] == k);
            } else if after.synergy_counts.has(k) {
                let j = second.index_of(k);
                assert(second[j] == k);
            }
        }
    }
    DeckDelta {
        zero_to_two: signed_delta(after.mana_curve.zero_to_two, before.mana_curve.zero_to_two),
        three: signed_delta(after.mana_curve.three, before.mana_curve.three),
        four_to_six: signed_delta(after.mana_curve.four_to_six, before.mana_curve.four_to_six),
        seven_plus: signed_delta(after.mana_curve.seven_plus, before.mana_curve.seven_plus),
        unknown_cost: signed_delta(after.mana_curve.unknown_cost, before.mana_curve.unknown_cost),
        removal: signed_delta(after.removal, before.removal),
        board_clears: signed_delta(after.board_clears, before.board_clears),
        card_draw: signed_delta(after.card_draw, before.card_draw),
        discover_and_generation: signed_delta(
            after.discover_and_generation,
            before.discover_and_generation,
        ),
        reach: signed_delta(after.reach, before.reach),
        taunts: signed_delta(after.taunts, before.taunts),
        stabilization: signed_delta(after.stabilization, before.stabilization),
        synergy_counts: counts,
    }
}

/// A copy of a deck.
pub fn copy_deck(deck: &Vec<DeckCard>) -> (r: Vec<DeckCard>)
    ensures
        deck_model(r@) == deck_model(deck@),
        r.len() == deck.len(),
{
    let mut out: Vec<DeckCard> = Vec::new();
    let mut i: usize = 0;
    while i < deck.len()
        invariant
            i <= deck.len(),
            out.len() == i,
            deck_model(out@) =~= deck_model(deck@.take(i as int)),
        decreases deck.len() - i,
    {
        let ghost before = out@;
        let entry = DeckCard { card_id: deck[i].card_id.clone(), count: deck[i].count };
        out.push(entry);
        assert(deck_model(out@) =~= deck_model(before).push(deck@[i as int]@));
        assert(deck_model(deck@.take(i + 1)) =~= deck_model(deck@.take(i as int)).push(
            deck@[i as int]@,
        ));
        i = i + 1;
    }
    assert(deck@.take(i as int) =~= deck@);
    out
}

/// The deck after a card was picked. The given deck stays as it is.
pub fn deck_after_pick(deck: &Vec<DeckCard>, card_id: &str) -> (r: Vec<DeckCard>)
    ensures
        deck_model(r@) == picked(deck_model(deck@), card_id@),
{
    let ghost model = deck_model(deck@);
    let mut out = copy_deck(deck);
    let mut i: usize = 0;
    while i < deck.len()
        invariant
            i <= deck.len(),
            model == deck_model(deck@),
            deck_model(out@) == model,
            out.len() == deck.len(),
            forall|j: int| 0 <= j < i ==> (#[trigger] model[j]).card_id != card_id@,
        decreases deck.len() - i,
    {
        if text::str_eq(deck[i].card_id.as_str(), card_id) {
            proof {
                assert(first_at(model, card_id@, i as int));
                let at = choose|at: int| #[trigger] first_at(model, card_id@, at);
                assert(at == i) by {
                    if at < i {
                        assert(model[at].card_id != card_id@);
                    } else if i < at {
                        assert(model[i as int].card_id != card_id@);
                    }
                }
            }
            let entry = DeckCard {
                card_id: text::copy(card_id),
                count: deck[i].count.saturating_add(1),
            };
            out.set(i, entry);
            assert(deck_model(out@) =~= model.update(
                i as int,
                EntryModel { card_id: card_id@, count: one_more(model[i as int].count) },
            ));
            return out;
        }
        i = i + 1;
    }
    assert(!exists|at: int| #[trigger] first_at(model, card_id@, at)) by {
        if exists|at: int| #[trigger] first_at(model, card_id@, at) {
            let at = choose|at: int| #[trigger] first_at(model, card_id@, at);
            assert(model[at].card_id != card_id@);
        }
    }
    out.push(DeckCard { card_id: text::copy(card_id), count: 1 });
    assert(deck_model(out@) =~= model.push(EntryModel { card_id: card_id@, count: 1 }));
    out
}

/// The categories of the tags with a prefix.
pub fn tag_categories(tags: &Vec<String>, prefix: &str) -> (r: Vec<String>)
    ensures
        texts(r@) == categories(texts(tags@), prefix@),
{
    let ghost all = texts(tags@);
    let mut out: Vec<String> = Vec::new();
    let mut i: usize = 0;
    assert(all.take(0) =~= Seq::<Seq<char>>::empty());
    assert(texts(out@) =~= Seq::<Seq<char>>::empty());
    while i < tags.len()
        invariant
            i <= tags.len(),
            all == texts(tags@),
            texts(out@) == categories(all.take(i as int), prefix@),
        decreases tags.len() - i,
    {
        assert(all.take(i + 1).drop_last() =~= all.take(i as int));
        assert(all.take(i + 1).last() == all[i as int]);
        let ghost before = out@;
        match text::strip_prefix(tags[i].as_str(), prefix) {
            Some(category) => {
                out.push(category);
                assert(texts(out@) =~= texts(before).push(category@));
            },
            None => {},
        }
        i = i + 1;
    }
    assert(all.take(i as int) =~= all);
    out
}

fn collect_signals(
    wanted: &Vec<String>,
    supported: bool,
    before: &DeckProfile,
    after: &DeckProfile,
    Ghost(catalog): Ghost<CardCache>,
    Ghost(facts): Ghost<AnalysisFacts>,
    Ghost(deck): Ghost<Seq<EntryModel>>,
    Ghost(later): Ghost<Seq<EntryModel>>,
) -> (r: Vec<VerifiedSignal>)
    requires
        counts_synergies(before.synergy_counts, catalog, facts, deck),
        counts_synergies(after.synergy_counts, catalog, facts, later),
    ensures
        r@.map_values(|s: VerifiedSignal| s@) == signals(
            texts(wanted@),
            supported,
            catalog,
            facts,
            deck,
            later,
        ),
{
    let ghost all = texts(wanted@);
    let mut out: Vec<VerifiedSignal> = Vec::new();
    let mut i: usize = 0;
    assert(all.take(0) =~= Seq::<Seq<char>>::empty());
    assert(out@.map_values(|s: VerifiedSignal| s@) =~= Seq::<SignalModel>::empty());
    while i < wanted.len()
        invariant
            i <= wanted.len(),
            all == texts(wanted@),
            counts_synergies(before.synergy_counts, catalog, facts, deck),
            counts_synergies(after.synergy_counts, catalog, facts, later),
            out@.map_values(|s: VerifiedSignal| s@) == signals(
                all.take(i as int),
                supported,
                catalog,
                facts,
                deck,
                later,
            ),
        decreases wanted.len() - i,
    {
        assert(all.take(i + 1).drop_last() =~= all.take(i as int));
        assert(all.take(i + 1).last() == all[i as int]);
        let category = wanted[i].as_str();
        proof {
            profile_synergy_is_slots(*before, catalog, facts, deck, category@);
            profile_synergy_is_slots(*after, catalog, facts, later, category@);
        }
        let now: u16 = synergy_of(before, category);
        let later_count: u16 = synergy_of(after, category);
        let ghost earlier = out@;
        if supported == (now > 0) {
            let signal = VerifiedSignal {
                category: text::copy(category),
                observed_before_pick: now,
                observed_after_pick: later_count,
            };
            out.push(signal);
            assert(out@.map_values(|s: VerifiedSignal| s@) =~= earlier.map_values(
                |s: VerifiedSignal| s@,
            ).push(signal@));
        }
        i = i + 1;
    }
    assert(all.take(i as int) =~= all);
    out
}

fn collect_categories(synergies: &Vec<String>, requirements: &Vec<String>) -> (r: TextSet)
    ensures
        r.wf(),
        forall|c: Seq<char>| #[trigger]
            r.has(c) <==> (texts(synergies@).contains(c) || texts(requirements@).contains(c)),
{
    let mut set = TextSet::new();
    let ghost a = texts(synergies@);
    let ghost b = texts(requirements@);
    let mut i: usize = 0;
    while i < synergies.len()
        invariant
            i <= synergies.len(),
            a == texts(synergies@),
            set.wf(),
            forall|c: Seq<char>| #[trigger]
                set.has(c) <==> exists|j: int| 0 <= j < i && #[trigger] a[j] == c,
        decreases synergies.len() - i,
    {
        let ghost before = set;
        set.insert(synergies[i].clone());
        assert forall|c: Seq<char>| #[trigger] set.has(c) <==> exists|j: int|
            0 <= j < i + 1 && #[trigger] a[j] == c by {
            if before.has(c) {
                let j = choose|j: int| 0 <= j < i && #[trigger] a[j] == c;
                assert(a[j] == c);
            }
            if c == a[i as int] {
                assert(a[i as int] == c);
            }
        }
        i = i + 1;
    }
    let mut m: usize = 0;
    while m < requirements.len()
        invariant
            m <= requirements.len(),
            a == texts(synergies@),
            b == texts(requirements@),
            set.wf(),
            forall|c: Seq<char>| #[trigger]
                set.has(c) <==> (a.contains(c) || exists|j: int|
                    0 <= j < m && #[trigger] b[j] == c),
        decreases requirements.len() - m,
    {
        let ghost before = set;
        set.insert(requirements[m].clone());
        assert forall|c: Seq<char>| #[trigger] set.has(c) <==> (a.contains(c) || exists|j: int|
            0 <= j < m + 1 && #[trigger] b[j] == c) by {
            if before.has(c) && !a.contains(c) {
                let j = choose|j: int| 0 <= j < m && #[trigger] b[j] == c;
                assert(b[j] == c);
            }
            if c == b[m as int] {
                assert(b[m as int] == c);
            }
        }
        m = m + 1;
    }
    set
}

/// Tells what picking an offered card would do to a deck. The deck itself stays as it is.
pub fn analyze_offer(
    input: &AnalysisInput,
    offered_card_id: &str,
    catalog: &CardCache,
    facts: &AnalysisFacts,
) -> (r: OfferAnalysis)
    requires
        catalog.wf(),
        facts.wf(),
        countable(*catalog, *facts, deck_model(input.deck@)),
        countable(*catalog, *facts, picked(deck_model(input.deck@), offered_card_id@)),
    ensures
        is_offer_analysis(
            r,
            *catalog,
            *facts,
            deck_model(input.deck@),
            input.expected_slots,
            offered_card_id@,
        ),
{
    let ghost deck = deck_model(input.deck@);
    let ghost later = picked(deck, offered_card_id@);
    let before = analyze_deck(input, catalog, facts);
    let after_input = AnalysisInput {
        deck: deck_after_pick(&input.deck, offered_card_id),
        expected_slots: input.expected_slots,
    };
    let after = analyze_deck(&after_input, catalog, facts);
    let tags = facts.tags(offered_card_id);
    let synergies = tag_categories(&tags, "synergy:");
    let requirements = tag_categories(&tags, "requires:");
    let verified_synergies = collect_signals(
        &synergies,
        true,
        &before,
        &after,
        Ghost(*catalog),
        Ghost(*facts),
        Ghost(deck),
        Ghost(later),
    );
    let verified_anti_synergies = collect_signals(
        &requirements,
        false,
        &before,
        &after,
        Ghost(*catalog),
        Ghost(*facts),
        Ghost(deck),
        Ghost(later),
    );
    let priorities = collect_categories(&synergies, &requirements);
    let future_priorities = priorities.to_vec();
    proof {
        priorities.elems_are_sorted();
        assert forall|c: Seq<char>| #[trigger] texts(future_priorities@).contains(c) <==> (
        categories(facts.tags_of(trimmed(offered_card_id@)), "synergy:"@).contains(c)
            || categories(facts.tags_of(trimmed(offered_card_id@)), "requires:"@).contains(c)) by {
            assert(priorities.has(c) == texts(future_priorities@).contains(c));
        }
    }
    let structural: usize = future_priorities.len();
    let known = catalog.get(offered_card_id).is_some() && facts.contains(offered_card_id);
    let commitment = if !known {
        DraftCommitment::Unknown
    } else if structural == 0 {
        DraftCommitment::Open
    } else if requirements.len() > 0 && structural > 1 {
        DraftCommitment::Strong
    } else if requirements.len() > 0 || structural > 1 {
        DraftCommitment::Moderate
    } else {
        DraftCommitment::Light
    };
    let deck_delta = diff_profiles(&before, &after);
    proof {
        profile_changes_are_deck_changes(
            deck_delta,
            before,
            after,
            *catalog,
            *facts,
            deck,
            later,
            input.expected_slots,
        );
    }
    assert(texts(requirements@).len() == requirements@.len());
    assert(texts(future_priorities@).len() == future_priorities@.len());
    OfferAnalysis {
        card_id: text::copy(offered_card_id),
        deck_delta,
        verified_synergies,
        verified_anti_synergies,
        draft_optionality: DraftOptionality {
            commitment,
            future_priorities,
            preserves_open_paths: structural == 0,
        },
        uncertainty: after.uncertainty,
    }
}

proof fn slots_of_update(
    kind: SlotKind,
    catalog: CardCache,
    facts: AnalysisFacts,
    deck: Seq<EntryModel>,
    at: int,
)
    requires
        0 <= at < deck.len(),
        deck[at].count < u8::MAX,
    ensures
        slots(
            kind,
            catalog,
            facts,
            deck.update(
                at,
                EntryModel { card_id: deck[at].card_id, count: one_more(deck[at].count) },
            ),
        ) == slots(kind, catalog, facts, deck) + (if falls_under(kind, catalog, facts, deck[at]) {
            1nat
        } else {
            0nat
        }),
    decreases deck.len(),
{
    let entry = EntryModel { card_id: deck[at].card_id, count: one_more(deck[at].count) };
    let changed = deck.update(at, entry);
    if at == deck.len() - 1 {
        assert(changed.drop_last() =~= deck.drop_last());
    } else {
        slots_of_update(kind, catalog, facts, deck.drop_last(), at);
        assert(changed.drop_last() =~= deck.drop_last().update(at, entry));
        assert(changed.last() == deck.last());
    }
}

/// A pick adds one slot to every kind that the card falls under, and changes no other. The one
/// exception is a card whose copies the counter can no longer count.
pub proof fn a_pick_adds_one_slot(
    kind: SlotKind,
    catalog: CardCache,
    facts: AnalysisFacts,
    deck: Seq<EntryModel>,
    id: Seq<char>,
)
    requires
        forall|i: int|
            0 <= i < deck.len() && (#[trigger] deck[i]).card_id == id ==> deck[i].count < u8::MAX,
    ensures
        slots(kind, catalog, facts, picked(deck, id)) == slots(kind, catalog, facts, deck) + (
        if falls_under(kind, catalog, facts, EntryModel { card_id: id, count: 1 }) {
            1nat
        } else {
            0nat
        }),
{
    if exists|at: int| #[trigger] first_at(deck, id, at) {
        let at = choose|at: int| #[trigger] first_at(deck, id, at);
        slots_of_update(kind, catalog, facts, deck, at);
    } else {
        let e = EntryModel { card_id: id, count: 1 };
        assert(deck.push(e).drop_last() =~= deck);
    }
}

} // verus!
