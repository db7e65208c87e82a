//! What is known of the game, the deck and the draft at one moment.
use crate::card_data::{CardCache, CardResolution};
use crate::observer::OBSERVER_SNAPSHOT_SCHEMA_VERSION;
use crate::state::{deck_model, DeckCard, EntryModel, GameMode, HeroClass};
use vstd::prelude::*;

verus! {

/// Where an Arena run stands.
#[derive(Clone, Copy, Debug, PartialEq, Eq, Structural)]
pub enum ArenaDraftPhase {
    Unknown,
    Drafting,
    Redrafting,
    ActiveDeck,
    Rewards,
}

/// Where the state of a run comes from.
#[derive(Clone, Copy, Debug, PartialEq, Eq, Structural)]
pub enum ArenaStateOrigin {
    Replay,
    AuthoritativeResync,
}

/// Why a deck is not known in full.
#[derive(Clone, Copy, Debug, PartialEq, Eq, Structural)]
pub enum PartialDeckReason {
    UnobservedSlots,
    RedraftPendingDeckReview,
    Other,
}

/// Whether a deck is known in full.
#[derive(Clone, Copy, Debug, PartialEq, Eq, Structural)]
pub enum DeckCompleteness {
    Complete,
    Partial { reason: PartialDeckReason },
}

/// How much of the deck is known.
#[derive(Clone, Copy, Debug, PartialEq, Eq, Structural)]
pub struct DeckState {
    pub expected_slots: Option<u16>,
    pub observed_slots: u16,
    pub unobserved_slots: Option<u16>,
    pub completeness: DeckCompleteness,
}

/// The Arena run.
#[derive(Debug, PartialEq, Eq)]
pub struct ArenaRunState {
    pub draft_deck_id: Option<String>,
    pub state_origin: ArenaStateOrigin,
    pub draft_phase: ArenaDraftPhase,
    /// The words for the phase.
    pub phase_label: String,
    /// Whether cards are offered in the phase.
    pub accepts_card_offers: bool,
}

/// The step of a Redraft.
#[derive(Clone, Copy, Debug, PartialEq, Eq, Structural)]
pub enum RedraftStage {
    Inactive,
    PickingOffers,
    AwaitingDiscardReview,
    ReviewingDiscards,
    Complete,
}

/// How far a Redraft has come.
#[derive(Debug, PartialEq, Eq)]
pub struct RedraftProgress {
    pub stage: RedraftStage,
    pub pick_rounds_required: Option<u8>,
    pub pick_progress_known: bool,
    pub pick_rounds_completed: u8,
    pub discard_count_required: Option<u8>,
    pub discarded_card_ids: Vec<String>,
    /// Whether the offers of the Redraft can be read like those of a draft.
    pub accepts_normal_draft_capture: bool,
}

/// Why earlier picks are not known.
#[derive(Clone, Copy, Debug, PartialEq, Eq, Structural)]
pub enum DraftHistoryPartialReason {
    AuthoritativeResync,
    Other,
}

/// Whether earlier picks are known.
#[derive(Clone, Copy, Debug, PartialEq, Eq, Structural)]
pub enum DraftHistoryStatus {
    Complete,
    Partial { reason: DraftHistoryPartialReason },
}

/// What is offered.
#[derive(Clone, Copy, Debug, PartialEq, Eq, Structural)]
pub enum OfferKind {
    Heroes,
    Cards,
    RedraftPick,
    Package,
    Unknown,
}

/// One thing that is offered.
#[derive(Debug, PartialEq, Eq)]
pub enum OfferItem {
    Card { card_id: String },
    Hero { hero_id: String },
    HeroPower { power_id: String },
    Package { key_card_id: String, contents: Vec<String> },
    Unknown { label: Option<String> },
}

/// The offer that the logs tell of.
#[derive(Debug, PartialEq, Eq)]
pub struct ArenaOffer {
    pub kind: OfferKind,
    pub pick_number: u8,
    pub items: Vec<OfferItem>,
}

/// A card that was recognised, with how sure that is in percent.
#[derive(Debug, PartialEq, Eq)]
pub struct RecognisedOffer {
    pub card_id: String,
    pub confidence_percent: u8,
}

/// The draft.
#[derive(Debug, PartialEq, Eq)]
pub struct DraftState {
    pub history_status: DraftHistoryStatus,
    /// Whether the number of the pick is known.
    pub exact_phase_progress: bool,
    pub pick_number: u8,
    pub phase_pick_count: u8,
    pub redraft: RedraftProgress,
    pub current_offer: Option<ArenaOffer>,
    pub offers: Vec<RecognisedOffer>,
    pub selected: Option<String>,
}

/// What the reducer knows.
pub struct ArenaSnapshot {
    pub schema_version: u32,
    pub mode: GameMode,
    pub hero_class: Option<HeroClass>,
    pub deck: Vec<DeckCard>,
    pub remaining_deck: Vec<DeckCard>,
    pub deck_state: DeckState,
    pub run: ArenaRunState,
    pub draft: DraftState,
    pub game_active: bool,
}

/// A card of the deck with what is known of it.
#[derive(Debug, PartialEq, Eq)]
pub struct ResolvedDeckCard {
    pub card_id: String,
    pub count: u8,
    pub resolution: CardResolution,
}

/// What the reducer knows, with the cards looked up.
pub struct ObserverSnapshot {
    pub schema_version: u32,
    pub state_schema_version: u32,
    pub mode: GameMode,
    pub hero_class: Option<HeroClass>,
    pub deck: Vec<ResolvedDeckCard>,
    /// What is left of the deck in the current game.
    pub remaining_deck: Vec<ResolvedDeckCard>,
    pub deck_state: DeckState,
    pub run: ArenaRunState,
    pub draft: DraftState,
    pub game_active: bool,
}

/// Whether cards are those of a deck, each looked up.
pub open spec fn is_resolved_deck(
    r: Seq<ResolvedDeckCard>,
    deck: Seq<DeckCard>,
    cards: CardCache,
) -> bool {
    &&& r.len() == deck.len()
    &&& forall|i: int|
        0 <= i < r.len() ==> {
            &&& (#[trigger] r[i]).card_id@ == deck[i].card_id@
            &&& r[i].count == deck[i].count
            &&& r[i].resolution@ == cards.resolution(deck[i].card_id@)
        }
}

/// Looks up the cards of a deck.
pub fn resolve_deck(deck: &Vec<DeckCard>, cards: &CardCache) -> (r: Vec<ResolvedDeckCard>)
    requires
        cards.wf(),
    ensures
        is_resolved_deck(r@, deck@, *cards),
{
    let mut out: Vec<ResolvedDeckCard> = Vec::new();
    let mut i: usize = 0;
    while i < deck.len()
        invariant
            i <= deck.len(),
            cards.wf(),
            is_resolved_deck(out@, deck@.take(i as int), *cards),
        decreases deck.len() - i,
    {
        let entry = &deck[i];
        out.push(
            ResolvedDeckCard {
                card_id: entry.card_id.clone(),
                count: entry.count,
                resolution: cards.resolve(entry.card_id.as_str()),
            },
        );
        i = i + 1;
    }
    assert(deck@.take(i as int) =~= deck@);
    out
}

/// Looks up the cards of a snapshot. Everything else stays.
pub fn resolve_snapshot(snapshot: ArenaSnapshot, cards: &CardCache) -> (r: ObserverSnapshot)
    requires
        cards.wf(),
    ensures
        r.schema_version == OBSERVER_SNAPSHOT_SCHEMA_VERSION,
        r.state_schema_version == snapshot.schema_version,
        r.mode == snapshot.mode,
        r.hero_class == snapshot.hero_class,
        is_resolved_deck(r.deck@, snapshot.deck@, *cards),
        is_resolved_deck(r.remaining_deck@, snapshot.remaining_deck@, *cards),
        r.deck_state == snapshot.deck_state,
        r.run == snapshot.run,
        r.draft == snapshot.draft,
        r.game_active == snapshot.game_active,
{
    let deck = resolve_deck(&snapshot.deck, cards);
    let remaining_deck = resolve_deck(&snapshot.remaining_deck, cards);
    ObserverSnapshot {
        schema_version: OBSERVER_SNAPSHOT_SCHEMA_VERSION,
        state_schema_version: snapshot.schema_version,
        mode: snapshot.mode,
        hero_class: snapshot.hero_class,
        deck,
        remaining_deck,
        deck_state: snapshot.deck_state,
        run: snapshot.run,
        draft: snapshot.draft,
        game_active: snapshot.game_active,
    }
}

/// The deck of a snapshot, as the analysis takes it.
pub open spec fn deck_entries(deck: Seq<ResolvedDeckCard>) -> Seq<EntryModel> {
    deck.map_values(|c: ResolvedDeckCard| EntryModel { card_id: c.card_id@, count: c.count })
}

/// The deck of a snapshot, as the analysis takes it.
pub fn analysis_deck(deck: &Vec<ResolvedDeckCard>) -> (r: Vec<DeckCard>)
    ensures
        deck_model(r@) == deck_entries(deck@),
{
    let mut out: Vec<DeckCard> = Vec::new();
    let mut i: usize = 0;
    while i < deck.len()
        invariant
            i <= deck.len(),
            deck_model(out@) =~= deck_entries(deck@).take(i as int),
        decreases deck.len() - i,
    {
        let ghost before = out@;
        let entry = DeckCard { card_id: deck[i].card_id.clone(), count: deck[i].count };
        out.push(entry);
        assert(deck_model(out@) =~= deck_model(before).push(entry@));
        i = i + 1;
    }
    assert(deck_entries(deck@).take(i as int) =~= deck_entries(deck@));
    out
}

/// Whether the counts of a deck have to be recovered from the history: a snapshot in the log
/// names each card once, so that it cannot tell one copy from two.
pub open spec fn needs_history(s: ObserverSnapshot) -> bool {
    &&& s.run.draft_deck_id is Some
    &&& s.deck_state.observed_slots > 0
    &&& s.run.draft_phase == ArenaDraftPhase::Unknown || s.run.state_origin
        == ArenaStateOrigin::AuthoritativeResync
}

impl ObserverSnapshot {
    /// Whether the counts of the deck have to be recovered from the history.
    pub fn needs_bounded_history_recovery(&self) -> (r: bool)
        ensures
            r == needs_history(*self),
    {
        self.run.draft_deck_id.is_some() && self.deck_state.observed_slots > 0 && (
        self.run.draft_phase == ArenaDraftPhase::Unknown || self.run.state_origin
            == ArenaStateOrigin::AuthoritativeResync)
    }
}

} // verus!
