//! The text of the overlay. It is made of a snapshot alone, so that it can be tested without a
//! window.
use crate::card_data::{CardResolution, ResolutionModel};
use crate::live::LogStaleness;
use crate::popup::{ArenaPhase, DeckSummary, HearthstoneStatus, Progress, RunStats, StatusPopupModel};
use crate::snapshot::{
    ArenaDraftPhase, ArenaOffer, DeckCompleteness, DraftHistoryPartialReason, DraftHistoryStatus,
    ObserverSnapshot, OfferItem, OfferKind, PartialDeckReason, RecognisedOffer, RedraftProgress,
    RedraftStage, ResolvedDeckCard,
};
use crate::state::{opt_text, GameMode, HeroClass};
use crate::text::{self, decimal, texts};
use vstd::prelude::*;

verus! {

/// The most cards of a deck that are listed.
pub const MAX_DECK_LINES: usize = 12;

/// What the overlay shows.
#[derive(Clone, Debug, PartialEq, Eq)]
pub struct NativeOverlayModel {
    pub title: String,
    pub lines: Vec<String>,
}

/// What screen recognition shows of an offer. It is text only, so that a stale reading can never
/// change what the logs say.
#[derive(Clone, Debug, PartialEq, Eq)]
pub struct ExternalDraftModel {
    /// The number of the pick, or none where it is not known.
    pub pick_number: u8,
    pub lines: Vec<String>,
}

/// The name of a class.
pub open spec fn hero_text(hero: HeroClass) -> Seq<char> {
    match hero {
        HeroClass::DeathKnight => "Death Knight"@,
        HeroClass::DemonHunter => "Demon Hunter"@,
        HeroClass::Druid => "Druid"@,
        HeroClass::Hunter => "Hunter"@,
        HeroClass::Mage => "Mage"@,
        HeroClass::Paladin => "Paladin"@,
        HeroClass::Priest => "Priest"@,
        HeroClass::Rogue => "Rogue"@,
        HeroClass::Shaman => "Shaman"@,
        HeroClass::Warlock => "Warlock"@,
        HeroClass::Warrior => "Warrior"@,
    }
}

/// The name of a class.
pub fn hero_label(hero: HeroClass) -> (r: &'static str)
    ensures
        r@ == hero_text(hero),
{
    match hero {
        HeroClass::DeathKnight => "Death Knight",
        HeroClass::DemonHunter => "Demon Hunter",
        HeroClass::Druid => "Druid",
        HeroClass::Hunter => "Hunter",
        HeroClass::Mage => "Mage",
        HeroClass::Paladin => "Paladin",
        HeroClass::Priest => "Priest",
        HeroClass::Rogue => "Rogue",
        HeroClass::Shaman => "Shaman",
        HeroClass::Warlock => "Warlock",
        HeroClass::Warrior => "Warrior",
    }
}

/// A number, or words where there is none.
pub open spec fn count_or(count: Option<u8>, words: Seq<char>) -> Seq<char> {
    match count {
        Some(n) => decimal(n as nat),
        None => words,
    }
}

pub(crate) fn count_or_words(count: Option<u8>, words: &str) -> (r: String)
    ensures
        r@ == count_or(count, words@),
{
    match count {
        Some(n) => text::decimal_text(n as u64),
        None => text::copy(words),
    }
}

/// The words for the step of a Redraft.
pub open spec fn redraft_status(p: RedraftProgress) -> Option<Seq<char>> {
    match p.stage {
        RedraftStage::Inactive => None,
        RedraftStage::PickingOffers => if !p.pick_progress_known {
            Some("Redraft progress unknown after current-deck resync; capture is withheld"@)
        } else {
            match p.pick_rounds_required {
                Some(rounds) => Some(
                    "Redraft pick "@ + decimal(
                        if p.pick_rounds_completed == 255 {
                            255
                        } else {
                            (p.pick_rounds_completed + 1) as nat
                        },
                    ) + "/"@ + decimal(rounds as nat),
                ),
                None => Some("Redraft policy unavailable; capture is withheld"@),
            }
        },
        RedraftStage::AwaitingDiscardReview => Some(
            "Redraft picks complete; choose "@ + count_or(
                p.discard_count_required,
                "the required"@,
            ) + " cards to discard"@,
        ),
        RedraftStage::ReviewingDiscards => Some(
            "Redraft review: "@ + decimal(p.discarded_card_ids@.len())
                + " discard selections observed"@,
        ),
        RedraftStage::Complete => Some("Redraft review submitted; awaiting deck update"@),
    }
}

/// The words for the step of a Redraft.
pub fn redraft_status_line(progress: &RedraftProgress) -> (r: Option<String>)
    ensures
        opt_text(r) == redraft_status(*progress),
{
    match progress.stage {
        RedraftStage::Inactive => None,
        RedraftStage::PickingOffers => {
            if !progress.pick_progress_known {
                return Some(
                    text::copy(
                        "Redraft progress unknown after current-deck resync; capture is withheld",
                    ),
                );
            }
            match progress.pick_rounds_required {
                Some(rounds) => {
                    let mut r = text::copy("Redraft pick ");
                    let next: u64 = if progress.pick_rounds_completed == 255 {
                        255
                    } else {
                        progress.pick_rounds_completed as u64 + 1
                    };
                    text::push_decimal(&mut r, next);
                    r.append("/");
                    text::push_decimal(&mut r, rounds as u64);
                    Some(r)
                },
                None => Some(text::copy("Redraft policy unavailable; capture is withheld")),
            }
        },
        RedraftStage::AwaitingDiscardReview => {
            let mut r = text::copy("Redraft picks complete; choose ");
            r.append(
                count_or_words(progress.discard_count_required, "the required").as_str(),
            );
            r.append(" cards to discard");
            Some(r)
        },
        RedraftStage::ReviewingDiscards => {
            let mut r = text::copy("Redraft review: ");
            text::push_decimal(&mut r, progress.discarded_card_ids.len() as u64);
            r.append(" discard selections observed");
            Some(r)
        },
        RedraftStage::Complete => Some(
            text::copy("Redraft review submitted; awaiting deck update"),
        ),
    }
}

/// The line for a card of the deck.
pub open spec fn deck_line_text(card: ResolvedDeckCard) -> Seq<char> {
    let copies = " ×"@ + decimal(card.count as nat);
    match card.resolution@ {
        ResolutionModel::Resolved { card: metadata } => metadata.name + copies,
        ResolutionModel::Unrevealed => "Unrevealed card"@ + copies,
        ResolutionModel::NonCardEntity { .. } => "Non-card entity"@ + copies,
        ResolutionModel::MissingMetadata { card_id } => card_id + " · metadata unavailable"@
            + copies,
        ResolutionModel::InvalidCardId { card_id } => card_id + " · invalid card ID"@ + copies,
    }
}

/// The line for a card of the deck.
pub fn deck_line(card: &ResolvedDeckCard) -> (r: String)
    ensures
        r@ == deck_line_text(*card),
{
    let mut copies = text::copy(" ×");
    text::push_decimal(&mut copies, card.count as u64);
    let mut r = match &card.resolution {
        CardResolution::Resolved { card: metadata } => metadata.name.clone(),
        CardResolution::Unrevealed => text::copy("Unrevealed card"),
        CardResolution::NonCardEntity { .. } => text::copy("Non-card entity"),
        CardResolution::MissingMetadata { card_id } => {
            let mut s = card_id.clone();
            s.append(" · metadata unavailable");
            s
        },
        CardResolution::InvalidCardId { card_id } => {
            let mut s = card_id.clone();
            s.append(" · invalid card ID");
            s
        },
    };
    r.append(copies.as_str());
    r
}

/// The words for a kind of offer.
pub open spec fn offer_kind_text(kind: OfferKind) -> Seq<char> {
    match kind {
        OfferKind::Heroes => "Hero choice"@,
        OfferKind::Cards => "Draft pick"@,
        OfferKind::RedraftPick => "Redraft pick"@,
        OfferKind::Package => "Package choice"@,
        OfferKind::Unknown => "Arena choice"@,
    }
}

/// The words for a kind of offer.
pub fn offer_kind_label(kind: OfferKind) -> (r: &'static str)
    ensures
        r@ == offer_kind_text(kind),
{
    match kind {
        OfferKind::Heroes => "Hero choice",
        OfferKind::Cards => "Draft pick",
        OfferKind::RedraftPick => "Redraft pick",
        OfferKind::Package => "Package choice",
        OfferKind::Unknown => "Arena choice",
    }
}

/// The line for a thing that is offered.
pub open spec fn offer_item_text(item: OfferItem) -> Seq<char> {
    match item {
        OfferItem::Card { card_id } => card_id@,
        OfferItem::Hero { hero_id } => "Hero: "@ + hero_id@,
        OfferItem::HeroPower { power_id } => "Hero power: "@ + power_id@,
        OfferItem::Package { key_card_id, contents } => "Package: "@ + key_card_id@ + " (+"@
            + decimal(contents@.len()) + " cards)"@,
        OfferItem::Unknown { label } => match opt_text(label) {
            Some(l) => "Unknown: "@ + l,
            None => "Unknown offer item"@,
        },
    }
}

fn prefixed(prefix: &str, s: &str) -> (r: String)
    ensures
        r@ == prefix@ + s@,
{
    let mut r = text::copy(prefix);
    r.append(s);
    r
}

/// The line for a thing that is offered.
pub fn offer_item_line(item: &OfferItem) -> (r: String)
    ensures
        r@ == offer_item_text(*item),
{
    match item {
        OfferItem::Card { card_id } => card_id.clone(),
        OfferItem::Hero { hero_id } => prefixed("Hero: ", hero_id.as_str()),
        OfferItem::HeroPower { power_id } => prefixed("Hero power: ", power_id.as_str()),
        OfferItem::Package { key_card_id, contents } => {
            let mut r = prefixed("Package: ", key_card_id.as_str());
            r.append(" (+");
            text::push_decimal(&mut r, contents.len() as u64);
            r.append(" cards)");
            r
        },
        OfferItem::Unknown { label } => match label {
            Some(l) => prefixed("Unknown: ", l.as_str()),
            None => text::copy("Unknown offer item"),
        },
    }
}

/// Whether replacements were captured whose removals are not known yet.
pub open spec fn unresolved_redraft(s: ObserverSnapshot) -> bool {
    s.deck_state.completeness == (DeckCompleteness::Partial {
        reason: PartialDeckReason::RedraftPendingDeckReview,
    })
}

/// Whether a Redraft is under way whose progress is known.
pub open spec fn active_redraft(s: ObserverSnapshot) -> bool {
    s.run.draft_phase == ArenaDraftPhase::Redrafting && s.draft.redraft.stage
        == RedraftStage::PickingOffers && s.draft.redraft.pick_progress_known
}

/// The cards that a Redraft has not replaced.
pub open spec fn retained_cards(s: ObserverSnapshot) -> nat {
    if s.deck_state.observed_slots >= s.draft.redraft.pick_rounds_completed {
        (s.deck_state.observed_slots - s.draft.redraft.pick_rounds_completed) as nat
    } else {
        0
    }
}

/// The first line: the class and the size of the deck.
pub open spec fn head_line(s: ObserverSnapshot) -> Seq<char> {
    let hero = match s.hero_class {
        Some(h) => hero_text(h),
        None => "Unknown hero"@,
    };
    let total = decimal(s.deck_state.observed_slots as nat);
    let completed = decimal(s.draft.redraft.pick_rounds_completed as nat);
    if unresolved_redraft(s) {
        hero + " · Redraft reconciliation required"@
    } else if active_redraft(s) {
        let retained = hero + " · "@ + decimal(retained_cards(s)) + " retained + "@ + completed;
        match s.draft.redraft.pick_rounds_required {
            Some(required) => retained + "/"@ + decimal(required as nat) + " replacements"@,
            None => retained + " replacements"@,
        }
    } else {
        match s.deck_state.expected_slots {
            Some(expected) => hero + " · "@ + total + "/"@ + decimal(expected as nat)
                + " cards observed"@,
            None => hero + " · "@ + total + " cards observed"@,
        }
    }
}

impl ObserverSnapshot {
    fn has_unresolved_redraft(&self) -> (r: bool)
        ensures
            r == unresolved_redraft(*self),
    {
        self.deck_state.completeness == DeckCompleteness::Partial {
            reason: PartialDeckReason::RedraftPendingDeckReview,
        }
    }

    fn has_active_redraft(&self) -> (r: bool)
        ensures
            r == active_redraft(*self),
    {
        self.run.draft_phase == ArenaDraftPhase::Redrafting && self.draft.redraft.stage
            == RedraftStage::PickingOffers && self.draft.redraft.pick_progress_known
    }
}

fn first_line(s: &ObserverSnapshot) -> (r: String)
    ensures
        r@ == head_line(*s),
{
    let mut r = match s.hero_class {
        Some(h) => text::copy(hero_label(h)),
        None => text::copy("Unknown hero"),
    };
    if s.has_unresolved_redraft() {
        r.append(" · Redraft reconciliation required");
        return r;
    }
    r.append(" · ");
    let total: u64 = s.deck_state.observed_slots as u64;
    if s.has_active_redraft() {
        let completed: u64 = s.draft.redraft.pick_rounds_completed as u64;
        let retained: u64 = if total >= completed {
            total - completed
        } else {
            0
        };
        text::push_decimal(&mut r, retained);
        r.append(" retained + ");
        text::push_decimal(&mut r, completed);
        if let Some(required) = s.draft.redraft.pick_rounds_required {
            r.append("/");
            text::push_decimal(&mut r, required as u64);
        }
        r.append(" replacements");
        return r;
    }
    text::push_decimal(&mut r, total);
    if let Some(expected) = s.deck_state.expected_slots {
        r.append("/");
        text::push_decimal(&mut r, expected as u64);
    }
    r.append(" cards observed");
    r
}

/// The line for slots that were not seen yet.
pub open spec fn unobserved_lines(s: ObserverSnapshot) -> Seq<Seq<char>> {
    match s.deck_state.unobserved_slots {
        Some(n) => if n == 0 {
            Seq::empty()
        } else if active_redraft(s) {
            seq![
                decimal(n as nat) + " Redraft replacement"@ + (if n == 1 {
                    ""@
                } else {
                    "s"@
                }) + " remaining"@,
            ]
        } else {
            seq![decimal(n as nat) + " deck slots not yet observed"@]
        },
        None => Seq::empty(),
    }
}

/// The lines for replacements whose removals are not known.
pub open spec fn unresolved_lines(s: ObserverSnapshot) -> Seq<Seq<char>> {
    let n = decimal(s.draft.redraft.pick_rounds_completed as nat);
    if unresolved_redraft(s) {
        seq![
            n + " replacements captured; "@ + n + " removals unknown"@,
            "Deck-adjusted scoring paused until Fix Deck completes"@,
        ]
    } else {
        Seq::empty()
    }
}

/// One line where a condition holds.
pub open spec fn line_if(condition: bool, line: Seq<char>) -> Seq<Seq<char>> {
    if condition {
        seq![line]
    } else {
        Seq::empty()
    }
}

/// The lines on what is not known of the draft, on the Redraft, and on the game.
pub open spec fn status_lines(s: ObserverSnapshot, external: bool) -> Seq<Seq<char>> {
    line_if(
        s.draft.history_status == (DraftHistoryStatus::Partial {
            reason: DraftHistoryPartialReason::AuthoritativeResync,
        }),
        "Current deck resynced; earlier draft history is unavailable"@,
    ) + line_if(
        !s.draft.exact_phase_progress && s.run.draft_phase == ArenaDraftPhase::Drafting,
        "Current draft pick number is unknown; detecting the visible offer"@,
    ) + (match redraft_status(s.draft.redraft) {
        Some(line) => line_if(
            s.run.draft_phase == ArenaDraftPhase::Redrafting && !external,
            line,
        ),
        None => Seq::empty(),
    }) + line_if(s.game_active, "Game in progress"@)
}

/// The line for the card that was picked.
pub open spec fn picked_lines(s: ObserverSnapshot) -> Seq<Seq<char>> {
    match opt_text(s.draft.selected) {
        Some(id) => seq!["Picked: "@ + id],
        None => Seq::empty(),
    }
}

/// The lines for the deck.
pub open spec fn deck_lines(deck: Seq<ResolvedDeckCard>) -> Seq<Seq<char>> {
    let shown = if deck.len() > MAX_DECK_LINES {
        deck.take(MAX_DECK_LINES as int)
    } else {
        deck
    };
    seq!["Current deck"@] + shown.map_values(|c: ResolvedDeckCard| deck_line_text(c)) + line_if(
        deck.len() > MAX_DECK_LINES,
        "… "@ + decimal((deck.len() - MAX_DECK_LINES) as nat) + " more unique cards"@,
    )
}

/// The line for a card that was recognised.
pub open spec fn recognised_text(o: RecognisedOffer) -> Seq<char> {
    o.card_id@ + " · "@ + decimal(o.confidence_percent as nat) + "%"@
}

/// The lines for what is offered, or else for the deck.
pub open spec fn body_lines(s: ObserverSnapshot, external: Option<ExternalDraftModel>) -> Seq<
    Seq<char>,
> {
    match external {
        Some(e) => seq![
            if e.pick_number == 0 {
                s.run.phase_label@ + " pick progress unknown"@
            } else {
                s.run.phase_label@ + " pick "@ + decimal(e.pick_number as nat)
            },
        ] + texts(e.lines@),
        None => match s.draft.current_offer {
            Some(offer) => seq![
                offer_kind_text(offer.kind) + " pick "@ + decimal(offer.pick_number as nat),
            ] + offer.items@.map_values(|i: OfferItem| offer_item_text(i)) + picked_lines(s),
            None => if s.draft.offers@.len() > 0 {
                seq![s.run.phase_label@ + " pick "@ + decimal(s.draft.pick_number as nat)]
                    + s.draft.offers@.map_values(|o: RecognisedOffer| recognised_text(o))
                    + picked_lines(s)
            } else if unresolved_redraft(s) {
                seq!["The provisional card union is not the current deck"@]
            } else if s.deck@.len() == 0 {
                seq!["Waiting for an Arena deck or draft"@]
            } else {
                deck_lines(s.deck@)
            },
        },
    }
}

/// The lines of the overlay.
pub open spec fn overlay_lines(s: ObserverSnapshot, external: Option<ExternalDraftModel>) -> Seq<
    Seq<char>,
> {
    seq![head_line(s)] + unobserved_lines(s) + unresolved_lines(s) + status_lines(
        s,
        external is Some,
    ) + body_lines(s, external)
}

/// The title of the overlay.
pub open spec fn overlay_title(mode: GameMode) -> Seq<char> {
    "ArenaNext · "@ + match mode {
        GameMode::Arena => "Arena"@,
        GameMode::Other => "Hearthstone"@,
        GameMode::Unknown => "Waiting for Hearthstone"@,
    }
}

fn push_line(lines: &mut Vec<String>, line: String)
    ensures
        texts(final(lines)@) == texts(old(lines)@).push(line@),
        texts(final(lines)@) == texts(old(lines)@) + seq![line@],
{
    lines.push(line);
    assert(texts(lines@) =~= texts(old(lines)@).push(line@));
    assert(texts(lines@) =~= texts(old(lines)@) + seq![line@]);
}

fn push_line_if(lines: &mut Vec<String>, condition: bool, line: &str)
    ensures
        texts(final(lines)@) == texts(old(lines)@) + line_if(condition, line@),
{
    if condition {
        push_line(lines, text::copy(line));
    } else {
        assert(texts(lines@) + Seq::<Seq<char>>::empty() =~= texts(lines@));
    }
}

fn push_all(lines: &mut Vec<String>, more: &Vec<String>)
    ensures
        texts(final(lines)@) == texts(old(lines)@) + texts(more@),
{
    let ghost first = texts(lines@);
    let mut i: usize = 0;
    assert(first + texts(more@).take(0) =~= first);
    while i < more.len()
        invariant
            i <= more.len(),
            texts(lines@) == first + texts(more@).take(i as int),
        decreases more.len() - i,
    {
        push_line(lines, more[i].clone());
        assert(texts(more@).take(i + 1) =~= texts(more@).take(i as int).push(more@[i as int]@));
        assert(texts(lines@) =~= first + texts(more@).take(i + 1));
        i = i + 1;
    }
    assert(texts(more@).take(i as int) =~= texts(more@));
}

fn push_unobserved(lines: &mut Vec<String>, s: &ObserverSnapshot)
    ensures
        texts(final(lines)@) == texts(old(lines)@) + unobserved_lines(*s),
{
    if let Some(n) = s.deck_state.unobserved_slots {
        if n > 0 {
            let mut line = text::decimal_text(n as u64);
            if s.has_active_redraft() {
                line.append(" Redraft replacement");
                line.append(
                    if n == 1 {
                        ""
                    } else {
                        "s"
                    },
                );
                line.append(" remaining");
            } else {
                line.append(" deck slots not yet observed");
            }
            push_line(lines, line);
            return;
        }
    }
    assert(texts(lines@) + Seq::<Seq<char>>::empty() =~= texts(lines@));
}

fn push_unresolved(lines: &mut Vec<String>, s: &ObserverSnapshot)
    ensures
        texts(final(lines)@) == texts(old(lines)@) + unresolved_lines(*s),
{
    let ghost first = texts(lines@);
    if s.has_unresolved_redraft() {
        let n: u64 = s.draft.redraft.pick_rounds_completed as u64;
        let mut line = text::decimal_text(n);
        line.append(" replacements captured; ");
        text::push_decimal(&mut line, n);
        line.append(" removals unknown");
        push_line(lines, line);
        push_line(lines, text::copy("Deck-adjusted scoring paused until Fix Deck completes"));
        assert(texts(lines@) =~= first + unresolved_lines(*s));
    } else {
        assert(first + Seq::<Seq<char>>::empty() =~= first);
    }
}

fn push_status(lines: &mut Vec<String>, s: &ObserverSnapshot, external: bool)
    ensures
        texts(final(lines)@) == texts(old(lines)@) + status_lines(*s, external),
{
    let ghost first = texts(lines@);
    let resynced = s.draft.history_status == DraftHistoryStatus::Partial {
        reason: DraftHistoryPartialReason::AuthoritativeResync,
    };
    push_line_if(lines, resynced, "Current deck resynced; earlier draft history is unavailable");
    let ghost a = texts(lines@);
    let unknown = !s.draft.exact_phase_progress && s.run.draft_phase
        == ArenaDraftPhase::Drafting;
    push_line_if(
        lines,
        unknown,
        "Current draft pick number is unknown; detecting the visible offer",
    );
    let ghost b = texts(lines@);
    let redraft = s.run.draft_phase == ArenaDraftPhase::Redrafting && !external;
    match redraft_status_line(&s.draft.redraft) {
        Some(line) => push_line_if(lines, redraft, line.as_str()),
        None => {
            assert(b + Seq::<Seq<char>>::empty() =~= b);
        },
    }
    push_line_if(lines, s.game_active, "Game in progress");
    assert(texts(lines@) =~= first + status_lines(*s, external));
}

fn push_picked(lines: &mut Vec<String>, s: &ObserverSnapshot)
    ensures
        texts(final(lines)@) == texts(old(lines)@) + picked_lines(*s),
{
    match &s.draft.selected {
        Some(id) => push_line(lines, prefixed("Picked: ", id.as_str())),
        None => {
            assert(texts(lines@) + Seq::<Seq<char>>::empty() =~= texts(lines@));
        },
    }
}

fn push_deck(lines: &mut Vec<String>, deck: &Vec<ResolvedDeckCard>)
    ensures
        texts(final(lines)@) == texts(old(lines)@) + deck_lines(deck@),
{
    let ghost first = texts(lines@);
    push_line(lines, text::copy("Current deck"));
    let ghost headed = texts(lines@);
    let n: usize = if deck.len() > MAX_DECK_LINES {
        MAX_DECK_LINES
    } else {
        deck.len()
    };
    let ghost shown = deck@.take(n as int);
    let ghost wanted = shown.map_values(|c: ResolvedDeckCard| deck_line_text(c));
    let mut i: usize = 0;
    assert(headed + wanted.take(0) =~= headed);
    while i < n
        invariant
            i <= n <= deck.len(),
            shown == deck@.take(n as int),
            wanted == shown.map_values(|c: ResolvedDeckCard| deck_line_text(c)),
            texts(lines@) == headed + wanted.take(i as int),
        decreases n - i,
    {
        push_line(lines, deck_line(&deck[i]));
        assert(wanted[i as int] == deck_line_text(deck@[i as int]));
        assert(texts(lines@) =~= headed + wanted.take(i + 1));
        i = i + 1;
    }
    assert(wanted.take(i as int) =~= wanted);
    if deck.len() > MAX_DECK_LINES {
        let mut line = text::copy("… ");
        text::push_decimal(&mut line, (deck.len() - MAX_DECK_LINES) as u64);
        line.append(" more unique cards");
        push_line(lines, line);
    } else {
        assert(shown =~= deck@);
    }
    assert(texts(lines@) =~= first + deck_lines(deck@));
}

fn push_offer(lines: &mut Vec<String>, s: &ObserverSnapshot, offer: &ArenaOffer)
    ensures
        texts(final(lines)@) == texts(old(lines)@) + (seq![
            offer_kind_text(offer.kind) + " pick "@ + decimal(offer.pick_number as nat),
        ] + offer.items@.map_values(|i: OfferItem| offer_item_text(i)) + picked_lines(*s)),
{
    let ghost first = texts(lines@);
    let mut line = text::copy(offer_kind_label(offer.kind));
    line.append(" pick ");
    text::push_decimal(&mut line, offer.pick_number as u64);
    push_line(lines, line);
    let ghost headed = texts(lines@);
    let ghost wanted = offer.items@.map_values(|i: OfferItem| offer_item_text(i));
    let mut i: usize = 0;
    assert(headed + wanted.take(0) =~= headed);
    while i < offer.items.len()
        invariant
            i <= offer.items.len(),
            wanted == offer.items@.map_values(|i: OfferItem| offer_item_text(i)),
            texts(lines@) == headed + wanted.take(i as int),
        decreases offer.items.len() - i,
    {
        push_line(lines, offer_item_line(&offer.items[i]));
        assert(texts(lines@) =~= headed + wanted.take(i + 1));
        i = i + 1;
    }
    assert(wanted.take(i as int) =~= wanted);
    push_picked(lines, s);
    assert(texts(lines@) =~= first + (seq![
        offer_kind_text(offer.kind) + " pick "@ + decimal(offer.pick_number as nat),
    ] + wanted + picked_lines(*s)));
}

fn push_recognised(lines: &mut Vec<String>, s: &ObserverSnapshot)
    ensures
        texts(final(lines)@) == texts(old(lines)@) + (seq![
            s.run.phase_label@ + " pick "@ + decimal(s.draft.pick_number as nat),
        ] + s.draft.offers@.map_values(|o: RecognisedOffer| recognised_text(o)) + picked_lines(*s)),
{
    let ghost first = texts(lines@);
    let mut line = s.run.phase_label.clone();
    line.append(" pick ");
    text::push_decimal(&mut line, s.draft.pick_number as u64);
    push_line(lines, line);
    let ghost headed = texts(lines@);
    let ghost wanted = s.draft.offers@.map_values(|o: RecognisedOffer| recognised_text(o));
    let mut i: usize = 0;
    assert(headed + wanted.take(0) =~= headed);
    while i < s.draft.offers.len()
        invariant
            i <= s.draft.offers.len(),
            wanted == s.draft.offers@.map_values(|o: RecognisedOffer| recognised_text(o)),
            texts(lines@) == headed + wanted.take(i as int),
        decreases s.draft.offers.len() - i,
    {
        let offer = &s.draft.offers[i];
        let mut line = offer.card_id.clone();
        line.append(" · ");
        text::push_decimal(&mut line, offer.confidence_percent as u64);
        line.append("%");
        push_line(lines, line);
        assert(texts(lines@) =~= headed + wanted.take(i + 1));
        i = i + 1;
    }
    assert(wanted.take(i as int) =~= wanted);
    push_picked(lines, s);
    assert(texts(lines@) =~= first + (seq![
        s.run.phase_label@ + " pick "@ + decimal(s.draft.pick_number as nat),
    ] + wanted + picked_lines(*s)));
}

fn push_body(lines: &mut Vec<String>, s: &ObserverSnapshot, external: Option<&ExternalDraftModel>)
    ensures
        texts(final(lines)@) == texts(old(lines)@) + body_lines(
            *s,
            match external {
                Some(e) => Some(*e),
                None => None,
            },
        ),
{
    let ghost first = texts(lines@);
    if let Some(e) = external {
        let mut line = s.run.phase_label.clone();
        if e.pick_number == 0 {
            line.append(" pick progress unknown");
        } else {
            line.append(" pick ");
            text::push_decimal(&mut line, e.pick_number as u64);
        }
        let ghost head = line@;
        push_line(lines, line);
        push_all(lines, &e.lines);
        assert(texts(lines@) =~= first + (seq![head] + texts(e.lines@)));
        return;
    }
    if let Some(offer) = &s.draft.current_offer {
        push_offer(lines, s, offer);
        return;
    }
    if s.draft.offers.len() > 0 {
        push_recognised(lines, s);
    } else if s.has_unresolved_redraft() {
        push_line(lines, text::copy("The provisional card union is not the current deck"));
    } else if s.deck.len() == 0 {
        push_line(lines, text::copy("Waiting for an Arena deck or draft"));
    } else {
        push_deck(lines, &s.deck);
    }
}

/// The overlay for a snapshot.
pub fn from_snapshot(snapshot: &ObserverSnapshot) -> (r: NativeOverlayModel)
    ensures
        r.title@ == overlay_title(snapshot.mode),
        texts(r.lines@) == overlay_lines(*snapshot, None),
{
    from_snapshot_with_external_draft(snapshot, None)
}

/// The overlay for a snapshot and what screen recognition shows of the offer.
pub fn from_snapshot_with_external_draft(
    snapshot: &ObserverSnapshot,
    external_draft: Option<&ExternalDraftModel>,
) -> (r: NativeOverlayModel)
    ensures
        r.title@ == overlay_title(snapshot.mode),
        texts(r.lines@) == overlay_lines(
            *snapshot,
            match external_draft {
                Some(e) => Some(*e),
                None => None,
            },
        ),
{
    let mut lines: Vec<String> = Vec::new();
    assert(texts(lines@) =~= Seq::<Seq<char>>::empty());
    push_line(&mut lines, first_line(snapshot));
    assert(texts(lines@) =~= seq![head_line(*snapshot)]);
    push_unobserved(&mut lines, snapshot);
    push_unresolved(&mut lines, snapshot);
    push_status(&mut lines, snapshot, external_draft.is_some());
    push_body(&mut lines, snapshot, external_draft);
    let mut title = text::copy("ArenaNext · ");
    title.append(
        match snapshot.mode {
            GameMode::Arena => "Arena",
            GameMode::Other => "Hearthstone",
            GameMode::Unknown => "Waiting for Hearthstone",
        },
    );
    NativeOverlayModel { title, lines }
}

/// The line for logs that stopped.
pub open spec fn stalled_line(age_secs: u64) -> Seq<char> {
    "Hearthstone log activity stopped "@ + decimal((age_secs / 60) as nat)
        + " min ago; restart Hearthstone to restore deck/card detection"@
}

fn stalled(age_secs: u64) -> (r: String)
    ensures
        r@ == stalled_line(age_secs),
{
    let mut line = text::copy("Hearthstone log activity stopped ");
    text::push_decimal(&mut line, age_secs / 60);
    line.append(" min ago; restart Hearthstone to restore deck/card detection");
    line
}

/// The line for logs that stopped, if they did.
pub open spec fn stalled_lines(staleness: LogStaleness) -> Seq<Seq<char>> {
    match staleness {
        LogStaleness::Stale { age_secs } => seq![stalled_line(age_secs)],
        _ => Seq::empty(),
    }
}

/// The overlay as it is printed once: for a snapshot and the state of the logs.
pub fn printed_model(snapshot: &ObserverSnapshot, staleness: LogStaleness) -> (r:
    NativeOverlayModel)
    ensures
        r.title@ == overlay_title(snapshot.mode),
        texts(r.lines@) == overlay_lines(*snapshot, None) + stalled_lines(staleness),
{
    let NativeOverlayModel { title, lines } = from_snapshot(snapshot);
    let mut lines = lines;
    if let LogStaleness::Stale { age_secs } = staleness {
        push_line(&mut lines, stalled(age_secs));
    } else {
        assert(texts(lines@) + Seq::<Seq<char>>::empty() =~= texts(lines@));
    }
    NativeOverlayModel { title, lines }
}

/// A line for an error, if there is one.
pub open spec fn error_lines(prefix: Seq<char>, error: Option<Seq<char>>) -> Seq<Seq<char>> {
    match error {
        Some(e) => seq![prefix + e],
        None => Seq::empty(),
    }
}

fn push_error(lines: &mut Vec<String>, prefix: &str, error: &Option<String>)
    ensures
        texts(final(lines)@) == texts(old(lines)@) + error_lines(prefix@, opt_text(*error)),
{
    match error {
        Some(e) => push_line(lines, prefixed(prefix, e.as_str())),
        None => {
            assert(texts(lines@) + Seq::<Seq<char>>::empty() =~= texts(lines@));
        },
    }
}

/// The overlay while the observer runs: with what keeps it from being current.
pub fn current_model(
    snapshot: &ObserverSnapshot,
    external_draft: Option<&ExternalDraftModel>,
    staleness: LogStaleness,
    last_error: &Option<String>,
    checkpoint_error: &Option<String>,
) -> (r: NativeOverlayModel)
    ensures
        r.title@ == if staleness is Stale {
            "ArenaNext · Hearthstone logs stalled"@
        } else {
            overlay_title(snapshot.mode)
        },
        texts(r.lines@) == overlay_lines(
            *snapshot,
            match external_draft {
                Some(e) => Some(*e),
                None => None,
            },
        ) + stalled_lines(staleness) + error_lines("Log observer: "@, opt_text(*last_error))
            + error_lines("Local recovery checkpoint: "@, opt_text(*checkpoint_error)),
{
    let NativeOverlayModel { title, lines } = from_snapshot_with_external_draft(
        snapshot,
        external_draft,
    );
    let mut title = title;
    let mut lines = lines;
    if let LogStaleness::Stale { age_secs } = staleness {
        title = text::copy("ArenaNext · Hearthstone logs stalled");
        push_line(&mut lines, stalled(age_secs));
    } else {
        assert(texts(lines@) + Seq::<Seq<char>>::empty() =~= texts(lines@));
    }
    push_error(&mut lines, "Log observer: ", last_error);
    push_error(&mut lines, "Local recovery checkpoint: ", checkpoint_error);
    NativeOverlayModel { title, lines }
}

/// The overlay of the static demonstration.
pub fn demo_model() -> (r: NativeOverlayModel)
    ensures
        r.title@ == "ArenaNext · native overlay"@,
        texts(r.lines@) == seq![
            "No browser runtime"@,
            "Click-through · all Spaces · fullscreen auxiliary"@,
        ],
{
    let mut lines: Vec<String> = Vec::new();
    lines.push(text::copy("No browser runtime"));
    lines.push(text::copy("Click-through · all Spaces · fullscreen auxiliary"));
    assert(texts(lines@) =~= seq![
        "No browser runtime"@,
        "Click-through · all Spaces · fullscreen auxiliary"@,
    ]);
    NativeOverlayModel { title: text::copy("ArenaNext · native overlay"), lines }
}

/// The overlay before the observer has attached.
pub fn starting_model() -> (r: NativeOverlayModel)
    ensures
        r.title@ == "ArenaNext · starting"@,
        texts(r.lines@) == seq!["Attaching to Hearthstone logs…"@],
{
    let mut lines: Vec<String> = Vec::new();
    lines.push(text::copy("Attaching to Hearthstone logs…"));
    assert(texts(lines@) =~= seq!["Attaching to Hearthstone logs…"@]);
    NativeOverlayModel { title: text::copy("ArenaNext · starting"), lines }
}

/// The short word for the state of the logs.
pub open spec fn staleness_text(staleness: LogStaleness) -> Seq<char> {
    match staleness {
        LogStaleness::Live => "live"@,
        LogStaleness::NoLogs => "no-logs"@,
        LogStaleness::Stale { age_secs } => "stale-"@ + decimal(age_secs as nat) + "s"@,
    }
}

/// The short word for the state of the logs.
pub fn staleness_label(staleness: LogStaleness) -> (r: String)
    ensures
        r@ == staleness_text(staleness),
{
    match staleness {
        LogStaleness::Live => text::copy("live"),
        LogStaleness::NoLogs => text::copy("no-logs"),
        LogStaleness::Stale { age_secs } => {
            let mut r = text::copy("stale-");
            text::push_decimal(&mut r, age_secs);
            r.append("s");
            r
        },
    }
}

/// The phase that the popup shows.
pub open spec fn popup_phase(phase: ArenaDraftPhase) -> ArenaPhase {
    match phase {
        ArenaDraftPhase::Drafting => ArenaPhase::Draft,
        ArenaDraftPhase::Redrafting => ArenaPhase::Redraft,
        ArenaDraftPhase::ActiveDeck => ArenaPhase::ActiveDeck,
        ArenaDraftPhase::Rewards => ArenaPhase::Rewards,
        ArenaDraftPhase::Unknown => ArenaPhase::Unknown,
    }
}

/// The popup for a snapshot. No games are invented: the logs do not tell the score.
pub fn popup_model(snapshot: &ObserverSnapshot, overlay_visible: bool, interaction_enabled: bool)
    -> (r: StatusPopupModel)
    ensures
        r.hearthstone == if snapshot.mode == GameMode::Unknown {
            HearthstoneStatus::NotDetected
        } else {
            HearthstoneStatus::Running
        },
        opt_text(r.deck.hero) == (match snapshot.hero_class {
            Some(h) => Some(hero_text(h)),
            None => None,
        }),
        r.deck.observed == snapshot.deck_state.observed_slots,
        r.deck.expected == snapshot.deck_state.expected_slots,
        r.arena_phase == popup_phase(snapshot.run.draft_phase),
        r.pick_progress == if snapshot.draft.pick_number > 0 {
            Some(Progress { current: snapshot.draft.pick_number, total: 30 })
        } else {
            None
        },
        r.run == (RunStats { wins: 0, losses: 0 }),
        r.active_run == (snapshot.mode == GameMode::Arena && !(r.arena_phase is Unknown)
            && !(r.arena_phase is Rewards)),
        r.overlay_visible == overlay_visible,
        r.interaction_enabled == interaction_enabled,
{
    let arena_phase = match snapshot.run.draft_phase {
        ArenaDraftPhase::Drafting => ArenaPhase::Draft,
        ArenaDraftPhase::Redrafting => ArenaPhase::Redraft,
        ArenaDraftPhase::ActiveDeck => ArenaPhase::ActiveDeck,
        ArenaDraftPhase::Rewards => ArenaPhase::Rewards,
        ArenaDraftPhase::Unknown => ArenaPhase::Unknown,
    };
    let hero = match snapshot.hero_class {
        Some(h) => Some(text::copy(hero_label(h))),
        None => None,
    };
    StatusPopupModel {
        hearthstone: if snapshot.mode == GameMode::Unknown {
            HearthstoneStatus::NotDetected
        } else {
            HearthstoneStatus::Running
        },
        deck: DeckSummary {
            hero,
            observed: snapshot.deck_state.observed_slots,
            expected: snapshot.deck_state.expected_slots,
        },
        arena_phase,
        pick_progress: if snapshot.draft.pick_number > 0 {
            Some(Progress { current: snapshot.draft.pick_number, total: 30 })
        } else {
            None
        },
        run: RunStats::default(),
        active_run: snapshot.mode == GameMode::Arena && arena_phase != ArenaPhase::Unknown
            && arena_phase != ArenaPhase::Rewards,
        overlay_visible,
        interaction_enabled,
    }
}

/// The popup where there is no snapshot.
pub fn empty_popup_model(
    hearthstone: HearthstoneStatus,
    overlay_visible: bool,
    interaction_enabled: bool,
) -> (r: StatusPopupModel)
    ensures
        r.hearthstone == hearthstone,
        r.deck == (DeckSummary { hero: None, observed: 0, expected: None }),
        r.arena_phase == ArenaPhase::Unknown,
        r.pick_progress is None,
        r.run == (RunStats { wins: 0, losses: 0 }),
        !r.active_run,
        r.overlay_visible == overlay_visible,
        r.interaction_enabled == interaction_enabled,
{
    let mut r = StatusPopupModel::default();
    r.hearthstone = hearthstone;
    r.overlay_visible = overlay_visible;
    r.interaction_enabled = interaction_enabled;
    r
}

/// The overlay never lists more than twelve cards of the deck, whatever the deck.
pub proof fn deck_lists_are_bounded(deck: Seq<ResolvedDeckCard>)
    ensures
        deck_lines(deck).len() <= MAX_DECK_LINES + 2,
        deck.len() <= MAX_DECK_LINES ==> deck_lines(deck).len() == deck.len() + 1,
{
}

/// What screen recognition shows takes the place of the log's own offer, and nothing of the deck
/// or the logs changes the lines it gives.
pub proof fn recognised_offers_come_last(s: ObserverSnapshot, e: ExternalDraftModel, i: int)
    requires
        0 <= i < e.lines@.len(),
    ensures
        ({
            let lines = overlay_lines(s, Some(e));
            lines[lines.len() - e.lines@.len() + i] == e.lines@[i]@
        }),
{
}

} // verus!
