//! What is shown of a snapshot, a deck and an offer.
use crate::card_data::{CardCache, ResolutionModel, Timestamp};
use crate::client::{method_text, staleness_entry};
use crate::draft_view::{
    age_in_days, badge_basis, badge_detail_text, badge_score_text, card_badge, card_text,
    detection_lines, draft_key, or_dash, provider_text, rating_parts, rating_text, reason_text,
    redraft_capture_text, signed_text, slot_line, too_many_weapons, BadgeBasis, BadgeFacts,
    BadgeText, DetectionTexts, RatingText,
};
use crate::import_laws::class_name;
use crate::live::LogStaleness;
use crate::observer::AttachMethod;
use crate::offer_ocr::OfferDisplay;
use crate::overlay::{
    active_redraft, body_lines, current_model, deck_line_text, deck_lines, head_line,
    offer_item_text, offer_kind_text, overlay_title, picked_lines, popup_phase, recognised_text,
    redraft_status, retained_cards, staleness_text, stalled_line, stalled_lines, status_lines,
    unobserved_lines, unresolved_lines, unresolved_redraft, ExternalDraftModel, NativeOverlayModel,
};
use crate::popup::{deck_text, phase_text, DeckSummary};
use crate::ratings::ProviderMetadata;
use crate::recognition::{AggregatedDetection, RecommendationModel, RecommendationWithheldReason};
use crate::snapshot::{
    needs_history, ArenaDraftPhase, DeckCompleteness, DraftHistoryPartialReason, DraftHistoryStatus,
    ObserverSnapshot, OfferItem, OfferKind, RecognisedOffer, RedraftProgress, ResolvedDeckCard,
};
use crate::state::{opt_text, GameMode};
use crate::text::{contains_part, decimal, occurs_at, texts, trimmed};
use vstd::prelude::*;

verus! {

/// The name that a snapshot's hero is shown by.
pub open spec fn hero_name(s: ObserverSnapshot) -> Seq<char> {
    match s.hero_class {
        Some(c) => class_name(c),
        None => "Unknown hero"@,
    }
}

/// The first line begins with the hero. It then tells how many cards were observed of how many
/// there are to be; in a Redraft it tells the cards that stay, then the replacements that were
/// picked of those to pick.
pub proof fn first_lines_tell_hero_and_cards(s: ObserverSnapshot)
    ensures
        ({
            let line = head_line(s);
            let hero = hero_name(s);
            let at = hero.len() as int + 3;
            let seen = decimal(s.deck_state.observed_slots as nat);
            &&& occurs_at(line, hero, 0)
            &&& !unresolved_redraft(s) && !active_redraft(s) ==> {
                &&& occurs_at(line, seen, at)
                &&& s.deck_state.expected_slots matches Some(n) ==> line[at + seen.len()] == '/'
                    && occurs_at(line, decimal(n as nat), at + seen.len() + 1)
                &&& s.deck_state.expected_slots is None ==> line[at + seen.len()] == ' '
            }
            &&& !unresolved_redraft(s) && active_redraft(s) ==> {
                let kept = decimal(
                    (if s.deck_state.observed_slots < s.draft.redraft.pick_rounds_completed {
                        0int
                    } else {
                        s.deck_state.observed_slots - s.draft.redraft.pick_rounds_completed
                    }) as nat,
                );
                let picked = decimal(s.draft.redraft.pick_rounds_completed as nat);
                let next = at + kept.len() + " retained + "@.len();
                &&& occurs_at(line, kept, at)
                &&& occurs_at(line, picked, next)
                &&& s.draft.redraft.pick_rounds_required matches Some(n) ==> line[next + picked.len()]
                    == '/' && occurs_at(line, decimal(n as nat), next + picked.len() + 1)
            }
        }),
{
    reveal_strlit(" · ");
    reveal_strlit("/");
    reveal_strlit(" cards observed");
    reveal_strlit(" replacements");
    let line = head_line(s);
    let hero = hero_name(s);
    let at = hero.len() as int + 3;
    let seen = decimal(s.deck_state.observed_slots as nat);
    assert(line.subrange(0, hero.len() as int) =~= hero);
    if !unresolved_redraft(s) && !active_redraft(s) {
        assert(line.subrange(at, at + seen.len()) =~= seen);
        match s.deck_state.expected_slots {
            Some(n) => {
                let d = decimal(n as nat);
                assert(line.subrange(at + seen.len() + 1, at + seen.len() + 1 + d.len()) =~= d);
            },
            None => {},
        }
    }
    if !unresolved_redraft(s) && active_redraft(s) {
        let kept = decimal(retained_cards(s));
        let picked = decimal(s.draft.redraft.pick_rounds_completed as nat);
        let next = at + kept.len() + " retained + "@.len();
        assert(line.subrange(at, at + kept.len()) =~= kept);
        assert(line.subrange(next, next + picked.len()) =~= picked);
        match s.draft.redraft.pick_rounds_required {
            Some(n) => {
                let d = decimal(n as nat);
                assert(line.subrange(
                    next + picked.len() + 1,
                    next + picked.len() + 1 + d.len(),
                ) =~= d);
            },
            None => {},
        }
    }
}

/// A line of the deck begins with the name of a known card, or the id of one without a record or
/// with a bad id, and ends with the number of copies.
pub proof fn deck_lines_tell_card_and_copies(card: ResolvedDeckCard)
    ensures
        ({
            let line = deck_line_text(card);
            let n = decimal(card.count as nat);
            &&& occurs_at(line, n, line.len() - n.len())
            &&& card.resolution@ matches ResolutionModel::Resolved { card: m } ==> occurs_at(
                line,
                m.name,
                0,
            ) && line.len() == m.name.len() + 2 + n.len()
            &&& card.resolution@ matches ResolutionModel::MissingMetadata { card_id } ==> occurs_at(
                line,
                card_id,
                0,
            )
            &&& card.resolution@ matches ResolutionModel::InvalidCardId { card_id } ==> occurs_at(
                line,
                card_id,
                0,
            )
        }),
{
    reveal_strlit(" ×");
    let line = deck_line_text(card);
    let n = decimal(card.count as nat);
    assert(line.subrange(line.len() - n.len(), line.len() as int) =~= n);
    match card.resolution@ {
        ResolutionModel::Resolved { card: m } => {
            assert(line.subrange(0, m.name.len() as int) =~= m.name);
        },
        ResolutionModel::MissingMetadata { card_id } => {
            assert(line.subrange(0, card_id.len() as int) =~= card_id);
        },
        ResolutionModel::InvalidCardId { card_id } => {
            assert(line.subrange(0, card_id.len() as int) =~= card_id);
        },
        _ => {},
    }
}

/// The first twelve cards of a deck are listed, in the order of the deck; how many more there are
/// is told in one more line.
pub proof fn decks_are_listed_up_to_twelve(deck: Seq<ResolvedDeckCard>)
    ensures
        ({
            let lines = deck_lines(deck);
            let n = if deck.len() < 12 {
                deck.len() as int
            } else {
                12
            };
            &&& forall|i: int| 0 <= i < n ==> #[trigger] lines[i + 1] == deck_line_text(deck[i])
            &&& deck.len() <= 12 ==> lines.len() == n + 1
            &&& deck.len() > 12 ==> lines.len() == 14 && contains_part(
                lines[13],
                decimal((deck.len() - 12) as nat),
            )
        }),
{
    let lines = deck_lines(deck);
    if deck.len() > 12 {
        let d = decimal((deck.len() - 12) as nat);
        reveal_strlit("… ");
        assert(lines[13].subrange(2, 2 + d.len() as int) =~= d);
        assert(occurs_at(lines[13], d, 2));
    }
}

/// What is read from the screen is shown first; else the offer that is known, item by item; else
/// what was recognised; and only without an offer the deck, unless it is not settled or is empty.
pub proof fn offers_are_shown_before_the_deck(
    s: ObserverSnapshot,
    external: Option<ExternalDraftModel>,
)
    ensures
        ({
            let body = body_lines(s, external);
            let picked = if s.draft.selected is Some {
                1int
            } else {
                0
            };
            let offer = s.draft.current_offer;
            let seen = s.draft.offers@;
            &&& external matches Some(e) ==> body.len() == e.lines@.len() + 1 && forall|i: int|
                0 <= i < e.lines@.len() ==> body[i + 1] == #[trigger] e.lines@[i]@
            &&& external is None && offer is Some ==> {
                let items = offer->0.items@;
                &&& body.len() == 1 + items.len() + picked
                &&& forall|i: int|
                    0 <= i < items.len() ==> body[i + 1] == offer_item_text(#[trigger] items[i])
            }
            &&& external is None && offer is None && seen.len() > 0 ==> {
                &&& body.len() == 1 + seen.len() + picked
                &&& forall|i: int|
                    0 <= i < seen.len() ==> body[i + 1] == recognised_text(#[trigger] seen[i])
            }
            &&& external is None && offer is None && seen.len() == 0 && !unresolved_redraft(s)
                && s.deck@.len() > 0 ==> body == deck_lines(s.deck@)
            &&& external is None && offer is None && seen.len() == 0 && (unresolved_redraft(s)
                || s.deck@.len() == 0) ==> body.len() == 1
        }),
{
    let body = body_lines(s, external);
    if external is None && s.draft.current_offer is Some {
        let items = s.draft.current_offer->0.items@;
        assert forall|i: int| 0 <= i < items.len() implies body[i + 1] == offer_item_text(
            #[trigger] items[i],
        ) by {}
    }
    if external is Some {
        let e = external->0;
        assert forall|i: int| 0 <= i < e.lines@.len() implies body[i + 1] == #[trigger] e.lines@[i]@ by {}
    }
    if external is None && s.draft.current_offer is None && s.draft.offers@.len() > 0 {
        let seen = s.draft.offers@;
        assert forall|i: int| 0 <= i < seen.len() implies body[i + 1] == recognised_text(
            #[trigger] seen[i],
        ) by {}
    }
}

/// Every item of an offer is shown by its own id; what was recognised also by how sure it is.
pub proof fn offer_items_are_shown_by_their_id(item: OfferItem, seen: RecognisedOffer)
    ensures
        ({
            let line = offer_item_text(item);
            &&& item matches OfferItem::Card { card_id } ==> line == card_id@
            &&& item matches OfferItem::Hero { hero_id } ==> occurs_at(
                line,
                hero_id@,
                line.len() - hero_id@.len(),
            )
            &&& item matches OfferItem::HeroPower { power_id } ==> occurs_at(
                line,
                power_id@,
                line.len() - power_id@.len(),
            )
            &&& item matches OfferItem::Package { key_card_id, contents } ==> contains_part(
                line,
                key_card_id@,
            ) && contains_part(line, decimal(contents@.len()))
        }),
        occurs_at(recognised_text(seen), seen.card_id@, 0),
        contains_part(recognised_text(seen), decimal(seen.confidence_percent as nat)),
{
    let line = offer_item_text(item);
    match item {
        OfferItem::Card { card_id } => {},
        OfferItem::Hero { hero_id } => {
            let id = hero_id@;
            assert(line.subrange(line.len() - id.len(), line.len() as int) =~= id);
        },
        OfferItem::HeroPower { power_id } => {
            let id = power_id@;
            assert(line.subrange(line.len() - id.len(), line.len() as int) =~= id);
        },
        OfferItem::Package { key_card_id, contents } => {
            let id = key_card_id@;
            let d = decimal(contents@.len());
            let a = "Package: "@.len() as int;
            let b = a + id.len() + " (+"@.len();
            assert(line.subrange(a, a + id.len()) =~= id);
            assert(occurs_at(line, id, a));
            assert(line.subrange(b, b + d.len()) =~= d);
            assert(occurs_at(line, d, b));
        },
        OfferItem::Unknown { label } => {},
    }
    let t = recognised_text(seen);
    let id = seen.card_id@;
    let d = decimal(seen.confidence_percent as nat);
    let b = id.len() as int + " · "@.len();
    assert(t.subrange(0, id.len() as int) =~= id);
    assert(t.subrange(b, b + d.len()) =~= d);
    assert(occurs_at(t, d, b));
}

/// A Redraft under way tells the pick that is next: one more than were completed, of those there
/// are. It tells nothing where there is no Redraft.
pub proof fn redrafts_tell_the_next_pick(p: RedraftProgress)
    ensures
        redraft_status(p) is None <==> p.stage is Inactive,
        p.stage is PickingOffers && p.pick_progress_known && p.pick_rounds_completed < 255 ==> (
        p.pick_rounds_required matches Some(n) ==> {
            let line = redraft_status(p)->0;
            let next = decimal((p.pick_rounds_completed + 1) as nat);
            let all = decimal(n as nat);
            &&& contains_part(line, next)
            &&& occurs_at(line, all, line.len() - all.len())
            &&& line[line.len() - all.len() - 1] == '/'
        }),
        p.stage is AwaitingDiscardReview ==> (p.discard_count_required matches Some(n)
            ==> contains_part(redraft_status(p)->0, decimal(n as nat))),
        p.stage is ReviewingDiscards ==> contains_part(
            redraft_status(p)->0,
            decimal(p.discarded_card_ids@.len()),
        ),
{
    reveal_strlit("/");
    let line = redraft_status(p)->0;
    if p.stage is PickingOffers && p.pick_progress_known && p.pick_rounds_completed < 255
        && p.pick_rounds_required is Some {
        let next = decimal((p.pick_rounds_completed + 1) as nat);
        let all = decimal(p.pick_rounds_required->0 as nat);
        let a = "Redraft pick "@.len() as int;
        assert(line.subrange(a, a + next.len()) =~= next);
        assert(occurs_at(line, next, a));
        assert(line.subrange(line.len() - all.len(), line.len() as int) =~= all);
    }
    if p.stage is AwaitingDiscardReview && p.discard_count_required is Some {
        let d = decimal(p.discard_count_required->0 as nat);
        let a = "Redraft picks complete; choose "@.len() as int;
        assert(line.subrange(a, a + d.len()) =~= d);
        assert(occurs_at(line, d, a));
    }
    if p.stage is ReviewingDiscards {
        let d = decimal(p.discarded_card_ids@.len());
        let a = "Redraft review: "@.len() as int;
        assert(line.subrange(a, a + d.len()) =~= d);
        assert(occurs_at(line, d, a));
    }
}

/// Each phase of a draft is shown by its own name.
pub proof fn phases_are_shown_by_name(phase: ArenaDraftPhase)
    ensures
        phase_text(popup_phase(phase)) == "Draft"@ <==> phase is Drafting,
        phase_text(popup_phase(phase)) == "Redraft"@ <==> phase is Redrafting,
        phase_text(popup_phase(phase)) == "Active deck"@ <==> phase is ActiveDeck,
        phase_text(popup_phase(phase)) == "Rewards"@ <==> phase is Rewards,
        phase_text(popup_phase(phase)) == "Unknown"@ <==> phase is Unknown,
{
    reveal_strlit("Draft");
    reveal_strlit("Redraft");
    reveal_strlit("Active deck");
    reveal_strlit("Rewards");
    reveal_strlit("Unknown");
    assert("Draft"@.len() == 5 && "Redraft"@.len() == 7 && "Active deck"@.len() == 11
        && "Rewards"@.len() == 7 && "Unknown"@.len() == 7);
    assert("Redraft"@[2] == 'd' && "Rewards"@[2] == 'w' && "Unknown"@[2] == 'k');
}

/// The title names the game mode; stopped logs are told with the whole minutes since they
/// stopped, and only stopped ones.
pub proof fn titles_and_warnings_tell_the_state(mode: GameMode, staleness: LogStaleness)
    ensures
        ({
            let t = overlay_title(mode);
            let a = "Arena"@;
            &&& occurs_at(t, "ArenaNext · "@, 0)
            &&& mode is Arena ==> t.skip("ArenaNext · "@.len() as int) == "Arena"@
            &&& mode is Other ==> t.skip("ArenaNext · "@.len() as int) == "Hearthstone"@
            &&& mode is Unknown ==> t.skip("ArenaNext · "@.len() as int)
                == "Waiting for Hearthstone"@
        }),
        staleness matches LogStaleness::Stale { age_secs } ==> stalled_lines(staleness).len() == 1
            && contains_part(stalled_lines(staleness)[0], decimal((age_secs / 60) as nat)),
        !(staleness is Stale) ==> stalled_lines(staleness).len() == 0,
{
    let t = overlay_title(mode);
    let p = "ArenaNext · "@;
    assert(t.subrange(0, p.len() as int) =~= p);
    match mode {
        GameMode::Arena => assert(t.skip(p.len() as int) =~= "Arena"@),
        GameMode::Other => assert(t.skip(p.len() as int) =~= "Hearthstone"@),
        GameMode::Unknown => assert(t.skip(p.len() as int) =~= "Waiting for Hearthstone"@),
    }
    if staleness is Stale {
        let d = decimal((staleness->age_secs / 60) as nat);
        let line = stalled_line(staleness->age_secs);
        let a = "Hearthstone log activity stopped "@.len() as int;
        assert(line.subrange(a, a + d.len()) =~= d);
        assert(occurs_at(line, d, a));
    }
}

/// The status tells exactly what holds, line by line: a deck that was found anew, a pick number
/// that is not known in a draft, a Redraft that is not read from the screen, and a game.
pub proof fn statuses_tell_what_holds(s: ObserverSnapshot, external: bool)
    ensures
        ({
            let one = |b: bool|
                if b {
                    1int
                } else {
                    0
                };
            status_lines(s, external).len() == one(
                s.draft.history_status == (DraftHistoryStatus::Partial {
                    reason: DraftHistoryPartialReason::AuthoritativeResync,
                }),
            ) + one(!s.draft.exact_phase_progress && s.run.draft_phase is Drafting) + one(
                s.run.draft_phase is Redrafting && !external && !(s.draft.redraft.stage is Inactive),
            ) + one(s.game_active)
        }),
        s.game_active ==> status_lines(s, external).last() == "Game in progress"@,
        unobserved_lines(s).len() == (if s.deck_state.unobserved_slots matches Some(n) && n > 0 {
            1int
        } else {
            0
        }),
        s.deck_state.unobserved_slots matches Some(n) && n > 0 ==> occurs_at(
            unobserved_lines(s)[0],
            decimal(s.deck_state.unobserved_slots->0 as nat),
            0,
        ),
{
    match s.deck_state.unobserved_slots {
        Some(n) => {
            if n > 0 {
                let d = decimal(n as nat);
                assert(unobserved_lines(s)[0].subrange(0, d.len() as int) =~= d);
            }
        },
        None => {},
    }
}

/// Whether a snapshot shows an offer that can be read from the screen.
pub open spec fn offer_is_on_screen(s: ObserverSnapshot) -> bool {
    &&& s.mode is Arena
    &&& s.draft.current_offer is None
    &&& s.run.accepts_card_offers
    &&& s.run.draft_phase is Redrafting ==> s.draft.redraft.accepts_normal_draft_capture
}

/// An offer is read from the screen in an Arena draft that offers cards which are not known yet,
/// and in a Redraft only where it is read like a draft. It is told apart by the run, the phase and
/// the pick, as far as that is known.
pub proof fn offers_are_read_in_arena_drafts(s: ObserverSnapshot)
    ensures
        draft_key(s) is Some <==> offer_is_on_screen(s),
        draft_key(s) matches Some(key) ==> {
            &&& key.draft_deck_id == opt_text(s.run.draft_deck_id)
            &&& key.phase == s.run.draft_phase
            &&& key.phase_pick_count == s.draft.phase_pick_count
            &&& s.draft.exact_phase_progress ==> key.pick_number == s.draft.pick_number
            &&& !s.draft.exact_phase_progress ==> key.pick_number == 0
        },
{
}

/// A known card is shown by its name, then its id in brackets; any other by its id, unless it is
/// not revealed.
pub proof fn cards_are_shown_by_name_and_id(cards: CardCache, id: Seq<char>)
    ensures
        cards.resolution(id) matches ResolutionModel::Resolved { card } ==> {
            let t = card_text(cards, id);
            &&& occurs_at(t, card.name, 0)
            &&& occurs_at(t, card.id, card.name.len() as int + 2)
            &&& t.len() == card.name.len() + card.id.len() + 3
        },
        !(cards.resolution(id) is Resolved) && !(cards.resolution(id) is Unrevealed) ==> card_text(
            cards,
            id,
        ) == id,
{
    reveal_strlit(" (");
    reveal_strlit(")");
    if cards.resolution(id) is Resolved {
        let card = cards.resolution(id)->card;
        let t = card_text(cards, id);
        let at = card.name.len() as int + 2;
        assert(t.subrange(0, card.name.len() as int) =~= card.name);
        assert(t.subrange(at, at + card.id.len()) =~= card.id);
    }
}

/// A recommendation that is withheld is told with its numbers: what was expected before what was
/// seen, the place counted from one, and the frames that were seen of those needed.
pub proof fn withheld_recommendations_tell_their_numbers(
    reason: RecommendationWithheldReason,
    confidence: Seq<char>,
    required: Seq<char>,
)
    ensures
        ({
            let t = reason_text(RecommendationModel::Withheld { reason }, confidence, required);
            &&& reason matches RecommendationWithheldReason::ExpectedOfferCount { expected, actual }
                ==> occurs_at(t, decimal(expected as nat), "expected "@.len() as int) && occurs_at(
                t,
                decimal(actual as nat),
                t.len() - decimal(actual as nat).len(),
            )
            &&& reason matches RecommendationWithheldReason::MissingCandidate { slot } ==> occurs_at(
                t,
                decimal((slot + 1) as nat),
                "offer "@.len() as int,
            )
            &&& reason matches RecommendationWithheldReason::LowConfidence { slot, .. } ==> occurs_at(
                t,
                decimal((slot + 1) as nat),
                "offer "@.len() as int,
            ) && occurs_at(
                t,
                confidence,
                "offer "@.len() as int + decimal((slot + 1) as nat).len() + " confidence "@.len(),
            ) && occurs_at(t, required, t.len() - required.len() - 1)
            &&& reason matches RecommendationWithheldReason::InsufficientObservations {
                observed,
                required: needed,
            } ==> occurs_at(t, decimal(observed as nat), 0) && occurs_at(
                t,
                decimal(needed as nat),
                decimal(observed as nat).len() as int + 1,
            )
        }),
{
    reveal_strlit("/");
    reveal_strlit("%");
    let t = reason_text(RecommendationModel::Withheld { reason }, confidence, required);
    match reason {
        RecommendationWithheldReason::ExpectedOfferCount { expected, actual } => {
            let a = decimal(expected as nat);
            let b = decimal(actual as nat);
            let i = "expected "@.len() as int;
            assert(t.subrange(i, i + a.len()) =~= a);
            assert(t.subrange(t.len() - b.len(), t.len() as int) =~= b);
        },
        RecommendationWithheldReason::MissingCandidate { slot } => {
            let a = decimal((slot + 1) as nat);
            let i = "offer "@.len() as int;
            assert(t.subrange(i, i + a.len()) =~= a);
        },
        RecommendationWithheldReason::LowConfidence { slot, .. } => {
            let a = decimal((slot + 1) as nat);
            let i = "offer "@.len() as int;
            let j = i + a.len() + " confidence "@.len();
            assert(t.subrange(i, i + a.len()) =~= a);
            assert(t.subrange(j, j + confidence.len()) =~= confidence);
            assert(t.subrange(t.len() - required.len() - 1, t.len() - 1) =~= required);
        },
        RecommendationWithheldReason::InsufficientObservations { observed, required: needed } => {
            let a = decimal(observed as nat);
            let b = decimal(needed as nat);
            assert(t.subrange(0, a.len() as int) =~= a);
            assert(t.subrange(a.len() as int + 1, a.len() as int + 1 + b.len()) =~= b);
        },
        RecommendationWithheldReason::InvalidConfidenceThreshold => {},
    }
}

/// The age of ratings is told in whole days. Ratings are called stale exactly where they are more
/// than sixty days old.
pub proof fn old_ratings_are_called_stale(
    source: ProviderMetadata,
    stamp: Seq<char>,
    age_days: int,
    then: Timestamp,
    now: Timestamp,
)
    ensures
        ({
            let parts = rating_parts(source, stamp, age_days);
            let n = 2 + (if source.arena_season is Some {
                1int
            } else {
                0
            }) + (if source.data_version is Some {
                1int
            } else {
                0
            });
            &&& parts.len() == n + if age_days > 60 {
                1int
            } else {
                0
            }
            &&& parts[1] == stamp
            &&& age_days > 60 ==> contains_part(parts[n], decimal(age_days as nat))
        }),
        ({
            let day = 86_400_000_000_000int;
            let between = (now.seconds * 1_000_000_000 + now.nanoseconds) - (then.seconds
                * 1_000_000_000 + then.nanoseconds);
            let age = age_in_days(then, now);
            &&& between >= 0 ==> age * day <= between < (age + 1) * day
            &&& between < 0 ==> (age - 1) * day < between <= age * day
        }),
{
    let parts = rating_parts(source, stamp, age_days);
    if age_days > 60 {
        let d = decimal(age_days as nat);
        let line = parts.last();
        let a = "STALE ("@.len() as int;
        assert(line.subrange(a, a + d.len()) =~= d);
        assert(occurs_at(line, d, a));
    }
}

/// The known providers have short names of their own.
pub proof fn providers_have_short_names(provider: Seq<char>)
    ensures
        occurs_at(provider, "HearthArena"@, 0) ==> provider_text(provider) == "HA"@,
        occurs_at(provider, "HSReplay"@, 0) ==> provider_text(provider) == "HSR"@,
        occurs_at(provider, "Firestone"@, 0) ==> provider_text(provider) == "FS"@,
        provider_text(provider) == "?"@ ==> !occurs_at(provider, "HearthArena"@, 0) && !occurs_at(
            provider,
            "HSReplay"@,
            0,
        ) && !occurs_at(provider, "Firestone"@, 0),
{
    reveal_strlit("HearthArena");
    reveal_strlit("HSReplay");
    reveal_strlit("Firestone");
    reveal_strlit("HA");
    reveal_strlit("HSR");
    reveal_strlit("FS");
    reveal_strlit("?");
    if occurs_at(provider, "HearthArena"@, 0) {
        assert(provider.subrange(0, 11)[1] == provider[1]);
    }
    if occurs_at(provider, "HSReplay"@, 0) {
        assert(provider.subrange(0, 8)[1] == provider[1]);
    }
    if occurs_at(provider, "Firestone"@, 0) {
        assert(provider.subrange(0, 9)[0] == provider[0]);
        assert(provider.subrange(0, 9)[1] == provider[1]);
    }
    assert("HA"@.len() == 2 && "HSR"@.len() == 3 && "FS"@.len() == 2 && "?"@.len() == 1);
}

/// An adjustment is shown with its sign and its size.
pub proof fn adjustments_are_shown_with_their_sign(n: int)
    ensures
        n >= 0 ==> signed_text(n)[0] == '+' && signed_text(n).skip(1) == decimal(n as nat),
        n < 0 ==> signed_text(n)[0] == '-' && signed_text(n).skip(1) == decimal((-n) as nat),
{
    reveal_strlit("+");
    reveal_strlit("-");
    if n >= 0 {
        assert(signed_text(n).skip(1) =~= decimal(n as nat));
    } else {
        assert(signed_text(n).skip(1) =~= decimal((-n) as nat));
    }
}

/// A badge shows the score for the deck, where there is one, and no score where the deck is not
/// known in full or no ratings are at hand. Its detail begins with the rating of the card alone.
pub proof fn badges_show_the_score_for_the_deck(facts: BadgeFacts)
    ensures
        facts matches BadgeFacts::Scored { base, deck, modifier, .. } ==> badge_score_text(facts)
            == or_dash(deck) && occurs_at(
            badge_detail_text(facts),
            or_dash(base),
            "BASE "@.len() as int,
        ) && occurs_at(
            badge_detail_text(facts),
            modifier@,
            "BASE "@.len() as int + or_dash(base).len() + "  ·  MOD "@.len(),
        ),
        facts matches BadgeFacts::Paused { base } ==> badge_score_text(facts) == "—"@ && occurs_at(
            badge_detail_text(facts),
            or_dash(base),
            "BASE "@.len() as int,
        ),
        facts is Unrated ==> badge_score_text(facts) == "—"@,
{
    let t = badge_detail_text(facts);
    let i = "BASE "@.len() as int;
    match facts {
        BadgeFacts::Scored { base, deck, modifier, sources, too_many_weapons } => {
            let b = or_dash(base);
            let j = i + b.len() + "  ·  MOD "@.len();
            assert(t.subrange(i, i + b.len()) =~= b);
            assert(t.subrange(j, j + modifier@.len()) =~= modifier@);
        },
        BadgeFacts::Paused { base } => {
            let b = or_dash(base);
            assert(t.subrange(i, i + b.len()) =~= b);
        },
        BadgeFacts::Unrated => {},
    }
}

/// A place of an offer is shown by its number where nothing was recognised there; otherwise by the
/// card of its best candidate, called a candidate until the offer is recognised as a whole, and by
/// how sure that is.
pub proof fn places_are_shown_by_their_best_candidate(
    aggregate: AggregatedDetection,
    added: DetectionTexts,
    cards: CardCache,
    slot: int,
)
    requires
        0 <= slot < aggregate.detection.offers@.len(),
    ensures
        ({
            let c = aggregate.detection.offers@[slot].candidates@;
            let t = slot_line(aggregate, added, cards, slot);
            let lead = if aggregate.advice() is Ready {
                0int
            } else {
                "Candidate: "@.len() as int
            };
            &&& detection_lines(aggregate, added, cards)[slot] == t
            &&& c.len() == 0 ==> occurs_at(t, decimal((slot + 1) as nat), "Offer "@.len() as int)
            &&& c.len() > 0 ==> {
                let name = card_text(cards, c[0].card_id@);
                let sure = decimal(added.percents@[slot] as nat);
                &&& occurs_at(t, name, lead)
                &&& occurs_at(t, sure, lead + name.len() + " · "@.len())
                &&& !(aggregate.advice() is Ready) ==> occurs_at(t, "Candidate: "@, 0)
            }
        }),
        detection_lines(aggregate, added, cards).len() == aggregate.detection.offers@.len() + (
        if aggregate.advice() is Ready {
            0int
        } else {
            1
        }) + (if added.rating_line is Some {
            1int
        } else {
            0
        }),
{
    let c = aggregate.detection.offers@[slot].candidates@;
    let t = slot_line(aggregate, added, cards, slot);
    if c.len() == 0 {
        let d = decimal((slot + 1) as nat);
        let i = "Offer "@.len() as int;
        assert(t.subrange(i, i + d.len()) =~= d);
    } else {
        let lead = if aggregate.advice() is Ready {
            0int
        } else {
            "Candidate: "@.len() as int
        };
        let name = card_text(cards, c[0].card_id@);
        let sure = decimal(added.percents@[slot] as nat);
        let j = lead + name.len() + " · "@.len();
        assert(t.subrange(lead, lead + name.len()) =~= name);
        assert(t.subrange(j, j + sure.len()) =~= sure);
        if !(aggregate.advice() is Ready) {
            assert(t.subrange(0, lead) =~= "Candidate: "@);
        }
    }
}

/// Each kind of offer is called by its own words.
pub proof fn kinds_of_offers_are_told_apart(kind: OfferKind)
    ensures
        offer_kind_text(kind) == "Hero choice"@ <==> kind is Heroes,
        offer_kind_text(kind) == "Draft pick"@ <==> kind is Cards,
        offer_kind_text(kind) == "Redraft pick"@ <==> kind is RedraftPick,
        offer_kind_text(kind) == "Package choice"@ <==> kind is Package,
        offer_kind_text(kind) == "Arena choice"@ <==> kind is Unknown,
{
    reveal_strlit("Hero choice");
    reveal_strlit("Draft pick");
    reveal_strlit("Redraft pick");
    reveal_strlit("Package choice");
    reveal_strlit("Arena choice");
    assert("Hero choice"@.len() == 11 && "Draft pick"@.len() == 10 && "Redraft pick"@.len() == 12
        && "Package choice"@.len() == 14 && "Arena choice"@.len() == 12);
    assert("Redraft pick"@[0] == 'R' && "Arena choice"@[0] == 'A');
}

/// How the logs stand is told by a word, with the seconds since the last write where they are
/// stale. A change is told from before to after, and no change is not told.
pub proof fn changes_of_the_logs_are_told(before: LogStaleness, after: LogStaleness)
    ensures
        staleness_text(before) == "live"@ <==> before is Live,
        staleness_text(before) == "no-logs"@ <==> before is NoLogs,
        before matches LogStaleness::Stale { age_secs } ==> occurs_at(
            staleness_text(before),
            decimal(age_secs as nat),
            6,
        ) && occurs_at(staleness_text(before), "stale-"@, 0),
        staleness_entry(before, after) is None <==> before == after,
        staleness_entry(before, after) matches Some(t) ==> {
            let a = staleness_text(before);
            let b = staleness_text(after);
            let at = "log staleness "@.len() as int;
            &&& occurs_at(t, a, at)
            &&& occurs_at(t, b, t.len() - b.len())
            &&& t.len() == at + a.len() + 4 + b.len()
        },
{
    reveal_strlit("live");
    reveal_strlit("no-logs");
    reveal_strlit("stale-");
    reveal_strlit("s");
    reveal_strlit(" -> ");
    assert("live"@.len() == 4 && "no-logs"@.len() == 7);
    if let LogStaleness::Stale { age_secs } = before {
        let t = staleness_text(before);
        let d = decimal(age_secs as nat);
        assert(t.subrange(0, 6) =~= "stale-"@);
        assert(t.subrange(6, 6 + d.len() as int) =~= d);
        assert(t[0] == 's');
        assert("live"@[0] == 'l' && "no-logs"@[0] == 'n');
    }
    if let Some(t) = staleness_entry(before, after) {
        let a = staleness_text(before);
        let b = staleness_text(after);
        let at = "log staleness "@.len() as int;
        assert(t.subrange(at, at + a.len()) =~= a);
        assert(t.subrange(t.len() - b.len(), t.len() as int) =~= b);
    }
}

/// A deck is told by its hero, then the cards that were observed, then those that are expected
/// where that is known.
pub proof fn decks_are_told_by_hero_and_cards(deck: DeckSummary)
    ensures
        ({
            let t = deck_text(deck);
            let hero = match opt_text(deck.hero) {
                Some(h) => h,
                None => "Unknown hero"@,
            };
            let seen = decimal(deck.observed as nat);
            let at = hero.len() as int + 3;
            &&& occurs_at(t, hero, 0)
            &&& occurs_at(t, seen, at)
            &&& deck.expected matches Some(n) ==> t[at + seen.len()] == '/' && occurs_at(
                t,
                decimal(n as nat),
                at + seen.len() + 1,
            )
            &&& deck.expected is None ==> t[at + seen.len()] == ' '
        }),
{
    reveal_strlit(" · ");
    reveal_strlit("/");
    reveal_strlit(" observed");
    let t = deck_text(deck);
    let hero = match opt_text(deck.hero) {
        Some(h) => h,
        None => "Unknown hero"@,
    };
    let seen = decimal(deck.observed as nat);
    let at = hero.len() as int + 3;
    assert(t.subrange(0, hero.len() as int) =~= hero);
    assert(t.subrange(at, at + seen.len()) =~= seen);
    if let Some(n) = deck.expected {
        let d = decimal(n as nat);
        assert(t.subrange(at + seen.len() + 1, at + seen.len() + 1 + d.len()) =~= d);
    }
}

/// A rating is shown by its value, with its label behind it and the number of games in brackets at
/// the end, where these are known.
pub proof fn ratings_are_shown_with_their_games(rating: RatingText)
    ensures
        ({
            let t = rating_text(Some(rating));
            let v = rating.value@;
            &&& occurs_at(t, v, 3)
            &&& rating.label matches Some(label) ==> occurs_at(t, label@, 4 + v.len() as int)
            &&& rating.sample_size matches Some(n) ==> occurs_at(
                t,
                decimal(n as nat),
                t.len() - decimal(n as nat).len() - 1,
            )
        }),
{
    reveal_strlit(" · ");
    reveal_strlit(" ");
    reveal_strlit(")");
    let t = rating_text(Some(rating));
    let v = rating.value@;
    assert(t.subrange(3, 3 + v.len() as int) =~= v);
    if let Some(label) = rating.label {
        let l = label@;
        assert(t.subrange(4 + v.len() as int, 4 + v.len() as int + l.len()) =~= l);
    }
    if let Some(n) = rating.sample_size {
        let d = decimal(n as nat);
        assert(t.subrange(t.len() - d.len() - 1, t.len() - 1) =~= d);
    }
}

/// Reading the screen is held back in a Redraft exactly where its progress is not known, where its
/// offers are not read like those of a draft, and from the end of its picks on.
pub proof fn redrafts_hold_reading_back(s: ObserverSnapshot)
    ensures
        ({
            let r = s.draft.redraft;
            let open = r.stage is Inactive || r.stage is PickingOffers
                && r.accepts_normal_draft_capture;
            redraft_capture_text(s) is None <==> open && (s.run.draft_phase is Redrafting
                ==> r.pick_progress_known)
        }),
{
}

/// Each way to attach is called by its own name.
pub proof fn ways_to_attach_are_told_apart(way: AttachMethod)
    ensures
        method_text(way) == "FullReplay"@ <==> way is FullReplay,
        method_text(way) == "TailSnapshot"@ <==> way is TailSnapshot,
        method_text(way) == "TailRun"@ <==> way is TailRun,
        method_text(way) == "AwaitingSnapshot"@ <==> way is AwaitingSnapshot,
        method_text(way) == "VerifiedCheckpoint"@ <==> way is VerifiedCheckpoint,
{
    reveal_strlit("FullReplay");
    reveal_strlit("TailSnapshot");
    reveal_strlit("TailRun");
    reveal_strlit("AwaitingSnapshot");
    reveal_strlit("VerifiedCheckpoint");
    assert("FullReplay"@.len() == 10 && "TailSnapshot"@.len() == 12 && "TailRun"@.len() == 7
        && "AwaitingSnapshot"@.len() == 16 && "VerifiedCheckpoint"@.len() == 18);
}

/// A badge is based on nothing where there are no ratings, on the score for the deck where the deck
/// is complete, and on the rating alone where it is not.
pub proof fn badges_are_based_on_what_is_known(
    at_hand: bool,
    completeness: DeckCompleteness,
    r: BadgeBasis,
)
    requires
        call_ensures(badge_basis, (at_hand, completeness), r),
    ensures
        r is Nothing <==> !at_hand,
        r is Score <==> at_hand && completeness is Complete,
        r is Rating <==> at_hand && !(completeness is Complete),
{
}

/// A badge is headed by the name of its card, or by the id where the card is not known.
pub proof fn badges_are_headed_by_name(cards: CardCache, id: &str, facts: BadgeFacts, r: BadgeText)
    requires
        call_ensures(card_badge, (&cards, id, &facts), r),
    ensures
        cards.card(trimmed(id@)) matches Some(card) ==> r.caption@ == card.name,
        cards.card(trimmed(id@)) is None ==> r.caption@ == id@,
        r.detail@ == badge_detail_text(facts),
        r.score@ == badge_score_text(facts),
        !r.loading,
{
}

/// While the logs are stale the title says so, else it tells the mode; errors stand below all other
/// lines, that of the logs before that of the saved state.
pub proof fn errors_stand_below(
    s: ObserverSnapshot,
    external: Option<&ExternalDraftModel>,
    staleness: LogStaleness,
    log_error: Option<String>,
    saving_error: Option<String>,
    r: NativeOverlayModel,
)
    requires
        call_ensures(current_model, (&s, external, staleness, &log_error, &saving_error), r),
    ensures
        staleness is Stale ==> r.title@ == "ArenaNext · Hearthstone logs stalled"@,
        !(staleness is Stale) ==> r.title@ == overlay_title(s.mode),
        saving_error matches Some(e) ==> r.lines@.len() > 0 && r.lines@.last()@
            == "Local recovery checkpoint: "@ + e@,
        log_error matches Some(e) ==> {
            let at = r.lines@.len() - if saving_error is Some {
                2int
            } else {
                1
            };
            at >= 0 && r.lines@[at]@ == "Log observer: "@ + e@
        },
{
    let lines = texts(r.lines@);
    assert(lines.len() == r.lines@.len());
    if let Some(e) = saving_error {
        assert(lines.last() == "Local recovery checkpoint: "@ + e@);
        assert(lines[lines.len() - 1] == r.lines@[lines.len() - 1]@);
    }
    if let Some(e) = log_error {
        let at = r.lines@.len() - if saving_error is Some {
            2int
        } else {
            1
        };
        assert(lines[at] == "Log observer: "@ + e@);
        assert(lines[at] == r.lines@[at]@);
    }
}

/// While titles are read the display says whether they are looked for or confirmed, and at no other
/// time.
pub proof fn reading_is_told(display: OfferDisplay, r: Option<(&'static str, &'static str)>)
    requires
        call_ensures(OfferDisplay::status_text, (display,), r),
    ensures
        r is Some <==> display is Scanning || display is Confirming,
        r matches Some((_, t)) ==> (t@ == "SCANNING CARD TITLES"@ <==> display is Scanning),
{
    reveal_strlit("SCANNING CARD TITLES");
    reveal_strlit("CONFIRMING MATCH");
    assert("SCANNING CARD TITLES"@.len() == 20 && "CONFIRMING MATCH"@.len() == 16);
}

/// The card that was picked is named below its offer, and only then is anything said of a pick.
pub proof fn picks_are_named_below_their_offer(s: ObserverSnapshot)
    ensures
        ({
            let lines = body_lines(s, None);
            let shown = s.draft.current_offer is Some || s.draft.offers@.len() > 0;
            &&& shown ==> (opt_text(s.draft.selected) matches Some(id) ==> lines.last() == "Picked: "@
                + id)
            &&& opt_text(s.draft.selected) is None ==> picked_lines(s).len() == 0
        }),
{
}

/// The history of a draft is asked for exactly where the run of a deck with cards is known, and
/// either its phase is not or the state was taken from a listing.
pub proof fn histories_are_asked_for_where_they_are_missing(s: ObserverSnapshot)
    ensures
        s.run.draft_deck_id is None ==> !needs_history(s),
        s.deck_state.observed_slots == 0 ==> !needs_history(s),
        s.run.draft_deck_id is Some && s.deck_state.observed_slots > 0 && s.run.draft_phase is Unknown
            ==> needs_history(s),
        s.run.draft_deck_id is Some && s.deck_state.observed_slots > 0 && s.run.state_origin
            is AuthoritativeResync ==> needs_history(s),
        needs_history(s) && !(s.run.draft_phase is Unknown) ==> s.run.state_origin
            is AuthoritativeResync,
{
}

/// A Redraft whose discards are not known is told with its number of picks, and only such a one is.
pub proof fn unresolved_redrafts_are_told(s: ObserverSnapshot)
    ensures
        unresolved_lines(s).len() > 0 <==> unresolved_redraft(s),
        unresolved_redraft(s) ==> occurs_at(
            unresolved_lines(s)[0],
            decimal(s.draft.redraft.pick_rounds_completed as nat),
            0,
        ),
{
    let n = decimal(s.draft.redraft.pick_rounds_completed as nat);
    if unresolved_redraft(s) {
        assert(unresolved_lines(s)[0].subrange(0, n.len() as int) =~= n);
    }
}

} // verus!
