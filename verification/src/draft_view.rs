//! What is shown of an offer that the logs do not tell: which offer it is, what is said while it is
//! read, and the lines and badges for its cards.
//!
//! Numbers with a fraction come in as texts; everything else about the wording is decided here.
use crate::card_data::{CardCache, CardResolution, ResolutionModel, Timestamp};
use crate::imports::{join_texts, joined};
use crate::live::nanoseconds_between;
use crate::overlay::{count_or, ExternalDraftModel};
use crate::ratings::ProviderMetadata;
use crate::recognition::{
    AggregatedDetection, OfferRecommendation, RecommendationModel, RecommendationWithheldReason,
};
use crate::scoring::{AdjustmentKind, OfferScore, ScoreAdjustment};
use crate::snapshot::{ArenaDraftPhase, DeckCompleteness, ObserverSnapshot, RedraftStage};
use crate::state::{opt_text, GameMode};
use crate::text::{self, decimal, occurs_at, texts};
use vstd::prelude::*;

verus! {

/// Ratings older than this many days are called stale.
pub const STALE_RATING_AFTER_DAYS: i64 = 60;

/// Tells one offer from the next. A pick makes a new key, so that what was seen of different
/// offers is never brought together.
#[derive(Debug, PartialEq, Eq)]
pub struct DraftKey {
    pub draft_deck_id: Option<String>,
    pub phase: ArenaDraftPhase,
    pub pick_number: u8,
    pub phase_pick_count: u8,
}

/// The model of a key.
pub struct KeyModel {
    pub draft_deck_id: Option<Seq<char>>,
    pub phase: ArenaDraftPhase,
    pub pick_number: u8,
    pub phase_pick_count: u8,
}

impl View for DraftKey {
    type V = KeyModel;

    open spec fn view(&self) -> KeyModel {
        KeyModel {
            draft_deck_id: opt_text(self.draft_deck_id),
            phase: self.phase,
            pick_number: self.pick_number,
            phase_pick_count: self.phase_pick_count,
        }
    }
}

/// The model of an optional key.
pub open spec fn key_model(key: Option<DraftKey>) -> Option<KeyModel> {
    match key {
        Some(key) => Some(key@),
        None => None,
    }
}

pub(crate) fn copy_text(s: &Option<String>) -> (r: Option<String>)
    ensures
        opt_text(r) == opt_text(*s),
{
    match s {
        Some(s) => Some(text::copy(s.as_str())),
        None => None,
    }
}

pub(crate) fn same_text(a: &Option<String>, b: &Option<String>) -> (r: bool)
    ensures
        r == (opt_text(*a) == opt_text(*b)),
{
    match (a, b) {
        (Some(a), Some(b)) => text::str_eq(a.as_str(), b.as_str()),
        (None, None) => true,
        _ => false,
    }
}

impl DraftKey {
    /// Whether two keys are of the same offer.
    pub fn same_as(&self, other: &DraftKey) -> (r: bool)
        ensures
            r == (self@ == other@),
    {
        same_text(&self.draft_deck_id, &other.draft_deck_id) && self.phase == other.phase
            && self.pick_number == other.pick_number && self.phase_pick_count
            == other.phase_pick_count
    }
}

/// The number of the pick, or none where it is not known.
pub open spec fn visible_pick(s: ObserverSnapshot) -> u8 {
    if s.draft.exact_phase_progress {
        s.draft.pick_number
    } else {
        0
    }
}

/// The number of the pick. None stands for an unknown one and is never turned into the first.
pub fn visible_draft_pick_number(snapshot: &ObserverSnapshot) -> (r: u8)
    ensures
        r == visible_pick(*snapshot),
{
    if snapshot.draft.exact_phase_progress {
        snapshot.draft.pick_number
    } else {
        0
    }
}

/// The offer that the screen shows and the logs do not tell.
pub open spec fn draft_key(s: ObserverSnapshot) -> Option<KeyModel> {
    if s.mode != GameMode::Arena || s.draft.current_offer is Some || !s.run.accepts_card_offers || (
    s.run.draft_phase == ArenaDraftPhase::Redrafting
        && !s.draft.redraft.accepts_normal_draft_capture) {
        None
    } else {
        Some(
            KeyModel {
                draft_deck_id: opt_text(s.run.draft_deck_id),
                phase: s.run.draft_phase,
                pick_number: visible_pick(s),
                phase_pick_count: s.draft.phase_pick_count,
            },
        )
    }
}

/// The offer that the screen shows and the logs do not tell. An unknown number of the pick does
/// not keep a draft from being read; a Redraft is read only where its picks are known to go on.
pub fn unresolved_draft_key(snapshot: &ObserverSnapshot) -> (r: Option<DraftKey>)
    ensures
        key_model(r) == draft_key(*snapshot),
{
    if snapshot.mode != GameMode::Arena || snapshot.draft.current_offer.is_some() {
        return None;
    }
    if !snapshot.run.accepts_card_offers {
        return None;
    }
    if snapshot.run.draft_phase == ArenaDraftPhase::Redrafting
        && !snapshot.draft.redraft.accepts_normal_draft_capture {
        return None;
    }
    Some(
        DraftKey {
            draft_deck_id: copy_text(&snapshot.run.draft_deck_id),
            phase: snapshot.run.draft_phase,
            pick_number: visible_draft_pick_number(snapshot),
            phase_pick_count: snapshot.draft.phase_pick_count,
        },
    )
}

/// A pick makes a new offer: snapshots that differ in the number of picks have different keys.
pub proof fn picks_make_new_offers(a: ObserverSnapshot, b: ObserverSnapshot)
    requires
        draft_key(a) is Some,
        draft_key(b) is Some,
        a.draft.phase_pick_count != b.draft.phase_pick_count,
    ensures
        draft_key(a) != draft_key(b),
{
}

/// Why the screen is not read during a Redraft.
pub open spec fn redraft_capture_text(s: ObserverSnapshot) -> Option<Seq<char>> {
    let redraft = s.draft.redraft;
    if s.run.draft_phase == ArenaDraftPhase::Redrafting && !redraft.pick_progress_known {
        Some(
            "Redraft current deck was resynced, but pick progress is unknown; direct-window matching is withheld."@,
        )
    } else {
        match redraft.stage {
            RedraftStage::Inactive => None,
            RedraftStage::PickingOffers => if redraft.accepts_normal_draft_capture {
                None
            } else {
                Some(
                    "Redraft detected, but the selected Arena rules declare no Redraft pick/discard contract; direct-window matching is withheld."@,
                )
            },
            RedraftStage::AwaitingDiscardReview => Some(
                "Redraft pick rounds complete; choose "@ + count_or(
                    redraft.discard_count_required,
                    "the required"@,
                ) + " cards to discard. Deck-review detection is not calibrated."@,
            ),
            RedraftStage::ReviewingDiscards => Some(
                "Redraft deck review: "@ + decimal(redraft.discarded_card_ids@.len())
                    + " discard selections observed; "@ + count_or(
                    redraft.discard_count_required,
                    "count unknown"@,
                ) + " required. This is not a draft offer."@,
            ),
            RedraftStage::Complete => Some(
                "Redraft discard review submitted; waiting for an authoritative deck update."@,
            ),
        }
    }
}

/// Why the screen is not read during a Redraft. The cards that are given up at its end are a review
/// of the deck and no offer.
pub fn redraft_capture_status(snapshot: &ObserverSnapshot) -> (r: Option<String>)
    ensures
        opt_text(r) == redraft_capture_text(*snapshot),
{
    let redraft = &snapshot.draft.redraft;
    if snapshot.run.draft_phase == ArenaDraftPhase::Redrafting && !redraft.pick_progress_known {
        return Some(
            text::copy(
                "Redraft current deck was resynced, but pick progress is unknown; direct-window matching is withheld.",
            ),
        );
    }
    match redraft.stage {
        RedraftStage::Inactive => None,
        RedraftStage::PickingOffers => {
            if redraft.accepts_normal_draft_capture {
                None
            } else {
                Some(
                    text::copy(
                        "Redraft detected, but the selected Arena rules declare no Redraft pick/discard contract; direct-window matching is withheld.",
                    ),
                )
            }
        },
        RedraftStage::AwaitingDiscardReview => {
            let mut out = text::copy("Redraft pick rounds complete; choose ");
            out.append(
                crate::overlay::count_or_words(
                    redraft.discard_count_required,
                    "the required",
                ).as_str(),
            );
            out.append(" cards to discard. Deck-review detection is not calibrated.");
            Some(out)
        },
        RedraftStage::ReviewingDiscards => {
            let mut out = text::copy("Redraft deck review: ");
            text::push_decimal(&mut out, redraft.discarded_card_ids.len() as u64);
            out.append(" discard selections observed; ");
            out.append(
                crate::overlay::count_or_words(
                    redraft.discard_count_required,
                    "count unknown",
                ).as_str(),
            );
            out.append(" required. This is not a draft offer.");
            Some(out)
        },
        RedraftStage::Complete => Some(
            text::copy(
                "Redraft discard review submitted; waiting for an authoritative deck update.",
            ),
        ),
    }
}

/// Whether a model shows one line.
pub open spec fn shows_line(m: ExternalDraftModel, pick_number: u8, line: Seq<char>) -> bool {
    m.pick_number == pick_number && texts(m.lines@) == seq![line]
}

/// A model that shows one line.
pub fn draft_status(pick_number: u8, line: String) -> (r: ExternalDraftModel)
    ensures
        shows_line(r, pick_number, line@),
{
    let mut lines: Vec<String> = Vec::new();
    lines.push(line);
    assert(texts(lines@) =~= seq![line@]);
    ExternalDraftModel { pick_number, lines }
}

/// What a card is called.
pub open spec fn card_text(cards: CardCache, card_id: Seq<char>) -> Seq<char> {
    match cards.resolution(card_id) {
        ResolutionModel::Resolved { card } => card.name + " ("@ + card.id + ")"@,
        ResolutionModel::Unrevealed => "Unrevealed card"@,
        _ => card_id,
    }
}

/// What a card is called.
pub fn display_card(cards: &CardCache, card_id: &str) -> (r: String)
    requires
        cards.wf(),
    ensures
        r@ == card_text(*cards, card_id@),
{
    match cards.resolve(card_id) {
        CardResolution::Resolved { card } => {
            let mut out = text::copy(card.name.as_str());
            out.append(" (");
            out.append(card.id.as_str());
            out.append(")");
            out
        },
        CardResolution::Unrevealed => text::copy("Unrevealed card"),
        CardResolution::NonCardEntity { .. } => text::copy(card_id),
        CardResolution::MissingMetadata { .. } => text::copy(card_id),
        CardResolution::InvalidCardId { .. } => text::copy(card_id),
    }
}

/// Why a recommendation is withheld. The two percentages are given as texts.
pub open spec fn reason_text(
    recommendation: RecommendationModel,
    confidence: Seq<char>,
    required: Seq<char>,
) -> Seq<char> {
    match recommendation {
        RecommendationModel::Ready { .. } => "ready"@,
        RecommendationModel::Withheld { reason } => match reason {
            RecommendationWithheldReason::ExpectedOfferCount { expected, actual } => "expected "@
                + decimal(expected as nat) + " offer items, observed "@ + decimal(actual as nat),
            RecommendationWithheldReason::MissingCandidate { slot } => "offer "@ + decimal(
                (slot + 1) as nat,
            ) + " has no candidate"@,
            RecommendationWithheldReason::LowConfidence { slot, .. } => "offer "@ + decimal(
                (slot + 1) as nat,
            ) + " confidence "@ + confidence + "% is below "@ + required + "%"@,
            RecommendationWithheldReason::InsufficientObservations {
                observed,
                required,
            } => decimal(observed as nat) + "/"@ + decimal(required as nat) + " stable frames"@,
            RecommendationWithheldReason::InvalidConfidenceThreshold => {
                "invalid confidence threshold"@
            },
        },
    }
}

/// The place that a reason names, if it names one.
pub open spec fn reason_slot(recommendation: OfferRecommendation) -> Option<usize> {
    match recommendation {
        OfferRecommendation::Withheld {
            reason: RecommendationWithheldReason::MissingCandidate { slot },
        } => Some(slot),
        OfferRecommendation::Withheld {
            reason: RecommendationWithheldReason::LowConfidence { slot, .. },
        } => Some(slot),
        _ => None,
    }
}

/// Why a recommendation is withheld. The two percentages are given as texts.
pub fn recommendation_reason(
    recommendation: &OfferRecommendation,
    confidence: &str,
    required: &str,
) -> (r: String)
    requires
        reason_slot(*recommendation) matches Some(slot) ==> slot < usize::MAX,
    ensures
        r@ == reason_text(recommendation@, confidence@, required@),
{
    let reason = match recommendation {
        OfferRecommendation::Ready { .. } => return text::copy("ready"),
        OfferRecommendation::Withheld { reason } => *reason,
    };
    match reason {
        RecommendationWithheldReason::ExpectedOfferCount { expected, actual } => {
            let mut out = text::copy("expected ");
            text::push_decimal(&mut out, expected as u64);
            out.append(" offer items, observed ");
            text::push_decimal(&mut out, actual as u64);
            out
        },
        RecommendationWithheldReason::MissingCandidate { slot } => {
            let mut out = text::copy("offer ");
            text::push_decimal(&mut out, (slot + 1) as u64);
            out.append(" has no candidate");
            out
        },
        RecommendationWithheldReason::LowConfidence { slot, .. } => {
            let mut out = text::copy("offer ");
            text::push_decimal(&mut out, (slot + 1) as u64);
            out.append(" confidence ");
            out.append(confidence);
            out.append("% is below ");
            out.append(required);
            out.append("%");
            out
        },
        RecommendationWithheldReason::InsufficientObservations { observed, required } => {
            let mut out = text::decimal_text(observed as u64);
            out.append("/");
            text::push_decimal(&mut out, required as u64);
            out.append(" stable frames");
            out
        },
        RecommendationWithheldReason::InvalidConfidenceThreshold => text::copy(
            "invalid confidence threshold",
        ),
    }
}

/// The whole days from one moment to another, without a part of a day.
pub open spec fn age_in_days(then: Timestamp, now: Timestamp) -> int {
    let between = nanoseconds_between(then, now);
    if between >= 0 {
        between / 86_400_000_000_000
    } else {
        -((-between) / 86_400_000_000_000)
    }
}

fn days_since(then: Timestamp, now: Timestamp) -> (r: i64)
    ensures
        r == age_in_days(then, now),
{
    let seconds: i128 = now.seconds as i128 - then.seconds as i128;
    let between: i128 = seconds * 1_000_000_000 + (now.nanoseconds as i128
        - then.nanoseconds as i128);
    let days: i128 = if between >= 0 {
        between / 86_400_000_000_000
    } else {
        0 - ((0 - between) / 86_400_000_000_000)
    };
    days as i64
}

/// The text of a moment in universal time in the form of RFC 3339, as `chrono` writes it; `None`
/// for a moment that it cannot represent.
pub uninterp spec fn rfc3339_of(seconds: i64, nanoseconds: u32) -> Option<Seq<char>>;

/// Runs `chrono::DateTime::from_timestamp` and `to_rfc3339`. Claimed: the result depends on the
/// seconds and the nanoseconds alone.
#[verifier::external_body]
fn rfc3339_text(seconds: i64, nanoseconds: u32) -> (r: Option<String>)
    ensures
        opt_text(r) == rfc3339_of(seconds, nanoseconds),
{
    Some(chrono::DateTime::from_timestamp(seconds, nanoseconds)?.to_rfc3339())
}

/// The parts of the line on where ratings come from.
pub open spec fn rating_parts(source: ProviderMetadata, stamp: Seq<char>, age_days: int) -> Seq<
    Seq<char>,
> {
    seq!["Ratings: "@ + source.provider@, stamp] + (match source.arena_season {
        Some(season) => seq!["season "@ + season@],
        None => Seq::empty(),
    }) + (match source.data_version {
        Some(version) => seq!["v"@ + version@],
        None => Seq::empty(),
    }) + if age_days > STALE_RATING_AFTER_DAYS {
        seq!["STALE ("@ + decimal(age_days as nat) + " days old)"@]
    } else {
        Seq::empty()
    }
}

fn push_text(parts: &mut Vec<String>, part: String)
    ensures
        texts(final(parts)@) == texts(old(parts)@).push(part@),
{
    parts.push(part);
    assert(texts(parts@) =~= texts(old(parts)@).push(part@));
}

/// The line on where ratings come from, with their moment as a text and their age.
pub fn rating_line(source: &ProviderMetadata, stamp: &str, age_days: i64) -> (r: String)
    ensures
        r@ == joined(rating_parts(*source, stamp@, age_days as int), " · "@),
{
    let mut parts: Vec<String> = Vec::new();
    assert(texts(parts@) =~= Seq::<Seq<char>>::empty());
    let mut first = text::copy("Ratings: ");
    first.append(source.provider.as_str());
    push_text(&mut parts, first);
    push_text(&mut parts, text::copy(stamp));
    match &source.arena_season {
        Some(season) => {
            let mut part = text::copy("season ");
            part.append(season.as_str());
            push_text(&mut parts, part);
        },
        None => {},
    }
    match &source.data_version {
        Some(version) => {
            let mut part = text::copy("v");
            part.append(version.as_str());
            push_text(&mut parts, part);
        },
        None => {},
    }
    if age_days > STALE_RATING_AFTER_DAYS {
        let mut part = text::copy("STALE (");
        text::push_decimal(&mut part, age_days as u64);
        part.append(" days old)");
        push_text(&mut parts, part);
    }
    assert(texts(parts@) =~= rating_parts(*source, stamp@, age_days as int));
    join_texts(&parts, " · ")
}

/// The line on where ratings come from. There is none for a moment that cannot be written.
pub fn rating_metadata_line(source: &ProviderMetadata, now: Timestamp) -> (r: Option<String>)
    ensures
        match rfc3339_of(source.data_timestamp.seconds, source.data_timestamp.nanoseconds) {
            Some(stamp) => r matches Some(line) && line@ == joined(
                rating_parts(*source, stamp, age_in_days(source.data_timestamp, now)),
                " · "@,
            ),
            None => r is None,
        },
{
    match rfc3339_text(source.data_timestamp.seconds, source.data_timestamp.nanoseconds) {
        None => None,
        Some(stamp) => Some(
            rating_line(source, stamp.as_str(), days_since(source.data_timestamp, now)),
        ),
    }
}

/// A rating as it is shown. The value is given as a text.
#[derive(Debug, PartialEq, Eq)]
pub struct RatingText {
    pub value: String,
    pub label: Option<String>,
    pub sample_size: Option<u64>,
}

/// What is said of a card's rating, where ratings are at hand.
pub open spec fn rating_text(rating: Option<RatingText>) -> Seq<char> {
    match rating {
        None => " · No rating"@,
        Some(rating) => " · "@ + rating.value@ + (match rating.label {
            Some(label) => " "@ + label@,
            None => Seq::empty(),
        }) + match rating.sample_size {
            Some(n) => " (n="@ + decimal(n as nat) + ")"@,
            None => Seq::empty(),
        },
    }
}

fn push_rating(out: &mut String, rating: &Option<RatingText>)
    ensures
        final(out)@ == old(out)@ + rating_text(*rating),
{
    match rating {
        None => {
            out.append(" · No rating");
        },
        Some(rating) => {
            out.append(" · ");
            out.append(rating.value.as_str());
            match &rating.label {
                Some(label) => {
                    out.append(" ");
                    out.append(label.as_str());
                },
                None => {},
            }
            match rating.sample_size {
                Some(n) => {
                    out.append(" (n=");
                    text::push_decimal(out, n);
                    out.append(")");
                },
                None => {},
            }
        },
    }
    assert(out@ =~= old(out)@ + rating_text(*rating));
}

/// What the caller adds to what frames amount to: percentages and ratings as texts.
pub struct DetectionTexts {
    /// The confidence of each first candidate in percent.
    pub percents: Vec<u8>,
    /// The ratings of the first candidates, where ratings are at hand.
    pub ratings: Option<Vec<Option<RatingText>>>,
    /// The confidence that was too low, and the one that was asked for, in percent.
    pub low_confidence: String,
    pub required_confidence: String,
    /// The line on where ratings come from, where ratings are at hand.
    pub rating_line: Option<String>,
}

/// The line for one place of an offer.
pub open spec fn slot_line(
    aggregate: AggregatedDetection,
    added: DetectionTexts,
    cards: CardCache,
    slot: int,
) -> Seq<char> {
    let candidates = aggregate.detection.offers@[slot].candidates@;
    if candidates.len() == 0 {
        "Offer "@ + decimal((slot + 1) as nat) + ": unrecognized"@
    } else {
        (if aggregate.advice() is Ready {
            Seq::empty()
        } else {
            "Candidate: "@
        }) + card_text(cards, candidates[0].card_id@) + " · "@ + decimal(
            added.percents@[slot] as nat,
        ) + "%"@ + match added.ratings {
            Some(ratings) => rating_text(ratings@[slot]),
            None => Seq::empty(),
        }
    }
}

/// The lines for what frames amount to.
pub open spec fn detection_lines(
    aggregate: AggregatedDetection,
    added: DetectionTexts,
    cards: CardCache,
) -> Seq<Seq<char>> {
    Seq::new(
        aggregate.detection.offers@.len(),
        |slot: int| slot_line(aggregate, added, cards, slot),
    ) + (if aggregate.advice() is Ready {
        Seq::empty()
    } else {
        seq![
            "Recognition withheld: "@ + reason_text(
                aggregate.advice(),
                added.low_confidence@,
                added.required_confidence@,
            ),
        ]
    }) + match added.rating_line {
        Some(line) => seq![line@],
        None => Seq::empty(),
    }
}

fn render_slot(
    aggregate: &AggregatedDetection,
    added: &DetectionTexts,
    cards: &CardCache,
    ready: bool,
    slot: usize,
) -> (r: String)
    requires
        cards.wf(),
        slot < aggregate.detection.offers@.len(),
        added.percents@.len() == aggregate.detection.offers@.len(),
        added.ratings matches Some(ratings) ==> ratings@.len()
            == aggregate.detection.offers@.len(),
        ready == (aggregate.advice() is Ready),
    ensures
        r@ == slot_line(*aggregate, *added, *cards, slot as int),
{
    let offers = &aggregate.detection.offers;
    let offer = &offers[slot];
    if offer.candidates.len() == 0 {
        let mut out = text::copy("Offer ");
        assert(offers@.len() == offers.len());
        text::push_decimal(&mut out, (slot + 1) as u64);
        out.append(": unrecognized");
        return out;
    }
    let mut out = String::new();
    if !ready {
        out.append("Candidate: ");
    }
    out.append(display_card(cards, offer.candidates[0].card_id.as_str()).as_str());
    out.append(" · ");
    text::push_decimal(&mut out, added.percents[slot] as u64);
    out.append("%");
    match &added.ratings {
        Some(ratings) => {
            push_rating(&mut out, &ratings[slot]);
        },
        None => {},
    }
    assert(out@ =~= slot_line(*aggregate, *added, *cards, slot as int));
    out
}

/// What is shown of what frames amount to.
pub fn render_detection(
    snapshot: &ObserverSnapshot,
    aggregate: &AggregatedDetection,
    added: &DetectionTexts,
    cards: &CardCache,
) -> (r: ExternalDraftModel)
    requires
        cards.wf(),
        added.percents@.len() == aggregate.detection.offers@.len(),
        added.ratings matches Some(ratings) ==> ratings@.len()
            == aggregate.detection.offers@.len(),
    ensures
        r.pick_number == visible_pick(*snapshot),
        texts(r.lines@) == detection_lines(*aggregate, *added, *cards),
{
    let recommendation = aggregate.recommendation();
    let ready = match &recommendation {
        OfferRecommendation::Ready { .. } => true,
        OfferRecommendation::Withheld { .. } => false,
    };
    let ghost n = aggregate.detection.offers@.len();
    let mut lines: Vec<String> = Vec::new();
    let mut slot: usize = 0;
    while slot < aggregate.detection.offers.len()
        invariant
            slot <= aggregate.detection.offers@.len(),
            cards.wf(),
            added.percents@.len() == aggregate.detection.offers@.len(),
            added.ratings matches Some(ratings) ==> ratings@.len()
                == aggregate.detection.offers@.len(),
            ready == (aggregate.advice() is Ready),
            texts(lines@) =~= Seq::new(
                slot as nat,
                |k: int| slot_line(*aggregate, *added, *cards, k),
            ),
        decreases aggregate.detection.offers.len() - slot,
    {
        let line = render_slot(aggregate, added, cards, ready, slot);
        push_text(&mut lines, line);
        slot = slot + 1;
    }
    if !ready {
        let mut line = text::copy("Recognition withheld: ");
        proof {
            reasons_name_places(*aggregate);
        }
        line.append(
            recommendation_reason(
                &recommendation,
                added.low_confidence.as_str(),
                added.required_confidence.as_str(),
            ).as_str(),
        );
        push_text(&mut lines, line);
    }
    match &added.rating_line {
        Some(line) => {
            push_text(&mut lines, text::copy(line.as_str()));
        },
        None => {},
    }
    assert(texts(lines@) =~= detection_lines(*aggregate, *added, *cards));
    ExternalDraftModel { pick_number: visible_draft_pick_number(snapshot), lines }
}

/// The place that the model of a recommendation names.
spec fn model_slot(m: RecommendationModel) -> Option<usize> {
    match m {
        RecommendationModel::Withheld {
            reason: RecommendationWithheldReason::MissingCandidate { slot },
        } => Some(slot),
        RecommendationModel::Withheld {
            reason: RecommendationWithheldReason::LowConfidence { slot, .. },
        } => Some(slot),
        _ => None,
    }
}

proof fn reasons_name_places(aggregate: AggregatedDetection)
    ensures
        model_slot(aggregate.advice()) matches Some(slot) ==> slot < usize::MAX,
{
    let detection = aggregate.detection;
    let n = detection.offers@.len() as int;
    if detection.offers@.len() == detection.expected_offer_count {
        faults_name_places(detection.offers@, detection.minimum_confidence, n);
    }
}

proof fn faults_name_places(
    offers: Seq<crate::recognition::DetectedOffer>,
    minimum: crate::single::Single,
    n: int,
)
    requires
        0 <= n <= usize::MAX,
    ensures
        match crate::recognition::slots_fault(offers, minimum, n) {
            Some(RecommendationWithheldReason::MissingCandidate { slot }) => slot < n,
            Some(RecommendationWithheldReason::LowConfidence { slot, .. }) => slot < n,
            Some(_) => true,
            None => true,
        },
    decreases n,
{
    if n > 0 {
        faults_name_places(offers, minimum, n - 1);
    }
}

/// A provider's short name.
pub open spec fn provider_text(provider: Seq<char>) -> Seq<char> {
    if occurs_at(provider, "HearthArena"@, 0) {
        "HA"@
    } else if occurs_at(provider, "HSReplay"@, 0) {
        "HSR"@
    } else if occurs_at(provider, "Firestone"@, 0) {
        "FS"@
    } else {
        "?"@
    }
}

/// A provider's short name.
pub fn short_provider_label(provider: &str) -> (r: &'static str)
    ensures
        r@ == provider_text(provider@),
{
    if text::str_starts_with(provider, "HearthArena") {
        "HA"
    } else if text::str_starts_with(provider, "HSReplay") {
        "HSR"
    } else if text::str_starts_with(provider, "Firestone") {
        "FS"
    } else {
        "?"
    }
}

/// What a badge tells of a card. Numbers are given as texts.
pub enum BadgeFacts {
    /// The deck is known, so that the card is scored for it.
    Scored {
        base: Option<String>,
        deck: Option<String>,
        modifier: String,
        /// The provider and the value of each source.
        sources: Vec<(String, String)>,
        too_many_weapons: bool,
    },
    /// The deck is not known in full.
    Paused { base: Option<String> },
    /// No ratings are at hand.
    Unrated,
}

/// A number, or a dash where there is none.
pub open spec fn or_dash(value: Option<String>) -> Seq<char> {
    match value {
        Some(value) => value@,
        None => "—"@,
    }
}

/// The values of the sources, each with its provider's short name.
pub open spec fn source_texts(sources: Seq<(String, String)>) -> Seq<Seq<char>> {
    sources.map_values(|s: (String, String)| provider_text(s.0@) + " "@ + s.1@)
}

/// The small print of a badge.
pub open spec fn badge_detail_text(facts: BadgeFacts) -> Seq<char> {
    match facts {
        BadgeFacts::Scored { base, deck, modifier, sources, too_many_weapons } => "BASE "@
            + or_dash(base) + "  ·  MOD "@ + modifier@ + (if joined(
            source_texts(sources@),
            "  "@,
        ).len() == 0 {
            Seq::empty()
        } else {
            "  ·  "@ + joined(source_texts(sources@), "  "@)
        }) + if too_many_weapons {
            "  ·  WEAPONS"@
        } else {
            Seq::empty()
        },
        BadgeFacts::Paused { base } => "BASE "@ + or_dash(base) + "  ·  DECK PAUSED"@,
        BadgeFacts::Unrated => "BASE —  ·  MOD —"@,
    }
}

/// The score of a badge.
pub open spec fn badge_score_text(facts: BadgeFacts) -> Seq<char> {
    match facts {
        BadgeFacts::Scored { deck, .. } => or_dash(deck),
        _ => "—"@,
    }
}

/// What a badge shows.
pub struct BadgeText {
    pub caption: String,
    pub detail: String,
    pub score: String,
    /// Whether the offer is still being read.
    pub loading: bool,
}

fn push_or_dash(out: &mut String, value: &Option<String>)
    ensures
        final(out)@ == old(out)@ + or_dash(*value),
{
    match value {
        Some(value) => {
            out.append(value.as_str());
        },
        None => {
            out.append("—");
        },
    }
}

/// What a badge is made of.
#[derive(Clone, Copy, Debug, PartialEq, Eq, Structural)]
pub enum BadgeBasis {
    /// The score of the card for the deck.
    Score,
    /// The rating of the card alone, since the deck is not known in full.
    Rating,
    /// Nothing, since no ratings are at hand.
    Nothing,
}

/// What a badge can be made of.
pub fn badge_basis(ratings_at_hand: bool, completeness: DeckCompleteness) -> (r: BadgeBasis)
    ensures
        r == (if !ratings_at_hand {
            BadgeBasis::Nothing
        } else if completeness is Complete {
            BadgeBasis::Score
        } else {
            BadgeBasis::Rating
        }),
{
    if !ratings_at_hand {
        return BadgeBasis::Nothing;
    }
    match completeness {
        DeckCompleteness::Complete => BadgeBasis::Score,
        DeckCompleteness::Partial { .. } => BadgeBasis::Rating,
    }
}

/// A whole number with its sign.
pub open spec fn signed_text(n: int) -> Seq<char> {
    if n < 0 {
        "-"@ + decimal((-n) as nat)
    } else {
        "+"@ + decimal(n as nat)
    }
}

fn signed_number(n: i64) -> (r: String)
    ensures
        r@ == signed_text(n as int),
{
    let mut out = String::new();
    if n < 0 {
        out.append("-");
        text::push_decimal(&mut out, (-(n + 1)) as u64 + 1);
    } else {
        out.append("+");
        text::push_decimal(&mut out, n as u64);
    }
    assert(out@ =~= signed_text(n as int));
    out
}

/// Whether an adjustment says that the deck has too many weapons.
pub open spec fn too_many_weapons(adjustments: Seq<ScoreAdjustment>) -> bool {
    exists|i: int|
        0 <= i < adjustments.len() && (#[trigger] adjustments[i]).kind
            == AdjustmentKind::TooManyWeaponCharges
}

fn has_too_many_weapons(adjustments: &Vec<ScoreAdjustment>) -> (r: bool)
    ensures
        r == too_many_weapons(adjustments@),
{
    let mut i: usize = 0;
    while i < adjustments.len()
        invariant
            i <= adjustments.len(),
            forall|k: int|
                0 <= k < i ==> (#[trigger] adjustments@[k]).kind
                    != AdjustmentKind::TooManyWeaponCharges,
        decreases adjustments.len() - i,
    {
        if adjustments[i].kind == AdjustmentKind::TooManyWeaponCharges {
            return true;
        }
        i = i + 1;
    }
    false
}

impl BadgeFacts {
    /// What the badge of a scored card says. The base rating, the score for the deck and the
    /// value of each source are given as texts.
    pub fn of_score(
        score: &OfferScore,
        base: Option<String>,
        deck: Option<String>,
        values: &Vec<String>,
    ) -> (r: BadgeFacts)
        requires
            values@.len() == score.provider_ratings@.len(),
        ensures
            r matches BadgeFacts::Scored {
                base: shown,
                deck: total,
                modifier,
                sources,
                too_many_weapons: weapons,
            } && {
                &&& shown == base
                &&& total == deck
                &&& modifier@ == signed_text(score.adjustment as int)
                &&& sources@.len() == values@.len()
                &&& forall|i: int|
                    0 <= i < values@.len() ==> (#[trigger] sources@[i]).0@
                        == score.provider_ratings@[i].provider.provider@ && sources@[i].1@
                        == values@[i]@
                &&& weapons == too_many_weapons(score.adjustments@)
            },
    {
        let mut sources: Vec<(String, String)> = Vec::new();
        let mut i: usize = 0;
        while i < values.len()
            invariant
                i <= values.len(),
                values@.len() == score.provider_ratings@.len(),
                sources@.len() == i,
                forall|k: int|
                    0 <= k < i ==> (#[trigger] sources@[k]).0@
                        == score.provider_ratings@[k].provider.provider@ && sources@[k].1@
                        == values@[k]@,
            decreases values.len() - i,
        {
            let provider = text::copy(score.provider_ratings[i].provider.provider.as_str());
            let value = text::copy(values[i].as_str());
            sources.push((provider, value));
            i = i + 1;
        }
        BadgeFacts::Scored {
            base,
            deck,
            modifier: signed_number(score.adjustment),
            sources,
            too_many_weapons: has_too_many_weapons(&score.adjustments),
        }
    }
}

fn list_sources(sources: &Vec<(String, String)>) -> (r: Vec<String>)
    ensures
        texts(r@) == source_texts(sources@),
{
    let mut out: Vec<String> = Vec::new();
    let mut i: usize = 0;
    while i < sources.len()
        invariant
            i <= sources.len(),
            texts(out@) =~= source_texts(sources@).take(i as int),
        decreases sources.len() - i,
    {
        let mut part = text::copy(short_provider_label(sources[i].0.as_str()));
        part.append(" ");
        part.append(sources[i].1.as_str());
        assert(part@ =~= source_texts(sources@)[i as int]);
        push_text(&mut out, part);
        i = i + 1;
    }
    assert(source_texts(sources@).take(i as int) =~= source_texts(sources@));
    out
}

/// The small print of a badge.
pub fn badge_detail(facts: &BadgeFacts) -> (r: String)
    ensures
        r@ == badge_detail_text(*facts),
{
    match facts {
        BadgeFacts::Scored { base, deck, modifier, sources, too_many_weapons } => {
            let mut out = text::copy("BASE ");
            push_or_dash(&mut out, base);
            out.append("  ·  MOD ");
            out.append(modifier.as_str());
            let listed = join_texts(&list_sources(sources), "  ");
            if !listed.as_str().is_empty() {
                out.append("  ·  ");
                out.append(listed.as_str());
            }
            if *too_many_weapons {
                out.append("  ·  WEAPONS");
            }
            assert(out@ =~= badge_detail_text(*facts));
            out
        },
        BadgeFacts::Paused { base } => {
            let mut out = text::copy("BASE ");
            push_or_dash(&mut out, base);
            out.append("  ·  DECK PAUSED");
            out
        },
        BadgeFacts::Unrated => text::copy("BASE —  ·  MOD —"),
    }
}

/// What the badge of a card shows: its name, where it is known, else its id.
pub fn card_badge(cards: &CardCache, card_id: &str, facts: &BadgeFacts) -> (r: BadgeText)
    requires
        cards.wf(),
    ensures
        r.caption@ == (match cards.card(text::trimmed(card_id@)) {
            Some(card) => card.name,
            None => card_id@,
        }),
        r.detail@ == badge_detail_text(*facts),
        r.score@ == badge_score_text(*facts),
        !r.loading,
{
    let caption = match cards.get(card_id) {
        Some(card) => text::copy(card.name.as_str()),
        None => text::copy(card_id),
    };
    let mut score = String::new();
    match facts {
        BadgeFacts::Scored { deck, .. } => {
            push_or_dash(&mut score, deck);
        },
        BadgeFacts::Paused { .. } => {
            score.append("—");
        },
        BadgeFacts::Unrated => {
            score.append("—");
        },
    }
    assert(score@ =~= badge_score_text(*facts));
    BadgeText { caption, detail: badge_detail(facts), score, loading: false }
}

} // verus!
