//! Recognition of the cards that are offered, and when it may be relied on.
//!
//! A match is evidence, not certainty. A recommendation needs every card of the offer, each with
//! enough confidence, in as many frames as were asked for; otherwise it is withheld, with a reason.
//! Confidences are held as the bits of single-precision numbers; what has to be computed with them
//! is computed by the caller.
use crate::fingerprint::{
    catalog_fault, fingerprints, hash_of, is_ranking, margin, margin_is, ranks, DHash,
    FingerprintCatalog, RankedCandidate, DHASH_BITS,
};
use crate::frame::{checked, FaultModel, GrayFrame, PixelRect, RawFrame, RecognitionError};
use crate::single::Single;
use crate::text::{self, str_lt, text_lt, text_lt_total, text_lt_transitive, texts, trimmed};
use crate::text_map::TextMap;
use vstd::prelude::*;

verus! {

/// The bits of the least confidence that is asked for by default, four fifths.
pub const DEFAULT_MIN_CONFIDENCE_BITS: u32 = 0x3f4c_cccd;

/// The bits of the least margin between two cards that is asked for by default, eight hundredths.
pub const DEFAULT_CANDIDATE_MARGIN_BITS: u32 = 0x3da3_d70a;

/// What is wrong with a part of the window that a layout gives.
#[derive(Clone, Copy, Debug, PartialEq, Eq, Structural)]
pub enum RectFault {
    NotFinite,
    EmptyOrNegative,
    BeyondTheWindow,
}

impl RectFault {
    /// The words for a fault.
    pub open spec fn says(self) -> Seq<char> {
        match self {
            RectFault::NotFinite => "normalized coordinates must be finite"@,
            RectFault::EmptyOrNegative => {
                "normalized rectangle must have a non-negative origin and positive size"@
            },
            RectFault::BeyondTheWindow => "normalized rectangle extends beyond the captured window"@,
        }
    }

    /// The words for a fault.
    pub fn reason(self) -> (r: &'static str)
        ensures
            r@ == self.says(),
    {
        match self {
            RectFault::NotFinite => "normalized coordinates must be finite",
            RectFault::EmptyOrNegative => {
                "normalized rectangle must have a non-negative origin and positive size"
            },
            RectFault::BeyondTheWindow => "normalized rectangle extends beyond the captured window",
        }
    }
}

/// What is known of a layout of parts of the window.
pub struct LayoutFacts {
    pub layout_version: u32,
    /// What is wrong with each part, if anything.
    pub parts: Vec<Option<RectFault>>,
    /// Whether two parts overlap.
    pub overlapping: bool,
}

/// The first fault among parts.
pub open spec fn first_rect_fault(parts: Seq<Option<RectFault>>) -> Option<RectFault>
    decreases parts.len(),
{
    if parts.len() == 0 {
        None
    } else {
        match first_rect_fault(parts.drop_last()) {
            Some(fault) => Some(fault),
            None => parts.last(),
        }
    }
}

fn find_rect_fault(parts: &Vec<Option<RectFault>>) -> (r: Option<RectFault>)
    ensures
        r == first_rect_fault(parts@),
{
    let mut first: Option<RectFault> = None;
    let mut i: usize = 0;
    assert(parts@.take(0) =~= Seq::<Option<RectFault>>::empty());
    while i < parts.len()
        invariant
            i <= parts.len(),
            first == first_rect_fault(parts@.take(i as int)),
        decreases parts.len() - i,
    {
        assert(parts@.take(i + 1).drop_last() =~= parts@.take(i as int));
        assert(parts@.take(i + 1).last() == parts@[i as int]);
        if first.is_none() {
            first = parts[i];
        }
        i = i + 1;
    }
    assert(parts@.take(i as int) =~= parts@);
    first
}

impl LayoutFacts {
    /// What is wrong with a layout of crops.
    pub open spec fn crop_fault(&self) -> Option<FaultModel> {
        if self.layout_version == 0 {
            Some(FaultModel::InvalidGeometry("crop layout version must be greater than zero"@))
        } else if self.parts@.len() == 0 {
            Some(FaultModel::InvalidGeometry("offer geometry must contain at least one crop"@))
        } else {
            match first_rect_fault(self.parts@) {
                Some(fault) => Some(FaultModel::InvalidGeometry(fault.says())),
                None => if self.overlapping {
                    Some(FaultModel::InvalidGeometry("draft card-art crops must not overlap"@))
                } else {
                    None
                },
            }
        }
    }

    /// What is wrong with a layout of score badges.
    pub open spec fn badge_fault(&self) -> Option<FaultModel> {
        if self.layout_version == 0 {
            Some(
                FaultModel::InvalidGeometry("score badge layout version must be greater than zero"@),
            )
        } else {
            match first_rect_fault(self.parts@) {
                Some(fault) => Some(FaultModel::InvalidGeometry(fault.says())),
                None => if self.overlapping {
                    Some(FaultModel::InvalidGeometry("draft score badges must not overlap"@))
                } else {
                    None
                },
            }
        }
    }

    /// Whether a layout of crops can be used.
    pub fn validate_crops(&self) -> (r: Result<(), RecognitionError>)
        ensures
            checked(r, self.crop_fault()),
    {
        if self.layout_version == 0 {
            return Err(
                RecognitionError::InvalidGeometry("crop layout version must be greater than zero"),
            );
        }
        if self.parts.len() == 0 {
            return Err(
                RecognitionError::InvalidGeometry("offer geometry must contain at least one crop"),
            );
        }
        match find_rect_fault(&self.parts) {
            Some(fault) => return Err(RecognitionError::InvalidGeometry(fault.reason())),
            None => {},
        }
        if self.overlapping {
            return Err(RecognitionError::InvalidGeometry("draft card-art crops must not overlap"));
        }
        Ok(())
    }

    /// Whether a layout of score badges can be used.
    pub fn validate_badges(&self) -> (r: Result<(), RecognitionError>)
        ensures
            checked(r, self.badge_fault()),
    {
        if self.layout_version == 0 {
            return Err(
                RecognitionError::InvalidGeometry(
                    "score badge layout version must be greater than zero",
                ),
            );
        }
        match find_rect_fault(&self.parts) {
            Some(fault) => return Err(RecognitionError::InvalidGeometry(fault.reason())),
            None => {},
        }
        if self.overlapping {
            return Err(RecognitionError::InvalidGeometry("draft score badges must not overlap"));
        }
        Ok(())
    }

    /// Whether score badges can be placed below the crops of a layout: it has three of them.
    pub fn accepts_score_badges(&self) -> (r: Result<(), RecognitionError>)
        ensures
            checked(
                r,
                if self.crop_fault() is Some {
                    self.crop_fault()
                } else if self.parts@.len() != 3 {
                    Some(
                        FaultModel::InvalidGeometry(
                            "score badges require exactly three draft card crops"@,
                        ),
                    )
                } else {
                    None
                },
            ),
    {
        match self.validate_crops() {
            Err(e) => return Err(e),
            Ok(()) => {},
        }
        if self.parts.len() != 3 {
            return Err(
                RecognitionError::InvalidGeometry(
                    "score badges require exactly three draft card crops",
                ),
            );
        }
        Ok(())
    }
}

/// How cards are matched.
#[derive(Clone, Copy, Debug, PartialEq, Eq, Structural)]
pub struct MatcherConfig {
    pub minimum_confidence: Single,
    pub minimum_hash_margin_bits: u32,
    pub max_candidates: usize,
}

impl Default for MatcherConfig {
    fn default() -> (r: Self)
        ensures
            r.minimum_confidence.bits == DEFAULT_MIN_CONFIDENCE_BITS,
            r.minimum_hash_margin_bits == 6,
            r.max_candidates == 5,
    {
        MatcherConfig {
            minimum_confidence: Single { bits: DEFAULT_MIN_CONFIDENCE_BITS },
            minimum_hash_margin_bits: 6,
            max_candidates: 5,
        }
    }
}

/// What is wrong with a least confidence.
pub open spec fn confidence_fault(minimum: Single) -> Option<FaultModel> {
    if !minimum.finite() || !minimum.in_unit() {
        Some(
            FaultModel::InvalidMatcherConfig(
                "minimum confidence must be finite and between zero and one"@,
            ),
        )
    } else {
        None
    }
}

impl MatcherConfig {
    /// What is wrong with a configuration.
    pub open spec fn fault(self) -> Option<FaultModel> {
        if confidence_fault(self.minimum_confidence) is Some {
            confidence_fault(self.minimum_confidence)
        } else if self.minimum_hash_margin_bits > DHASH_BITS {
            Some(FaultModel::InvalidMatcherConfig("minimum hash margin cannot exceed 64 bits"@))
        } else if self.max_candidates == 0 {
            Some(FaultModel::InvalidMatcherConfig("at least one candidate must be retained"@))
        } else {
            None
        }
    }

    /// Whether a configuration can be used.
    pub fn validate(self) -> (r: Result<(), RecognitionError>)
        ensures
            checked(r, self.fault()),
    {
        if !self.minimum_confidence.is_finite() || !self.minimum_confidence.is_in_unit() {
            return Err(
                RecognitionError::InvalidMatcherConfig(
                    "minimum confidence must be finite and between zero and one",
                ),
            );
        }
        if self.minimum_hash_margin_bits > DHASH_BITS {
            return Err(
                RecognitionError::InvalidMatcherConfig("minimum hash margin cannot exceed 64 bits"),
            );
        }
        if self.max_candidates == 0 {
            return Err(
                RecognitionError::InvalidMatcherConfig("at least one candidate must be retained"),
            );
        }
        Ok(())
    }
}

/// What is wrong with a catalog and a configuration.
pub open spec fn matching_fault(catalog: FingerprintCatalog, config: MatcherConfig) -> Option<
    FaultModel,
> {
    if catalog_fault(fingerprints(catalog.cards@)) is Some {
        catalog_fault(fingerprints(catalog.cards@))
    } else {
        config.fault()
    }
}

/// Whether these are the nearest cards of a catalog to a fingerprint, with the margin of the first.
pub open spec fn nearest(
    r: Seq<RankedCandidate>,
    catalog: FingerprintCatalog,
    observed: DHash,
    config: MatcherConfig,
) -> bool {
    exists|all: Seq<(Seq<char>, nat)>| #[trigger]
        is_ranking(all, fingerprints(catalog.cards@), observed) && ranks(r) == all.take(
            if config.max_candidates < all.len() {
                config.max_candidates as int
            } else {
                all.len() as int
            },
        ) && forall|k: int|
            0 <= k < r.len() ==> margin_is(
                (#[trigger] r[k]).margin_bits,
                if k == 0 {
                    margin(all, config.minimum_hash_margin_bits)
                } else {
                    None
                },
            )
}

impl FingerprintCatalog {
    /// The nearest cards to a fingerprint that was seen, with the margin of the first one.
    pub fn rank_candidates(&self, observed: DHash, config: MatcherConfig) -> (r: Result<
        Vec<RankedCandidate>,
        RecognitionError,
    >)
        ensures
            match r {
                Err(e) => matching_fault(*self, config) == Some(e@),
                Ok(candidates) => matching_fault(*self, config) is None && nearest(
                    candidates@,
                    *self,
                    observed,
                    config,
                ),
            },
    {
        match self.validate() {
            Err(e) => return Err(e),
            Ok(()) => {},
        }
        match config.validate() {
            Err(e) => return Err(e),
            Ok(()) => {},
        }
        Ok(
            self.rank_by_distance(
                observed,
                config.minimum_hash_margin_bits,
                config.max_candidates,
            ),
        )
    }
}

/// Where an offer was seen.
#[derive(Clone, Copy, Debug, PartialEq, Eq, Structural)]
pub enum DraftOfferSource {
    ScreenCapture,
    Other,
}

/// A card that may be the one that is offered.
#[derive(Debug, PartialEq, Eq)]
pub struct OfferCandidate {
    pub card_id: String,
    pub confidence: Single,
    /// How far the fingerprints differ, from none to all; unknown for other sources.
    pub distance: Option<Single>,
}

/// The model of a candidate.
pub struct CandidateModel {
    pub card_id: Seq<char>,
    pub confidence: Single,
    pub distance: Option<Single>,
}

impl View for OfferCandidate {
    type V = CandidateModel;

    open spec fn view(&self) -> CandidateModel {
        CandidateModel {
            card_id: self.card_id@,
            confidence: self.confidence,
            distance: self.distance,
        }
    }
}

/// The models of candidates.
pub open spec fn candidate_models(v: Seq<OfferCandidate>) -> Seq<CandidateModel> {
    v.map_values(|c: OfferCandidate| c@)
}

/// What was seen at one place of an offer.
#[derive(Debug, PartialEq, Eq)]
pub struct DetectedOffer {
    pub candidates: Vec<OfferCandidate>,
    pub source: DraftOfferSource,
    pub crop_debug_ref: Option<String>,
}

/// What was seen of an offer.
#[derive(Debug, PartialEq, Eq)]
pub struct DetectionResult {
    /// The number of places of the layout.
    pub expected_offer_count: usize,
    pub offers: Vec<DetectedOffer>,
    pub minimum_confidence: Single,
}

/// Why a recommendation is withheld.
#[derive(Clone, Copy, Debug, PartialEq, Eq, Structural)]
pub enum RecommendationWithheldReason {
    ExpectedOfferCount { expected: usize, actual: usize },
    MissingCandidate { slot: usize },
    LowConfidence { slot: usize, confidence: Single, required: Single },
    InsufficientObservations { observed: u32, required: u32 },
    InvalidConfidenceThreshold,
}

/// Whether the cards of an offer may be relied on.
#[derive(Debug, PartialEq, Eq)]
pub enum OfferRecommendation {
    Ready { card_ids: Vec<String> },
    Withheld { reason: RecommendationWithheldReason },
}

/// The model of a recommendation.
pub enum RecommendationModel {
    Ready { card_ids: Seq<Seq<char>> },
    Withheld { reason: RecommendationWithheldReason },
}

impl View for OfferRecommendation {
    type V = RecommendationModel;

    open spec fn view(&self) -> RecommendationModel {
        match self {
            OfferRecommendation::Ready { card_ids } => RecommendationModel::Ready {
                card_ids: texts(card_ids@),
            },
            OfferRecommendation::Withheld { reason } => RecommendationModel::Withheld {
                reason: *reason,
            },
        }
    }
}

/// Why the card at one place cannot be relied on.
pub open spec fn slot_fault(
    offers: Seq<DetectedOffer>,
    slot: int,
    minimum: Single,
) -> Option<RecommendationWithheldReason> {
    let candidates = offers[slot].candidates@;
    if candidates.len() == 0 {
        Some(RecommendationWithheldReason::MissingCandidate { slot: slot as usize })
    } else if trimmed(candidates[0].card_id@).len() == 0 || !candidates[0].confidence.finite()
        || candidates[0].confidence.place() < minimum.place() {
        Some(
            RecommendationWithheldReason::LowConfidence {
                slot: slot as usize,
                confidence: candidates[0].confidence,
                required: minimum,
            },
        )
    } else {
        None
    }
}

/// Why the cards at the first places cannot be relied on: the first reason.
pub open spec fn slots_fault(
    offers: Seq<DetectedOffer>,
    minimum: Single,
    n: int,
) -> Option<RecommendationWithheldReason>
    decreases n,
{
    if n <= 0 {
        None
    } else {
        match slots_fault(offers, minimum, n - 1) {
            Some(reason) => Some(reason),
            None => slot_fault(offers, n - 1, minimum),
        }
    }
}

/// The first candidate of each place.
pub open spec fn top_ids(offers: Seq<DetectedOffer>) -> Seq<Seq<char>> {
    offers.map_values(|o: DetectedOffer| o.candidates@[0].card_id@)
}

impl DetectionResult {
    /// Whether the cards may be relied on.
    pub open spec fn advice(&self) -> RecommendationModel {
        let n = self.offers@.len();
        if self.expected_offer_count == 0 || n != self.expected_offer_count {
            RecommendationModel::Withheld {
                reason: RecommendationWithheldReason::ExpectedOfferCount {
                    expected: self.expected_offer_count,
                    actual: n as usize,
                },
            }
        } else if confidence_fault(self.minimum_confidence) is Some {
            RecommendationModel::Withheld {
                reason: RecommendationWithheldReason::InvalidConfidenceThreshold,
            }
        } else {
            match slots_fault(self.offers@, self.minimum_confidence, n as int) {
                Some(reason) => RecommendationModel::Withheld { reason },
                None => RecommendationModel::Ready { card_ids: top_ids(self.offers@) },
            }
        }
    }

    /// Whether the cards may be relied on.
    pub fn recommendation(&self) -> (r: OfferRecommendation)
        ensures
            r@ == self.advice(),
    {
        if self.expected_offer_count == 0 || self.offers.len() != self.expected_offer_count {
            return OfferRecommendation::Withheld {
                reason: RecommendationWithheldReason::ExpectedOfferCount {
                    expected: self.expected_offer_count,
                    actual: self.offers.len(),
                },
            };
        }
        if !self.minimum_confidence.is_finite() || !self.minimum_confidence.is_in_unit() {
            return OfferRecommendation::Withheld {
                reason: RecommendationWithheldReason::InvalidConfidenceThreshold,
            };
        }
        let mut card_ids: Vec<String> = Vec::new();
        let mut slot: usize = 0;
        while slot < self.offers.len()
            invariant
                slot <= self.offers.len(),
                self.expected_offer_count != 0,
                self.offers@.len() == self.expected_offer_count,
                confidence_fault(self.minimum_confidence) is None,
                slots_fault(self.offers@, self.minimum_confidence, slot as int) is None,
                card_ids@.len() == slot,
                forall|k: int|
                    0 <= k < slot ==> (#[trigger] card_ids@[k])@
                        == self.offers@[k].candidates@[0].card_id@,
            decreases self.offers.len() - slot,
        {
            let offer = &self.offers[slot];
            assert(slot_fault(self.offers@, slot as int, self.minimum_confidence) == slots_fault(
                self.offers@,
                self.minimum_confidence,
                slot + 1,
            ));
            if offer.candidates.len() == 0 {
                proof {
                    slot_faults_stay(
                        self.offers@,
                        self.minimum_confidence,
                        slot + 1,
                        self.offers@.len() as int,
                    );
                }
                return OfferRecommendation::Withheld {
                    reason: RecommendationWithheldReason::MissingCandidate { slot },
                };
            }
            let candidate = &offer.candidates[0];
            if text::is_blank(candidate.card_id.as_str()) || !candidate.confidence.is_finite()
                || candidate.confidence.is_below(self.minimum_confidence) {
                proof {
                    slot_faults_stay(
                        self.offers@,
                        self.minimum_confidence,
                        slot + 1,
                        self.offers@.len() as int,
                    );
                }
                return OfferRecommendation::Withheld {
                    reason: RecommendationWithheldReason::LowConfidence {
                        slot,
                        confidence: candidate.confidence,
                        required: self.minimum_confidence,
                    },
                };
            }
            card_ids.push(text::copy(candidate.card_id.as_str()));
            slot = slot + 1;
        }
        assert(texts(card_ids@) =~= top_ids(self.offers@));
        OfferRecommendation::Ready { card_ids }
    }

    /// Whether the cards may be relied on.
    pub fn is_actionable(&self) -> (r: bool)
        ensures
            r == (self.advice() is Ready),
    {
        match self.recommendation() {
            OfferRecommendation::Ready { .. } => true,
            OfferRecommendation::Withheld { .. } => false,
        }
    }

    /// The cards, where they may be relied on.
    pub fn selected_card_ids(&self) -> (r: Option<Vec<String>>)
        ensures
            match r {
                Some(ids) => self.advice() == (RecommendationModel::Ready { card_ids: texts(ids@) }),
                None => self.advice() is Withheld,
            },
    {
        match self.recommendation() {
            OfferRecommendation::Ready { card_ids } => Some(card_ids),
            OfferRecommendation::Withheld { .. } => None,
        }
    }
}

proof fn slot_faults_stay(offers: Seq<DetectedOffer>, minimum: Single, i: int, n: int)
    requires
        0 <= i <= n,
        slots_fault(offers, minimum, i) is Some,
    ensures
        slots_fault(offers, minimum, n) == slots_fault(offers, minimum, i),
    decreases n - i,
{
    if i < n {
        slot_faults_stay(offers, minimum, i + 1, n);
    }
}

/// A recommendation is never a guess: where there is one, each place has a first candidate with at
/// least the confidence that was asked for.
pub proof fn recommendations_are_confident(detection: DetectionResult, slot: int)
    requires
        detection.advice() is Ready,
        0 <= slot < detection.offers@.len(),
    ensures
        detection.offers@[slot].candidates@.len() > 0,
        detection.offers@[slot].candidates@[0].confidence.finite(),
        detection.offers@[slot].candidates@[0].confidence.place()
            >= detection.minimum_confidence.place(),
        detection.offers@.len() == detection.expected_offer_count,
{
    let n = detection.offers@.len() as int;
    if slots_fault(detection.offers@, detection.minimum_confidence, slot + 1) is Some {
        slot_faults_stay(detection.offers@, detection.minimum_confidence, slot + 1, n);
    }
}

/// One place of an offer: the crop, and the cards nearest to it.
pub struct SlotReading {
    pub crop: GrayFrame,
    pub candidates: Vec<RankedCandidate>,
}

/// A recogniser: a catalog and how it is matched.
pub struct DraftRecognizer {
    pub catalog: FingerprintCatalog,
    pub config: MatcherConfig,
    /// The number of places of the layout.
    pub places: usize,
}

/// What the readings of the first places of an offer are.
pub open spec fn readings_are(
    r: Seq<SlotReading>,
    recognizer: DraftRecognizer,
    frame: GrayFrame,
    rects: Seq<PixelRect>,
) -> bool {
    &&& r.len() == rects.len()
    &&& forall|k: int|
        0 <= k < r.len() ==> {
            let crop = (#[trigger] r[k]).crop;
            &&& crop.fault() is None
            &&& crop.width == rects[k].width
            &&& crop.height == rects[k].height
            &&& crop.pixels@ == frame.part(rects[k], rects[k].height as int)
            &&& nearest(
                r[k].candidates@,
                recognizer.catalog,
                DHash(hash_of(crop, 64)),
                recognizer.config,
            )
        }
}

/// The first fault among crops.
pub open spec fn crops_fault(frame: GrayFrame, rects: Seq<PixelRect>, n: int) -> Option<FaultModel>
    decreases n,
{
    if n <= 0 {
        None
    } else {
        match crops_fault(frame, rects, n - 1) {
            Some(fault) => Some(fault),
            None => frame.crop_fault(rects[n - 1]),
        }
    }
}

/// What is wrong with a frame and the places in it.
pub open spec fn reading_fault(frame: GrayFrame, rects: Seq<PixelRect>) -> Option<FaultModel> {
    match frame.fault() {
        Some(fault) => Some(fault),
        None => crops_fault(frame, rects, rects.len() as int),
    }
}

proof fn crop_faults_stay(frame: GrayFrame, rects: Seq<PixelRect>, i: int, n: int)
    requires
        0 <= i <= n,
        crops_fault(frame, rects, i) is Some,
    ensures
        crops_fault(frame, rects, n) == crops_fault(frame, rects, i),
    decreases n - i,
{
    if i < n {
        crop_faults_stay(frame, rects, i + 1, n);
    }
}

/// Whether a frame holds the brightness of a captured frame.
pub open spec fn is_gray_of(gray: GrayFrame, frame: RawFrame) -> bool {
    &&& gray.width == frame.width
    &&& gray.height == frame.height
    &&& gray.pixels@ == frame.gray_rows(frame.height as int)
}

impl DraftRecognizer {
    /// A recogniser is sound where its catalog and its configuration are.
    pub open spec fn wf(&self) -> bool {
        matching_fault(self.catalog, self.config) is None
    }

    /// A recogniser for a layout.
    pub fn new(layout: &LayoutFacts, catalog: FingerprintCatalog, config: MatcherConfig) -> (r:
        Result<DraftRecognizer, RecognitionError>)
        ensures
            match r {
                Err(e) => Some(e@) == (if layout.crop_fault() is Some {
                    layout.crop_fault()
                } else {
                    matching_fault(catalog, config)
                }),
                Ok(recognizer) => {
                    &&& layout.crop_fault() is None
                    &&& recognizer.wf()
                    &&& recognizer.catalog == catalog
                    &&& recognizer.config == config
                    &&& recognizer.places == layout.parts@.len()
                },
            },
    {
        match layout.validate_crops() {
            Err(e) => return Err(e),
            Ok(()) => {},
        }
        match catalog.validate() {
            Err(e) => return Err(e),
            Ok(()) => {},
        }
        match config.validate() {
            Err(e) => return Err(e),
            Ok(()) => {},
        }
        Ok(DraftRecognizer { catalog, config, places: layout.parts.len() })
    }

    /// Reads the places of an offer in a frame.
    pub fn analyze_grayscale(&self, frame: &GrayFrame, rects: &Vec<PixelRect>) -> (r: Result<
        Vec<SlotReading>,
        RecognitionError,
    >)
        requires
            self.wf(),
        ensures
            match r {
                Err(e) => reading_fault(*frame, rects@) == Some(e@),
                Ok(readings) => reading_fault(*frame, rects@) is None && readings_are(
                    readings@,
                    *self,
                    *frame,
                    rects@,
                ),
            },
    {
        match frame.validate() {
            Err(e) => return Err(e),
            Ok(()) => {},
        }
        let mut readings: Vec<SlotReading> = Vec::new();
        let mut i: usize = 0;
        while i < rects.len()
            invariant
                i <= rects.len(),
                self.wf(),
                frame.fault() is None,
                crops_fault(*frame, rects@, i as int) is None,
                readings@.len() == i,
                readings_are(readings@, *self, *frame, rects@.take(i as int)),
            decreases rects.len() - i,
        {
            let ghost before = readings@;
            assert(crops_fault(*frame, rects@, i + 1) == frame.crop_fault(rects@[i as int]));
            let crop = match frame.crop(rects[i]) {
                Err(e) => {
                    proof {
                        crop_faults_stay(*frame, rects@, i + 1, rects@.len() as int);
                    }
                    return Err(e);
                },
                Ok(crop) => crop,
            };
            let hash = match DHash::from_grayscale(&crop) {
                Err(e) => return Err(e),
                Ok(hash) => hash,
            };
            let candidates = match self.catalog.rank_candidates(hash, self.config) {
                Err(e) => return Err(e),
                Ok(candidates) => candidates,
            };
            let ghost reading = SlotReading { crop, candidates };
            readings.push(SlotReading { crop, candidates });
            proof {
                let now = rects@.take(i + 1);
                assert forall|k: int| 0 <= k < readings@.len() implies {
                    let crop = (#[trigger] readings@[k]).crop;
                    &&& crop.fault() is None
                    &&& crop.width == now[k].width
                    &&& crop.height == now[k].height
                    &&& crop.pixels@ == frame.part(now[k], now[k].height as int)
                    &&& nearest(
                        readings@[k].candidates@,
                        self.catalog,
                        DHash(hash_of(crop, 64)),
                        self.config,
                    )
                } by {
                    if k < i {
                        assert(readings@[k] == before[k]);
                        assert(now[k] == rects@.take(i as int)[k]);
                    } else {
                        assert(readings@[k] == reading);
                    }
                }
            }
            i = i + 1;
        }
        assert(rects@.take(i as int) =~= rects@);
        Ok(readings)
    }

    /// Reads the places of an offer in a captured frame.
    pub fn analyze_frame(&self, frame: &RawFrame, rects: &Vec<PixelRect>) -> (r: Result<
        Vec<SlotReading>,
        RecognitionError,
    >)
        requires
            self.wf(),
        ensures
            match frame.fault() {
                Some(fault) => r matches Err(e) && e@ == fault,
                None => exists|gray: GrayFrame| #[trigger]
                    is_gray_of(gray, *frame) && match r {
                        Err(e) => reading_fault(gray, rects@) == Some(e@),
                        Ok(readings) => reading_fault(gray, rects@) is None && readings_are(
                            readings@,
                            *self,
                            gray,
                            rects@,
                        ),
                    },
            },
    {
        let gray = match frame.to_grayscale() {
            Err(e) => return Err(e),
            Ok(gray) => gray,
        };
        assert(is_gray_of(gray, *frame));
        self.analyze_grayscale(&gray, rects)
    }
}

/// How observations are brought together.
#[derive(Clone, Copy, Debug, PartialEq, Eq, Structural)]
pub struct AggregationConfig {
    pub minimum_frames: u32,
    pub minimum_candidate_margin: Single,
    pub max_candidates: usize,
}

impl Default for AggregationConfig {
    fn default() -> (r: Self)
        ensures
            r.minimum_frames == 2,
            r.minimum_candidate_margin.bits == DEFAULT_CANDIDATE_MARGIN_BITS,
            r.max_candidates == 5,
    {
        AggregationConfig {
            minimum_frames: 2,
            minimum_candidate_margin: Single { bits: DEFAULT_CANDIDATE_MARGIN_BITS },
            max_candidates: 5,
        }
    }
}

impl AggregationConfig {
    /// What is wrong with a configuration.
    pub open spec fn fault(self) -> Option<FaultModel> {
        if self.minimum_frames == 0 {
            Some(FaultModel::InvalidAggregationConfig("at least one observation is required"@))
        } else if !self.minimum_candidate_margin.finite()
            || !self.minimum_candidate_margin.in_unit() {
            Some(
                FaultModel::InvalidAggregationConfig(
                    "candidate margin must be finite and between zero and one"@,
                ),
            )
        } else if self.max_candidates == 0 {
            Some(FaultModel::InvalidAggregationConfig("at least one candidate must be retained"@))
        } else {
            None
        }
    }

    /// Whether a configuration can be used.
    pub fn validate(self) -> (r: Result<(), RecognitionError>)
        ensures
            checked(r, self.fault()),
    {
        if self.minimum_frames == 0 {
            return Err(
                RecognitionError::InvalidAggregationConfig("at least one observation is required"),
            );
        }
        if !self.minimum_candidate_margin.is_finite()
            || !self.minimum_candidate_margin.is_in_unit() {
            return Err(
                RecognitionError::InvalidAggregationConfig(
                    "candidate margin must be finite and between zero and one",
                ),
            );
        }
        if self.max_candidates == 0 {
            return Err(
                RecognitionError::InvalidAggregationConfig(
                    "at least one candidate must be retained",
                ),
            );
        }
        Ok(())
    }
}

/// What several frames amount to.
#[derive(Debug, PartialEq, Eq)]
pub struct AggregatedDetection {
    pub detection: DetectionResult,
    pub observed_frames: u32,
    pub minimum_frames: u32,
}

impl AggregatedDetection {
    /// Whether the cards may be relied on.
    pub open spec fn advice(&self) -> RecommendationModel {
        if self.observed_frames < self.minimum_frames {
            RecommendationModel::Withheld {
                reason: RecommendationWithheldReason::InsufficientObservations {
                    observed: self.observed_frames,
                    required: self.minimum_frames,
                },
            }
        } else {
            self.detection.advice()
        }
    }

    /// Whether the cards may be relied on.
    pub fn recommendation(&self) -> (r: OfferRecommendation)
        ensures
            r@ == self.advice(),
    {
        if self.observed_frames < self.minimum_frames {
            return OfferRecommendation::Withheld {
                reason: RecommendationWithheldReason::InsufficientObservations {
                    observed: self.observed_frames,
                    required: self.minimum_frames,
                },
            };
        }
        self.detection.recommendation()
    }

    /// Whether the cards may be relied on.
    pub fn is_actionable(&self) -> (r: bool)
        ensures
            r == (self.advice() is Ready),
    {
        match self.recommendation() {
            OfferRecommendation::Ready { .. } => true,
            OfferRecommendation::Withheld { .. } => false,
        }
    }
}

/// Without repeated observations there is no recommendation.
pub proof fn recommendations_need_repeated_frames(aggregate: AggregatedDetection)
    requires
        aggregate.advice() is Ready,
    ensures
        aggregate.observed_frames >= aggregate.minimum_frames,
        aggregate.detection.advice() is Ready,
{
}

/// What frames tell of one card at one place: its confidence and its distance in each of them.
#[derive(Debug, PartialEq, Eq)]
pub struct CandidateEvidence {
    pub confidences: Vec<Single>,
    pub distances: Vec<Option<Single>>,
    pub source: DraftOfferSource,
}

/// The model of evidence.
pub struct EvidenceModel {
    pub confidences: Seq<Single>,
    pub distances: Seq<Option<Single>>,
    pub source: DraftOfferSource,
}

impl View for CandidateEvidence {
    type V = EvidenceModel;

    open spec fn view(&self) -> EvidenceModel {
        EvidenceModel {
            confidences: self.confidences@,
            distances: self.distances@,
            source: self.source,
        }
    }
}

/// The evidence at one place, by card.
pub open spec fn place_evidence(m: TextMap<CandidateEvidence>) -> Map<Seq<char>, EvidenceModel> {
    Map::new(|k: Seq<char>| m.has(k), |k: Seq<char>| m.at(k)@)
}

/// The evidence at all places.
pub open spec fn all_evidence(slots: Seq<TextMap<CandidateEvidence>>) -> Seq<
    Map<Seq<char>, EvidenceModel>,
> {
    slots.map_values(|m: TextMap<CandidateEvidence>| place_evidence(m))
}

/// What is wrong with a candidate.
pub open spec fn evidence_fault(c: CandidateModel) -> Option<FaultModel> {
    if trimmed(c.card_id).len() == 0 {
        Some(FaultModel::InvalidCardId)
    } else if !c.confidence.finite() || (c.distance matches Some(d) && !(d.finite()
        && d.in_unit())) {
        Some(FaultModel::InvalidCandidateEvidence)
    } else {
        None
    }
}

/// The evidence with one candidate more.
pub open spec fn with_candidate(
    m: Map<Seq<char>, EvidenceModel>,
    c: CandidateModel,
    source: DraftOfferSource,
) -> Map<Seq<char>, EvidenceModel> {
    let before = if m.dom().contains(c.card_id) {
        m[c.card_id]
    } else {
        EvidenceModel { confidences: Seq::empty(), distances: Seq::empty(), source }
    };
    m.insert(
        c.card_id,
        EvidenceModel {
            confidences: before.confidences.push(c.confidence),
            distances: before.distances.push(c.distance),
            source: before.source,
        },
    )
}

/// What happens to a candidate: whether it is wrong, or there are too many observations.
pub open spec fn candidate_fault(m: Map<Seq<char>, EvidenceModel>, c: CandidateModel) -> Option<
    FaultModel,
> {
    if evidence_fault(c) is Some {
        evidence_fault(c)
    } else if m.dom().contains(c.card_id) && m[c.card_id].confidences.len() >= u32::MAX {
        Some(FaultModel::TooManyObservations)
    } else {
        None
    }
}

/// The evidence at one place after its first candidates, and what stopped it.
pub open spec fn after_candidates(
    m: Map<Seq<char>, EvidenceModel>,
    candidates: Seq<CandidateModel>,
    source: DraftOfferSource,
    n: int,
) -> (Map<Seq<char>, EvidenceModel>, Option<FaultModel>)
    decreases n,
{
    if n <= 0 {
        (m, None)
    } else {
        let before = after_candidates(m, candidates, source, n - 1);
        if before.1 is Some {
            before
        } else {
            match candidate_fault(before.0, candidates[n - 1]) {
                Some(fault) => (before.0, Some(fault)),
                None => (with_candidate(before.0, candidates[n - 1], source), None),
            }
        }
    }
}

/// The number of candidates of a place that count.
pub open spec fn counted(offer: DetectedOffer, most: usize) -> int {
    if offer.candidates@.len() < most {
        offer.candidates@.len() as int
    } else {
        most as int
    }
}

/// The evidence after the first places of an observation, and what stopped it.
pub open spec fn after_places(
    slots: Seq<Map<Seq<char>, EvidenceModel>>,
    offers: Seq<DetectedOffer>,
    most: usize,
    n: int,
) -> (Seq<Map<Seq<char>, EvidenceModel>>, Option<FaultModel>)
    decreases n,
{
    if n <= 0 {
        (slots, None)
    } else {
        let before = after_places(slots, offers, most, n - 1);
        if before.1 is Some {
            before
        } else {
            let place = after_candidates(
                before.0[n - 1],
                candidate_models(offers[n - 1].candidates@),
                offers[n - 1].source,
                counted(offers[n - 1], most),
            );
            (before.0.update(n - 1, place.0), place.1)
        }
    }
}

proof fn stopped_candidates_stay(
    m: Map<Seq<char>, EvidenceModel>,
    candidates: Seq<CandidateModel>,
    source: DraftOfferSource,
    i: int,
    n: int,
)
    requires
        0 <= i <= n,
        after_candidates(m, candidates, source, i).1 is Some,
    ensures
        after_candidates(m, candidates, source, n) == after_candidates(m, candidates, source, i),
    decreases n - i,
{
    if i < n {
        stopped_candidates_stay(m, candidates, source, i + 1, n);
    }
}

proof fn stopped_places_stay(
    slots: Seq<Map<Seq<char>, EvidenceModel>>,
    offers: Seq<DetectedOffer>,
    most: usize,
    i: int,
    n: int,
)
    requires
        0 <= i <= n,
        after_places(slots, offers, most, i).1 is Some,
    ensures
        after_places(slots, offers, most, n) == after_places(slots, offers, most, i),
    decreases n - i,
{
    if i < n {
        stopped_places_stay(slots, offers, most, i + 1, n);
    }
}

fn copy_singles(v: &Vec<Single>) -> (r: Vec<Single>)
    ensures
        r@ == v@,
{
    let mut out: Vec<Single> = Vec::new();
    let mut i: usize = 0;
    while i < v.len()
        invariant
            i <= v.len(),
            out@ =~= v@.take(i as int),
        decreases v.len() - i,
    {
        out.push(v[i]);
        i = i + 1;
    }
    assert(v@.take(i as int) =~= v@);
    out
}

fn copy_distances(v: &Vec<Option<Single>>) -> (r: Vec<Option<Single>>)
    ensures
        r@ == v@,
{
    let mut out: Vec<Option<Single>> = Vec::new();
    let mut i: usize = 0;
    while i < v.len()
        invariant
            i <= v.len(),
            out@ =~= v@.take(i as int),
        decreases v.len() - i,
    {
        out.push(v[i]);
        i = i + 1;
    }
    assert(v@.take(i as int) =~= v@);
    out
}

fn check_candidate(candidate: &OfferCandidate) -> (r: Result<(), RecognitionError>)
    ensures
        checked(r, evidence_fault(candidate@)),
{
    if text::is_blank(candidate.card_id.as_str()) {
        return Err(RecognitionError::InvalidCardId);
    }
    let bad_distance = match candidate.distance {
        Some(d) => !(d.is_finite() && d.is_in_unit()),
        None => false,
    };
    if !candidate.confidence.is_finite() || bad_distance {
        return Err(RecognitionError::InvalidCandidateEvidence);
    }
    Ok(())
}

fn note_candidate(
    place: &mut TextMap<CandidateEvidence>,
    candidate: &OfferCandidate,
    source: DraftOfferSource,
) -> (r: Result<(), RecognitionError>)
    requires
        old(place).wf(),
    ensures
        final(place).wf(),
        checked(r, candidate_fault(place_evidence(*old(place)), candidate@)),
        place_evidence(*final(place)) == (if r is Ok {
            with_candidate(place_evidence(*old(place)), candidate@, source)
        } else {
            place_evidence(*old(place))
        }),
{
    match check_candidate(candidate) {
        Err(e) => return Err(e),
        Ok(()) => {},
    }
    let ghost before = place_evidence(*place);
    let (mut confidences, mut distances, kept) = match place.get(candidate.card_id.as_str()) {
        Some(evidence) => {
            if evidence.confidences.len() as u64 >= u32::MAX as u64 {
                return Err(RecognitionError::TooManyObservations);
            }
            (
                copy_singles(&evidence.confidences),
                copy_distances(&evidence.distances),
                evidence.source,
            )
        },
        None => {
            let none: Vec<Single> = Vec::new();
            let no_distances: Vec<Option<Single>> = Vec::new();
            (none, no_distances, source)
        },
    };
    confidences.push(candidate.confidence);
    distances.push(candidate.distance);
    place.insert(
        text::copy(candidate.card_id.as_str()),
        CandidateEvidence { confidences, distances, source: kept },
    );
    proof {
        let wanted = with_candidate(before, candidate@, source);
        assert(place_evidence(*place).dom() =~= wanted.dom());
        assert(place_evidence(*place) =~= wanted);
    }
    Ok(())
}

/// What an accumulator is after an observation, and what came of it.
pub open spec fn took_in(
    before: ConfidenceAccumulator,
    result: DetectionResult,
    after: ConfidenceAccumulator,
    r: Result<(), RecognitionError>,
) -> bool {
    &&& after.config == before.config
    &&& after.minimum_confidence == before.minimum_confidence
    &&& after.expected_offer_count == before.expected_offer_count
    &&& if !before.fits(result) {
        &&& r matches Err(e) && e@ == (FaultModel::ExpectedOfferCount {
            expected: before.expected_offer_count as nat,
            actual: result.offers@.len(),
        })
        &&& after.observed_frames == before.observed_frames
        &&& after.slots == before.slots
    } else if before.observed_frames == u32::MAX {
        &&& r matches Err(e) && e@ == FaultModel::TooManyObservations
        &&& after.observed_frames == before.observed_frames
        &&& after.slots == before.slots
    } else {
        let places = after_places(
            all_evidence(before.slots@),
            result.offers@,
            before.config.max_candidates,
            result.offers@.len() as int,
        );
        &&& after.observed_frames == before.observed_frames + 1
        &&& all_evidence(after.slots@) == places.0
        &&& checked(r, places.1)
    }
}

/// Collects what frames tell of one offer.
pub struct ConfidenceAccumulator {
    pub config: AggregationConfig,
    pub minimum_confidence: Single,
    pub observed_frames: u32,
    pub expected_offer_count: usize,
    pub slots: Vec<TextMap<CandidateEvidence>>,
}

impl ConfidenceAccumulator {
    /// An accumulator has one place for each card of the offer.
    pub open spec fn wf(&self) -> bool {
        &&& self.slots@.len() == self.expected_offer_count
        &&& forall|i: int| 0 <= i < self.slots@.len() ==> (#[trigger] self.slots@[i]).wf()
    }

    /// What is wrong with the parameters of an accumulator.
    pub open spec fn fault(config: AggregationConfig, minimum: Single, count: usize) -> Option<
        FaultModel,
    > {
        if config.fault() is Some {
            config.fault()
        } else if confidence_fault(minimum) is Some {
            confidence_fault(minimum)
        } else if count == 0 {
            Some(FaultModel::InvalidGeometry("offer count must be greater than zero"@))
        } else {
            None
        }
    }

    /// An accumulator for an offer of three cards.
    pub fn new(config: AggregationConfig, minimum_confidence: Single) -> (r: Result<
        ConfidenceAccumulator,
        RecognitionError,
    >)
        ensures
            Self::made(r, config, minimum_confidence, 3),
    {
        Self::for_offer_count(config, minimum_confidence, 3)
    }

    /// Whether this is a new accumulator for its parameters, or what is wrong with them.
    pub open spec fn made(
        r: Result<ConfidenceAccumulator, RecognitionError>,
        config: AggregationConfig,
        minimum: Single,
        count: usize,
    ) -> bool {
        match r {
            Err(e) => Self::fault(config, minimum, count) == Some(e@),
            Ok(a) => {
                &&& Self::fault(config, minimum, count) is None
                &&& a.wf()
                &&& a.config == config
                &&& a.minimum_confidence == minimum
                &&& a.observed_frames == 0
                &&& a.expected_offer_count == count
                &&& forall|i: int, id: Seq<char>|
                    0 <= i < count ==> !(#[trigger] a.slots@[i].has(id))
            },
        }
    }

    /// An accumulator for an offer of some cards.
    pub fn for_offer_count(
        config: AggregationConfig,
        minimum_confidence: Single,
        expected_offer_count: usize,
    ) -> (r: Result<ConfidenceAccumulator, RecognitionError>)
        ensures
            Self::made(r, config, minimum_confidence, expected_offer_count),
    {
        match config.validate() {
            Err(e) => return Err(e),
            Ok(()) => {},
        }
        if !minimum_confidence.is_finite() || !minimum_confidence.is_in_unit() {
            return Err(
                RecognitionError::InvalidMatcherConfig(
                    "minimum confidence must be finite and between zero and one",
                ),
            );
        }
        if expected_offer_count == 0 {
            return Err(RecognitionError::InvalidGeometry("offer count must be greater than zero"));
        }
        let mut slots: Vec<TextMap<CandidateEvidence>> = Vec::new();
        let mut i: usize = 0;
        while i < expected_offer_count
            invariant
                i <= expected_offer_count,
                slots@.len() == i,
                forall|k: int| 0 <= k < i ==> (#[trigger] slots@[k]).wf(),
                forall|k: int, id: Seq<char>| 0 <= k < i ==> !(#[trigger] slots@[k].has(id)),
            decreases expected_offer_count - i,
        {
            slots.push(TextMap::new());
            i = i + 1;
        }
        Ok(
            ConfidenceAccumulator {
                config,
                minimum_confidence,
                observed_frames: 0,
                expected_offer_count,
                slots,
            },
        )
    }

    /// Whether an observation has the shape that is expected.
    pub open spec fn fits(&self, result: DetectionResult) -> bool {
        result.expected_offer_count == self.expected_offer_count && result.offers@.len()
            == self.expected_offer_count
    }

    /// Takes an observation in. One that is wrong is taken in up to the first fault.
    pub fn observe(&mut self, result: &DetectionResult) -> (r: Result<(), RecognitionError>)
        requires
            old(self).wf(),
        ensures
            final(self).wf(),
            took_in(*old(self), *result, *final(self), r),
    {
        if result.expected_offer_count != self.expected_offer_count || result.offers.len()
            != self.expected_offer_count {
            return Err(
                RecognitionError::ExpectedOfferCount {
                    expected: self.expected_offer_count,
                    actual: result.offers.len(),
                },
            );
        }
        if self.observed_frames == u32::MAX {
            return Err(RecognitionError::TooManyObservations);
        }
        self.observed_frames = self.observed_frames + 1;
        let ghost start = all_evidence(self.slots@);
        let ghost whole = *self;
        let most: usize = self.config.max_candidates;
        let mut i: usize = 0;
        while i < result.offers.len()
            invariant
                i <= result.offers.len(),
                self.wf(),
                self.config == whole.config,
                self.minimum_confidence == whole.minimum_confidence,
                self.observed_frames == whole.observed_frames,
                self.expected_offer_count == whole.expected_offer_count,
                result.offers@.len() == whole.expected_offer_count,
                most == whole.config.max_candidates,
                whole.config == old(self).config,
                whole.minimum_confidence == old(self).minimum_confidence,
                whole.expected_offer_count == old(self).expected_offer_count,
                whole.observed_frames == old(self).observed_frames + 1,
                old(self).fits(*result),
                start == all_evidence(old(self).slots@),
                after_places(start, result.offers@, most, i as int) == (
                    all_evidence(self.slots@),
                    None::<FaultModel>,
                ),
            decreases result.offers.len() - i,
        {
            let offer = &result.offers[i];
            let ghost here = all_evidence(self.slots@);
            let ghost models = candidate_models(offer.candidates@);
            let mut place: TextMap<CandidateEvidence> = TextMap::new();
            self.slots.set_and_swap(i, &mut place);
            assert(here[i as int] == place_evidence(place));
            let ghost first = place_evidence(place);
            let mut j: usize = 0;
            let mut stopped: Option<RecognitionError> = None;
            while stopped.is_none() && j < offer.candidates.len() && j < most
                invariant
                    j <= offer.candidates.len(),
                    j <= most,
                    place.wf(),
                    models == candidate_models(offer.candidates@),
                    match stopped {
                        None => after_candidates(first, models, offer.source, j as int) == (
                            place_evidence(place),
                            None::<FaultModel>,
                        ),
                        Some(e) => after_candidates(
                            first,
                            models,
                            offer.source,
                            counted(*offer, most),
                        ) == (place_evidence(place), Some(e@)),
                    },
                decreases offer.candidates.len() - j, (if stopped is None {
                        1int
                    } else {
                        0int
                    }),
            {
                assert(models[j as int] == offer.candidates@[j as int]@);
                let ghost earlier = place_evidence(place);
                match note_candidate(&mut place, &offer.candidates[j], offer.source) {
                    Err(e) => {
                        proof {
                            assert(after_candidates(first, models, offer.source, j + 1) == (
                                place_evidence(place),
                                Some(e@),
                            ));
                            stopped_candidates_stay(
                                first,
                                models,
                                offer.source,
                                j + 1,
                                counted(*offer, most),
                            );
                        }
                        stopped = Some(e);
                    },
                    Ok(()) => {
                        j = j + 1;
                    },
                }
            }
            self.slots.set_and_swap(i, &mut place);
            proof {
                let now = all_evidence(self.slots@);
                let ended = after_candidates(first, models, offer.source, counted(*offer, most));
                assert(now =~= here.update(i as int, ended.0));
                assert(after_places(start, result.offers@, most, i + 1) == (now, ended.1));
            }
            match stopped {
                Some(e) => {
                    proof {
                        stopped_places_stay(
                            start,
                            result.offers@,
                            most,
                            i + 1,
                            result.offers@.len() as int,
                        );
                    }
                    return Err(e);
                },
                None => {},
            }
            i = i + 1;
        }
        Ok(())
    }
}

/// A card with the mean of its confidences, as the caller computed it.
#[derive(Debug, PartialEq, Eq)]
pub struct MeanCandidate {
    pub candidate: OfferCandidate,
    pub source: DraftOfferSource,
}

/// The models of means.
pub open spec fn mean_models(v: Seq<MeanCandidate>) -> Seq<(CandidateModel, DraftOfferSource)> {
    v.map_values(|m: MeanCandidate| (m.candidate@, m.source))
}

/// Whether a card stands before another one: it has more confidence, or as much with a smaller id.
pub open spec fn surer(a: (CandidateModel, DraftOfferSource), b: (CandidateModel, DraftOfferSource)) -> bool {
    a.0.confidence.total_place() > b.0.confidence.total_place() || (a.0.confidence.total_place()
        == b.0.confidence.total_place() && text_lt(a.0.card_id, b.0.card_id))
}

/// Whether these are the same cards, the surest first.
pub open spec fn by_confidence(
    v: Seq<(CandidateModel, DraftOfferSource)>,
    all: Seq<(CandidateModel, DraftOfferSource)>,
) -> bool {
    &&& v.len() == all.len()
    &&& forall|i: int, j: int| 0 <= i < j < v.len() ==> surer(#[trigger] v[i], #[trigger] v[j])
    &&& forall|c: (CandidateModel, DraftOfferSource)| #[trigger]
        v.contains(c) <==> all.contains(c)
}

proof fn surer_is_an_order(
    a: (CandidateModel, DraftOfferSource),
    b: (CandidateModel, DraftOfferSource),
    c: (CandidateModel, DraftOfferSource),
)
    ensures
        surer(a, b) && surer(b, c) ==> surer(a, c),
        a.0.card_id != b.0.card_id ==> surer(a, b) || surer(b, a),
{
    if surer(a, b) && surer(b, c) && a.0.confidence.total_place()
        == b.0.confidence.total_place() && b.0.confidence.total_place()
        == c.0.confidence.total_place() {
        text_lt_transitive(a.0.card_id, b.0.card_id, c.0.card_id);
    }
    text_lt_total(a.0.card_id, b.0.card_id);
}

fn is_surer(a: &OfferCandidate, b: &OfferCandidate) -> (r: bool)
    ensures
        forall|s: DraftOfferSource, t: DraftOfferSource| r == #[trigger] surer((a@, s), (b@, t)),
{
    if b.confidence.precedes(a.confidence) {
        return true;
    }
    if a.confidence.precedes(b.confidence) {
        return false;
    }
    str_lt(a.card_id.as_str(), b.card_id.as_str())
}

/// Puts the cards of one place into the order of their confidence.
pub fn order_candidates(means: Vec<MeanCandidate>) -> (r: Vec<MeanCandidate>)
    requires
        forall|i: int, j: int|
            0 <= i < j < means@.len() ==> (#[trigger] means@[i]).candidate.card_id@ != (
            #[trigger] means@[j]).candidate.card_id@,
    ensures
        by_confidence(mean_models(r@), mean_models(means@)),
{
    let ghost all = mean_models(means@);
    let mut rest = means;
    let mut out: Vec<MeanCandidate> = Vec::new();
    while rest.len() > 0
        invariant
            all.len() == out@.len() + rest@.len(),
            mean_models(rest@) =~= all.take(rest@.len() as int),
            forall|i: int, j: int|
                0 <= i < j < all.len() ==> (#[trigger] all[i]).0.card_id != (
                #[trigger] all[j]).0.card_id,
            by_confidence(mean_models(out@), all.skip(rest@.len() as int)),
        decreases rest.len(),
    {
        let ghost n = rest@.len() as int;
        let ghost before = mean_models(out@);
        let ghost rest_models = mean_models(rest@);
        assert(rest_models[n - 1] == all[n - 1]);
        let next = match rest.pop() {
            Some(next) => next,
            None => return out,
        };
        let ghost new = (next.candidate@, next.source);
        assert(new == all[n - 1]);
        let mut at: usize = 0;
        proof {
            assert forall|k: int| 0 <= k < before.len() implies (#[trigger] before[k]).0.card_id
                != new.0.card_id by {
                assert(before.contains(before[k]));
                let tail = all.skip(n);
                let m = choose|m: int| 0 <= m < tail.len() && tail[m] == before[k];
                assert(all[n + m] == before[k]);
            }
        }
        while at < out.len() && !is_surer(&next.candidate, &out[at].candidate)
            invariant
                at <= out.len(),
                before == mean_models(out@),
                new == (next.candidate@, next.source),
                forall|i: int, j: int|
                    0 <= i < j < before.len() ==> surer(#[trigger] before[i], #[trigger] before[j]),
                forall|k: int|
                    0 <= k < before.len() ==> (#[trigger] before[k]).0.card_id != new.0.card_id,
                forall|k: int| 0 <= k < at ==> surer(#[trigger] before[k], new),
            decreases out.len() - at,
        {
            proof {
                assert(before[at as int].0 == out@[at as int].candidate@);
                assert(!surer(new, before[at as int]));
                surer_is_an_order(before[at as int], new, new);
            }
            at = at + 1;
        }
        proof {
            if at < out.len() {
                assert(before[at as int].0 == out@[at as int].candidate@);
                assert(surer(new, before[at as int]));
            }
        }
        out.insert(at, next);
        proof {
            let now = mean_models(out@);
            assert(now =~= before.insert(at as int, new));
            assert forall|i: int, j: int| 0 <= i < j < now.len() implies surer(
                #[trigger] now[i],
                #[trigger] now[j],
            ) by {
                if i < at && j < at {
                    assert(surer(before[i], before[j]));
                } else if i < at && j == at {
                } else if i < at {
                    assert(surer(before[i], before[j - 1]));
                } else if i == at {
                    if j - 1 > at {
                        surer_is_an_order(new, before[at as int], before[j - 1]);
                    }
                } else {
                    assert(surer(before[i - 1], before[j - 1]));
                }
            }
            let tail = all.skip(n - 1);
            let shorter = all.skip(n);
            assert(tail =~= seq![new] + shorter);
            assert forall|c: (CandidateModel, DraftOfferSource)| #[trigger] now.contains(c)
                <==> tail.contains(c) by {
                if shorter.contains(c) {
                    let m = choose|m: int| 0 <= m < shorter.len() && shorter[m] == c;
                    assert(tail[m + 1] == c);
                    assert(before.contains(c));
                    let k = choose|k: int| 0 <= k < before.len() && before[k] == c;
                    if k < at {
                        assert(now[k] == c);
                    } else {
                        assert(now[k + 1] == c);
                    }
                }
                if c == new {
                    assert(tail[0] == c);
                    assert(now[at as int] == c);
                }
                if now.contains(c) {
                    let k = choose|k: int| 0 <= k < now.len() && now[k] == c;
                    if k < at {
                        assert(before[k] == c);
                        assert(before.contains(c));
                    } else if k > at {
                        assert(before[k - 1] == c);
                        assert(before.contains(c));
                    }
                }
                if tail.contains(c) {
                    let m = choose|m: int| 0 <= m < tail.len() && tail[m] == c;
                    if m > 0 {
                        assert(shorter[m - 1] == c);
                        assert(shorter.contains(c));
                    }
                }
            }
        }
    }
    assert(all.skip(0) =~= all);
    out
}

/// One place after all frames: its cards in the order of their confidence, and the confidence of
/// the first one as its lead over the second one leaves it.
pub struct FinishedSlot {
    pub ordered: Vec<MeanCandidate>,
    pub first_confidence: Single,
}

/// The candidates of a place after all frames.
pub open spec fn finished_candidates(slot: FinishedSlot, most: usize) -> Seq<CandidateModel> {
    let all = mean_models(slot.ordered@);
    let n = if all.len() < most {
        all.len()
    } else {
        most as nat
    };
    Seq::new(
        n,
        |k: int|
            if k == 0 {
                CandidateModel { confidence: slot.first_confidence, ..all[0].0 }
            } else {
                all[k].0
            },
    )
}

/// Where a place was seen.
pub open spec fn finished_source(slot: FinishedSlot) -> DraftOfferSource {
    if slot.ordered@.len() > 0 {
        slot.ordered@[0].source
    } else {
        DraftOfferSource::ScreenCapture
    }
}

fn finish_slot(slot: &FinishedSlot, most: usize) -> (r: DetectedOffer)
    ensures
        candidate_models(r.candidates@) == finished_candidates(*slot, most),
        r.source == finished_source(*slot),
        r.crop_debug_ref is None,
{
    let mut candidates: Vec<OfferCandidate> = Vec::new();
    let mut i: usize = 0;
    while i < slot.ordered.len() && i < most
        invariant
            i <= slot.ordered.len(),
            i <= most,
            candidates@.len() == i,
            forall|k: int|
                0 <= k < i ==> (#[trigger] candidates@[k])@ == (if k == 0 {
                    CandidateModel {
                        confidence: slot.first_confidence,
                        ..mean_models(slot.ordered@)[0].0
                    }
                } else {
                    mean_models(slot.ordered@)[k].0
                }),
        decreases slot.ordered.len() - i,
    {
        let candidate = &slot.ordered[i].candidate;
        candidates.push(
            OfferCandidate {
                card_id: text::copy(candidate.card_id.as_str()),
                confidence: if i == 0 {
                    slot.first_confidence
                } else {
                    candidate.confidence
                },
                distance: candidate.distance,
            },
        );
        i = i + 1;
    }
    assert(candidate_models(candidates@) =~= finished_candidates(*slot, most));
    DetectedOffer {
        candidates,
        source: if slot.ordered.len() > 0 {
            slot.ordered[0].source
        } else {
            DraftOfferSource::ScreenCapture
        },
        crop_debug_ref: None,
    }
}

impl ConfidenceAccumulator {
    /// What the frames amount to. Without a frame there is nothing to say.
    pub fn finish(&self, slots: &Vec<FinishedSlot>) -> (r: Result<
        AggregatedDetection,
        RecognitionError,
    >)
        ensures
            match r {
                Err(e) => self.observed_frames == 0 && e@ == FaultModel::NoObservations,
                Ok(aggregate) => {
                    let detection = aggregate.detection;
                    &&& self.observed_frames != 0
                    &&& aggregate.observed_frames == self.observed_frames
                    &&& aggregate.minimum_frames == self.config.minimum_frames
                    &&& detection.expected_offer_count == self.expected_offer_count
                    &&& detection.minimum_confidence == self.minimum_confidence
                    &&& detection.offers@.len() == slots@.len()
                    &&& forall|k: int|
                        0 <= k < slots@.len() ==> {
                            &&& candidate_models((#[trigger] detection.offers@[k]).candidates@)
                                == finished_candidates(slots@[k], self.config.max_candidates)
                            &&& detection.offers@[k].source == finished_source(slots@[k])
                            &&& detection.offers@[k].crop_debug_ref is None
                        }
                },
            },
    {
        if self.observed_frames == 0 {
            return Err(RecognitionError::NoObservations);
        }
        let mut offers: Vec<DetectedOffer> = Vec::new();
        let mut i: usize = 0;
        while i < slots.len()
            invariant
                i <= slots.len(),
                offers@.len() == i,
                forall|k: int|
                    0 <= k < i ==> {
                        &&& candidate_models((#[trigger] offers@[k]).candidates@)
                            == finished_candidates(slots@[k], self.config.max_candidates)
                        &&& offers@[k].source == finished_source(slots@[k])
                        &&& offers@[k].crop_debug_ref is None
                    },
            decreases slots.len() - i,
        {
            offers.push(finish_slot(&slots[i], self.config.max_candidates));
            i = i + 1;
        }
        Ok(
            AggregatedDetection {
                detection: DetectionResult {
                    expected_offer_count: self.expected_offer_count,
                    offers,
                    minimum_confidence: self.minimum_confidence,
                },
                observed_frames: self.observed_frames,
                minimum_frames: self.config.minimum_frames,
            },
        )
    }
}

/// A request to look at a captured window.
pub struct DetectionRequest {
    pub capture_ref: String,
    pub window_width: u32,
    pub window_height: u32,
    pub retina_scale: Single,
    pub debug_capture: bool,
}

impl DetectionRequest {
    /// What is wrong with a request.
    pub open spec fn fault(&self) -> Option<Seq<char>> {
        if trimmed(self.capture_ref@).len() == 0 || self.window_width == 0 || self.window_height
            == 0 {
            Some("capture reference and non-zero window dimensions are required"@)
        } else if !self.retina_scale.finite() || self.retina_scale.place() <= 0 {
            Some("retina scale must be finite and greater than zero"@)
        } else {
            None
        }
    }

    /// Whether a request can be served.
    pub fn validate(&self) -> (r: Result<(), &'static str>)
        ensures
            match r {
                Ok(()) => self.fault() is None,
                Err(reason) => self.fault() == Some(reason@),
            },
    {
        if text::is_blank(self.capture_ref.as_str()) || self.window_width == 0
            || self.window_height == 0 {
            return Err("capture reference and non-zero window dimensions are required");
        }
        if !self.retina_scale.is_finite() || !(Single { bits: 0 }).is_below(self.retina_scale) {
            return Err("retina scale must be finite and greater than zero");
        }
        Ok(())
    }
}

} // verus!
