//! What pictures, fingerprints and recognised offers say.
use crate::card_laws::{blank, trimming_takes_white_space_only};
use crate::fingerprint::{
    brightens, cards_fault, catalog_fault, distance, fingerprints, hex_digit, is_hex, is_ranking,
    margin, measured, named_before, nearer, sample_place, DHash, FingerprintCatalog,
};
use crate::frame::{
    luma_of, FaultModel, GrayFrame, PixelFormat, PixelRect, RawFrame, RecognitionError,
};
use crate::import_laws::whole_values_are_their_numbers;
use crate::imports::whole;
use crate::recognition::{
    after_candidates, after_places, by_confidence, candidate_models, evidence_fault,
    finished_candidates, finished_source, first_rect_fault, is_gray_of, matching_fault, slot_fault,
    slots_fault, surer, took_in, with_candidate, AggregatedDetection, AggregationConfig,
    CandidateModel, ConfidenceAccumulator, DetectedOffer, DetectionRequest, DetectionResult,
    DraftOfferSource, EvidenceModel, FinishedSlot, LayoutFacts, MatcherConfig, RecommendationModel,
    RecommendationWithheldReason, RectFault,
};
use crate::setup_laws::same_letter;
use crate::single::Single;
use crate::text::text_lt;
use vstd::prelude::*;

verus! {

/// Where in a pixel a format keeps its red.
pub open spec fn red_place(format: PixelFormat) -> int {
    match format {
        PixelFormat::Bgra8 => 2,
        PixelFormat::Argb8 => 1,
        _ => 0,
    }
}

/// Where in a pixel a format keeps its green.
pub open spec fn green_place(format: PixelFormat) -> int {
    match format {
        PixelFormat::Argb8 => 2,
        PixelFormat::Gray8 => 0,
        _ => 1,
    }
}

/// Where in a pixel a format keeps its blue.
pub open spec fn blue_place(format: PixelFormat) -> int {
    match format {
        PixelFormat::Rgba8 => 2,
        PixelFormat::Argb8 => 3,
        _ => 0,
    }
}

/// The place of a pixel among the bytes of a frame.
pub open spec fn pixel_place(frame: RawFrame, x: int, y: int) -> int {
    y * frame.bytes_per_row + x * if frame.pixel_format is Gray8 {
        1int
    } else {
        4
    }
}

/// The brightness of a pixel is the grey of its red, green and blue, wherever its format keeps
/// them; a grey picture keeps its own.
pub proof fn brightness_follows_the_colours(frame: RawFrame, x: int, y: int)
    ensures
        ({
            let at = pixel_place(frame, x, y);
            let f = frame.pixel_format;
            frame.gray_at(x, y) == if f is Gray8 {
                frame.pixels@[at]
            } else {
                luma_of(
                    frame.pixels@[at + red_place(f)],
                    frame.pixels@[at + green_place(f)],
                    frame.pixels@[at + blue_place(f)],
                )
            }
        }),
{
}

/// A grey colour is as bright as itself, a brighter colour is no darker, and green counts more than
/// red, which counts more than blue. The brightness is the weighted mean of the three, rounded.
pub proof fn grey_is_the_weighted_mean(r: u8, g: u8, b: u8, s: u8)
    ensures
        luma_of(s, s, s) == s,
        s >= r ==> luma_of(s, g, b) >= luma_of(r, g, b),
        s >= g ==> luma_of(r, s, b) >= luma_of(r, g, b),
        s >= b ==> luma_of(r, g, s) >= luma_of(r, g, b),
        luma_of(0, s, 0) >= luma_of(s, 0, 0) >= luma_of(0, 0, s),
        -128 <= 256 * luma_of(r, g, b) - (77 * r + 150 * g + 29 * b) <= 128,
{
}

/// A frame is taken only with sides from one to 16384 pixels, rows that hold their pixels, and as
/// many bytes as the rows need, 128 mebibytes at most.
pub proof fn frames_hold_their_pixels(frame: RawFrame, gray: GrayFrame)
    ensures
        ({
            let row = frame.width * if frame.pixel_format is Gray8 {
                1int
            } else {
                4
            };
            let all = frame.bytes_per_row * frame.height;
            &&& frame.fault() is None <==> 1 <= frame.width <= 16384 && 1 <= frame.height <= 16384
                && frame.bytes_per_row >= row && all <= 134217728 && frame.pixels@.len() == all
            &&& frame.fault() == Some(FaultModel::EmptyFrame) <==> frame.width == 0 || frame.height
                == 0
        }),
        gray.fault() is None <==> 1 <= gray.width <= 16384 && 1 <= gray.height <= 16384
            && gray.width * gray.height <= 134217728 && gray.pixels@.len() == gray.width
            * gray.height,
{
    assert(frame.width as nat * 4 == frame.width * 4int);
    assert(frame.width as nat * 1 == frame.width * 1int);
}

/// A part of a frame can be cut out exactly where it is not empty and lies within the frame.
pub proof fn parts_lie_within_their_frame(rect: PixelRect, width: u32, height: u32)
    ensures
        rect.fault_within(width, height) is None <==> rect.width > 0 && rect.height > 0 && rect.x
            + rect.width <= width && rect.y + rect.height <= height,
        rect.fault_within(width, height) == Some(FaultModel::EmptyCrop) <==> rect.width == 0
            || rect.height == 0,
{
}

/// A sample stands where it stands in the picture, in proportion, and within it.
pub proof fn samples_stand_in_proportion(sample: int, source: int, samples: int)
    requires
        0 <= sample < samples,
        0 < source,
    ensures
        ({
            let at = sample_place(sample, source, samples);
            &&& 0 <= at < source
            &&& at * samples <= sample * source
            &&& sample * source < (at + 1) * samples
        }),
{
    let at = sample_place(sample, source, samples);
    vstd::arithmetic::div_mod::lemma_fundamental_div_mod(sample * source, samples);
    vstd::arithmetic::div_mod::lemma_mod_bound(sample * source, samples);
    assert(sample * source >= 0 && sample * source < samples * source) by (nonlinear_arith)
        requires
            0 <= sample < samples,
            0 < source,
    ;
    vstd::arithmetic::div_mod::lemma_div_pos_is_pos(sample * source, samples);
    assert(samples * at == at * samples) by (nonlinear_arith);
    assert((at + 1) * samples == at * samples + samples) by (nonlinear_arith);
    if at >= source {
        assert(at * samples >= source * samples) by (nonlinear_arith)
            requires
                at >= source,
                samples > 0,
        ;
        assert(source * samples == samples * source) by (nonlinear_arith);
    }
}

/// A bit of a fingerprint says whether a sample is brighter than its left neighbour, row by row of
/// eight, in a grid of nine by eight samples.
pub proof fn bits_compare_neighbours(frame: GrayFrame, x: int, y: int)
    requires
        0 <= x < 8,
        0 <= y < 8,
    ensures
        brightens(frame, 8 * y + x) <==> frame.at(
            sample_place(x + 1, frame.width as int, 9),
            sample_place(y, frame.height as int, 8),
        ) > frame.at(
            sample_place(x, frame.width as int, 9),
            sample_place(y, frame.height as int, 8),
        ),
{
}

/// The first card of a ranking is one of the nearest, and of several equally near ones the one
/// whose id comes first. The margin is how much further away the second one is.
pub proof fn the_nearest_card_comes_first(
    v: Seq<(Seq<char>, nat)>,
    cards: Seq<(Seq<char>, DHash)>,
    observed: DHash,
    i: int,
    required: u32,
)
    requires
        is_ranking(v, cards, observed),
        0 <= i < cards.len(),
    ensures
        v.len() > 0,
        v[0].1 <= distance(observed, cards[i].1),
        v[0].1 == distance(observed, cards[i].1) ==> v[0].0 == cards[i].0 || text_lt(
            v[0].0,
            cards[i].0,
        ),
        exists|k: int|
            0 <= k < cards.len() && (#[trigger] cards[k]).0 == v[0].0 && distance(
                observed,
                cards[k].1,
            ) == v[0].1,
        required > 0 && v.len() > 1 ==> margin(v, required) is Some && margin(v, required)->0
            + v[0].1 == v[1].1,
        required == 0 || v.len() <= 1 ==> margin(v, required) is None,
{
    let all = measured(cards, observed);
    let own = (cards[i].0, distance(observed, cards[i].1));
    assert(all[i] == own);
    assert(all.contains(own));
    assert(v.contains(own));
    let j = choose|j: int| 0 <= j < v.len() && v[j] == own;
    if j > 0 {
        assert(nearer(v[0], v[j]));
    }
    assert(v.contains(v[0]));
    assert(all.contains(v[0]));
    let k = choose|k: int| 0 <= k < all.len() && all[k] == v[0];
    assert(cards[k].0 == v[0].0);
    if v.len() > 1 {
        assert(nearer(v[0], v[1]));
    }
}

/// A catalog of fingerprints is sound exactly where it has cards, none without an id and none
/// twice.
pub proof fn catalogs_name_each_card_once(cards: Seq<(Seq<char>, DHash)>)
    ensures
        catalog_fault(cards) is None <==> {
            &&& cards.len() > 0
            &&& forall|i: int| 0 <= i < cards.len() ==> !blank((#[trigger] cards[i]).0)
            &&& forall|i: int, j: int|
                0 <= i < j < cards.len() ==> (#[trigger] cards[i]).0 != (#[trigger] cards[j]).0
        },
        catalog_fault(cards) == Some(FaultModel::EmptyFingerprintCatalog) <==> cards.len() == 0,
{
    if cards.len() > 0 {
        first_cards_fault(cards, cards.len() as int);
    }
}

/// Whether the first cards all have ids, each its own.
pub open spec fn each_named_once(cards: Seq<(Seq<char>, DHash)>, n: int) -> bool {
    &&& forall|i: int| 0 <= i < n ==> !blank((#[trigger] cards[i]).0)
    &&& forall|i: int, j: int| 0 <= i < j < n ==> (#[trigger] cards[i]).0 != (#[trigger] cards[j]).0
}

proof fn first_cards_fault(cards: Seq<(Seq<char>, DHash)>, n: int)
    requires
        0 <= n <= cards.len(),
    ensures
        cards_fault(cards, n) is None <==> each_named_once(cards, n),
        cards_fault(cards, n) != Some(FaultModel::EmptyFingerprintCatalog),
    decreases n,
{
    if n > 0 {
        first_cards_fault(cards, n - 1);
        trimming_takes_white_space_only(cards[n - 1].0);
        if named_before(cards, cards[n - 1].0, n - 1) {
            let k = choose|k: int| 0 <= k < n - 1 && (#[trigger] cards[k]).0 == cards[n - 1].0;
            assert(cards[k].0 == cards[n - 1].0);
        }
        if cards_fault(cards, n) is None {
            assert(each_named_once(cards, n - 1));
            assert forall|i: int, j: int| 0 <= i < j < n implies (#[trigger] cards[i]).0 != (
            #[trigger] cards[j]).0 by {
                if j == n - 1 {
                    assert(!named_before(cards, cards[n - 1].0, n - 1));
                }
            }
            assert forall|i: int| 0 <= i < n implies !blank((#[trigger] cards[i]).0) by {
                if i == n - 1 {
                }
            }
        }
        if each_named_once(cards, n) {
            assert(each_named_once(cards, n - 1));
            assert(!blank(cards[n - 1].0));
        }
    }
}

/// A single-precision number lies between zero and one exactly where it is a zero, or positive and
/// not above one.
pub proof fn units_run_from_zero_to_one(s: Single)
    ensures
        s.in_unit() <==> s.bits == 0x8000_0000 || s.bits <= whole(1).bits,
        s.finite() <==> (s.bits / 0x80_0000) % 256 != 255,
{
    vstd::arithmetic::power2::lemma2_to64();
    whole_values_are_their_numbers(1, 0);
    let b = s.bits;
    assert((b / 0x80_0000) % 256 != 255 <==> (if b >= 0x8000_0000 {
        b - 0x8000_0000
    } else {
        b as int
    }) < 0x7f80_0000) by (bit_vector);
}

/// Recognition can be set up exactly with a least confidence between zero and one, a margin of at
/// most sixty-four bits and room for a candidate; and its frames are joined exactly with at
/// least one frame, a margin between zero and one and room for a candidate.
pub proof fn recognition_needs_sound_settings(m: MatcherConfig, a: AggregationConfig)
    ensures
        m.fault() is None <==> m.minimum_confidence.finite() && m.minimum_confidence.in_unit()
            && m.minimum_hash_margin_bits <= 64 && m.max_candidates > 0,
        a.fault() is None <==> a.minimum_frames > 0 && a.minimum_candidate_margin.finite()
            && a.minimum_candidate_margin.in_unit() && a.max_candidates > 0,
{
}

/// Whether an offer was recognised: its best candidate names a card, and is sure enough.
pub open spec fn recognised(offer: DetectedOffer, minimum: Single) -> bool {
    let c = offer.candidates@;
    &&& c.len() > 0
    &&& !blank(c[0].card_id@)
    &&& c[0].confidence.finite()
    &&& c[0].confidence.place() >= minimum.place()
}

proof fn faultless_slots_are_recognised(
    offers: Seq<DetectedOffer>,
    minimum: Single,
    n: int,
)
    requires
        0 <= n <= offers.len(),
    ensures
        slots_fault(offers, minimum, n) is None <==> forall|i: int|
            0 <= i < n ==> recognised(#[trigger] offers[i], minimum),
        slots_fault(offers, minimum, n) matches Some(reason) ==> exists|i: int|
            0 <= i < n && !recognised(#[trigger] offers[i], minimum) && Some(reason) == slot_fault(
                offers,
                i,
                minimum,
            ) && forall|j: int| 0 <= j < i ==> recognised(#[trigger] offers[j], minimum),
    decreases n,
{
    if n > 0 {
        faultless_slots_are_recognised(offers, minimum, n - 1);
        if offers[n - 1].candidates@.len() > 0 {
            trimming_takes_white_space_only(offers[n - 1].candidates@[0].card_id@);
        }
        assert(slot_fault(offers, n - 1, minimum) is None <==> recognised(offers[n - 1], minimum));
        if slots_fault(offers, minimum, n - 1) is Some {
            let reason = slots_fault(offers, minimum, n - 1)->0;
            let i = choose|i: int|
                0 <= i < n - 1 && !recognised(#[trigger] offers[i], minimum) && Some(reason)
                    == slot_fault(offers, i, minimum) && forall|j: int|
                    0 <= j < i ==> recognised(#[trigger] offers[j], minimum);
            assert(!recognised(offers[i], minimum));
        }
    }
}

/// Cards are recommended exactly where all places of the layout were recognised, and then they are
/// the best candidates, place by place. Otherwise the first place that was not is told: as
/// missing where it has no candidate, and else as not sure enough.
pub proof fn recommendations_name_the_best_candidates(d: DetectionResult)
    ensures
        ({
            let n = d.offers@.len();
            let sound = d.minimum_confidence.finite() && d.minimum_confidence.in_unit();
            let whole_offer = d.expected_offer_count > 0 && n == d.expected_offer_count;
            &&& d.advice() is Ready <==> whole_offer && sound && forall|i: int|
                0 <= i < n ==> recognised(#[trigger] d.offers@[i], d.minimum_confidence)
            &&& d.advice() matches RecommendationModel::Ready { card_ids } ==> card_ids.len() == n
                && forall|i: int|
                0 <= i < n ==> #[trigger] card_ids[i] == d.offers@[i].candidates@[0].card_id@
            &&& d.advice() matches RecommendationModel::Withheld { reason } ==> {
                &&& reason is ExpectedOfferCount <==> !whole_offer
                &&& reason is InvalidConfidenceThreshold <==> whole_offer && !sound
                &&& reason matches RecommendationWithheldReason::MissingCandidate { slot } ==> slot < n
                    && d.offers@[slot as int].candidates@.len() == 0
                &&& reason matches RecommendationWithheldReason::LowConfidence {
                    slot,
                    confidence,
                    required,
                } ==> slot < n && d.offers@[slot as int].candidates@.len() > 0 && confidence
                    == d.offers@[slot as int].candidates@[0].confidence && required
                    == d.minimum_confidence && !recognised(
                    d.offers@[slot as int],
                    d.minimum_confidence,
                )
            }
        }),
{
    let n = d.offers@.len() as int;
    faultless_slots_are_recognised(d.offers@, d.minimum_confidence, n);
    if n == d.expected_offer_count && slots_fault(d.offers@, d.minimum_confidence, n) is Some {
        let reason = slots_fault(d.offers@, d.minimum_confidence, n)->0;
        let i = choose|i: int|
            0 <= i < n && !recognised(#[trigger] d.offers@[i], d.minimum_confidence) && Some(reason)
                == slot_fault(d.offers@, i, d.minimum_confidence) && forall|j: int|
                0 <= j < i ==> recognised(#[trigger] d.offers@[j], d.minimum_confidence);
        assert(i as usize == i);
    }
}

/// Joined frames recommend what they show together, once enough frames were seen.
pub proof fn recommendations_wait_for_enough_frames(a: AggregatedDetection)
    ensures
        a.observed_frames >= a.minimum_frames ==> a.advice() == a.detection.advice(),
        a.observed_frames < a.minimum_frames ==> a.advice() == (RecommendationModel::Withheld {
            reason: RecommendationWithheldReason::InsufficientObservations {
                observed: a.observed_frames,
                required: a.minimum_frames,
            },
        }),
{
}

/// What is seen of a card is added to what was seen of it, and changes nothing for other cards. The
/// source stays the first one.
pub proof fn evidence_is_added_to_its_own_card(
    m: Map<Seq<char>, EvidenceModel>,
    c: CandidateModel,
    source: DraftOfferSource,
    id: Seq<char>,
)
    ensures
        ({
            let then = with_candidate(m, c, source);
            &&& id != c.card_id ==> then.contains_key(id) == m.contains_key(id) && (m.contains_key(
                id,
            ) ==> then[id] == m[id])
            &&& then.contains_key(c.card_id)
            &&& then[c.card_id].confidences.last() == c.confidence
            &&& then[c.card_id].distances.last() == c.distance
            &&& m.contains_key(c.card_id) ==> then[c.card_id].confidences.len()
                == m[c.card_id].confidences.len() + 1 && then[c.card_id].source
                == m[c.card_id].source && m[c.card_id].confidences.is_prefix_of(
                then[c.card_id].confidences,
            )
            &&& !m.contains_key(c.card_id) ==> then[c.card_id].confidences.len() == 1
                && then[c.card_id].source == source
        }),
{
    let then = with_candidate(m, c, source);
    if m.contains_key(c.card_id) {
        let before = m[c.card_id].confidences;
        assert(before.push(c.confidence).take(before.len() as int) =~= before);
    }
}

/// What is seen of a card counts only with an id, a finite confidence, and a distance between zero
/// and one, if any.
pub proof fn sound_evidence_counts(c: CandidateModel)
    ensures
        evidence_fault(c) is None <==> !blank(c.card_id) && c.confidence.finite() && (c.distance matches Some(
            d,
        ) ==> d.finite() && d.in_unit()),
        evidence_fault(c) == Some(FaultModel::InvalidCardId) <==> blank(c.card_id),
{
    trimming_takes_white_space_only(c.card_id);
}

/// The surest candidate comes first, and of several equally sure ones the one whose id comes
/// first. Of the ordered candidates no more are kept than there is room for.
pub proof fn the_surest_candidate_comes_first(
    v: Seq<(CandidateModel, DraftOfferSource)>,
    all: Seq<(CandidateModel, DraftOfferSource)>,
    i: int,
    slot: FinishedSlot,
    most: usize,
)
    requires
        by_confidence(v, all),
        0 <= i < all.len(),
    ensures
        v[0].0.confidence.total_place() >= all[i].0.confidence.total_place(),
        v[0].0.confidence.total_place() == all[i].0.confidence.total_place() ==> v[0] == all[i]
            || text_lt(v[0].0.card_id, all[i].0.card_id),
        finished_candidates(slot, most).len() <= most,
        finished_candidates(slot, most).len() <= slot.ordered@.len(),
        finished_candidates(slot, most).len() == most || finished_candidates(slot, most).len()
            == slot.ordered@.len(),
        forall|k: int|
            0 <= k < finished_candidates(slot, most).len() ==> (#[trigger] finished_candidates(
                slot,
                most,
            )[k]).card_id == slot.ordered@[k].candidate.card_id@,
{
    assert(all.contains(all[i]));
    assert(v.contains(all[i]));
    let j = choose|j: int| 0 <= j < v.len() && v[j] == all[i];
    if j > 0 {
        assert(surer(v[0], v[j]));
    }
}

/// A request names a capture, a window with both sides and a positive finite scale.
pub proof fn requests_name_a_capture_and_a_window(r: DetectionRequest)
    ensures
        r.fault() is None <==> !blank(r.capture_ref@) && r.window_width > 0 && r.window_height > 0
            && r.retina_scale.finite() && r.retina_scale.place() > 0,
{
    trimming_takes_white_space_only(r.capture_ref@);
}

/// A layout can be used exactly where it has a version, every part of it is sound, and no two
/// overlap. One of crops has at least one part.
pub proof fn layouts_have_sound_parts(l: LayoutFacts)
    ensures
        ({
            let sound = l.layout_version > 0 && !l.overlapping && forall|i: int|
                0 <= i < l.parts@.len() ==> (#[trigger] l.parts@[i]) is None;
            &&& l.crop_fault() is None <==> sound && l.parts@.len() > 0
            &&& l.badge_fault() is None <==> sound
        }),
{
    first_fault_of_a_part(l.parts@);
}

proof fn first_fault_of_a_part(parts: Seq<Option<RectFault>>)
    ensures
        first_rect_fault(parts) is None <==> forall|i: int|
            0 <= i < parts.len() ==> (#[trigger] parts[i]) is None,
    decreases parts.len(),
{
    if parts.len() > 0 {
        let rest = parts.drop_last();
        first_fault_of_a_part(rest);
        if first_rect_fault(parts) is None {
            assert forall|i: int| 0 <= i < parts.len() implies (#[trigger] parts[i]) is None by {
                if i < rest.len() {
                    assert(rest[i] == parts[i]);
                }
            }
        }
        if forall|i: int| 0 <= i < parts.len() ==> (#[trigger] parts[i]) is None {
            assert forall|i: int| 0 <= i < rest.len() implies (#[trigger] rest[i]) is None by {
                assert(rest[i] == parts[i]);
            }
            assert(parts[parts.len() - 1] is None);
        }
    }
}

/// What was seen at a place is added to that place alone: up to as many candidates as count, and
/// no place changes what is known of another.
pub proof fn evidence_is_added_place_by_place(
    slots: Seq<Map<Seq<char>, EvidenceModel>>,
    offers: Seq<DetectedOffer>,
    most: usize,
    n: int,
    i: int,
)
    requires
        0 <= n <= offers.len(),
        slots.len() == offers.len(),
        0 <= i < slots.len(),
        after_places(slots, offers, most, n).1 is None,
    ensures
        ({
            let after = after_places(slots, offers, most, n).0;
            let seen = candidate_models(offers[i].candidates@);
            let all = after_candidates(slots[i], seen, offers[i].source, seen.len() as int).0;
            let some = after_candidates(slots[i], seen, offers[i].source, most as int).0;
            &&& after.len() == slots.len()
            &&& i >= n ==> after[i] == slots[i]
            &&& i < n && seen.len() <= most ==> after[i] == all
            &&& i < n && most <= seen.len() ==> after[i] == some
        }),
    decreases n,
{
    if n > 0 {
        evidence_is_added_place_by_place(slots, offers, most, n - 1, i);
        evidence_is_added_place_by_place(slots, offers, most, n - 1, n - 1);
    }
}

/// A result is taken in only where it is of the whole layout. A refused one changes nothing, and
/// one that is taken in counts as one more frame.
pub proof fn whole_results_count_as_frames(
    before: ConfidenceAccumulator,
    result: DetectionResult,
    after: ConfidenceAccumulator,
    r: Result<(), RecognitionError>,
)
    requires
        took_in(before, result, after, r),
    ensures
        ({
            let layout = before.expected_offer_count;
            let whole = result.expected_offer_count == layout && result.offers@.len() == layout;
            &&& !whole ==> r is Err && after.observed_frames == before.observed_frames
                && after.slots == before.slots
            &&& whole && before.observed_frames < u32::MAX ==> after.observed_frames
                == before.observed_frames + 1
            &&& r is Ok ==> whole && after.observed_frames == before.observed_frames + 1
            &&& after.minimum_confidence == before.minimum_confidence
            &&& after.expected_offer_count == before.expected_offer_count
        }),
{
}

/// Cards are matched only where the catalog and the settings are both sound.
pub proof fn matching_needs_a_sound_catalog(catalog: FingerprintCatalog, config: MatcherConfig)
    ensures
        matching_fault(catalog, config) is None <==> catalog_fault(
            fingerprints(catalog.cards@),
        ) is None && config.fault() is None,
        catalog_fault(fingerprints(catalog.cards@)) is Some ==> matching_fault(catalog, config)
            == catalog_fault(fingerprints(catalog.cards@)),
{
}

/// What is known of a place at the end comes from where its surest candidate was seen.
pub proof fn places_come_from_their_surest_candidate(slot: FinishedSlot)
    ensures
        slot.ordered@.len() > 0 ==> finished_source(slot) == slot.ordered@.first().source,
        slot.ordered@.len() == 0 ==> finished_source(slot) is ScreenCapture,
{
}

/// A digit is worth the same in either case, and sixteen digits follow each other.
pub proof fn hex_digits_have_their_value(c: char, d: char)
    requires
        is_hex(c),
        is_hex(d),
    ensures
        same_letter(c, d) <==> hex_digit(c) == hex_digit(d),
        hex_digit(c) < 16,
        c == '0' ==> hex_digit(c) == 0,
        '0' <= c <= '9' && d as int == c as int + 1 && d != ':' ==> hex_digit(d) == hex_digit(c) + 1,
        c == '9' && d == 'a' ==> hex_digit(d) == hex_digit(c) + 1,
        'a' <= c && d as int == c as int + 1 ==> hex_digit(d) == hex_digit(c) + 1,
{
}

/// A grey frame has the size of the frame it was made of, and at each place the brightness of the
/// pixel there.
pub proof fn grey_frames_keep_their_size(gray: GrayFrame, frame: RawFrame)
    requires
        is_gray_of(gray, frame),
    ensures
        gray.width == frame.width,
        gray.height == frame.height,
        gray.pixels@ == frame.gray_rows(frame.height as int),
{
}

} // verus!
