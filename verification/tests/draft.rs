use arena_next::fingerprint::{
    CardArtFingerprint, DHash, FingerprintAlgorithm, FingerprintCatalog, RankedCandidate,
    DHASH_BITS,
};
use arena_next::frame::{GrayFrame, PixelFormat, PixelRect, RawFrame, RecognitionError};
use arena_next::recognition::{
    order_candidates, AggregatedDetection, AggregationConfig, ConfidenceAccumulator,
    DetectedOffer, DetectionRequest, DetectionResult, DraftOfferSource, DraftRecognizer,
    FinishedSlot, LayoutFacts, MatcherConfig, MeanCandidate, OfferCandidate, OfferRecommendation,
    RecommendationWithheldReason, RectFault, SlotReading, DEFAULT_MIN_CONFIDENCE_BITS,
};
use arena_next::single::Single;

const DEFAULT_MIN_CONFIDENCE: f32 = 0.80;

fn single(value: f32) -> Single {
    Single { bits: value.to_bits() }
}

fn number(value: Single) -> f32 {
    f32::from_bits(value.bits)
}

fn gray_pattern(kind: u8, width: u32, height: u32) -> GrayFrame {
    let mut pixels = Vec::with_capacity((width * height) as usize);
    for y in 0..height {
        for x in 0..width {
            let bright = match kind {
                0 => (x / 3) % 2 == 0,
                1 => (y / 3) % 2 == 0,
                _ => ((x / 3) + (y / 3)) % 2 == 0,
            };
            pixels.push(if bright { 224 } else { 24 });
        }
    }
    GrayFrame::new(width, height, pixels).unwrap()
}

/// The confidence of a ranked card, which the library leaves to its caller.
fn confidence(candidate: &RankedCandidate, required_margin: u32) -> f32 {
    let similarity = 1.0 - candidate.distance_bits as f32 / DHASH_BITS as f32;
    match candidate.margin_bits {
        Some(margin) => similarity * (margin as f32 / required_margin as f32).min(1.0),
        None => similarity,
    }
}

fn offer(candidates: &[RankedCandidate], required_margin: u32) -> DetectedOffer {
    DetectedOffer {
        candidates: candidates
            .iter()
            .map(|candidate| OfferCandidate {
                card_id: candidate.card_id.clone(),
                confidence: single(confidence(candidate, required_margin)),
                distance: Some(single(candidate.distance_bits as f32 / DHASH_BITS as f32)),
            })
            .collect(),
        source: DraftOfferSource::ScreenCapture,
        crop_debug_ref: None,
    }
}

fn finish(accumulator: &ConfidenceAccumulator) -> AggregatedDetection {
    let frames = accumulator.observed_frames as f32;
    let mut slots: Vec<FinishedSlot> = Vec::new();
    for slot in &accumulator.slots {
        let mut means: Vec<MeanCandidate> = Vec::new();
        for i in 0..slot.len() {
            let evidence = slot.entry_at(i);
            let sum: f32 = evidence.confidences.iter().map(|value| number(*value)).sum();
            let distances: f32 = evidence
                .distances
                .iter()
                .map(|distance| distance.map_or(1.0, number))
                .sum();
            means.push(MeanCandidate {
                candidate: OfferCandidate {
                    card_id: slot.key_at(i).to_owned(),
                    confidence: single(sum / frames),
                    distance: Some(single(distances / evidence.confidences.len() as f32)),
                },
                source: evidence.source,
            });
        }
        let ordered = order_candidates(means);
        let mut first = ordered.first().map_or(0.0, |mean| number(mean.candidate.confidence));
        let required = number(accumulator.config.minimum_candidate_margin);
        if ordered.len() > 1 && required > 0.0 {
            let lead = (first - number(ordered[1].candidate.confidence)).max(0.0);
            first *= (lead / required).min(1.0);
        }
        slots.push(FinishedSlot { ordered, first_confidence: single(first) });
    }
    accumulator.finish(&slots).unwrap()
}

fn offer_result(card_id: &str, confidence: f32) -> DetectionResult {
    DetectionResult {
        expected_offer_count: 3,
        offers: (0..3)
            .map(|_| DetectedOffer {
                candidates: vec![OfferCandidate {
                    card_id: card_id.into(),
                    confidence: single(confidence),
                    distance: Some(single(1.0 - confidence)),
                }],
                source: DraftOfferSource::ScreenCapture,
                crop_debug_ref: None,
            })
            .collect(),
        minimum_confidence: single(DEFAULT_MIN_CONFIDENCE),
    }
}

#[test]
fn raw_frame_validation_rejects_truncated_data_and_handles_padded_bgra() {
    let truncated = RawFrame {
        width: 2,
        height: 1,
        bytes_per_row: 8,
        pixel_format: PixelFormat::Bgra8,
        pixels: vec![0; 7],
    };
    assert!(matches!(
        truncated.validate(),
        Err(RecognitionError::InvalidBufferLength { .. })
    ));

    let padded = RawFrame {
        width: 2,
        height: 1,
        bytes_per_row: 12,
        pixel_format: PixelFormat::Bgra8,
        // blue, green, red, alpha; four bytes of row padding follow.
        pixels: vec![0, 0, 255, 255, 255, 0, 0, 255, 99, 99, 99, 99],
    };
    let luma = padded.to_grayscale().unwrap();
    assert_eq!(luma.pixels, vec![77, 29]);
}

fn layout(layout_version: u32, places: usize) -> LayoutFacts {
    LayoutFacts { layout_version, parts: (0..places).map(|_| None).collect(), overlapping: false }
}

#[test]
fn score_badges_reject_nonstandard_choice_counts() {
    assert!(matches!(
        layout(1, 2).accepts_score_badges(),
        Err(RecognitionError::InvalidGeometry(
            "score badges require exactly three draft card crops"
        ))
    ));
}

#[test]
fn layouts_with_faulty_or_overlapping_parts_are_refused() {
    assert!(layout(1, 3).validate_crops().is_ok());
    assert!(layout(1, 3).validate_badges().is_ok());
    assert!(layout(1, 3).accepts_score_badges().is_ok());
    let mut overlapping = layout(1, 3);
    overlapping.overlapping = true;
    assert!(matches!(
        overlapping.validate_crops(),
        Err(RecognitionError::InvalidGeometry(_))
    ));
    let mut empty = layout(1, 3);
    empty.parts[1] = Some(RectFault::EmptyOrNegative);
    match empty.validate_crops() {
        Err(RecognitionError::InvalidGeometry(reason)) => {
            assert_eq!(reason, RectFault::EmptyOrNegative.reason());
        }
        _ => panic!("a part without a size is refused"),
    }
    assert!(layout(0, 3).validate_crops().is_err());
    assert!(layout(1, 0).validate_crops().is_err());
}

#[test]
fn dhash_is_deterministic_and_preserves_monotonic_brightness_changes() {
    let original = gray_pattern(2, 36, 32);
    let adjusted = GrayFrame::new(
        original.width,
        original.height,
        original.pixels.iter().map(|pixel| pixel / 2 + 50).collect(),
    )
    .unwrap();
    assert_eq!(
        DHash::from_grayscale(&original).unwrap(),
        DHash::from_grayscale(&adjusted).unwrap()
    );
}

#[test]
fn dhash_catalog_values_use_hex_without_losing_legacy_numeric_imports() {
    let value = DHash(0x0123_4567_89ab_cdef);
    assert_eq!(serde_json::to_string(&value.to_hex()).unwrap(), r#""0123456789abcdef""#);
    let text: String = serde_json::from_str(r#""0123456789abcdef""#).unwrap();
    assert_eq!(DHash::from_hex(&text).unwrap().0, value.0);
    assert_eq!(DHash(serde_json::from_str::<u64>("42").unwrap()).0, 42);
}

#[test]
fn hex_text_of_another_shape_is_refused() {
    assert!(DHash::from_hex("0123456789abcde").is_none());
    assert!(DHash::from_hex("0123456789abcdeg").is_none());
    assert_eq!(DHash::from_hex("0123456789ABCDEF"), Some(DHash(0x0123_4567_89ab_cdef)));
    assert_eq!(DHash(0).hamming_distance(DHash(u64::MAX)), 64);
    assert_eq!(DHash(5).hamming_distance(DHash(6)), 2);
}

fn fingerprint(card_id: &str, hash: u64) -> CardArtFingerprint {
    CardArtFingerprint { card_id: card_id.into(), hash: DHash(hash) }
}

#[test]
fn recognizer_matches_three_normalized_window_crops() {
    let cards = [gray_pattern(0, 30, 30), gray_pattern(1, 30, 30), gray_pattern(2, 30, 30)];
    let hashes = [
        DHash::from_grayscale(&cards[0]).unwrap(),
        DHash::from_grayscale(&cards[1]).unwrap(),
        DHash::from_grayscale(&cards[2]).unwrap(),
    ];
    assert!(hashes[0].hamming_distance(hashes[1]) >= 6);
    assert!(hashes[0].hamming_distance(hashes[2]) >= 6);
    assert!(hashes[1].hamming_distance(hashes[2]) >= 6);

    let catalog = FingerprintCatalog::new(vec![
        CardArtFingerprint::from_grayscale("CARD_LEFT".to_owned(), &cards[0]).unwrap(),
        CardArtFingerprint::from_grayscale("CARD_MIDDLE".to_owned(), &cards[1]).unwrap(),
        CardArtFingerprint::from_grayscale("CARD_RIGHT".to_owned(), &cards[2]).unwrap(),
    ])
    .unwrap();
    let config = MatcherConfig::default();
    let recognizer = match DraftRecognizer::new(&layout(1, 3), catalog, config) {
        Ok(recognizer) => recognizer,
        Err(error) => panic!("{}", error.message()),
    };

    let mut pixels = Vec::with_capacity(90 * 30);
    for y in 0..30 {
        for card in &cards {
            let start = y * 30;
            pixels.extend_from_slice(&card.pixels[start..start + 30]);
        }
    }
    let raw = RawFrame {
        width: 90,
        height: 30,
        bytes_per_row: 90,
        pixel_format: PixelFormat::Gray8,
        pixels,
    };
    let rects = vec![
        PixelRect { x: 0, y: 0, width: 30, height: 30 },
        PixelRect { x: 30, y: 0, width: 30, height: 30 },
        PixelRect { x: 60, y: 0, width: 30, height: 30 },
    ];
    let output: Vec<SlotReading> = match recognizer.analyze_frame(&raw, &rects) {
        Ok(output) => output,
        Err(error) => panic!("{}", error.message()),
    };
    assert_eq!(output.len(), 3);
    let detection = DetectionResult {
        expected_offer_count: recognizer.places,
        offers: output
            .iter()
            .map(|slot| offer(&slot.candidates, config.minimum_hash_margin_bits))
            .collect(),
        minimum_confidence: config.minimum_confidence,
    };
    assert_eq!(
        detection.selected_card_ids(),
        Some(vec!["CARD_LEFT".into(), "CARD_MIDDLE".into(), "CARD_RIGHT".into()])
    );
}

#[test]
fn close_hash_tie_is_withheld_instead_of_recommended() {
    let catalog =
        FingerprintCatalog::new(vec![fingerprint("A", 0), fingerprint("B", 1)]).unwrap();
    let config = MatcherConfig::default();
    let candidates = catalog.rank_candidates(DHash(0), config).unwrap();
    assert!(confidence(&candidates[0], config.minimum_hash_margin_bits) < DEFAULT_MIN_CONFIDENCE);
    let result = DetectionResult {
        expected_offer_count: 3,
        offers: (0..3)
            .map(|_| offer(&candidates, config.minimum_hash_margin_bits))
            .collect(),
        minimum_confidence: single(DEFAULT_MIN_CONFIDENCE),
    };
    assert!(matches!(
        result.recommendation(),
        OfferRecommendation::Withheld {
            reason: RecommendationWithheldReason::LowConfidence { .. }
        }
    ));
    assert_eq!(result.selected_card_ids(), None);
}

#[test]
fn aggregation_requires_repeated_stable_observations() {
    let mut accumulator = match ConfidenceAccumulator::new(
        AggregationConfig::default(),
        single(DEFAULT_MIN_CONFIDENCE),
    ) {
        Ok(accumulator) => accumulator,
        Err(error) => panic!("{}", error.message()),
    };
    accumulator.observe(&offer_result("CS2_029", 0.95)).unwrap();
    let first = finish(&accumulator);
    assert!(matches!(
        first.recommendation(),
        OfferRecommendation::Withheld {
            reason: RecommendationWithheldReason::InsufficientObservations { .. }
        }
    ));

    accumulator.observe(&offer_result("CS2_029", 0.95)).unwrap();
    let second = finish(&accumulator);
    assert!(second.is_actionable());
    assert_eq!(
        second.recommendation(),
        OfferRecommendation::Ready {
            card_ids: vec!["CS2_029".into(), "CS2_029".into(), "CS2_029".into()],
        }
    );
}

#[test]
fn calibrated_five_item_layout_is_not_forced_through_three_card_logic() {
    let geometry = layout(7, 5);
    assert!(geometry.validate_crops().is_ok());
    assert_eq!(geometry.parts.len(), 5);

    let result = DetectionResult {
        expected_offer_count: 5,
        offers: (0..5)
            .map(|_| DetectedOffer {
                candidates: vec![OfferCandidate {
                    card_id: "CS2_029".into(),
                    confidence: single(0.95),
                    distance: Some(single(0.05)),
                }],
                source: DraftOfferSource::ScreenCapture,
                crop_debug_ref: None,
            })
            .collect(),
        minimum_confidence: single(DEFAULT_MIN_CONFIDENCE),
    };
    let mut accumulator = match ConfidenceAccumulator::for_offer_count(
        AggregationConfig::default(),
        single(DEFAULT_MIN_CONFIDENCE),
        5,
    ) {
        Ok(accumulator) => accumulator,
        Err(error) => panic!("{}", error.message()),
    };
    accumulator.observe(&result).unwrap();
    accumulator.observe(&result).unwrap();

    assert_eq!(
        finish(&accumulator).recommendation(),
        OfferRecommendation::Ready {
            card_ids: vec![
                "CS2_029".into(),
                "CS2_029".into(),
                "CS2_029".into(),
                "CS2_029".into(),
                "CS2_029".into(),
            ],
        }
    );
}

#[test]
fn low_confidence_detection_cannot_become_a_recommendation() {
    let result = offer_result("CS2_029", 0.79);
    assert!(!result.is_actionable());
    assert_eq!(result.selected_card_ids(), None);
}

#[test]
fn a_catalog_names_each_card_once() {
    assert!(matches!(
        FingerprintCatalog::new(Vec::new()),
        Err(RecognitionError::EmptyFingerprintCatalog)
    ));
    assert!(matches!(
        FingerprintCatalog::new(vec![fingerprint(" ", 1)]),
        Err(RecognitionError::InvalidCardId)
    ));
    assert!(matches!(
        FingerprintCatalog::new(vec![fingerprint("A", 1), fingerprint("A", 2)]),
        Err(RecognitionError::DuplicateCardId(id)) if id == "A"
    ));
    let catalog = FingerprintCatalog::new(vec![fingerprint("A", 1)]).unwrap();
    assert_eq!(catalog.algorithm, FingerprintAlgorithm::DHashLumaV1);
}

#[test]
fn frames_of_a_wrong_shape_are_refused() {
    let frame = |width: u32, height: u32, bytes_per_row: usize, length: usize| RawFrame {
        width,
        height,
        bytes_per_row,
        pixel_format: PixelFormat::Rgba8,
        pixels: vec![0; length],
    };
    assert!(matches!(frame(0, 1, 8, 8).validate(), Err(RecognitionError::EmptyFrame)));
    assert!(matches!(
        frame(2, 1, 7, 7).validate(),
        Err(RecognitionError::InvalidBytesPerRow { actual: 7, minimum: 8 })
    ));
    assert!(matches!(
        frame(20_000, 1, 80_000, 80_000).validate(),
        Err(RecognitionError::FrameTooLarge)
    ));
    let gray = gray_pattern(0, 4, 4);
    assert!(matches!(
        gray.crop(PixelRect { x: 2, y: 2, width: 3, height: 1 }),
        Err(RecognitionError::CropOutOfBounds)
    ));
    assert!(matches!(
        gray.crop(PixelRect { x: 0, y: 0, width: 0, height: 1 }),
        Err(RecognitionError::EmptyCrop)
    ));
    let part = gray.crop(PixelRect { x: 1, y: 2, width: 2, height: 1 }).unwrap();
    assert_eq!(part.pixels, gray.pixels[9..11]);
}

#[test]
fn evidence_that_does_not_fit_is_refused() {
    let fresh = || {
        match ConfidenceAccumulator::new(
            AggregationConfig::default(),
            Single { bits: DEFAULT_MIN_CONFIDENCE_BITS },
        ) {
            Ok(accumulator) => accumulator,
            Err(error) => panic!("{}", error.message()),
        }
    };
    assert!(matches!(
        fresh().finish(&Vec::new()),
        Err(RecognitionError::NoObservations)
    ));
    let mut short = offer_result("A", 0.9);
    short.offers.pop();
    assert!(matches!(
        fresh().observe(&short),
        Err(RecognitionError::ExpectedOfferCount { expected: 3, actual: 2 })
    ));
    assert!(matches!(
        fresh().observe(&offer_result("A", 1.5)),
        Err(RecognitionError::InvalidCandidateEvidence)
    ));
    let mut config = MatcherConfig::default();
    config.max_candidates = 0;
    assert!(matches!(config.validate(), Err(RecognitionError::InvalidMatcherConfig(_))));
    let mut aggregation = AggregationConfig::default();
    aggregation.minimum_frames = 0;
    assert!(matches!(
        aggregation.validate(),
        Err(RecognitionError::InvalidAggregationConfig(_))
    ));
}

#[test]
fn an_offer_is_withheld_for_each_reason() {
    let mut missing = offer_result("A", 0.95);
    missing.offers[1].candidates.clear();
    assert!(matches!(
        missing.recommendation(),
        OfferRecommendation::Withheld {
            reason: RecommendationWithheldReason::MissingCandidate { slot: 1 }
        }
    ));
    let mut threshold = offer_result("A", 0.95);
    threshold.minimum_confidence = single(f32::NAN);
    assert!(matches!(
        threshold.recommendation(),
        OfferRecommendation::Withheld {
            reason: RecommendationWithheldReason::InvalidConfidenceThreshold
        }
    ));
    let mut short = offer_result("A", 0.95);
    short.offers.pop();
    assert!(matches!(
        short.recommendation(),
        OfferRecommendation::Withheld {
            reason: RecommendationWithheldReason::ExpectedOfferCount { expected: 3, actual: 2 }
        }
    ));
}

#[test]
fn requests_need_a_capture_and_a_window() {
    let request = |capture_ref: &str, width: u32, scale: f32| DetectionRequest {
        capture_ref: capture_ref.to_owned(),
        window_width: width,
        window_height: 100,
        retina_scale: single(scale),
        debug_capture: false,
    };
    assert!(request("capture-1", 100, 2.0).validate().is_ok());
    assert!(request(" ", 100, 2.0).validate().is_err());
    assert!(request("capture-1", 0, 2.0).validate().is_err());
    assert!(request("capture-1", 100, f32::INFINITY).validate().is_err());
    assert!(request("capture-1", 100, 0.0).validate().is_err());
}

#[test]
fn numbers_are_compared_by_their_bits() {
    assert!(single(0.5).is_below(single(0.6)));
    assert!(single(-1.0).is_below(single(0.0)));
    assert!(!single(0.0).is_below(single(-0.0)));
    assert!(single(1.0).is_in_unit());
    assert!(single(-0.0).is_in_unit());
    assert!(!single(1.0000001).is_in_unit());
    assert!(!single(f32::NAN).is_finite());
    for (left, right) in [(0.5f32, 0.25f32), (-0.0, 0.0), (f32::NAN, 1.0), (-3.0, -2.0)] {
        assert_eq!(
            single(left).precedes(single(right)),
            left.total_cmp(&right) == std::cmp::Ordering::Less
        );
    }
}
