//! Looking at the screen for the deck panel and for the art of offered cards: when to look, and
//! what a look changes.
//!
//! Times are milliseconds of a clock that never goes back. Capturing is done by the caller.
use crate::draft_view::{
    copy_text, draft_key, draft_status, key_model, redraft_capture_status, redraft_capture_text,
    same_text, shows_line, unresolved_draft_key, visible_draft_pick_number, visible_pick, DraftKey,
};
use crate::frame::{RawFrame, RecognitionError};
use crate::offer_ocr::{due, is_due, DRAFT_CAPTURE_INTERVAL_MILLIS};
use crate::overlay::ExternalDraftModel;
use crate::recognition::{took_in, AggregationConfig, ConfidenceAccumulator, DetectionResult};
use crate::sidebar::{counts_are, DeckCount, SidebarDeckRead, SidebarDeckStatus};
use crate::snapshot::{ArenaDraftPhase, ObserverSnapshot};
use crate::state::opt_text;
use crate::text::{self, decimal, texts};
use crate::text_map::TextMap;
use vstd::prelude::*;

verus! {

/// The state of reading the deck panel. A panel counts as the deck only after two reads that agree.
pub struct DeckSidebarWorker {
    pub current_run: Option<String>,
    /// The cards and the counter of a complete read that is not confirmed yet.
    pub pending: Option<(TextMap<u8>, u8)>,
    pub pending_count: Option<DeckCount>,
    pub last_capture_at: Option<u64>,
    pub last_activation_generation: u64,
}

/// The model of the state of reading the deck panel.
pub struct PanelModel {
    pub current_run: Option<Seq<char>>,
    pub pending: Option<(Seq<Seq<char>>, Seq<u8>, u8)>,
    pub pending_count: Option<DeckCount>,
    pub last_capture_at: Option<u64>,
    pub last_activation_generation: u64,
}

impl View for DeckSidebarWorker {
    type V = PanelModel;

    open spec fn view(&self) -> PanelModel {
        PanelModel {
            current_run: opt_text(self.current_run),
            pending: match self.pending {
                Some((counts, observed)) => Some((counts.keys(), counts.values(), observed)),
                None => None,
            },
            pending_count: self.pending_count,
            last_capture_at: self.last_capture_at,
            last_activation_generation: self.last_activation_generation,
        }
    }
}

/// The state without any read.
pub open spec fn without_reads(s: PanelModel) -> PanelModel {
    PanelModel { pending: None, pending_count: None, last_capture_at: None, ..s }
}

/// The state after the run and the activation of the window were noted.
pub open spec fn noted(s: PanelModel, run: Option<Seq<char>>, generation: u64) -> PanelModel {
    let after_run = if run != s.current_run {
        PanelModel { current_run: run, ..without_reads(s) }
    } else {
        s
    };
    if generation != s.last_activation_generation {
        PanelModel { last_activation_generation: generation, ..without_reads(after_run) }
    } else {
        after_run
    }
}

/// The time between two looks, in milliseconds: short while a read waits to be confirmed.
pub open spec fn panel_interval(s: PanelModel) -> u64 {
    if s.pending is Some || s.pending_count is Some {
        400
    } else {
        2000
    }
}

/// Whether the panel is to be read. Once picks are followed, it is read only when the window was
/// activated, when the run is a new one, or to confirm a read.
pub open spec fn wants_panel(
    s: PanelModel,
    run: Option<Seq<char>>,
    generation: u64,
    picks_enabled: bool,
    now: u64,
) -> bool {
    let t = noted(s, run, generation);
    &&& run is Some
    &&& !(picks_enabled && generation == s.last_activation_generation && run == s.current_run
        && t.pending is None && t.pending_count is None)
    &&& due(t.last_capture_at, now, panel_interval(t))
}

/// What a read of the panel amounts to.
pub struct DeckSidebarUpdate {
    /// The cards of the whole deck, where the read shows it.
    pub card_ids: Option<Vec<String>>,
    pub observed_slots: u16,
    pub expected_slots: u16,
}

/// Each card as often as it is counted.
pub open spec fn spread(keys: Seq<Seq<char>>, values: Seq<u8>, n: int) -> Seq<Seq<char>>
    decreases n,
{
    if n <= 0 {
        Seq::empty()
    } else {
        spread(keys, values, n - 1) + Seq::new(values[n - 1] as nat, |i: int| keys[n - 1])
    }
}

/// Whether this is what a read of the panel changes and amounts to.
pub open spec fn panel_step(
    s: PanelModel,
    reading: Option<SidebarDeckRead>,
    t: PanelModel,
    r: Option<DeckSidebarUpdate>,
) -> bool {
    match reading {
        None => t == s && r is None,
        Some(read) => match read.count {
            None => t == s && r is None,
            Some(count) => if read.status != SidebarDeckStatus::Complete {
                &&& t == PanelModel { pending_count: Some(count), ..s }
                &&& match r {
                    Some(update) => s.pending_count == Some(count) && update.card_ids is None
                        && update.observed_slots == count.observed && update.expected_slots
                        == count.capacity,
                    None => s.pending_count != Some(count),
                }
            } else {
                exists|counts: TextMap<u8>| #[trigger]
                    counts_are(counts, read@.visible_cards) && complete_step(s, counts, count, t, r)
            },
        },
    }
}

/// Whether this is what a complete read of the panel changes and amounts to.
pub open spec fn complete_step(
    s: PanelModel,
    counts: TextMap<u8>,
    count: DeckCount,
    t: PanelModel,
    r: Option<DeckSidebarUpdate>,
) -> bool {
    let signature = (counts.keys(), counts.values(), count.observed);
    if s.pending != Some(signature) {
        t == PanelModel { pending: Some(signature), pending_count: Some(count), ..s } && r is None
    } else {
        let ids = spread(counts.keys(), counts.values(), counts.keys().len() as int);
        &&& t == PanelModel { pending: None, pending_count: None, ..s }
        &&& match r {
            Some(update) => ids.len() == count.observed && (update.card_ids matches Some(cards)
                && texts(cards@) == ids) && update.observed_slots == count.observed
                && update.expected_slots == count.capacity,
            None => ids.len() != count.observed,
        }
    }
}

fn same_signature(a: &(TextMap<u8>, u8), b: &(TextMap<u8>, u8)) -> (r: bool)
    requires
        a.0.wf(),
        b.0.wf(),
    ensures
        r == (a.0.keys() == b.0.keys() && a.0.values() == b.0.values() && a.1 == b.1),
{
    if a.1 != b.1 || a.0.len() != b.0.len() {
        return false;
    }
    let mut i: usize = 0;
    while i < a.0.len()
        invariant
            i <= a.0.keys().len(),
            a.0.wf(),
            b.0.wf(),
            a.0.keys().len() == b.0.keys().len(),
            forall|k: int| 0 <= k < i ==> a.0.keys()[k] == b.0.keys()[k],
            forall|k: int| 0 <= k < i ==> a.0.values()[k] == b.0.values()[k],
        decreases a.0.keys().len() - i,
    {
        if !text::str_eq(a.0.key_at(i), b.0.key_at(i)) || *a.0.entry_at(i) != *b.0.entry_at(i) {
            assert(a.0.keys()[i as int] != b.0.keys()[i as int] || a.0.values()[i as int]
                != b.0.values()[i as int]);
            return false;
        }
        i = i + 1;
    }
    assert(a.0.keys() =~= b.0.keys());
    assert(a.0.values() =~= b.0.values());
    true
}

fn spread_ids(counts: &TextMap<u8>) -> (r: Vec<String>)
    requires
        counts.wf(),
    ensures
        texts(r@) == spread(counts.keys(), counts.values(), counts.keys().len() as int),
{
    let mut out: Vec<String> = Vec::new();
    let mut i: usize = 0;
    assert(texts(out@) =~= Seq::<Seq<char>>::empty());
    while i < counts.len()
        invariant
            i <= counts.keys().len(),
            counts.wf(),
            texts(out@) == spread(counts.keys(), counts.values(), i as int),
        decreases counts.keys().len() - i,
    {
        let ghost before = texts(out@);
        let id = counts.key_at(i);
        let copies: u8 = *counts.entry_at(i);
        let ghost block = Seq::new(copies as nat, |k: int| id@);
        let mut j: u8 = 0;
        while j < copies
            invariant
                j <= copies,
                block.len() == copies,
                forall|k: int| 0 <= k < copies ==> #[trigger] block[k] == id@,
                texts(out@) =~= before + block.take(j as int),
            decreases copies - j,
        {
            let ghost earlier = out@;
            out.push(text::copy(id));
            assert(texts(out@) =~= texts(earlier).push(id@));
            j = j + 1;
        }
        assert(block.take(j as int) =~= block);
        assert(spread(counts.keys(), counts.values(), i + 1) =~= before + block);
        i = i + 1;
    }
    out
}

impl DeckSidebarWorker {
    /// The cards of a read that waits are sound.
    pub open spec fn wf(&self) -> bool {
        self.pending matches Some((counts, _)) ==> counts.wf()
    }

    /// The state before any read.
    pub fn new() -> (r: DeckSidebarWorker)
        ensures
            r.wf(),
            r@ == (PanelModel {
                current_run: None,
                pending: None,
                pending_count: None,
                last_capture_at: None,
                last_activation_generation: 0,
            }),
    {
        DeckSidebarWorker {
            current_run: None,
            pending: None,
            pending_count: None,
            last_capture_at: None,
            last_activation_generation: 0,
        }
    }

    /// Forgets the run and what was read.
    pub fn reset(&mut self)
        ensures
            final(self).wf(),
            final(self)@ == (PanelModel { current_run: None, ..without_reads(old(self)@) }),
    {
        self.current_run = None;
        self.pending = None;
        self.pending_count = None;
        self.last_capture_at = None;
    }

    /// Whether the panel is to be read now. A new run and an activation of the window forget what
    /// was read before.
    pub fn start_capture(
        &mut self,
        run: &Option<String>,
        activation_generation: u64,
        picks_enabled: bool,
        now: u64,
    ) -> (r: bool)
        requires
            old(self).wf(),
        ensures
            final(self).wf(),
            r == wants_panel(old(self)@, opt_text(*run), activation_generation, picks_enabled, now),
            final(self)@ == (if r {
                PanelModel {
                    last_capture_at: Some(now),
                    ..noted(old(self)@, opt_text(*run), activation_generation)
                }
            } else {
                noted(old(self)@, opt_text(*run), activation_generation)
            }),
    {
        let new_run = !same_text(run, &self.current_run);
        if new_run {
            self.current_run = copy_text(run);
            self.pending = None;
            self.pending_count = None;
            self.last_capture_at = None;
        }
        let activated = activation_generation != self.last_activation_generation;
        if activated {
            self.last_activation_generation = activation_generation;
            self.pending = None;
            self.pending_count = None;
            self.last_capture_at = None;
        }
        if run.is_none() {
            return false;
        }
        if picks_enabled && !activated && !new_run && self.pending.is_none()
            && self.pending_count.is_none() {
            return false;
        }
        let interval: u64 = if self.pending.is_some() || self.pending_count.is_some() {
            400
        } else {
            2000
        };
        if !is_due(self.last_capture_at, now, interval) {
            return false;
        }
        self.last_capture_at = Some(now);
        true
    }

    /// Takes a read of the panel in; `None` where it failed.
    pub fn take_reading(&mut self, reading: Option<&SidebarDeckRead>) -> (r: Option<
        DeckSidebarUpdate,
    >)
        requires
            old(self).wf(),
        ensures
            final(self).wf(),
            panel_step(
                old(self)@,
                match reading {
                    Some(read) => Some(*read),
                    None => None,
                },
                final(self)@,
                r,
            ),
    {
        let read = match reading {
            None => return None,
            Some(read) => read,
        };
        let count: DeckCount = match read.count {
            None => return None,
            Some(count) => count,
        };
        let count_confirmed = match self.pending_count {
            Some(pending) => pending == count,
            None => false,
        };
        let counts = match read.authoritative_counts() {
            None => {
                self.pending_count = Some(count);
                return if count_confirmed {
                    Some(
                        DeckSidebarUpdate {
                            card_ids: None,
                            observed_slots: count.observed as u16,
                            expected_slots: count.capacity as u16,
                        },
                    )
                } else {
                    None
                };
            },
            Some(counts) => counts,
        };
        assert(counts_are(counts, read@.visible_cards));
        self.pending_count = Some(count);
        let ghost start = old(self)@;
        let signature = (counts, count.observed);
        let same = match &self.pending {
            None => false,
            Some(pending) => same_signature(pending, &signature),
        };
        if !same {
            self.pending = Some(signature);
            assert(complete_step(start, signature.0, count, self@, None));
            return None;
        }
        self.pending = None;
        self.pending_count = None;
        let card_ids = spread_ids(&signature.0);
        assert(card_ids@.len() == texts(card_ids@).len());
        if card_ids.len() != count.observed as usize {
            assert(complete_step(start, signature.0, count, self@, None));
            return None;
        }
        let update = DeckSidebarUpdate {
            card_ids: Some(card_ids),
            observed_slots: count.observed as u16,
            expected_slots: count.capacity as u16,
        };
        assert(complete_step(start, signature.0, count, self@, Some(update)));
        Some(update)
    }
}

/// The deck is taken from the panel only where a complete read agrees with the one before it.
pub proof fn decks_need_two_reads(
    s: PanelModel,
    reading: Option<SidebarDeckRead>,
    t: PanelModel,
    update: DeckSidebarUpdate,
)
    requires
        panel_step(s, reading, t, Some(update)),
        update.card_ids is Some,
    ensures
        reading matches Some(read) && read.status == SidebarDeckStatus::Complete,
        exists|counts: TextMap<u8>|
            #![trigger counts.keys()]
            counts_are(counts, reading->0@.visible_cards) && s.pending == Some(
                (counts.keys(), counts.values(), (reading->0.count->0).observed),
            ),
        reading->0.count is Some,
{
}

/// The state of reading the art of offered cards.
pub struct DraftRecognitionWorker {
    pub accumulator: Option<ConfidenceAccumulator>,
    pub current_key: Option<DraftKey>,
    pub last_capture_at: Option<u64>,
    pub latest: Option<ExternalDraftModel>,
}

/// What has to be done for an offer.
pub enum DraftStep {
    /// Only this is shown.
    ShowStatus(ExternalDraftModel),
    /// Nothing is shown.
    Hide,
    /// What was shown before is shown.
    KeepShowing,
    /// The screen is to be captured now.
    Capture,
}

/// The line while the cards are looked for.
pub open spec fn looking_text(phase: ArenaDraftPhase) -> Seq<char> {
    if phase == ArenaDraftPhase::Redrafting {
        "Looking for the three Redraft cards…"@
    } else {
        "Looking for the three draft cards…"@
    }
}

/// Whether a state is that without an offer.
pub open spec fn is_idle(w: DraftRecognitionWorker) -> bool {
    w.accumulator is None && w.current_key is None && w.last_capture_at is None && w.latest is None
}

/// Whether a state is the one at a new offer. The first offer is captured at once; a later one only
/// after a while, so that the cards of the offer before it are not taken for its own.
pub open spec fn at_new_key(
    before: DraftRecognitionWorker,
    after: DraftRecognitionWorker,
    s: ObserverSnapshot,
    now: u64,
    captures: bool,
) -> bool {
    let last = if before.current_key is Some {
        Some(now)
    } else {
        None
    };
    &&& after.accumulator is None
    &&& key_model(after.current_key) == draft_key(s)
    &&& captures == due(last, now, DRAFT_CAPTURE_INTERVAL_MILLIS)
    &&& after.last_capture_at == if captures {
        Some(now)
    } else {
        last
    }
    &&& after.latest matches Some(m) && shows_line(
        m,
        visible_pick(s),
        looking_text(s.run.draft_phase),
    )
}

/// What looking at a snapshot does to the reader of offers, and what is to be done.
pub open spec fn looked_at(
    before: DraftRecognitionWorker,
    s: ObserverSnapshot,
    now: u64,
    after: DraftRecognitionWorker,
    step: DraftStep,
) -> bool {
    match redraft_capture_text(s) {
        Some(status) => is_idle(after) && (step matches DraftStep::ShowStatus(m) && shows_line(
            m,
            visible_pick(s),
            status,
        )),
        None => match draft_key(s) {
            None => is_idle(after) && step is Hide,
            Some(key) => if key_model(before.current_key) == Some(key) {
                &&& after.accumulator == before.accumulator
                &&& after.current_key == before.current_key
                &&& after.latest == before.latest
                &&& if due(before.last_capture_at, now, DRAFT_CAPTURE_INTERVAL_MILLIS) {
                    step is Capture && after.last_capture_at == Some(now)
                } else {
                    step is KeepShowing && after.last_capture_at == before.last_capture_at
                }
            } else {
                (step is Capture || step is KeepShowing) && at_new_key(
                    before,
                    after,
                    s,
                    now,
                    step is Capture,
                )
            },
        },
    }
}

impl DraftRecognitionWorker {
    /// The state before any offer.
    pub fn new() -> (r: DraftRecognitionWorker)
        ensures
            is_idle(r),
    {
        DraftRecognitionWorker {
            accumulator: None,
            current_key: None,
            last_capture_at: None,
            latest: None,
        }
    }

    /// Forgets the offer.
    pub fn reset(&mut self)
        ensures
            is_idle(*final(self)),
    {
        self.accumulator = None;
        self.current_key = None;
        self.last_capture_at = None;
        self.latest = None;
    }

    /// Looks at which offer there is, and whether the screen is to be captured now.
    pub fn step(&mut self, snapshot: &ObserverSnapshot, now: u64) -> (r: DraftStep)
        ensures
            looked_at(*old(self), *snapshot, now, *final(self), r),
    {
        match redraft_capture_status(snapshot) {
            Some(status) => {
                self.reset();
                return DraftStep::ShowStatus(
                    draft_status(visible_draft_pick_number(snapshot), status),
                );
            },
            None => {},
        }
        let key = match unresolved_draft_key(snapshot) {
            None => {
                self.reset();
                return DraftStep::Hide;
            },
            Some(key) => key,
        };
        let same = match &self.current_key {
            Some(current) => current.same_as(&key),
            None => false,
        };
        if !same {
            let replacing = self.current_key.is_some();
            let line = if key.phase == ArenaDraftPhase::Redrafting {
                text::copy("Looking for the three Redraft cards…")
            } else {
                text::copy("Looking for the three draft cards…")
            };
            self.current_key = Some(key);
            self.accumulator = None;
            self.last_capture_at = if replacing {
                Some(now)
            } else {
                None
            };
            self.latest = Some(draft_status(visible_draft_pick_number(snapshot), line));
        }
        if is_due(self.last_capture_at, now, DRAFT_CAPTURE_INTERVAL_MILLIS) {
            self.last_capture_at = Some(now);
            DraftStep::Capture
        } else {
            DraftStep::KeepShowing
        }
    }

    /// Takes in what a frame shows of the offer.
    pub fn observe(&mut self, detection: &DetectionResult) -> (r: Result<(), RecognitionError>)
        requires
            old(self).accumulator matches Some(a) ==> a.wf(),
            old(self).accumulator is None ==> {
                &&& detection.minimum_confidence.finite()
                &&& detection.minimum_confidence.in_unit()
                &&& detection.expected_offer_count > 0
            },
        ensures
            final(self).accumulator matches Some(a) && a.wf(),
            final(self).current_key == old(self).current_key,
            final(self).last_capture_at == old(self).last_capture_at,
            final(self).latest == old(self).latest,
            exists|a: ConfidenceAccumulator|
                #![trigger a.wf()]
                a.wf() && (match old(self).accumulator {
                    Some(before) => a == before,
                    None => a.config.minimum_frames == 2 && a.config.max_candidates == 5
                        && a.config.minimum_candidate_margin.bits
                        == crate::recognition::DEFAULT_CANDIDATE_MARGIN_BITS
                        && ConfidenceAccumulator::made(
                        Ok(a),
                        a.config,
                        detection.minimum_confidence,
                        detection.expected_offer_count,
                    ),
                }) && took_in(a, *detection, final(self).accumulator->0, r),
    {
        let mut taken: Option<ConfidenceAccumulator> = None;
        std::mem::swap(&mut taken, &mut self.accumulator);
        let mut accumulator = match taken {
            Some(accumulator) => accumulator,
            None => {
                let config: AggregationConfig = AggregationConfig::default();
                match ConfidenceAccumulator::for_offer_count(
                    config,
                    detection.minimum_confidence,
                    detection.expected_offer_count,
                ) {
                    Ok(accumulator) => accumulator,
                    Err(e) => return Err(e),
                }
            },
        };
        let ghost start = accumulator;
        assert(start.wf());
        let r = accumulator.observe(detection);
        self.accumulator = Some(accumulator);
        r
    }

    /// Keeps what is shown of the offer.
    pub fn show(&mut self, model: ExternalDraftModel)
        ensures
            final(self).latest == Some(model),
            final(self).accumulator == old(self).accumulator,
            final(self).current_key == old(self).current_key,
            final(self).last_capture_at == old(self).last_capture_at,
    {
        self.latest = Some(model);
    }
}

/// Why an offer could not be read.
pub enum CaptureFailure {
    PermissionRequired,
    Unavailable(String),
    NoWindow,
    Unusable(String),
    Rejected(String),
    Incomplete(String),
}

/// Why an offer could not be read.
pub open spec fn failure_text(failure: CaptureFailure) -> Seq<char> {
    match failure {
        CaptureFailure::PermissionRequired => {
            "Screen Recording permission is required for draft detection. Run --request-screen-recording explicitly."@
        },
        CaptureFailure::Unavailable(error) => "Draft capture unavailable: "@ + error@,
        CaptureFailure::NoWindow => {
            "No shareable Hearthstone window is available for draft detection."@
        },
        CaptureFailure::Unusable(error) => "Draft image was not usable: "@ + error@,
        CaptureFailure::Rejected(error) => "Draft evidence was rejected: "@ + error@,
        CaptureFailure::Incomplete(error) => "Draft evidence is incomplete: "@ + error@,
    }
}

fn with_error(words: &str, error: &String) -> (r: String)
    ensures
        r@ == words@ + error@,
{
    let mut out = text::copy(words);
    out.append(error.as_str());
    out
}

/// What is shown where an offer could not be read.
pub fn failure_model(pick_number: u8, failure: &CaptureFailure) -> (r: ExternalDraftModel)
    ensures
        shows_line(r, pick_number, failure_text(*failure)),
{
    let line = match failure {
        CaptureFailure::PermissionRequired => text::copy(
            "Screen Recording permission is required for draft detection. Run --request-screen-recording explicitly.",
        ),
        CaptureFailure::Unavailable(error) => with_error("Draft capture unavailable: ", error),
        CaptureFailure::NoWindow => text::copy(
            "No shareable Hearthstone window is available for draft detection.",
        ),
        CaptureFailure::Unusable(error) => with_error("Draft image was not usable: ", error),
        CaptureFailure::Rejected(error) => with_error("Draft evidence was rejected: ", error),
        CaptureFailure::Incomplete(error) => with_error("Draft evidence is incomplete: ", error),
    };
    draft_status(pick_number, line)
}

/// Why a part of a frame cannot be written as a picture.
#[derive(Clone, Copy, Debug, PartialEq, Eq, Structural)]
pub enum PictureError {
    OutsideTheFrame,
    BeyondTheBuffer,
}

impl PictureError {
    /// The words for an error.
    pub fn message(self) -> (r: &'static str)
        ensures
            r@ == (match self {
                PictureError::OutsideTheFrame => "OCR audit crop is outside the captured frame"@,
                PictureError::BeyondTheBuffer => "OCR audit crop exceeded the BGRA buffer"@,
            }),
    {
        match self {
            PictureError::OutsideTheFrame => "OCR audit crop is outside the captured frame",
            PictureError::BeyondTheBuffer => "OCR audit crop exceeded the BGRA buffer",
        }
    }
}

/// A length that fits between a start and an end.
pub open spec fn clipped(length: u32, start: u32, end: u32) -> int {
    let room = if end >= start {
        end - start
    } else {
        0
    };
    if length <= room {
        length as int
    } else {
        room
    }
}

fn clip(length: u32, start: u32, end: u32) -> (r: u32)
    ensures
        r == clipped(length, start, end),
{
    let room: u32 = if end >= start {
        end - start
    } else {
        0
    };
    if length <= room {
        length
    } else {
        room
    }
}

/// The heading of a picture.
pub open spec fn picture_head(width: nat, height: nat) -> Seq<char> {
    "P6\n"@ + decimal(width) + " "@ + decimal(height) + "\n255\n"@
}

/// The colours of the first pixels of a row: red, green, blue.
pub open spec fn row_colours(frame: RawFrame, x: int, row: int, n: int) -> Seq<u8>
    decreases n,
{
    if n <= 0 {
        Seq::empty()
    } else {
        let at = row * frame.bytes_per_row + (x + n - 1) * 4;
        row_colours(frame, x, row, n - 1) + seq![
            frame.pixels@[at + 2],
            frame.pixels@[at + 1],
            frame.pixels@[at],
        ]
    }
}

/// The colours of the first rows of a part of a frame.
pub open spec fn part_colours(frame: RawFrame, x: int, y: int, width: int, n: int) -> Seq<u8>
    decreases n,
{
    if n <= 0 {
        Seq::empty()
    } else {
        part_colours(frame, x, y, width, n - 1) + row_colours(frame, x, y + n - 1, width)
    }
}

/// Whether the last pixel of a part lies beyond the pixels of a frame.
pub open spec fn beyond_pixels(frame: RawFrame, x: int, y: int, width: int, height: int) -> bool {
    (y + height - 1) * frame.bytes_per_row + (x + width) * 4 > frame.pixels@.len()
}

proof fn rows_come_earlier(row: int, last: int, step: int)
    by (nonlinear_arith)
    requires
        0 <= row <= last,
        0 <= step,
    ensures
        0 <= row * step <= last * step,
{
}

/// Writes a part of a captured frame as a picture. A part that reaches over an edge is cut off
/// there.
pub fn bgra_crop_as_ppm(frame: &RawFrame, x: u32, y: u32, width: u32, height: u32) -> (r: Result<
    Vec<u8>,
    PictureError,
>)
    requires
        frame.height * frame.bytes_per_row + frame.width * 4 <= usize::MAX,
    ensures
        ({
            let w = clipped(width, x, frame.width);
            let h = clipped(height, y, frame.height);
            match r {
                Err(PictureError::OutsideTheFrame) => w == 0 || h == 0,
                Err(PictureError::BeyondTheBuffer) => w > 0 && h > 0 && beyond_pixels(
                    *frame,
                    x as int,
                    y as int,
                    w,
                    h,
                ),
                Ok(picture) => {
                    &&& w > 0 && h > 0
                    &&& !beyond_pixels(*frame, x as int, y as int, w, h)
                    &&& picture@ == vstd::utf8::encode_utf8(picture_head(w as nat, h as nat))
                        + part_colours(*frame, x as int, y as int, w, h)
                },
            }
        }),
{
    let w: u32 = clip(width, x, frame.width);
    let h: u32 = clip(height, y, frame.height);
    if w == 0 || h == 0 {
        return Err(PictureError::OutsideTheFrame);
    }
    proof {
        rows_come_earlier((y + h - 1) as int, frame.height as int, frame.bytes_per_row as int);
    }
    let last: usize = (y as usize + h as usize - 1) * frame.bytes_per_row;
    let edge: usize = (x as usize + w as usize) * 4;
    if last + edge > frame.pixels.len() {
        return Err(PictureError::BeyondTheBuffer);
    }
    let mut head = text::copy("P6\n");
    text::push_decimal(&mut head, w as u64);
    head.append(" ");
    text::push_decimal(&mut head, h as u64);
    head.append("\n255\n");
    let head_bytes = head.as_str().as_bytes();
    let mut out: Vec<u8> = vstd::slice::slice_to_vec(head_bytes);
    let ghost start = out@;
    let mut row: u32 = 0;
    assert(start + Seq::<u8>::empty() =~= start);
    while row < h
        invariant
            row <= h,
            w == clipped(width, x, frame.width),
            h == clipped(height, y, frame.height),
            frame.height * frame.bytes_per_row + frame.width * 4 <= usize::MAX,
            !beyond_pixels(*frame, x as int, y as int, w as int, h as int),
            out@ == start + part_colours(*frame, x as int, y as int, w as int, row as int),
        decreases h - row,
    {
        let ghost before = out@;
        proof {
            rows_come_earlier(
                (y + row) as int,
                (y + h - 1) as int,
                frame.bytes_per_row as int,
            );
            rows_come_earlier((y + row) as int, frame.height as int, frame.bytes_per_row as int);
            assert(frame.pixels@.len() == frame.pixels.len());
        }
        let row_start: usize = (y as usize + row as usize) * frame.bytes_per_row;
        let mut column: u32 = 0;
        assert(before + Seq::<u8>::empty() =~= before);
        while column < w
            invariant
                column <= w,
                w == clipped(width, x, frame.width),
                row < h,
                h == clipped(height, y, frame.height),
                row_start == (y + row) * frame.bytes_per_row,
                row_start + (x + w) * 4 <= frame.pixels@.len(),
                frame.pixels@.len() <= usize::MAX,
                out@ == before + row_colours(
                    *frame,
                    x as int,
                    (y + row) as int,
                    column as int,
                ),
            decreases w - column,
        {
            let offset: usize = row_start + (x as usize + column as usize) * 4;
            let ghost earlier = row_colours(*frame, x as int, (y + row) as int, column as int);
            out.push(frame.pixels[offset + 2]);
            out.push(frame.pixels[offset + 1]);
            out.push(frame.pixels[offset]);
            assert(out@ =~= before + row_colours(
                *frame,
                x as int,
                (y + row) as int,
                column + 1,
            ));
            column = column + 1;
        }
        assert(out@ =~= start + part_colours(*frame, x as int, y as int, w as int, row + 1));
        row = row + 1;
    }
    Ok(out)
}

} // verus!
