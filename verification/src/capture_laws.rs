//! When the screen is captured, and how its readings are confirmed and matched.
use crate::capture_workers::{
    clipped, complete_step, failure_text, looked_at, looking_text, noted, panel_interval,
    panel_step, picture_head, row_colours, spread, wants_panel, CaptureFailure, DeckSidebarUpdate,
    DraftRecognitionWorker, DraftStep, PanelModel,
};
use crate::card_data::{cards_near, edit_distance, letter_or_number, ocr_name, CardModel};
use crate::card_laws::{blank, near_names_are_within_reach, trimming_takes_white_space_only};
use crate::composite::CompositeRatingProvider;
use crate::draft_view::{draft_key, key_model, redraft_capture_text, KeyModel};
use crate::frame::{PixelFormat, RawFrame};
use crate::offer_ocr::{
    after_reading, any_named, are_matches, at_new_offer, due, is_rated, kept_matches, letters,
    named, names, near, near_of, nearest, radius, title_is, title_near, titles, variants, OcrModel,
    DRAFT_CAPTURE_INTERVAL_MILLIS,
};
use crate::sidebar::{DeckCount, SidebarDeckRead};
use crate::snapshot::{ArenaDraftPhase, ObserverSnapshot};
use crate::state::HeroClass;
use crate::text::{contains_part, decimal, occurs_at, texts, trimmed};
use crate::text_map::TextMap;
use crate::vision_laws::{blue_place, green_place, red_place};
use vstd::prelude::*;

verus! {

/// The titles of an offer are its lines with something in them, without the white space around
/// them, in their order.
pub proof fn titles_are_the_lines_with_words(lines: Seq<Seq<char>>)
    ensures
        forall|i: int|
            0 <= i < lines.len() && !blank(#[trigger] lines[i]) ==> titles(lines).contains(
                trimmed(lines[i]),
            ),
        forall|k: int|
            0 <= k < titles(lines).len() ==> !blank(#[trigger] titles(lines)[k]) && exists|i: int|
                0 <= i < lines.len() && trimmed(#[trigger] lines[i]) == titles(lines)[k],
    decreases lines.len(),
{
    let all = titles(lines);
    if lines.len() > 0 {
        let rest = lines.drop_last();
        let before = titles(rest);
        titles_are_the_lines_with_words(rest);
        trimming_takes_white_space_only(lines.last());
        assert forall|i: int| 0 <= i < lines.len() && !blank(#[trigger] lines[i]) implies all.contains(
            trimmed(lines[i]),
        ) by {
            if i < rest.len() {
                assert(rest[i] == lines[i]);
                let k = choose|k: int| 0 <= k < before.len() && before[k] == trimmed(lines[i]);
                assert(all[k] == trimmed(lines[i]));
            } else {
                assert(all[all.len() - 1] == trimmed(lines[i]));
            }
        }
        assert forall|k: int| 0 <= k < all.len() implies !blank(#[trigger] all[k]) && exists|i: int|
            0 <= i < lines.len() && trimmed(#[trigger] lines[i]) == all[k] by {
            if k < before.len() {
                assert(all[k] == before[k]);
                let i = choose|i: int| 0 <= i < rest.len() && trimmed(#[trigger] rest[i]) == before[k];
                assert(lines[i] == rest[i]);
            } else {
                assert(trimmed(lines[lines.len() - 1]) == all[k]);
                trimming_takes_white_space_only(all[k]);
                if blank(all[k]) {
                    assert(crate::text::is_space(all[k][0]));
                }
            }
        }
    }
}

/// Every title is looked for by itself, and several also as one.
pub proof fn titles_are_looked_for_alone_and_together(lines: Seq<Seq<char>>)
    ensures
        forall|k: int|
            0 <= k < titles(lines).len() ==> #[trigger] variants(lines).contains(titles(lines)[k]),
        titles(lines).len() <= 1 ==> variants(lines) == titles(lines),
        titles(lines).len() > 1 ==> variants(lines).len() == titles(lines).len() + 1,
{
    assert forall|k: int| 0 <= k < titles(lines).len() implies #[trigger] variants(lines).contains(
        titles(lines)[k],
    ) by {
        assert(variants(lines)[k] == titles(lines)[k]);
    }
}

/// A card is near a title only where at most two characters differ, at most one for a title of
/// fewer than ten letters and digits, and not at all where the name to compare has fewer than six
/// characters.
pub proof fn near_titles_differ_little(
    cards: Seq<CardModel>,
    title: Seq<char>,
    id: Seq<char>,
    d: nat,
)
    ensures
        title_near(cards, title, id, d) <==> {
            &&& ocr_name(title).len() >= 6
            &&& d <= 2
            &&& letters(title) < 10 ==> d <= 1
            &&& exists|i: int|
                0 <= i < cards.len() && (#[trigger] cards[i]).id == id && cards[i].collectible
                    == Some(true) && edit_distance(ocr_name(title), ocr_name(cards[i].name)) == d
        },
{
    let name = ocr_name(title);
    let found = cards_near(cards, name, radius(title));
    near_names_are_within_reach(cards, name, radius(title));
    if title_near(cards, title, id, d) {
        let j = choose|j: int|
            0 <= j < near_of(cards, title).len() && (#[trigger] near_of(cards, title)[j]).0.id == id
                && near_of(cards, title)[j].1 == d;
        assert(found[j] == near_of(cards, title)[j]);
        let c = found[j].0;
        let i = choose|i: int| 0 <= i < cards.len() && cards[i] == c;
        assert(cards[i].id == id);
    }
    if name.len() >= 6 && d <= 2 && (letters(title) < 10 ==> d <= 1) && exists|i: int|
        0 <= i < cards.len() && (#[trigger] cards[i]).id == id && cards[i].collectible == Some(true)
            && edit_distance(name, ocr_name(cards[i].name)) == d {
        let i = choose|i: int|
            0 <= i < cards.len() && (#[trigger] cards[i]).id == id && cards[i].collectible == Some(
                true,
            ) && edit_distance(name, ocr_name(cards[i].name)) == d;
        assert(found.contains((cards[i], d)));
        let j = choose|j: int| 0 <= j < found.len() && found[j] == (cards[i], d);
        assert(near_of(cards, title)[j].0.id == id);
    }
}

/// The letters and digits of a title are counted one by one.
pub proof fn letters_and_digits_are_counted(title: Seq<char>, c: char)
    ensures
        letters(title.push(c)) == letters(title) + if letter_or_number(c) {
            1nat
        } else {
            0
        },
        letters(Seq::empty()) == 0,
{
    assert(title.push(c).drop_last() =~= title);
}

/// Cards with exactly the name of a title are matched where there are any, and no others; only
/// where there are none are the nearest matched, and none that is further away.
pub proof fn exact_names_are_matched_first(
    m: Seq<Seq<char>>,
    cards: Seq<CardModel>,
    all: Seq<Seq<char>>,
    id: Seq<char>,
    d: nat,
)
    requires
        are_matches(m, cards, all),
    ensures
        named(cards, all, id) ==> m.contains(id),
        (exists|other: Seq<char>| #[trigger] named(cards, all, other)) ==> (m.contains(id)
            <==> named(cards, all, id)),
        (forall|other: Seq<char>| !#[trigger] named(cards, all, other)) && near(cards, all, id, d)
            && (forall|other: Seq<char>, e: nat| #[trigger]
            near(cards, all, other, e) ==> d <= e) ==> m.contains(id),
        m.contains(id) && !named(cards, all, id) ==> exists|e: nat| #[trigger]
            near(cards, all, id, e) && (near(cards, all, id, d) ==> e <= d),
{
    if m.contains(id) && !named(cards, all, id) {
        assert(!any_named(cards, all));
        assert(nearest(cards, all, id));
        let e = choose|e: nat| #[trigger]
            near(cards, all, id, e) && forall|other: Seq<char>, f: nat| #[trigger]
                near(cards, all, other, f) ==> e <= f;
        assert(near(cards, all, id, e));
    }
}

/// Of several matches the one that is rated is kept, where it is the only one; otherwise all are.
pub proof fn the_only_rated_match_is_kept(
    m: Seq<Seq<char>>,
    ratings: Option<&CompositeRatingProvider>,
    class: Option<HeroClass>,
)
    ensures
        ({
            let kept = kept_matches(m, ratings, class);
            let rated = m.filter(|id: Seq<char>| is_rated(ratings, class, id));
            &&& m.len() <= 1 ==> kept == m
            &&& rated.len() != 1 ==> kept == m
            &&& m.len() > 1 && rated.len() == 1 ==> kept.len() == 1 && m.contains(kept[0])
                && is_rated(ratings, class, kept[0])
        }),
{
    let keep = |id: Seq<char>| is_rated(ratings, class, id);
    m.filter_lemma(keep);
    let rated = m.filter(keep);
    if rated.len() == 1 {
        assert(rated.contains(rated[0]));
        m.lemma_filter_contains_rev(keep, rated[0]);
        assert(keep(rated[0]));
    }
}

/// A capture is due where there was none, or the interval has passed since the last one.
pub proof fn captures_keep_their_interval(last: Option<u64>, now: u64, interval: u64)
    ensures
        last is None ==> due(last, now, interval),
        last matches Some(t) ==> (due(last, now, interval) <==> interval == 0 || now >= t + interval),
{
}

/// A reading of an offer is shown as scores only once it was read twice in a row; a new reading is
/// kept to be confirmed, and no reading goes on scanning. What was confirmed stays so.
pub proof fn readings_are_confirmed_by_a_second(s: OcrModel, ids: Option<Seq<Seq<char>>>)
    ensures
        ({
            let t = after_reading(s, ids);
            &&& t.current_key == s.current_key
            &&& t.last_capture_at == s.last_capture_at
            &&& ids is Some && s.pending == ids ==> t.confirmed && t.display is Scores && t.pending
                is None
            &&& ids is Some && s.pending != ids ==> t.pending == ids && t.display is Confirming
                && t.confirmed == s.confirmed
            &&& ids is None ==> t.pending == s.pending && t.confirmed == s.confirmed
            &&& ids is None && s.window_known ==> t.display is Scanning
            &&& ids is Some ==> t.window_known
        }),
{
}

/// A new offer begins unread: nothing is pending or confirmed, and it is scanned where the window
/// of the game is known.
pub proof fn new_offers_begin_unread(key: KeyModel, window: bool)
    ensures
        ({
            let t = at_new_offer(key, window);
            &&& t.current_key == Some(key)
            &&& t.pending is None
            &&& !t.confirmed
            &&& t.last_capture_at is None
            &&& t.window_known == window
            &&& t.display is Scanning <==> window
            &&& t.display is Hidden <==> !window
        }),
{
}

/// The deck panel is looked at every two seconds, and every four tenths of a second while a reading
/// waits for its confirmation. A new run or a new activation of the game forgets what was read.
pub proof fn panels_are_looked_at_more_often_while_unconfirmed(
    s: PanelModel,
    run: Option<Seq<char>>,
    generation: u64,
)
    ensures
        panel_interval(s) == if s.pending is Some || s.pending_count is Some {
            400u64
        } else {
            2000
        },
        ({
            let t = noted(s, run, generation);
            let fresh = run != s.current_run || generation != s.last_activation_generation;
            &&& t.current_run == run
            &&& t.last_activation_generation == generation
            &&& fresh ==> t.pending is None && t.pending_count is None && t.last_capture_at is None
            &&& !fresh ==> t == s
        }),
{
}

/// The deck panel is captured only in a run and only when due. While picks are read, a panel that
/// was there before and holds no unconfirmed reading is left alone.
pub proof fn panels_are_captured_when_needed(
    s: PanelModel,
    run: Option<Seq<char>>,
    generation: u64,
    picks_enabled: bool,
    now: u64,
)
    ensures
        run is None ==> !wants_panel(s, run, generation, picks_enabled, now),
        run is Some && (run != s.current_run || generation != s.last_activation_generation)
            ==> wants_panel(s, run, generation, picks_enabled, now),
        run is Some && run == s.current_run && generation == s.last_activation_generation ==> (
        wants_panel(s, run, generation, picks_enabled, now) <==> (!picks_enabled || s.pending
            is Some || s.pending_count is Some) && due(s.last_capture_at, now, panel_interval(s))),
{
}

/// Cards with their copies are spread into one entry for each copy: as many as the copies of all
/// cards together, and each of them one of the cards.
pub proof fn copies_are_spread(keys: Seq<Seq<char>>, values: Seq<u8>, n: int, id: Seq<char>)
    requires
        0 <= n <= keys.len(),
        keys.len() == values.len(),
    ensures
        spread(keys, values, n).len() == total(values.take(n)),
        occurrences(spread(keys, values, n), id) == copies_under(keys, values, n, id),
    decreases n,
{
    if n > 0 {
        copies_are_spread(keys, values, n - 1, id);
        let more = Seq::new(values[n - 1] as nat, |i: int| keys[n - 1]);
        total_of_longer(values.take(n - 1), values[n - 1]);
        assert(values.take(n) =~= values.take(n - 1).push(values[n - 1]));
        occurrences_add(spread(keys, values, n - 1), more, id);
        occurrences_of_one(more, keys[n - 1], id);
    } else {
        assert(values.take(0).len() == 0);
    }
}

/// The sum of numbers.
pub open spec fn total(values: Seq<u8>) -> nat
    decreases values.len(),
{
    if values.len() == 0 {
        0
    } else {
        values[0] as nat + total(values.skip(1))
    }
}

/// How often a text stands in a list.
pub open spec fn occurrences(list: Seq<Seq<char>>, id: Seq<char>) -> nat
    decreases list.len(),
{
    if list.len() == 0 {
        0
    } else if list[0] == id {
        occurrences(list.skip(1), id) + 1
    } else {
        occurrences(list.skip(1), id)
    }
}

/// The copies that stand under a name among the first ones.
pub open spec fn copies_under(
    keys: Seq<Seq<char>>,
    values: Seq<u8>,
    n: int,
    id: Seq<char>,
) -> nat
    decreases n,
{
    if n <= 0 {
        0
    } else if keys[n - 1] == id {
        copies_under(keys, values, n - 1, id) + values[n - 1] as nat
    } else {
        copies_under(keys, values, n - 1, id)
    }
}

proof fn total_of_longer(values: Seq<u8>, v: u8)
    ensures
        total(values.push(v)) == total(values) + v,
    decreases values.len(),
{
    let all = values.push(v);
    if values.len() == 0 {
        assert(all.skip(1) =~= Seq::<u8>::empty());
        assert(total(all.skip(1)) == 0);
    } else {
        assert(all.skip(1) =~= values.skip(1).push(v));
        total_of_longer(values.skip(1), v);
    }
}

proof fn occurrences_add(a: Seq<Seq<char>>, b: Seq<Seq<char>>, id: Seq<char>)
    ensures
        occurrences(a + b, id) == occurrences(a, id) + occurrences(b, id),
    decreases a.len(),
{
    if a.len() == 0 {
        assert(a + b =~= b);
    } else {
        assert((a + b).skip(1) =~= a.skip(1) + b);
        occurrences_add(a.skip(1), b, id);
    }
}

proof fn occurrences_of_one(list: Seq<Seq<char>>, key: Seq<char>, id: Seq<char>)
    requires
        forall|i: int| 0 <= i < list.len() ==> #[trigger] list[i] == key,
    ensures
        occurrences(list, id) == if key == id {
            list.len()
        } else {
            0
        },
    decreases list.len(),
{
    if list.len() > 0 {
        assert forall|i: int| 0 <= i < list.skip(1).len() implies #[trigger] list.skip(1)[i] == key by {
            assert(list.skip(1)[i] == list[i + 1]);
        }
        occurrences_of_one(list.skip(1), key, id);
    }
}

/// A row of a saved picture holds red, green and blue of each pixel, in this order, taken from
/// where a frame with blue first keeps them.
pub proof fn saved_pictures_hold_red_green_blue(
    frame: RawFrame,
    x: int,
    row: int,
    n: int,
    i: int,
)
    requires
        0 <= i < n,
    ensures
        ({
            let at = row * frame.bytes_per_row + (x + i) * 4;
            let f = PixelFormat::Bgra8;
            let colours = row_colours(frame, x, row, n);
            &&& colours.len() == 3 * n
            &&& colours[3 * i] == frame.pixels@[at + red_place(f)]
            &&& colours[3 * i + 1] == frame.pixels@[at + green_place(f)]
            &&& colours[3 * i + 2] == frame.pixels@[at + blue_place(f)]
        }),
    decreases n,
{
    row_length(frame, x, row, n - 1);
    if i < n - 1 {
        saved_pictures_hold_red_green_blue(frame, x, row, n - 1, i);
    } else {
        let before = row_colours(frame, x, row, n - 1);
        let at = row * frame.bytes_per_row + (x + n - 1) * 4;
        assert(before.len() == 3 * i);
    }
}

proof fn row_length(frame: RawFrame, x: int, row: int, n: int)
    requires
        0 <= n,
    ensures
        row_colours(frame, x, row, n).len() == 3 * n,
    decreases n,
{
    if n > 0 {
        row_length(frame, x, row, n - 1);
    }
}

/// A length is cut to the room that is left of a side.
pub proof fn lengths_are_cut_to_the_room(length: u32, start: u32, end: u32)
    ensures
        clipped(length, start, end) <= length,
        start <= end ==> start + clipped(length, start, end) <= end,
        start > end ==> clipped(length, start, end) == 0,
        start + length <= end ==> clipped(length, start, end) == length,
        clipped(length, start, end) < length && start <= end ==> start + clipped(length, start, end)
            == end,
{
}

/// While an offer is on the screen it is captured when it is time, and what is known of it is kept.
/// Another offer begins anew. Where there is no offer to read, or reading is held back, everything
/// known is forgotten.
pub proof fn offers_are_captured_while_they_last(
    before: DraftRecognitionWorker,
    s: ObserverSnapshot,
    now: u64,
    after: DraftRecognitionWorker,
    step: DraftStep,
)
    requires
        looked_at(before, s, now, after, step),
    ensures
        step is ShowStatus <==> redraft_capture_text(s) is Some,
        step is Hide <==> redraft_capture_text(s) is None && draft_key(s) is None,
        step is ShowStatus || step is Hide ==> after.accumulator is None && after.current_key is None
            && after.latest is None && after.last_capture_at is None,
        step is Capture ==> after.last_capture_at == Some(now),
        step is Capture || step is KeepShowing ==> key_model(after.current_key) == draft_key(s),
        (step is Capture || step is KeepShowing) && key_model(before.current_key) == draft_key(s)
            ==> after.accumulator == before.accumulator && after.latest == before.latest,
        (step is Capture || step is KeepShowing) && key_model(before.current_key) != draft_key(s)
            ==> after.accumulator is None && after.latest is Some,
        step is Capture ==> (before.last_capture_at matches Some(last) ==> key_model(
            before.current_key,
        ) == draft_key(s) ==> now >= last + DRAFT_CAPTURE_INTERVAL_MILLIS),
        step is KeepShowing && key_model(before.current_key) == draft_key(s) ==> before.last_capture_at
            == after.last_capture_at && (before.last_capture_at matches Some(last) && now < last
            + DRAFT_CAPTURE_INTERVAL_MILLIS),
        draft_key(s) is Some && redraft_capture_text(s) is None && before.current_key is None
            ==> step is Capture,
{
}

/// While an offer is looked for it is told whether it is one of a Redraft.
pub proof fn looking_tells_the_redraft(phase: ArenaDraftPhase)
    ensures
        contains_part(looking_text(phase), "Redraft"@) <==> phase is Redrafting,
{
    reveal_strlit("Redraft");
    reveal_strlit("Looking for the three Redraft cards…");
    reveal_strlit("Looking for the three draft cards…");
    let t = looking_text(phase);
    if phase is Redrafting {
        assert(t.subrange(22, 29) =~= "Redraft"@);
        assert(occurs_at(t, "Redraft"@, 22));
    } else {
        assert forall|at: int| !#[trigger] occurs_at(t, "Redraft"@, at) by {
            if occurs_at(t, "Redraft"@, at) {
                assert(t.subrange(at, at + 7)[0] == 'R');
                assert(t[at] == 'R');
            }
        }
    }
}

/// A picture is headed by its width, then its height.
pub proof fn pictures_are_headed_by_width_and_height(width: nat, height: nat)
    ensures
        occurs_at(picture_head(width, height), decimal(width), 3),
        occurs_at(
            picture_head(width, height),
            decimal(height),
            4 + decimal(width).len() as int,
        ),
        occurs_at(picture_head(width, height), "P6"@, 0),
{
    reveal_strlit("P6");
    reveal_strlit("P6\n");
    reveal_strlit(" ");
    let t = picture_head(width, height);
    let w = decimal(width);
    let h = decimal(height);
    assert(t.subrange(3, 3 + w.len() as int) =~= w);
    assert(t.subrange(4 + w.len() as int, 4 + w.len() as int + h.len() as int) =~= h);
    assert(t.subrange(0, 2) =~= "P6"@);
}

/// What stopped the reading of an offer is told with the error, which stands at the end.
pub proof fn failures_of_reading_are_told(failure: CaptureFailure)
    ensures
        ({
            let t = failure_text(failure);
            match failure {
                CaptureFailure::Unavailable(e) => occurs_at(t, "Draft capture"@, 0) && occurs_at(
                    t,
                    e@,
                    t.len() - e@.len(),
                ),
                CaptureFailure::Unusable(e) => occurs_at(t, "Draft image"@, 0) && occurs_at(
                    t,
                    e@,
                    t.len() - e@.len(),
                ),
                CaptureFailure::Rejected(e) => occurs_at(t, "Draft evidence was"@, 0) && occurs_at(
                    t,
                    e@,
                    t.len() - e@.len(),
                ),
                CaptureFailure::Incomplete(e) => occurs_at(t, "Draft evidence is"@, 0) && occurs_at(
                    t,
                    e@,
                    t.len() - e@.len(),
                ),
                CaptureFailure::PermissionRequired => occurs_at(t, "Screen Recording"@, 0),
                CaptureFailure::NoWindow => occurs_at(t, "No shareable"@, 0),
            }
        }),
{
    reveal_strlit("Draft capture");
    reveal_strlit("Draft image");
    reveal_strlit("Draft evidence was");
    reveal_strlit("Draft evidence is");
    reveal_strlit("Screen Recording");
    reveal_strlit("No shareable");
    reveal_strlit("Draft capture unavailable: ");
    reveal_strlit("Draft image was not usable: ");
    reveal_strlit("Draft evidence was rejected: ");
    reveal_strlit("Draft evidence is incomplete: ");
    reveal_strlit(
        "Screen Recording permission is required for draft detection. Run --request-screen-recording explicitly.",
    );
    reveal_strlit("No shareable Hearthstone window is available for draft detection.");
    let t = failure_text(failure);
    match failure {
        CaptureFailure::Unavailable(e) => {
            assert(t.subrange(0, 13) =~= "Draft capture"@);
            assert(t.subrange(t.len() - e@.len(), t.len() as int) =~= e@);
        },
        CaptureFailure::Unusable(e) => {
            assert(t.subrange(0, 11) =~= "Draft image"@);
            assert(t.subrange(t.len() - e@.len(), t.len() as int) =~= e@);
        },
        CaptureFailure::Rejected(e) => {
            assert(t.subrange(0, 18) =~= "Draft evidence was"@);
            assert(t.subrange(t.len() - e@.len(), t.len() as int) =~= e@);
        },
        CaptureFailure::Incomplete(e) => {
            assert(t.subrange(0, 17) =~= "Draft evidence is"@);
            assert(t.subrange(t.len() - e@.len(), t.len() as int) =~= e@);
        },
        CaptureFailure::PermissionRequired => {
            assert(t.subrange(0, 16) =~= "Screen Recording"@);
        },
        CaptureFailure::NoWindow => {
            assert(t.subrange(0, 12) =~= "No shareable"@);
        },
    }
}

/// A complete panel counts only where the reading before it gave the same cards, the same copies
/// and the same count. Then it is handed on once, card by card.
pub proof fn panels_are_confirmed_by_a_second_reading(
    s: PanelModel,
    counts: TextMap<u8>,
    count: DeckCount,
    t: PanelModel,
    r: Option<DeckSidebarUpdate>,
)
    requires
        complete_step(s, counts, count, t, r),
    ensures
        ({
            let seen = (counts.keys(), counts.values(), count.observed);
            &&& r is Some ==> s.pending == Some(seen)
            &&& s.pending != Some(seen) ==> t.pending == Some(seen)
            &&& s.pending == Some(seen) ==> t.pending is None
            &&& t.last_capture_at == s.last_capture_at
            &&& t.current_run == s.current_run
        }),
        r matches Some(u) ==> {
            &&& u.observed_slots == count.observed
            &&& u.expected_slots == count.capacity
            &&& u.card_ids matches Some(ids)
            &&& ids@.len() == count.observed
        },
{
    if let Some(u) = r {
        if let Some(ids) = u.card_ids {
            assert(texts(ids@).len() == ids@.len());
        }
    }
}

/// A panel that is not complete hands on its counter alone, and only where the reading before it
/// gave the same counter. Without a counter nothing happens.
pub proof fn counters_are_confirmed_by_a_second_reading(
    s: PanelModel,
    read: SidebarDeckRead,
    t: PanelModel,
    r: Option<DeckSidebarUpdate>,
)
    requires
        panel_step(s, Some(read), t, r),
    ensures
        read.count is None ==> t == s && r is None,
        read.count matches Some(count) ==> (!(read.status is Complete) ==> {
            &&& r is Some <==> s.pending_count == Some(count)
            &&& t.pending_count == Some(count)
            &&& t.pending == s.pending
            &&& r matches Some(u) ==> u.card_ids is None && u.observed_slots == count.observed
                && u.expected_slots == count.capacity
        }),
{
}

/// A title stands for the cards of its name and for no other.
pub proof fn titles_stand_for_the_cards_they_name(
    cards: Seq<CardModel>,
    title: Seq<char>,
    id: Seq<char>,
)
    ensures
        title_is(cards, title, id) ==> exists|i: int|
            0 <= i < cards.len() && (#[trigger] cards[i]).id == id,
        forall|i: int| #[trigger] names(cards, title, i) && cards[i].id == id ==> title_is(cards, title, id),
{
    if title_is(cards, title, id) {
        let i = choose|i: int| #[trigger] names(cards, title, i) && cards[i].id == id;
        assert(cards[i].id == id);
    }
}

} // verus!
