//! What imported and joined ratings say of the data they come from.
use crate::card_data::Timestamp;
use crate::card_laws::{blank, trimming_takes_white_space_only};
use crate::composite::{is_earliest, rating_rows, shows_each, total_sample, CompositeRatingProvider};
use crate::imports::{
    bucket_rows, changelog_of, entry_row, entry_rows, entry_valid, firestone_fault, firestone_rows,
    hsreplay_rows, import_firestone, is_hsreplay_file, midnight_of, score_entries, score_label,
    scores_taken, section_class, section_count, section_entries, section_short, significand_bits,
    stops_at, tier_list_imported, whole, FirestoneCardStats, FirestoneCardStatsRow, HsReplayBucket,
    HsReplayCardStats, ScoreEntry, SectionModel,
};
use crate::overlay::hero_text;
use crate::pattern::group_or_empty;
use crate::ratings::{
    all_rows, class_rank, conflicts, first_conflict, holds_last, is_latest, is_nan, is_percentage,
    is_single_rating, last_for_key, merge_local_rating_files, rating_refusal, row_models, same_key,
    same_number, CardRating, LocalJsonRatingProvider, LocalRatingFile, LocalRatingRow,
    ProviderMetadata, ProviderRating, RatingError, RatingOrigin, RatingValue, RowModel,
};
use crate::state::{opt_text, HeroClass};
use crate::text::{
    all_digits, contains_part, decimal, digits_value, occurs_at, text_lt, text_lt_irreflexive,
    text_lt_transitive, trimmed, unsigned_part,
};
use vstd::arithmetic::power2::{lemma2_to64, lemma_pow2_unfold, pow2};
use vstd::prelude::*;

verus! {

/// The name of a class.
pub open spec fn class_name(c: HeroClass) -> Seq<char> {
    match c {
        HeroClass::Warrior => "Warrior"@,
        HeroClass::Warlock => "Warlock"@,
        HeroClass::Shaman => "Shaman"@,
        HeroClass::Rogue => "Rogue"@,
        HeroClass::Priest => "Priest"@,
        HeroClass::Paladin => "Paladin"@,
        HeroClass::Mage => "Mage"@,
        HeroClass::Hunter => "Hunter"@,
        HeroClass::Druid => "Druid"@,
        HeroClass::DemonHunter => "Demon Hunter"@,
        HeroClass::DeathKnight => "Death Knight"@,
    }
}

/// A letter of a name as it stands in an address: a small one, and a hyphen for a blank.
pub open spec fn in_address(c: char) -> char {
    if c == ' ' {
        '-'
    } else if 'A' <= c <= 'Z' {
        (c as int + 32) as char
    } else {
        c
    }
}

/// The section of the tier list that is named after a class.
pub open spec fn section_name(c: HeroClass) -> Seq<char> {
    class_name(c).map_values(|c: char| in_address(c))
}

/// A class is shown by its own name.
pub proof fn classes_are_shown_by_name(c: HeroClass)
    ensures
        hero_text(c) == class_name(c),
{
}

proof fn section_names()
    ensures
        section_name(HeroClass::DeathKnight) == "death-knight"@,
        section_name(HeroClass::DemonHunter) == "demon-hunter"@,
        section_name(HeroClass::Druid) == "druid"@,
        section_name(HeroClass::Hunter) == "hunter"@,
        section_name(HeroClass::Mage) == "mage"@,
        section_name(HeroClass::Paladin) == "paladin"@,
        section_name(HeroClass::Priest) == "priest"@,
        section_name(HeroClass::Rogue) == "rogue"@,
        section_name(HeroClass::Shaman) == "shaman"@,
        section_name(HeroClass::Warlock) == "warlock"@,
        section_name(HeroClass::Warrior) == "warrior"@,
{
    reveal_class_names();
    reveal_strlit("death-knight");
    reveal_strlit("demon-hunter");
    reveal_strlit("druid");
    reveal_strlit("hunter");
    reveal_strlit("mage");
    reveal_strlit("paladin");
    reveal_strlit("priest");
    reveal_strlit("rogue");
    reveal_strlit("shaman");
    reveal_strlit("warlock");
    reveal_strlit("warrior");
    assert(section_name(HeroClass::DeathKnight) =~= "death-knight"@);
    assert(section_name(HeroClass::DemonHunter) =~= "demon-hunter"@);
    assert(section_name(HeroClass::Druid) =~= "druid"@);
    assert(section_name(HeroClass::Hunter) =~= "hunter"@);
    assert(section_name(HeroClass::Mage) =~= "mage"@);
    assert(section_name(HeroClass::Paladin) =~= "paladin"@);
    assert(section_name(HeroClass::Priest) =~= "priest"@);
    assert(section_name(HeroClass::Rogue) =~= "rogue"@);
    assert(section_name(HeroClass::Shaman) =~= "shaman"@);
    assert(section_name(HeroClass::Warlock) =~= "warlock"@);
    assert(section_name(HeroClass::Warrior) =~= "warrior"@);
}

/// The letters of the class names.
proof fn reveal_class_names()
    ensures
        "Death Knight"@ == seq!['D', 'e', 'a', 't', 'h', ' ', 'K', 'n', 'i', 'g', 'h', 't'],
        "Demon Hunter"@ == seq!['D', 'e', 'm', 'o', 'n', ' ', 'H', 'u', 'n', 't', 'e', 'r'],
        "Druid"@ == seq!['D', 'r', 'u', 'i', 'd'],
        "Hunter"@ == seq!['H', 'u', 'n', 't', 'e', 'r'],
        "Mage"@ == seq!['M', 'a', 'g', 'e'],
        "Paladin"@ == seq!['P', 'a', 'l', 'a', 'd', 'i', 'n'],
        "Priest"@ == seq!['P', 'r', 'i', 'e', 's', 't'],
        "Rogue"@ == seq!['R', 'o', 'g', 'u', 'e'],
        "Shaman"@ == seq!['S', 'h', 'a', 'm', 'a', 'n'],
        "Warlock"@ == seq!['W', 'a', 'r', 'l', 'o', 'c', 'k'],
        "Warrior"@ == seq!['W', 'a', 'r', 'r', 'i', 'o', 'r'],
{
    reveal_strlit("Death Knight");
    reveal_strlit("Demon Hunter");
    reveal_strlit("Druid");
    reveal_strlit("Hunter");
    reveal_strlit("Mage");
    reveal_strlit("Paladin");
    reveal_strlit("Priest");
    reveal_strlit("Rogue");
    reveal_strlit("Shaman");
    reveal_strlit("Warlock");
    reveal_strlit("Warrior");
}

proof fn section_names_differ()
    ensures
        forall|a: HeroClass, b: HeroClass| #[trigger]
            section_name(a) == #[trigger] section_name(b) ==> a == b,
        forall|a: HeroClass| #[trigger] section_name(a) != "any"@,
{
    section_names();
    reveal_strlit("death-knight");
    reveal_strlit("demon-hunter");
    reveal_strlit("druid");
    reveal_strlit("hunter");
    reveal_strlit("mage");
    reveal_strlit("paladin");
    reveal_strlit("priest");
    reveal_strlit("rogue");
    reveal_strlit("shaman");
    reveal_strlit("warlock");
    reveal_strlit("warrior");
    reveal_strlit("any");
    assert forall|a: HeroClass| #[trigger] section_name(a) != "any"@ by {
        assert("any"@.len() == 3);
        assert(section_name(a).len() > 3);
    }
    assert forall|a: HeroClass, b: HeroClass| #[trigger]
        section_name(a) == #[trigger] section_name(b) implies a == b by {
        let x = section_name(a);
        let y = section_name(b);
        assert(x.len() == y.len() && x[0] == y[0] && x[1] == y[1] && x[2] == y[2] && x[3] == y[3]);
    }
}

/// The section named after a class, and no other, rates for that class; the section of any class,
/// and no other, rates for all.
pub proof fn sections_rate_for_the_class_they_name(c: HeroClass, section: Seq<char>)
    ensures
        section_class(section) == Some(Some(c)) <==> section == section_name(c),
        section_class(section) == Some(None::<HeroClass>) <==> section == "any"@,
{
    section_names();
    section_names_differ();
}

/// Whether a section rates for a class, or for all.
pub open spec fn rates_for(section: Seq<char>, class: Option<HeroClass>) -> bool {
    match class {
        Some(c) => section == section_name(c),
        None => section == "any"@,
    }
}

/// Whether a row tells a score of the tier list: its card, the class of its section, and the score
/// as a number of up to two hundred.
pub open spec fn tells_score(row: RowModel, section: SectionModel, j: int) -> bool {
    let digits = unsigned_part(section.scores[j].1);
    &&& 0 <= j < section.scores.len()
    &&& rates_for(section.id, row.class)
    &&& row.card_id == trimmed(section.scores[j].0)
    &&& row.card_id.len() > 0
    &&& digits_value(digits) <= 200
    &&& row.value == whole(digits_value(digits))
    &&& row.sample_size is None
    &&& row.label == Some(score_label(digits_value(digits)))
}

/// Whether a row tells some score of the tier list.
pub open spec fn tells_some_score(row: RowModel, sections: Seq<SectionModel>) -> bool {
    exists|i: int, j: int|
        0 <= i < sections.len() && #[trigger] tells_score(row, sections[i], j)
}

proof fn entries_come_from_scores(sections: Seq<SectionModel>, k: int)
    requires
        0 <= k < score_entries(sections).len(),
        entry_valid(score_entries(sections)[k]),
    ensures
        tells_some_score(entry_row(score_entries(sections)[k]), sections),
    decreases sections.len(),
{
    let rest = sections.drop_last();
    let before = score_entries(rest);
    let e = score_entries(sections)[k];
    if k < before.len() {
        assert(e == before[k]);
        entries_come_from_scores(rest, k);
        let (i, j) = choose|i: int, j: int|
            0 <= i < rest.len() && #[trigger] tells_score(entry_row(e), rest[i], j);
        assert(sections[i] == rest[i]);
        assert(tells_score(entry_row(e), sections[i], j));
    } else {
        let section = sections.last();
        let j = k - before.len();
        assert(e == section_entries(section)[j]);
        assert(section_class(section.id) is Some);
        let class = section_class(section.id)->0;
        assert(e == ScoreEntry { class, card: section.scores[j].0, score: section.scores[j].1 });
        match class {
            Some(c) => sections_rate_for_the_class_they_name(c, section.id),
            None => sections_rate_for_the_class_they_name(HeroClass::Mage, section.id),
        }
        assert(tells_score(entry_row(e), sections[sections.len() - 1], j));
    }
}

proof fn scores_become_entries(sections: Seq<SectionModel>, i: int, j: int) -> (k: int)
    requires
        0 <= i < sections.len(),
        0 <= j < sections[i].scores.len(),
        section_class(sections[i].id) is Some,
    ensures
        0 <= k < score_entries(sections).len(),
        score_entries(sections)[k] == (ScoreEntry {
            class: section_class(sections[i].id)->0,
            card: sections[i].scores[j].0,
            score: sections[i].scores[j].1,
        }),
    decreases sections.len(),
{
    let rest = sections.drop_last();
    if i < rest.len() {
        let k = scores_become_entries(rest, i, j);
        k
    } else {
        score_entries(rest).len() + j
    }
}

proof fn some_row_is_last(rows: Seq<RowModel>, k: int) -> (i: int)
    requires
        0 <= k < rows.len(),
    ensures
        k <= i < rows.len(),
        last_for_key(rows, i),
        same_key(rows[k], rows[i]),
    decreases rows.len() - k,
{
    if last_for_key(rows, k) {
        k
    } else {
        let j = choose|j: int| k < j < rows.len() && same_key(rows[k], #[trigger] rows[j]);
        some_row_is_last(rows, j)
    }
}

/// A score in the section named after a class becomes a rating of exactly that class, and one in
/// the section of any class a rating of none. Every rating of the list comes from such a score,
/// and every card with a score in such a section has a rating. A list that is taken has at least
/// forty scores in each section and a thousand ratings.
pub proof fn scores_become_ratings_of_their_class(
    rows: Vec<LocalRatingRow>,
    sections: Seq<SectionModel>,
)
    requires
        scores_taken(Ok::<Vec<LocalRatingRow>, RatingError>(rows), sections),
    ensures
        forall|r: RowModel| #[trigger]
            row_models(rows@).contains(r) ==> tells_some_score(r, sections),
        forall|i: int, j: int, class: Option<HeroClass>|
            #![trigger sections[i].scores[j], rates_for(sections[i].id, class)]
            0 <= i < sections.len() && 0 <= j < sections[i].scores.len() && rates_for(
                sections[i].id,
                class,
            ) ==> rated_in(row_models(rows@), trimmed(sections[i].scores[j].0), class),
        rows@.len() >= 1000,
        forall|c: HeroClass| #[trigger] section_count(sections, section_name(c)) >= 40,
        section_count(sections, "any"@) >= 40,
{
    let book = row_models(rows@);
    let entries = score_entries(sections);
    let all = entry_rows(entries);
    assert forall|r: RowModel| #[trigger] book.contains(r) implies tells_some_score(r, sections) by {
        let k = choose|k: int| #[trigger] last_for_key(all, k) && all[k] == r;
        assert(!stops_at(entries, k));
        entries_come_from_scores(sections, k);
    }
    assert forall|i: int, j: int, class: Option<HeroClass>|
        #![trigger sections[i].scores[j], rates_for(sections[i].id, class)]
        0 <= i < sections.len() && 0 <= j < sections[i].scores.len() && rates_for(
            sections[i].id,
            class,
        ) implies rated_in(book, trimmed(sections[i].scores[j].0), class) by {
        match class {
            Some(c) => sections_rate_for_the_class_they_name(c, sections[i].id),
            None => sections_rate_for_the_class_they_name(HeroClass::Mage, sections[i].id),
        }
        let k = scores_become_entries(sections, i, j);
        let last = some_row_is_last(all, k);
        assert(book.contains(all[last]));
        let at = book.index_of(all[last]);
        assert(book[at] == all[last]);
    }
    assert forall|c: HeroClass| #[trigger] section_count(sections, section_name(c)) >= 40 by {
        section_names();
        assert(!section_short(sections, 0));
        assert(!section_short(sections, 1));
        assert(!section_short(sections, 2));
        assert(!section_short(sections, 3));
        assert(!section_short(sections, 4));
        assert(!section_short(sections, 5));
        assert(!section_short(sections, 6));
        assert(!section_short(sections, 7));
        assert(!section_short(sections, 8));
        assert(!section_short(sections, 9));
        assert(!section_short(sections, 10));
    }
    assert(!section_short(sections, 11));
}

/// Whether rows rate a card for a class.
pub open spec fn rated_in(rows: Seq<RowModel>, id: Seq<char>, class: Option<HeroClass>) -> bool {
    exists|i: int|
        0 <= i < rows.len() && (#[trigger] rows[i]).card_id == id && rows[i].class == class
}

/// Scores are called by where they stand: great from a hundred, good from ninety, above average
/// from eighty, average from seventy, below average from sixty, bad from forty, and terrible
/// below.
pub proof fn scores_are_called_by_their_size(score: nat)
    ensures
        score_label(score) == "Great"@ <==> score >= 100,
        score_label(score) == "Good"@ <==> 90 <= score < 100,
        score_label(score) == "Above average"@ <==> 80 <= score < 90,
        score_label(score) == "Average"@ <==> 70 <= score < 80,
        score_label(score) == "Below average"@ <==> 60 <= score < 70,
        score_label(score) == "Bad"@ <==> 40 <= score < 60,
        score_label(score) == "Terrible"@ <==> score < 40,
{
    reveal_strlit("Great");
    reveal_strlit("Good");
    reveal_strlit("Above average");
    reveal_strlit("Average");
    reveal_strlit("Below average");
    reveal_strlit("Bad");
    reveal_strlit("Terrible");
    assert("Above average"@[0] != "Below average"@[0]);
    assert("Great"@.len() == 5 && "Good"@.len() == 4 && "Above average"@.len() == 13
        && "Average"@.len() == 7 && "Below average"@.len() == 13 && "Bad"@.len() == 3
        && "Terrible"@.len() == 8);
}

proof fn significands_double(n: nat, k: nat, e: nat, exponent: nat)
    requires
        pow2(e) <= n < 2 * pow2(e),
        e + k <= 23,
        exponent >= 23,
        exponent - k >= 23 - (e + k) + 1,
    ensures
        significand_bits(n * pow2(k), (exponent - k) as nat) == (exponent - (23 - e)) * 0x80_0000 + (
        n - pow2(e)) * pow2((23 - e) as nat),
    decreases 23 - (e + k),
{
    lemma2_to64();
    let m = n * pow2(k);
    vstd::arithmetic::power2::lemma_pow2_adds(e, k);
    assert(pow2(e) * pow2(k) <= m < 2 * pow2(e) * pow2(k)) by (nonlinear_arith)
        requires
            pow2(e) <= n < 2 * pow2(e),
            m == n * pow2(k),
            pow2(k) > 0,
    ;
    if e + k == 23 {
        assert(m >= 0x80_0000);
        assert((n - pow2(e)) * pow2(k) == m - pow2(e) * pow2(k)) by (nonlinear_arith)
            requires
                m == n * pow2(k),
        ;
        assert(23 - e == k);
    } else {
        vstd::arithmetic::power2::lemma_pow2_strictly_increases((e + k) as nat, 23);
        vstd::arithmetic::power2::lemma_pow2_unfold((e + k + 1) as nat);
        assert(2 * pow2((e + k) as nat) == pow2((e + k + 1) as nat));
        if e + k + 1 < 23 {
            vstd::arithmetic::power2::lemma_pow2_strictly_increases((e + k + 1) as nat, 23);
        }
        assert(m < 0x80_0000) by {
            assert(2 * pow2(e) * pow2(k) == 2 * pow2((e + k) as nat)) by (nonlinear_arith)
                requires
                    pow2(e) * pow2(k) == pow2((e + k) as nat),
            ;
        }
        lemma_pow2_unfold(k + 1);
        assert(2 * m == n * pow2(k + 1)) by (nonlinear_arith)
            requires
                m == n * pow2(k),
                pow2(k + 1) == 2 * pow2(k),
        ;
        significands_double(n, k + 1, e, exponent);
        assert((exponent - k) - 1 == exponent - (k + 1));
    }
}

/// A whole number is kept as the single-precision number of the same size: where its highest power
/// of two is two to the power `e`, the exponent is `e` and the fraction is what is left over.
pub proof fn whole_values_are_their_numbers(n: nat, e: nat)
    requires
        e <= 15,
        pow2(e) <= n < 2 * pow2(e),
    ensures
        whole(n).bits == (127 + e) * 0x80_0000 + (n - pow2(e)) * pow2((23 - e) as nat),
        whole(0).bits == 0,
{
    lemma2_to64();
    significands_double(n, 0, e, 150);
    assert(n * pow2(0) == n);
    assert(n >= 1) by {
        vstd::arithmetic::power2::lemma_pow2_pos(e);
    }
    vstd::arithmetic::power2::lemma_pow2_adds(e, (23 - e) as nat);
    assert((n - pow2(e)) * pow2((23 - e) as nat) < 0x80_0000 && (n - pow2(e)) * pow2(
        (23 - e) as nat,
    ) >= 0) by (nonlinear_arith)
        requires
            pow2(e) <= n < 2 * pow2(e),
            pow2(e) * pow2((23 - e) as nat) == 0x80_0000,
            pow2((23 - e) as nat) > 0,
    ;
}

/// The numbers that can be percentages run from zero to a hundred: both zeros, and what is
/// positive and not above a hundred.
pub proof fn percentages_end_at_a_hundred(v: RatingValue)
    ensures
        is_percentage(v) <==> v.bits == 0 || v.bits == 0x8000_0000 || v.bits <= whole(100).bits,
        is_nan(v) <==> (v.bits / 0x80_0000) % 256 == 255 && v.bits % 0x80_0000 != 0,
{
    lemma2_to64();
    whole_values_are_their_numbers(100, 6);
    let b = v.bits;
    assert((b / 0x80_0000) % 256 == 255 && b % 0x80_0000 != 0 <==> (if b >= 0x8000_0000 {
        b - 0x8000_0000
    } else {
        b as int
    }) > 0x7f80_0000) by (bit_vector);
}

/// Whether a row tells a card of a bucket: its own win rate and number of games, for the class of
/// the bucket, or for none where the bucket is that of all classes.
pub open spec fn tells_bucket_card(row: RowModel, b: HsReplayBucket, j: int) -> bool {
    &&& 0 <= j < b.cards@.len()
    &&& row.card_id == trimmed(b.cards@[j].card_id@)
    &&& row.value == b.cards@[j].drawn_win_rate
    &&& row.sample_size == Some(b.cards@[j].num_games)
    &&& row.label == Some("drawn win rate"@)
    &&& b.bucket@ == "ALL"@ ==> row.class is None
    &&& b.bucket@ != "ALL"@ ==> row.class == b.class_in_log
}

proof fn bucket_cards_are_rows(data: Seq<HsReplayBucket>, b: int, j: int) -> (k: int)
    requires
        0 <= b < data.len(),
        0 <= j < data[b].cards@.len(),
    ensures
        0 <= k < hsreplay_rows(data).len(),
        tells_bucket_card(hsreplay_rows(data)[k], data[b], j),
    decreases data.len(),
{
    let rest = data.drop_last();
    if b < rest.len() {
        bucket_cards_are_rows(rest, b, j)
    } else {
        let k = hsreplay_rows(rest).len() + j;
        assert(hsreplay_rows(data)[k] == bucket_rows(data.last())[j]);
        k
    }
}

/// Whether a row tells some card of some bucket.
pub open spec fn tells_some_card(row: RowModel, data: Seq<HsReplayBucket>) -> bool {
    exists|b: int, j: int| 0 <= b < data.len() && #[trigger] tells_bucket_card(row, data[b], j)
}

proof fn rows_are_bucket_cards(data: Seq<HsReplayBucket>, k: int)
    requires
        0 <= k < hsreplay_rows(data).len(),
    ensures
        tells_some_card(hsreplay_rows(data)[k], data),
    decreases data.len(),
{
    let rest = data.drop_last();
    let before = hsreplay_rows(rest);
    let row = hsreplay_rows(data)[k];
    if k < before.len() {
        rows_are_bucket_cards(rest, k);
        let (b, j) = choose|b: int, j: int|
            0 <= b < rest.len() && #[trigger] tells_bucket_card(row, rest[b], j);
        assert(rest[b] == data[b]);
        assert(tells_bucket_card(row, data[b], j));
    } else {
        let j = k - before.len();
        assert(row == bucket_rows(data.last())[j]);
        assert(tells_bucket_card(row, data[data.len() - 1], j));
    }
}

/// Imported statistics tell the cards of the buckets, each with its own win rate and number of
/// games, for the class of its bucket; and every card of a bucket is rated for that class.
pub proof fn statistics_keep_their_bucket(
    file: LocalRatingFile,
    stats: HsReplayCardStats,
    now: Timestamp,
)
    requires
        is_hsreplay_file(file, stats, now),
    ensures
        forall|r: RowModel| #[trigger]
            row_models(file.ratings@).contains(r) ==> tells_some_card(r, stats.data@),
        forall|b: int, j: int|
            0 <= b < stats.data@.len() && 0 <= j < stats.data@[b].cards@.len() ==> rated_in(
                row_models(file.ratings@),
                trimmed((#[trigger] stats.data@[b].cards@[j]).card_id@),
                if stats.data@[b].bucket@ == "ALL"@ {
                    None
                } else {
                    stats.data@[b].class_in_log
                },
            ),
        file.data_timestamp == now,
{
    let book = row_models(file.ratings@);
    let all = hsreplay_rows(stats.data@);
    assert forall|r: RowModel| #[trigger] book.contains(r) implies tells_some_card(
        r,
        stats.data@,
    ) by {
        let k = choose|k: int| #[trigger] last_for_key(all, k) && all[k] == r;
        rows_are_bucket_cards(stats.data@, k);
    }
    assert forall|b: int, j: int|
        0 <= b < stats.data@.len() && 0 <= j < stats.data@[b].cards@.len() implies rated_in(
        book,
        trimmed((#[trigger] stats.data@[b].cards@[j]).card_id@),
        if stats.data@[b].bucket@ == "ALL"@ {
            None
        } else {
            stats.data@[b].class_in_log
        },
    ) by {
        let k = bucket_cards_are_rows(stats.data@, b, j);
        let last = some_row_is_last(all, k);
        assert(book.contains(all[last]));
        let at = book.index_of(all[last]);
        assert(book[at] == all[last]);
    }
}

/// Whether a row tells a card of a class that was played.
pub open spec fn tells_played_card(
    row: RowModel,
    class: HeroClass,
    card: FirestoneCardStatsRow,
) -> bool {
    &&& card.played > 0
    &&& row.class == Some(class)
    &&& row.card_id == trimmed(card.card_id@)
    &&& row.value == card.played_win_rate
    &&& row.sample_size == Some(card.played)
    &&& row.label == Some("played win rate"@)
}

/// The statistics of a class tell exactly the cards that were played, for that class, each with
/// its own win rate and number of plays.
pub proof fn played_cards_are_rated(class: HeroClass, stats: Seq<FirestoneCardStatsRow>)
    ensures
        forall|k: int|
            0 <= k < firestone_rows(class, stats).len() ==> exists|j: int|
                0 <= j < stats.len() && tells_played_card(
                    #[trigger] firestone_rows(class, stats)[k],
                    class,
                    #[trigger] stats[j],
                ),
        forall|j: int|
            0 <= j < stats.len() && stats[j].played > 0 ==> exists|k: int|
                0 <= k < firestone_rows(class, stats).len() && tells_played_card(
                    #[trigger] firestone_rows(class, stats)[k],
                    class,
                    #[trigger] stats[j],
                ),
        firestone_rows(class, stats).len() == stats.filter(
            |c: FirestoneCardStatsRow| c.played > 0,
        ).len(),
    decreases stats.len(),
{
    reveal(Seq::filter);
    let all = firestone_rows(class, stats);
    if stats.len() > 0 {
        let rest = stats.drop_last();
        let before = firestone_rows(class, rest);
        played_cards_are_rated(class, rest);
        assert forall|k: int| 0 <= k < all.len() implies exists|j: int|
            0 <= j < stats.len() && tells_played_card(#[trigger] all[k], class, #[trigger] stats[j]) by {
            if k < before.len() {
                assert(all[k] == before[k]);
                let j = choose|j: int|
                    0 <= j < rest.len() && tells_played_card(before[k], class, #[trigger] rest[j]);
                assert(stats[j] == rest[j]);
            } else {
                assert(tells_played_card(all[k], class, stats[stats.len() - 1]));
            }
        }
        assert forall|j: int| 0 <= j < stats.len() && stats[j].played > 0 implies exists|k: int|
            0 <= k < all.len() && tells_played_card(#[trigger] all[k], class, #[trigger] stats[j]) by {
            if j < rest.len() {
                assert(stats[j] == rest[j]);
                let k = choose|k: int|
                    0 <= k < before.len() && tells_played_card(
                        #[trigger] before[k],
                        class,
                        rest[j],
                    );
                assert(all[k] == before[k]);
            } else {
                assert(tells_played_card(all[all.len() - 1], class, stats[j]));
            }
        }
    }
}

proof fn file_rows(files: Seq<LocalRatingFile>, f: int, j: int) -> (k: int)
    requires
        0 <= f < files.len(),
        0 <= j < files[f].ratings@.len(),
    ensures
        0 <= k < all_rows(files).len(),
        all_rows(files)[k] == files[f].ratings@[j]@,
    decreases files.len(),
{
    let rest = files.drop_last();
    if f < rest.len() {
        file_rows(rest, f, j)
    } else {
        all_rows(rest).len() + j
    }
}

/// A joint book of files has a rating for each card and class that a file rates, and no others.
pub proof fn files_are_joined(book: Seq<RowModel>, files: Seq<LocalRatingFile>)
    requires
        holds_last(book, all_rows(files)),
    ensures
        forall|f: int, j: int|
            0 <= f < files.len() && 0 <= j < files[f].ratings@.len() ==> rated_in(
                book,
                (#[trigger] files[f].ratings@[j]).card_id@,
                files[f].ratings@[j].class,
            ),
        forall|r: RowModel| #[trigger] book.contains(r) ==> all_rows(files).contains(r),
{
    let all = all_rows(files);
    assert forall|f: int, j: int|
        0 <= f < files.len() && 0 <= j < files[f].ratings@.len() implies rated_in(
        book,
        (#[trigger] files[f].ratings@[j]).card_id@,
        files[f].ratings@[j].class,
    ) by {
        let k = file_rows(files, f, j);
        let last = some_row_is_last(all, k);
        assert(book.contains(all[last]));
        let at = book.index_of(all[last]);
        assert(book[at] == all[last]);
    }
}

/// Files contradict each other exactly where two of their rows rate the same card for the same
/// class by different numbers; then a first such row is named. Numbers are different unless both
/// are numbers and are equal, the two zeros among them.
pub proof fn contradictions_are_found(rows: Seq<RowModel>)
    ensures
        (exists|i: int| #[trigger] first_conflict(rows, i)) <==> contradictory(rows),
{
    if exists|i: int| #[trigger] first_conflict(rows, i) {
        let i = choose|i: int| #[trigger] first_conflict(rows, i);
        let j = choose|j: int|
            {
                &&& #[trigger] last_for_key(rows.take(i), j)
                &&& same_key(rows[j], rows[i])
                &&& !same_number(rows[j].value, rows[i].value)
            };
        assert(disagree(rows[j], rows[i]));
    }
    if contradictory(rows) {
        if forall|i: int| !#[trigger] conflicts(rows, i) {
            let (j, i) = choose|j: int, i: int|
                0 <= j < i < rows.len() && disagree(#[trigger] rows[j], #[trigger] rows[i]);
            let last = some_row_is_last(rows.take(i), j);
            assert(rows.take(i)[last] == rows[last]);
            assert(rows.take(i)[j] == rows[j]);
            assert(last_for_key(rows.take(i), last));
            assert(!conflicts(rows, i));
            no_conflicts_agree(rows, j, last);
            assert(same_number(rows[last].value, rows[i].value));
            assert(false);
        }
        let i = choose|i: int| #[trigger] conflicts(rows, i);
        let _ = earliest_conflict(rows, i);
    }
}

/// Whether two rows rate the same card for the same class by different numbers.
pub open spec fn disagree(a: RowModel, b: RowModel) -> bool {
    same_key(a, b) && !same_number(a.value, b.value)
}

/// Whether rows disagree.
pub open spec fn contradictory(rows: Seq<RowModel>) -> bool {
    exists|j: int, i: int|
        0 <= j < i < rows.len() && disagree(#[trigger] rows[j], #[trigger] rows[i])
}

proof fn earliest_conflict(rows: Seq<RowModel>, i: int) -> (first: int)
    requires
        conflicts(rows, i),
    ensures
        first_conflict(rows, first),
    decreases i,
{
    if exists|k: int| 0 <= k < i && #[trigger] conflicts(rows, k) {
        let k = choose|k: int| 0 <= k < i && #[trigger] conflicts(rows, k);
        earliest_conflict(rows, k)
    } else {
        i
    }
}

proof fn no_conflicts_agree(rows: Seq<RowModel>, j: int, i: int)
    requires
        forall|k: int| !#[trigger] conflicts(rows, k),
        0 <= j <= i < rows.len(),
        same_key(rows[j], rows[i]),
    ensures
        j < i ==> same_number(rows[j].value, rows[i].value),
    decreases i - j,
{
    if j < i {
        let t = rows.take(i);
        let last = some_row_is_last(t, j);
        assert(t[last] == rows[last] && t[j] == rows[j]);
        assert(last_for_key(t, last));
        assert(!conflicts(rows, i));
        assert(same_number(rows[last].value, rows[i].value));
        no_conflicts_agree(rows, j, last);
    }
}

/// The games behind rows that rate a card.
pub open spec fn games(rows: Seq<RowModel>) -> nat
    decreases rows.len(),
{
    if rows.len() == 0 {
        0
    } else {
        games(rows.skip(1)) + match rows[0].sample_size {
            Some(n) => n as nat,
            None => 0nat,
        }
    }
}

proof fn games_of_longer(rows: Seq<RowModel>, row: RowModel)
    ensures
        games(rows.push(row)) == games(rows) + match row.sample_size {
            Some(n) => n as nat,
            None => 0nat,
        },
    decreases rows.len(),
{
    let all = rows.push(row);
    if rows.len() == 0 {
        assert(all.skip(1) =~= Seq::<RowModel>::empty());
        assert(games(all.skip(1)) == 0);
    } else {
        assert(all.skip(1) =~= rows.skip(1).push(row));
        games_of_longer(rows.skip(1), row);
    }
}

/// A joint rating rests on the games of all rows together, as far as the counter reaches.
pub proof fn joint_ratings_add_their_games(rows: Seq<RowModel>)
    ensures
        games(rows) <= u64::MAX ==> total_sample(rows) == games(rows),
        games(rows) > u64::MAX ==> total_sample(rows) == u64::MAX,
    decreases rows.len(),
{
    if rows.len() > 0 {
        joint_ratings_add_their_games(rows.drop_last());
        games_of_longer(rows.drop_last(), rows.last());
        assert(rows.drop_last().push(rows.last()) =~= rows);
    }
}

/// A provider's rating of a card for a class is the row for that card and class, or else the one
/// for that card and all classes, and there is none exactly where neither is there.
pub proof fn ratings_are_of_the_card_and_class(
    provider: LocalJsonRatingProvider,
    id: Seq<char>,
    class: Option<HeroClass>,
)
    ensures
        ({
            let rows = provider.book().rows();
            &&& provider.rated(id, class) is Some <==> rated_in(rows, id, class) || rated_in(
                rows,
                id,
                None,
            )
            &&& provider.rated(id, class) matches Some(row) ==> {
                &&& rows.contains(row)
                &&& row.card_id == id
                &&& row.class == class || (row.class is None && !rated_in(rows, id, class))
            }
        }),
{
    let rows = provider.book().rows();
    if provider.book().has(id, class) {
        let i = choose|i: int|
            0 <= i < rows.len() && (#[trigger] rows[i]).card_id == id && rows[i].class == class;
        assert(rows[i] == provider.book().row(id, class));
    } else if provider.book().has(id, None) {
        let i = choose|i: int|
            0 <= i < rows.len() && (#[trigger] rows[i]).card_id == id && rows[i].class
                == None::<HeroClass>;
        assert(rows[i] == provider.book().row(id, None));
    }
}

/// The class at a place of the alphabet.
pub open spec fn class_at(i: int) -> HeroClass {
    if i == 1 {
        HeroClass::DeathKnight
    } else if i == 2 {
        HeroClass::DemonHunter
    } else if i == 3 {
        HeroClass::Druid
    } else if i == 4 {
        HeroClass::Hunter
    } else if i == 5 {
        HeroClass::Mage
    } else if i == 6 {
        HeroClass::Paladin
    } else if i == 7 {
        HeroClass::Priest
    } else if i == 8 {
        HeroClass::Rogue
    } else if i == 9 {
        HeroClass::Shaman
    } else if i == 10 {
        HeroClass::Warlock
    } else {
        HeroClass::Warrior
    }
}

proof fn next_class_comes_later(i: int)
    requires
        1 <= i < 11,
    ensures
        text_lt(class_name(class_at(i)), class_name(class_at(i + 1))),
{
    reveal_class_names();
    reveal_with_fuel(text_lt, 5);
}

proof fn later_class_comes_later(i: int, j: int)
    requires
        1 <= i < j <= 11,
    ensures
        text_lt(class_name(class_at(i)), class_name(class_at(j))),
    decreases j - i,
{
    next_class_comes_later(j - 1);
    if i < j - 1 {
        later_class_comes_later(i, j - 1);
        text_lt_transitive(
            class_name(class_at(i)),
            class_name(class_at(j - 1)),
            class_name(class_at(j)),
        );
    }
}

/// The rows of a card stand in the order of the names of their classes, after the row for all.
pub proof fn classes_stand_by_name(a: HeroClass, b: HeroClass)
    ensures
        class_rank(Some(a)) < class_rank(Some(b)) <==> text_lt(class_name(a), class_name(b)),
        class_rank(None) < class_rank(Some(a)),
{
    let i = class_rank(Some(a));
    let j = class_rank(Some(b));
    assert(class_at(i) == a && class_at(j) == b);
    if i < j {
        later_class_comes_later(i, j);
    } else {
        if j < i {
            later_class_comes_later(j, i);
        }
        if text_lt(class_name(a), class_name(b)) {
            if j < i {
                text_lt_transitive(class_name(a), class_name(b), class_name(a));
            }
            text_lt_irreflexive(class_name(a));
        }
    }
}

/// Whether a shown rating is a provider's own rating of a card for a class.
pub open spec fn shows_rating_of(
    shown: ProviderRating,
    provider: LocalJsonRatingProvider,
    id: Seq<char>,
    class: Option<HeroClass>,
) -> bool {
    &&& shown.provider.provider@ == provider.source().provider@
    &&& shown.provider.data_timestamp == provider.source().data_timestamp
    &&& provider.rated(id, class) matches Some(row)
    &&& shown.rating.card_id@ == row.card_id
    &&& shown.rating.value == row.value
    &&& shown.rating.sample_size == row.sample_size
}

/// The place of a provider among those that rate a card.
pub open spec fn place_among_raters(
    providers: Seq<LocalJsonRatingProvider>,
    id: Seq<char>,
    class: Option<HeroClass>,
    i: int,
) -> int
    decreases i,
{
    if i <= 0 {
        0
    } else {
        place_among_raters(providers, id, class, i - 1) + if providers[i - 1].rated(id, class) is Some {
            1int
        } else {
            0
        }
    }
}

proof fn places_of_fewer(
    providers: Seq<LocalJsonRatingProvider>,
    id: Seq<char>,
    class: Option<HeroClass>,
    i: int,
)
    requires
        0 <= i < providers.len(),
    ensures
        place_among_raters(providers.drop_last(), id, class, i) == place_among_raters(
            providers,
            id,
            class,
            i,
        ),
    decreases i,
{
    if i > 0 {
        places_of_fewer(providers, id, class, i - 1);
    }
}

/// Every provider that rates a card is shown with its own rating and source, in the order of the
/// providers, and no other rating is shown. The joint rating rests on the same rows.
pub proof fn each_provider_shows_its_own(
    shown: Seq<ProviderRating>,
    providers: Seq<LocalJsonRatingProvider>,
    id: Seq<char>,
    class: Option<HeroClass>,
)
    requires
        shows_each(shown, providers, id, class),
    ensures
        shown.len() == place_among_raters(providers, id, class, providers.len() as int),
        rating_rows(providers, id, class).len() == shown.len(),
        forall|i: int|
            0 <= i < providers.len() && (#[trigger] providers[i]).rated(id, class) is Some ==> {
                let k = place_among_raters(providers, id, class, i);
                &&& 0 <= k < shown.len()
                &&& shows_rating_of(shown[k], providers[i], id, class)
                &&& rating_rows(providers, id, class)[k] == providers[i].rated(id, class)->0
            },
    decreases providers.len(),
{
    if providers.len() > 0 {
        let rest = providers.drop_last();
        let n = rest.len() as int;
        places_of_fewer(providers, id, class, n);
        let fewer = if providers.last().rated(id, class) is Some {
            shown.drop_last()
        } else {
            shown
        };
        each_provider_shows_its_own(fewer, rest, id, class);
        assert forall|i: int|
            0 <= i < providers.len() && (#[trigger] providers[i]).rated(id, class) is Some implies {
            let k = place_among_raters(providers, id, class, i);
            &&& 0 <= k < shown.len()
            &&& shows_rating_of(shown[k], providers[i], id, class)
            &&& rating_rows(providers, id, class)[k] == providers[i].rated(id, class)->0
        } by {
            places_of_fewer(providers, id, class, i);
            if i < n {
                assert(rest[i] == providers[i]);
            }
        }
    }
}

/// The time of a moment, in nanoseconds.
pub open spec fn nanoseconds_of(t: Timestamp) -> int {
    t.seconds * 1_000_000_000 + t.nanoseconds
}

/// Joined providers are as old as the oldest of them; merged files are as new as the newest.
pub proof fn joint_data_are_old_and_merged_data_are_new(
    t: Timestamp,
    providers: Seq<LocalJsonRatingProvider>,
    files: Seq<LocalRatingFile>,
    i: int,
)
    requires
        t.nanoseconds < 1_000_000_000,
    ensures
        is_earliest(t, providers) && 0 <= i < providers.len()
            && providers[i].source().data_timestamp.nanoseconds < 1_000_000_000 ==> nanoseconds_of(t)
            <= nanoseconds_of(providers[i].source().data_timestamp),
        is_earliest(t, providers) ==> exists|k: int|
            0 <= k < providers.len() && (#[trigger] providers[k]).source().data_timestamp == t,
        is_latest(t, files) && 0 <= i < files.len() && files[i].data_timestamp.nanoseconds
            < 1_000_000_000 ==> nanoseconds_of(t) >= nanoseconds_of(files[i].data_timestamp),
        is_latest(t, files) ==> exists|k: int|
            0 <= k < files.len() && (#[trigger] files[k]).data_timestamp == t,
{
}

/// Whether a score of a section can be taken: its card has a name, and the score is a number of up
/// to two hundred.
pub open spec fn sound_score(score: (Seq<char>, Seq<char>)) -> bool {
    let digits = unsigned_part(score.1);
    !blank(score.0) && digits.len() > 0 && all_digits(digits) && digits_value(digits) <= 200
}

/// Whether a section is one of those that rate cards.
pub open spec fn rates_cards(section: Seq<char>) -> bool {
    section == "any"@ || exists|c: HeroClass| section == #[trigger] section_name(c)
}

proof fn rating_sections_have_a_class(section: Seq<char>)
    ensures
        section_class(section) is Some <==> rates_cards(section),
{
    sections_rate_for_the_class_they_name(HeroClass::Mage, section);
    if let Some(Some(c)) = section_class(section) {
        sections_rate_for_the_class_they_name(c, section);
    }
    if exists|c: HeroClass| section == #[trigger] section_name(c) {
        let c = choose|c: HeroClass| section == #[trigger] section_name(c);
        sections_rate_for_the_class_they_name(c, section);
    }
}

proof fn entries_are_scores(sections: Seq<SectionModel>, k: int) -> (place: (int, int))
    requires
        0 <= k < score_entries(sections).len(),
    ensures
        ({
            let (i, j) = place;
            let e = score_entries(sections)[k];
            &&& 0 <= i < sections.len()
            &&& 0 <= j < sections[i].scores.len()
            &&& section_class(sections[i].id) == Some(e.class)
            &&& e.card == sections[i].scores[j].0
            &&& e.score == sections[i].scores[j].1
        }),
    decreases sections.len(),
{
    let rest = sections.drop_last();
    let before = score_entries(rest);
    if k < before.len() {
        let (i, j) = entries_are_scores(rest, k);
        (i, j)
    } else {
        let j = k - before.len();
        assert(score_entries(sections)[k] == section_entries(sections.last())[j]);
        (sections.len() - 1, j)
    }
}

/// A list is refused for a bad card only where one of its sections that rate cards holds a score
/// that cannot be taken, and is taken only where none does. It is refused for a short section only
/// where that section has fewer than forty scores, and named with their number.
pub proof fn lists_are_refused_for_bad_scores(
    r: Result<Vec<LocalRatingRow>, RatingError>,
    sections: Seq<SectionModel>,
)
    requires
        scores_taken(r, sections),
    ensures
        r matches Err(RatingError::InvalidCard) ==> exists|i: int, j: int|
            0 <= i < sections.len() && 0 <= j < sections[i].scores.len() && rates_cards(
                sections[i].id,
            ) && !sound_score(#[trigger] sections[i].scores[j]),
        r is Ok ==> forall|i: int, j: int|
            0 <= i < sections.len() && 0 <= j < sections[i].scores.len() && rates_cards(
                sections[i].id,
            ) ==> sound_score(#[trigger] sections[i].scores[j]),
        r matches Err(RatingError::IncompleteSection { section, count }) ==> rates_cards(section@)
            && count < 40 && count == section_count(sections, section@),
        r matches Err(RatingError::TooFewScores { count }) ==> count < 1000,
{
    let entries = score_entries(sections);
    match r {
        Err(RatingError::InvalidCard) => {
            let k = choose|k: int| #[trigger]
                crate::imports::first_stop(entries, k) && !entry_valid(entries[k]);
            let (i, j) = entries_are_scores(sections, k);
            rating_sections_have_a_class(sections[i].id);
            trimming_takes_white_space_only(entries[k].card);
            assert(!sound_score(sections[i].scores[j]));
        },
        Ok(rows) => {
            assert forall|i: int, j: int|
                0 <= i < sections.len() && 0 <= j < sections[i].scores.len() && rates_cards(
                    sections[i].id,
                ) implies sound_score(#[trigger] sections[i].scores[j]) by {
                rating_sections_have_a_class(sections[i].id);
                let k = scores_become_entries(sections, i, j);
                assert(!stops_at(entries, k));
                trimming_takes_white_space_only(entries[k].card);
            }
        },
        Err(RatingError::IncompleteSection { section, count }) => {
            section_names();
            let i = choose|i: int|
                {
                    &&& 0 <= i < 12
                    &&& #[trigger] section_short(sections, i)
                    &&& section@ == crate::imports::HEARTHARENA_SECTIONS@[i]@
                    &&& count == section_count(sections, section@)
                    &&& forall|j: int| 0 <= j < i ==> !#[trigger] section_short(sections, j)
                };
            if i < 11 {
                let c = class_at(i + 1);
                assert(section@ == section_name(c));
            }
        },
        _ => {},
    }
}

/// A tier list is imported with the moment and the version of its latest change, and is refused
/// without one.
pub proof fn tier_lists_tell_their_latest_change(
    r: Result<LocalRatingFile, RatingError>,
    sections: Seq<SectionModel>,
    changelog: Option<(i64, Seq<char>)>,
)
    requires
        tier_list_imported(r, sections, changelog),
    ensures
        r matches Ok(file) ==> {
            &&& changelog matches Some((seconds, version))
            &&& file.data_timestamp.seconds == seconds
            &&& file.data_timestamp.nanoseconds == 0
            &&& file.data_version matches Some(v)
            &&& v@ == version
            &&& scores_taken(Ok::<Vec<LocalRatingRow>, RatingError>(file.ratings), sections)
        },
        r matches Err(RatingError::MissingChangelog) ==> changelog is None,
{
}

/// The latest change is read from its heading: the date as a year of two digits or else of four,
/// and a version that gives the date, then the note.
pub proof fn changes_are_read_from_their_heading(groups: Option<Seq<Option<Seq<char>>>>)
    ensures
        groups is None ==> changelog_of(groups) is None,
        groups matches Some(g) ==> {
            let date = group_or_empty(g, 1);
            let note = trimmed(group_or_empty(g, 2));
            let short = midnight_of(date, "%m/%d/%y"@);
            let long = midnight_of(date, "%m/%d/%Y"@);
            &&& changelog_of(groups) is None <==> short is None && long is None
            &&& changelog_of(groups) matches Some((t, version)) ==> {
                &&& short is Some ==> short == Some(t)
                &&& short is None ==> long == Some(t)
                &&& occurs_at(version, date, 0)
                &&& occurs_at(version, note, version.len() - note.len())
                &&& version.len() == date.len() + 2 + note.len()
            }
        },
{
    reveal_strlit(": ");
    if let Some(g) = groups {
        if let Some((t, version)) = changelog_of(groups) {
            let date = group_or_empty(g, 1);
            let note = trimmed(group_or_empty(g, 2));
            assert(version.subrange(0, date.len() as int) =~= date);
            assert(version.subrange(version.len() - note.len(), version.len() as int) =~= note);
        }
    }
}

/// Statistics of a class are refused only for a card that was played, and exactly for one without
/// an id or with a win rate that is no percentage.
pub proof fn played_cards_need_an_id_and_a_percentage(card: FirestoneCardStatsRow)
    ensures
        firestone_fault(card) <==> card.played > 0 && (blank(card.card_id@) || !is_percentage(
            card.played_win_rate,
        )),
{
    trimming_takes_white_space_only(card.card_id@);
}

/// Statistics of Firestone become one file of its name, with the moment at which they were brought
/// up to date.
pub proof fn statistics_of_firestone_keep_their_moment(stats: FirestoneCardStats, f: LocalRatingFile)
    requires
        call_ensures(import_firestone, (&stats,), Ok::<LocalRatingFile, RatingError>(f)),
    ensures
        f.provider@ == "Firestone"@,
        f.data_timestamp == stats.last_updated,
        f.arena_season is None,
        opt_text(f.data_version) == Some("last-patch"@),
{
}

/// A joint rating has the value that was worked out, and is labelled by the number of its sources.
pub proof fn joint_ratings_are_labelled_by_their_sources(
    c: CompositeRatingProvider,
    id: &str,
    class: Option<HeroClass>,
    mean: RatingValue,
    r: Option<CardRating>,
)
    requires
        call_ensures(CompositeRatingProvider::combined_rating, (&c, id, class, mean), r),
    ensures
        ({
            let n = rating_rows(c.providers(), id@, class).len();
            &&& r is Some <==> n > 0
            &&& r matches Some(x) ==> x.value == mean && x.card_id@ == id@ && (x.label matches Some(
                label,
            ) && occurs_at(label@, decimal(n), 8) && occurs_at(label@, "mean of "@, 0))
        }),
{
    reveal_strlit("mean of ");
    let n = rating_rows(c.providers(), id@, class).len();
    if let Some(x) = r {
        if let Some(label) = x.label {
            assert(label@.subrange(0, 8) =~= "mean of "@);
            assert(label@.subrange(8, 8 + decimal(n).len() as int) =~= decimal(n));
        }
    }
}

/// Joint data are of at least one provider, and are of no one season or version.
pub proof fn joint_data_have_providers(
    providers: Vec<LocalJsonRatingProvider>,
    r: Result<CompositeRatingProvider, RatingError>,
)
    requires
        call_ensures(CompositeRatingProvider::from_providers, (providers,), r),
    ensures
        r is Ok <==> providers@.len() > 0,
        r matches Ok(c) ==> {
            &&& c.providers() == providers@
            &&& occurs_at(c.source().provider@, "Composite: "@, 0)
            &&& c.source().arena_season is None
            &&& c.source().data_version is None
        },
{
    if let Ok(c) = r {
        let n = "Composite: "@.len() as int;
        assert(c.source().provider@.subrange(0, n) =~= "Composite: "@);
    }
}

/// Merged data bear the name they were asked for, and are of no one season or version.
pub proof fn merged_data_bear_their_name(
    provider: &str,
    files: Vec<LocalRatingFile>,
    r: Result<LocalRatingFile, RatingError>,
)
    requires
        call_ensures(merge_local_rating_files, (provider, files), r),
    ensures
        r matches Err(e) ==> (e is NoFiles <==> files@.len() == 0),
        files@.len() == 0 ==> r is Err,
        r matches Ok(f) ==> f.provider@ == provider@ && f.arena_season is None && f.data_version is None,
{
}

/// What is wrong with ratings is told with the card, the class or the number it is about, and with
/// the name of the provider.
pub proof fn refused_ratings_name_their_cause(e: RatingError, origin: RatingOrigin)
    ensures
        ({
            let t = rating_refusal(e, origin);
            &&& e matches RatingError::Conflict { card_id } ==> contains_part(t, card_id@)
            &&& e matches RatingError::InvalidWinRate { card_id } ==> contains_part(t, card_id@)
            &&& e matches RatingError::UnknownClass { context } ==> contains_part(t, context@)
            &&& e matches RatingError::IncompleteSection { section, .. } ==> contains_part(
                t,
                section@,
            )
            &&& e matches RatingError::TooFewScores { count } ==> contains_part(
                t,
                decimal(count as nat),
            )
            &&& e is TooFewScores || e is InvalidCard || e is Conflict ==> (origin is HearthArena
                <==> occurs_at(t, "HearthArena"@, 0))
            &&& e is TooFewScores || e is InvalidCard ==> (!(origin is HearthArena) <==> occurs_at(
                t,
                "HSReplay"@,
                0,
            ))
        }),
{
    reveal_strlit("HearthArena");
    reveal_strlit("HSReplay");
    reveal_strlit("HearthArena returned conflicting scores for ");
    reveal_strlit("Conflicting scores for ");
    reveal_strlit("HearthArena returned an invalid card ID or score");
    reveal_strlit("HSReplay returned an invalid card ID or win rate");
    reveal_strlit("HearthArena response is incomplete: only ");
    reveal_strlit("HSReplay response is incomplete: only ");
    let t = rating_refusal(e, origin);
    assert(t.len() >= 11 ==> (t.subrange(0, 11) == "HearthArena"@ ==> t[0] == 'H' && t[1] == 'e'))
        by {
        if t.len() >= 11 && t.subrange(0, 11) == "HearthArena"@ {
            assert(t.subrange(0, 11)[0] == 'H');
            assert(t.subrange(0, 11)[1] == 'e');
        }
    }
    assert(t.len() >= 8 ==> (t.subrange(0, 8) == "HSReplay"@ ==> t[1] == 'S')) by {
        if t.len() >= 8 && t.subrange(0, 8) == "HSReplay"@ {
            assert(t.subrange(0, 8)[1] == 'S');
        }
    }
    match e {
        RatingError::Conflict { card_id } => {
            let head = if origin is HearthArena {
                "HearthArena returned conflicting scores for "@
            } else {
                "Conflicting scores for "@
            };
            let n = head.len() as int;
            assert(t.subrange(n, n + card_id@.len()) =~= card_id@);
            assert(occurs_at(t, card_id@, n));
            if origin is HearthArena {
                assert(t.subrange(0, 11) =~= "HearthArena"@);
            } else {
                assert(t[0] == 'C');
            }
        },
        RatingError::InvalidWinRate { card_id } => {
            let n = "Firestone returned an invalid played win rate for "@.len() as int;
            assert(t.subrange(n, n + card_id@.len()) =~= card_id@);
            assert(occurs_at(t, card_id@, n));
        },
        RatingError::UnknownClass { context } => {
            let n = "unknown Firestone class `"@.len() as int;
            assert(t.subrange(n, n + context@.len()) =~= context@);
            assert(occurs_at(t, context@, n));
        },
        RatingError::IncompleteSection { section, count } => {
            let n = "HearthArena response is incomplete: section `"@.len() as int;
            assert(t.subrange(n, n + section@.len()) =~= section@);
            assert(occurs_at(t, section@, n));
        },
        RatingError::TooFewScores { count } => {
            let head = if origin is HearthArena {
                "HearthArena response is incomplete: only "@
            } else {
                "HSReplay response is incomplete: only "@
            };
            let n = head.len() as int;
            let d = decimal(count as nat);
            assert(t.subrange(n, n + d.len()) =~= d);
            assert(occurs_at(t, d, n));
            if origin is HearthArena {
                assert(t.subrange(0, 11) =~= "HearthArena"@);
                assert(t[1] == 'e');
            } else {
                assert(t.subrange(0, 8) =~= "HSReplay"@);
                assert(t[1] == 'S');
            }
        },
        RatingError::InvalidCard => {
            if origin is HearthArena {
                assert(t.subrange(0, 11) =~= "HearthArena"@);
            } else {
                assert(t.subrange(0, 8) =~= "HSReplay"@);
            }
        },
        _ => {},
    }
}

/// A provider that rates alone shows its own rating under its own name, and none where it has none.
pub proof fn single_providers_show_their_own_rating(
    ratings: Seq<ProviderRating>,
    source: ProviderMetadata,
    rating: Option<CardRating>,
)
    requires
        is_single_rating(ratings, source, rating),
    ensures
        ratings.len() == 1 <==> rating is Some,
        ratings.len() == 0 <==> rating is None,
        rating matches Some(x) ==> ratings[0].rating == x && ratings[0].provider.provider@
            == source.provider@,
{
}

} // verus!
