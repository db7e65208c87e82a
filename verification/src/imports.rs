//! Importing card ratings from public sources.
//!
//! An incomplete response is refused before it can replace ratings that were verified before.

use vstd::prelude::*;

use crate::card_data::Timestamp;
use crate::pattern;
use crate::pattern::{group_lists, group_or_empty, group_texts, match_groups, match_list};
use crate::ratings::{
    book_takes_one_more, conflicts, conflicts_of_longer, holds_last, insert_checked, is_percentage,
    row_models, LocalRatingFile, LocalRatingRow, RatingBook, RatingError, RatingValue, RowModel,
};
use crate::state::{opt_text, HeroClass};
use crate::text;
use crate::text::{chars_of, decimal, parsed_number, texts, trimmed};

verus! {

/// The public tier list.
pub const HEARTHARENA_TIERLIST_URL: &'static str = "https://www.heartharena.com/tierlist";

/// The public card statistics.
pub const HSREPLAY_ARENA_CARD_STATS_URL: &'static str =
    "https://hsreplay.net/api/v1/arena/card_stats/free/?format=json";

/// The base of the public card statistics by class.
pub const FIRESTONE_CARDS_BASE_URL: &'static str =
    "https://static.zerotoheroes.com/api/arena/stats/cards";

/// The classes in the addresses of the statistics by class.
pub const FIRESTONE_CLASS_SLUGS: [&'static str; 11] = [
    "mage",
    "hunter",
    "warrior",
    "paladin",
    "shaman",
    "priest",
    "warlock",
    "rogue",
    "druid",
    "demonhunter",
    "deathknight",
];

/// A card of a statistics bucket.
#[derive(Debug)]
pub struct HsReplayCardStatsRow {
    pub card_id: String,
    pub drawn_win_rate: RatingValue,
    pub num_games: u64,
}

/// A statistics bucket: the cards of one class, or of all. `class_in_log` is the class whose
/// log name the bucket has, if there is one.
#[derive(Debug)]
pub struct HsReplayBucket {
    pub bucket: String,
    pub class_in_log: Option<HeroClass>,
    pub cards: Vec<HsReplayCardStatsRow>,
}

/// The statistics after they were read, with the buckets in the order of their names.
#[derive(Debug)]
pub struct HsReplayCardStats {
    pub data: Vec<HsReplayBucket>,
    pub selected_params: Vec<String>,
    pub meta_period_id: Option<u64>,
}

/// The class that a bucket rates for: none for the bucket of all classes.
pub open spec fn bucket_class(bucket: Seq<char>, class_in_log: Option<HeroClass>) -> Option<
    HeroClass,
> {
    if bucket == "ALL"@ {
        None
    } else {
        class_in_log
    }
}

/// The class that a bucket rates for.
pub fn hsreplay_bucket_class(bucket: &str, class_in_log: Option<HeroClass>) -> (r: Option<
    HeroClass,
>)
    ensures
        r == bucket_class(bucket@, class_in_log),
{
    if text::str_eq(bucket, "ALL") {
        None
    } else {
        class_in_log
    }
}

/// The row for a card of a bucket.
pub open spec fn hsreplay_row(class: Option<HeroClass>, card: HsReplayCardStatsRow) -> RowModel {
    RowModel {
        card_id: trimmed(card.card_id@),
        class,
        value: card.drawn_win_rate,
        sample_size: Some(card.num_games),
        label: Some("drawn win rate"@),
    }
}

/// The rows of a bucket.
pub open spec fn bucket_rows(b: HsReplayBucket) -> Seq<RowModel> {
    b.cards@.map_values(
        |c: HsReplayCardStatsRow| hsreplay_row(bucket_class(b.bucket@, b.class_in_log), c),
    )
}

/// The rows of all buckets.
pub open spec fn hsreplay_rows(data: Seq<HsReplayBucket>) -> Seq<RowModel>
    decreases data.len(),
{
    if data.len() == 0 {
        Seq::empty()
    } else {
        hsreplay_rows(data.drop_last()) + bucket_rows(data.last())
    }
}

/// Whether every row names a card and holds a percentage.
pub open spec fn valid_rows(rows: Seq<RowModel>) -> bool {
    forall|i: int|
        0 <= i < rows.len() ==> (#[trigger] rows[i]).card_id.len() > 0 && is_percentage(
            rows[i].value,
        )
}

/// Texts with a separator between each two.
pub open spec fn joined(parts: Seq<Seq<char>>, separator: Seq<char>) -> Seq<char>
    decreases parts.len(),
{
    if parts.len() == 0 {
        Seq::empty()
    } else if parts.len() == 1 {
        parts[0]
    } else {
        joined(parts.drop_last(), separator) + separator + parts.last()
    }
}

/// Joins texts with a separator between each two.
pub fn join_texts(parts: &Vec<String>, separator: &str) -> (r: String)
    ensures
        r@ == joined(texts(parts@), separator@),
{
    let ghost all = texts(parts@);
    let mut out = String::new();
    let mut i: usize = 0;
    assert(all.take(0) =~= Seq::<Seq<char>>::empty());
    while i < parts.len()
        invariant
            i <= parts.len(),
            all == texts(parts@),
            out@ == joined(all.take(i as int), separator@),
        decreases parts.len() - i,
    {
        assert(all.take(i + 1).drop_last() =~= all.take(i as int));
        assert(all.take(i + 1).last() == all[i as int]);
        if i > 0 {
            out.append(separator);
        }
        out.append(parts[i].as_str());
        if i == 0 {
            assert(out@ =~= all[0]);
            assert(all.take(1)[0] == all[0]);
        }
        i = i + 1;
    }
    assert(all.take(i as int) =~= all);
    out
}

/// The least number of scores that a complete response has.
pub const HSREPLAY_MINIMUM_SCORES: usize = 500;

/// Whether a file holds the ratings of the statistics.
pub open spec fn is_hsreplay_file(
    file: LocalRatingFile,
    stats: HsReplayCardStats,
    now: Timestamp,
) -> bool {
    let version = joined(texts(stats.selected_params@), " + "@);
    &&& holds_last(row_models(file.ratings@), hsreplay_rows(stats.data@))
    &&& file.provider@ == "HSReplay Arena"@
    &&& file.data_timestamp == now
    &&& opt_text(file.arena_season) == (match stats.meta_period_id {
        Some(period) => Some("period "@ + decimal(period as nat)),
        None => None,
    })
    &&& opt_text(file.data_version) == (if version.len() > 0 {
        Some(version)
    } else {
        None
    })
}

/// Takes the ratings of the statistics: the bucket of all classes for every class, the others
/// for theirs.
pub fn import_hsreplay(stats: &HsReplayCardStats, now: Timestamp) -> (r: Result<
    LocalRatingFile,
    RatingError,
>)
    ensures
        match r {
            Err(RatingError::InvalidCard) => !valid_rows(hsreplay_rows(stats.data@)),
            Err(RatingError::TooFewScores { count }) => valid_rows(hsreplay_rows(stats.data@))
                && count < HSREPLAY_MINIMUM_SCORES && exists|book: Seq<RowModel>| #[trigger]
                holds_last(book, hsreplay_rows(stats.data@)) && book.len() == count,
            Err(_) => false,
            Ok(file) => {
                &&& valid_rows(hsreplay_rows(stats.data@))
                &&& file.ratings@.len() >= HSREPLAY_MINIMUM_SCORES
                &&& is_hsreplay_file(file, *stats, now)
            },
        },
{
    let mut book = RatingBook::new();
    let data = &stats.data;
    let ghost all = hsreplay_rows(data@);
    let mut b: usize = 0;
    assert(data@.take(0) =~= Seq::<HsReplayBucket>::empty());
    while b < data.len()
        invariant
            b <= data.len(),
            *data == stats.data,
            all == hsreplay_rows(data@),
            book.wf(),
            holds_last(book.rows(), hsreplay_rows(data@.take(b as int))),
            valid_rows(hsreplay_rows(data@.take(b as int))),
        decreases data.len() - b,
    {
        let bucket = &data[b];
        let class = hsreplay_bucket_class(bucket.bucket.as_str(), bucket.class_in_log);
        let cards = &bucket.cards;
        let ghost done = hsreplay_rows(data@.take(b as int));
        let ghost more = bucket_rows(data@[b as int]);
        proof {
            assert(data@.take(b + 1).drop_last() =~= data@.take(b as int));
            assert(data@.take(b + 1).last() == data@[b as int]);
        }
        let mut c: usize = 0;
        assert(done + more.take(0) =~= done);
        while c < cards.len()
            invariant
                c <= cards.len(),
                b < data.len(),
                *data == stats.data,
                all == hsreplay_rows(data@),
                *cards == data@[b as int].cards,
                class == bucket_class(data@[b as int].bucket@, data@[b as int].class_in_log),
                more == bucket_rows(data@[b as int]),
                done == hsreplay_rows(data@.take(b as int)),
                hsreplay_rows(data@.take(b + 1)) == done + more,
                book.wf(),
                holds_last(book.rows(), done + more.take(c as int)),
                valid_rows(done + more.take(c as int)),
            decreases cards.len() - c,
        {
            let card = &cards[c];
            let card_id = text::trim(card.card_id.as_str());
            let ghost new = more[c as int];
            proof {
                assert(new == hsreplay_row(class, *card));
                assert((done + more.take(c as int)).push(new) =~= done + more.take(c + 1));
            }
            if card_id.as_str().is_empty() || !card.drawn_win_rate.percentage() {
                proof {
                    rows_of_more_buckets(data@, b + 1);
                    let at = done.len() + c;
                    assert((done + more)[at as int] == new);
                    assert(all[at as int] == all.take((done + more).len() as int)[at as int]);
                    assert(!valid_rows(all)) by {
                        if valid_rows(all) {
                            assert(all[at as int].card_id.len() > 0);
                        }
                    }
                }
                return Err(RatingError::InvalidCard);
            }
            let row = LocalRatingRow {
                card_id,
                class,
                value: card.drawn_win_rate,
                sample_size: Some(card.num_games),
                label: Some(text::copy("drawn win rate")),
            };
            let ghost before = book.rows();
            book.insert(row);
            proof {
                book_takes_one_more(before, book.rows(), done + more.take(c as int), new);
            }
            c = c + 1;
        }
        assert(more.take(c as int) =~= more);
        b = b + 1;
    }
    assert(data@.take(b as int) =~= data@);
    if book.len() < HSREPLAY_MINIMUM_SCORES {
        return Err(RatingError::TooFewScores { count: book.len() });
    }
    let version = join_texts(&stats.selected_params, " + ");
    let season = match stats.meta_period_id {
        Some(period) => {
            let mut s = text::copy("period ");
            text::push_decimal(&mut s, period);
            Some(s)
        },
        None => None,
    };
    let data_version = if version.as_str().is_empty() {
        None
    } else {
        Some(version)
    };
    Ok(
        LocalRatingFile {
            provider: text::copy("HSReplay Arena"),
            data_timestamp: now,
            arena_season: season,
            data_version,
            ratings: book.into_rows(),
        },
    )
}

proof fn rows_of_more_buckets(data: Seq<HsReplayBucket>, n: int)
    requires
        0 <= n <= data.len(),
    ensures
        hsreplay_rows(data).len() >= hsreplay_rows(data.take(n)).len(),
        hsreplay_rows(data).take(hsreplay_rows(data.take(n)).len() as int) == hsreplay_rows(
            data.take(n),
        ),
    decreases data.len() - n,
{
    if n == data.len() {
        assert(data.take(n) =~= data);
        assert(hsreplay_rows(data).take(hsreplay_rows(data).len() as int) =~= hsreplay_rows(data));
    } else {
        rows_of_more_buckets(data, n + 1);
        assert(data.take(n + 1).drop_last() =~= data.take(n));
        let a = hsreplay_rows(data.take(n));
        let b = hsreplay_rows(data.take(n + 1));
        assert(b.take(a.len() as int) =~= a);
        assert(hsreplay_rows(data).take(a.len() as int) =~= hsreplay_rows(data).take(
            b.len() as int,
        ).take(a.len() as int));
    }
}

/// A card of the statistics of one class; the win rate is that of the games in which the card
/// was played, in percent.
#[derive(Debug)]
pub struct FirestoneCardStatsRow {
    pub card_id: String,
    pub played: u64,
    pub played_win_rate: RatingValue,
}

/// The statistics of one class after they were read. `class_in_log` is the class whose log name
/// the context is, if there is one.
#[derive(Debug)]
pub struct FirestoneCardStats {
    pub last_updated: Timestamp,
    pub context: String,
    pub class_in_log: Option<HeroClass>,
    pub stats: Vec<FirestoneCardStatsRow>,
}

/// The row for a card that was played.
pub open spec fn firestone_row(class: HeroClass, card: FirestoneCardStatsRow) -> RowModel {
    RowModel {
        card_id: trimmed(card.card_id@),
        class: Some(class),
        value: card.played_win_rate,
        sample_size: Some(card.played),
        label: Some("played win rate"@),
    }
}

/// The rows for the cards that were played at all.
pub open spec fn firestone_rows(class: HeroClass, stats: Seq<FirestoneCardStatsRow>) -> Seq<
    RowModel,
>
    decreases stats.len(),
{
    if stats.len() == 0 {
        Seq::empty()
    } else if stats.last().played == 0 {
        firestone_rows(class, stats.drop_last())
    } else {
        firestone_rows(class, stats.drop_last()).push(firestone_row(class, stats.last()))
    }
}

/// Whether a card that was played has a fault.
pub open spec fn firestone_fault(card: FirestoneCardStatsRow) -> bool {
    card.played > 0 && (trimmed(card.card_id@).len() == 0 || !is_percentage(card.played_win_rate))
}

/// Takes the ratings of one class. Cards that were never played are left out.
pub fn import_firestone(stats: &FirestoneCardStats) -> (r: Result<LocalRatingFile, RatingError>)
    ensures
        match r {
            Err(RatingError::UnknownClass { context }) => stats.class_in_log is None && context@
                == stats.context@,
            Err(RatingError::EmptyCardId) => stats.class_in_log is Some && exists|i: int|
                {
                    &&& 0 <= i < stats.stats@.len()
                    &&& firestone_fault(#[trigger] stats.stats@[i])
                    &&& trimmed(stats.stats@[i].card_id@).len() == 0
                    &&& forall|j: int|
                        0 <= j < i ==> !firestone_fault(#[trigger] stats.stats@[j])
                },
            Err(RatingError::InvalidWinRate { card_id }) => stats.class_in_log is Some && exists|
                i: int,
            |
                {
                    &&& 0 <= i < stats.stats@.len()
                    &&& firestone_fault(#[trigger] stats.stats@[i])
                    &&& trimmed(stats.stats@[i].card_id@).len() > 0
                    &&& card_id@ == trimmed(stats.stats@[i].card_id@)
                    &&& forall|j: int|
                        0 <= j < i ==> !firestone_fault(#[trigger] stats.stats@[j])
                },
            Err(_) => false,
            Ok(file) => {
                &&& stats.class_in_log is Some
                &&& forall|j: int|
                    0 <= j < stats.stats@.len() ==> !firestone_fault(#[trigger] stats.stats@[j])
                &&& row_models(file.ratings@) == firestone_rows(
                    stats.class_in_log->0,
                    stats.stats@,
                )
                &&& file.provider@ == "Firestone"@
                &&& file.data_timestamp == stats.last_updated
                &&& file.arena_season is None
                &&& opt_text(file.data_version) == Some("last-patch"@)
            },
        },
{
    let class = match stats.class_in_log {
        Some(class) => class,
        None => return Err(RatingError::UnknownClass { context: stats.context.clone() }),
    };
    let cards = &stats.stats;
    let mut rows: Vec<LocalRatingRow> = Vec::new();
    let mut i: usize = 0;
    assert(cards@.take(0) =~= Seq::<FirestoneCardStatsRow>::empty());
    assert(row_models(rows@) =~= Seq::<RowModel>::empty());
    while i < cards.len()
        invariant
            i <= cards.len(),
            *cards == stats.stats,
            stats.class_in_log == Some(class),
            forall|j: int| 0 <= j < i ==> !firestone_fault(#[trigger] cards@[j]),
            row_models(rows@) == firestone_rows(class, cards@.take(i as int)),
        decreases cards.len() - i,
    {
        let card = &cards[i];
        proof {
            assert(cards@.take(i + 1).drop_last() =~= cards@.take(i as int));
            assert(cards@.take(i + 1).last() == cards@[i as int]);
        }
        if card.played > 0 {
            let card_id = text::trim(card.card_id.as_str());
            if card_id.as_str().is_empty() {
                assert(firestone_fault(cards@[i as int]));
                return Err(RatingError::EmptyCardId);
            }
            if !card.played_win_rate.percentage() {
                assert(firestone_fault(cards@[i as int]));
                return Err(RatingError::InvalidWinRate { card_id });
            }
            let ghost before = rows@;
            let row = LocalRatingRow {
                card_id,
                class: Some(class),
                value: card.played_win_rate,
                sample_size: Some(card.played),
                label: Some(text::copy("played win rate")),
            };
            rows.push(row);
            assert(row_models(rows@) =~= row_models(before).push(row@));
        }
        i = i + 1;
    }
    assert(cards@.take(i as int) =~= cards@);
    Ok(
        LocalRatingFile {
            provider: text::copy("Firestone"),
            data_timestamp: stats.last_updated,
            arena_season: None,
            data_version: Some(text::copy("last-patch")),
            ratings: rows,
        },
    )
}

/// The section of a class in the tier list.
pub const HEARTHARENA_SECTION: &'static str =
    r#"(?s)<section class="tab tierlist[^"]*" id="([^"]+)">(.*?)</section>"#;

/// A card of the tier list with its score.
pub const HEARTHARENA_CARD: &'static str =
    r#"(?s)data-card-image="[^"]*/([^/"?]+)\.(?:webp|png)"[^>]*>.*?</dt>\s*<dd[^>]*>\s*([0-9]+)"#;

/// The heading of the latest change to the tier list: a date and a note.
pub const HEARTHARENA_CHANGELOG: &'static str =
    r#"<h3 class="table-header">\s*([0-9]{1,2}/[0-9]{1,2}/[0-9]{2,4}):\s*([^<]+)</h3>"#;

/// The sections that a complete tier list has.
pub const HEARTHARENA_SECTIONS: [&'static str; 12] = [
    "death-knight",
    "demon-hunter",
    "druid",
    "hunter",
    "mage",
    "paladin",
    "priest",
    "rogue",
    "shaman",
    "warlock",
    "warrior",
    "any",
];

/// The least number of scores in each section.
pub const HEARTHARENA_SECTION_MINIMUM: usize = 40;

/// The least number of scores in all.
pub const HEARTHARENA_MINIMUM_SCORES: usize = 1000;

/// A section of the tier list: its name, and its cards with their scores as they stand there.
#[derive(Debug)]
pub struct HearthArenaSection {
    pub id: String,
    pub scores: Vec<(String, String)>,
}

/// A section of the tier list, over texts.
pub struct SectionModel {
    pub id: Seq<char>,
    pub scores: Seq<(Seq<char>, Seq<char>)>,
}

impl View for HearthArenaSection {
    type V = SectionModel;

    open spec fn view(&self) -> SectionModel {
        SectionModel {
            id: self.id@,
            scores: self.scores@.map_values(|s: (String, String)| (s.0@, s.1@)),
        }
    }
}

/// The class of a section: `None` where the section is none of the list, `Some(None)` for the
/// cards of all classes.
pub open spec fn section_class(section: Seq<char>) -> Option<Option<HeroClass>> {
    if section == "death-knight"@ {
        Some(Some(HeroClass::DeathKnight))
    } else if section == "demon-hunter"@ {
        Some(Some(HeroClass::DemonHunter))
    } else if section == "druid"@ {
        Some(Some(HeroClass::Druid))
    } else if section == "hunter"@ {
        Some(Some(HeroClass::Hunter))
    } else if section == "mage"@ {
        Some(Some(HeroClass::Mage))
    } else if section == "paladin"@ {
        Some(Some(HeroClass::Paladin))
    } else if section == "priest"@ {
        Some(Some(HeroClass::Priest))
    } else if section == "rogue"@ {
        Some(Some(HeroClass::Rogue))
    } else if section == "shaman"@ {
        Some(Some(HeroClass::Shaman))
    } else if section == "warlock"@ {
        Some(Some(HeroClass::Warlock))
    } else if section == "warrior"@ {
        Some(Some(HeroClass::Warrior))
    } else if section == "any"@ {
        Some(None)
    } else {
        None
    }
}

/// The class of a section.
pub fn heartharena_section_class(section: &str) -> (r: Option<Option<HeroClass>>)
    ensures
        r == section_class(section@),
{
    if text::str_eq(section, "death-knight") {
        Some(Some(HeroClass::DeathKnight))
    } else if text::str_eq(section, "demon-hunter") {
        Some(Some(HeroClass::DemonHunter))
    } else if text::str_eq(section, "druid") {
        Some(Some(HeroClass::Druid))
    } else if text::str_eq(section, "hunter") {
        Some(Some(HeroClass::Hunter))
    } else if text::str_eq(section, "mage") {
        Some(Some(HeroClass::Mage))
    } else if text::str_eq(section, "paladin") {
        Some(Some(HeroClass::Paladin))
    } else if text::str_eq(section, "priest") {
        Some(Some(HeroClass::Priest))
    } else if text::str_eq(section, "rogue") {
        Some(Some(HeroClass::Rogue))
    } else if text::str_eq(section, "shaman") {
        Some(Some(HeroClass::Shaman))
    } else if text::str_eq(section, "warlock") {
        Some(Some(HeroClass::Warlock))
    } else if text::str_eq(section, "warrior") {
        Some(Some(HeroClass::Warrior))
    } else if text::str_eq(section, "any") {
        Some(None)
    } else {
        None
    }
}

/// The word for a score.
pub open spec fn score_label(score: nat) -> Seq<char> {
    if score >= 100 {
        "Great"@
    } else if score >= 90 {
        "Good"@
    } else if score >= 80 {
        "Above average"@
    } else if score >= 70 {
        "Average"@
    } else if score >= 60 {
        "Below average"@
    } else if score >= 40 {
        "Bad"@
    } else {
        "Terrible"@
    }
}

/// The word for a score.
pub fn heartharena_score_label(score: u64) -> (r: &'static str)
    ensures
        r@ == score_label(score as nat),
{
    if score >= 100 {
        "Great"
    } else if score >= 90 {
        "Good"
    } else if score >= 80 {
        "Above average"
    } else if score >= 70 {
        "Average"
    } else if score >= 60 {
        "Below average"
    } else if score >= 40 {
        "Bad"
    } else {
        "Terrible"
    }
}

/// The greatest score of the tier list.
pub const HEARTHARENA_MAXIMUM_SCORE: u64 = 200;

/// A card of the tier list: its class, and its name and score as they stand there.
pub struct ScoreEntry {
    pub class: Option<HeroClass>,
    pub card: Seq<char>,
    pub score: Seq<char>,
}

/// The bits of a whole number as a single-precision one: a significand of twenty-four bits, and
/// the exponent that goes with it.
pub open spec fn significand_bits(m: nat, exponent: nat) -> nat
    decreases exponent,
{
    if m >= 0x80_0000 || exponent == 0 {
        (exponent * 0x80_0000 + m - 0x80_0000) as nat
    } else {
        significand_bits(2 * m, (exponent - 1) as nat)
    }
}

/// A whole number as a rating value.
pub open spec fn whole(n: nat) -> RatingValue {
    if n == 0 {
        RatingValue { bits: 0 }
    } else {
        RatingValue { bits: significand_bits(n, 150) as u32 }
    }
}

/// A whole number below sixty-five thousand as a rating value.
pub fn whole_value(n: u16) -> (r: RatingValue)
    ensures
        r == whole(n as nat),
{
    if n == 0 {
        return RatingValue { bits: 0 };
    }
    let mut m: u32 = n as u32;
    let mut exponent: u32 = 150;
    while m < 0x80_0000 && exponent > 0
        invariant
            1 <= n,
            1 <= m < 0x100_0000,
            exponent <= 150,
            significand_bits(n as nat, 150) == significand_bits(m as nat, exponent as nat),
            exponent <= 127 ==> m >= 0x80_0000,
            doublings(n as nat, m as nat, (150 - exponent) as nat),
        decreases exponent,
    {
        proof {
            if exponent <= 128 {
                enough_doublings(n as nat, m as nat, (150 - exponent) as nat);
            }
        }
        m = m * 2;
        exponent = exponent - 1;
    }
    RatingValue { bits: exponent * 0x80_0000 + m - 0x80_0000 }
}

spec fn doublings(n: nat, m: nat, k: nat) -> bool
    decreases k,
{
    if k == 0 {
        m == n
    } else {
        m % 2 == 0 && doublings(n, m / 2, (k - 1) as nat)
    }
}

proof fn enough_doublings(n: nat, m: nat, k: nat)
    requires
        doublings(n, m, k),
        n >= 1,
        k >= 22,
    ensures
        m >= 0x40_0000,
{
    doublings_grow(n, m, k, 22);
}

proof fn doublings_grow(n: nat, m: nat, k: nat, at_least: nat)
    requires
        doublings(n, m, k),
        n >= 1,
        k >= at_least,
        at_least <= 22,
    ensures
        m >= vstd::arithmetic::power2::pow2(at_least),
        vstd::arithmetic::power2::pow2(22) == 0x40_0000,
    decreases k,
{
    vstd::arithmetic::power2::lemma2_to64();
    if k > 0 {
        if at_least == 0 {
            doublings_grow(n, m / 2, (k - 1) as nat, 0);
        } else {
            doublings_grow(n, m / 2, (k - 1) as nat, (at_least - 1) as nat);
            vstd::arithmetic::power2::lemma_pow2_unfold(at_least);
        }
    }
}

/// The cards of a section that belongs to the list.
pub open spec fn section_entries(section: SectionModel) -> Seq<ScoreEntry> {
    match section_class(section.id) {
        None => Seq::empty(),
        Some(class) => section.scores.map_values(
            |s: (Seq<char>, Seq<char>)| ScoreEntry { class, card: s.0, score: s.1 },
        ),
    }
}

/// The cards of all sections.
pub open spec fn score_entries(sections: Seq<SectionModel>) -> Seq<ScoreEntry>
    decreases sections.len(),
{
    if sections.len() == 0 {
        Seq::empty()
    } else {
        score_entries(sections.drop_last()) + section_entries(sections.last())
    }
}

/// The score of a card, where it is a number of the list's range.
pub open spec fn entry_score(e: ScoreEntry) -> Option<nat> {
    parsed_number(e.score, HEARTHARENA_MAXIMUM_SCORE as nat)
}

/// Whether a card of the tier list has a name and a score.
pub open spec fn entry_valid(e: ScoreEntry) -> bool {
    trimmed(e.card).len() > 0 && entry_score(e) is Some
}

/// The row for a card of the tier list.
pub open spec fn entry_row(e: ScoreEntry) -> RowModel {
    let score = match entry_score(e) {
        Some(n) => n,
        None => 0,
    };
    RowModel {
        card_id: trimmed(e.card),
        class: e.class,
        value: whole(score),
        sample_size: None,
        label: Some(score_label(score)),
    }
}

/// The rows for the cards of the tier list.
pub open spec fn entry_rows(entries: Seq<ScoreEntry>) -> Seq<RowModel> {
    entries.map_values(|e: ScoreEntry| entry_row(e))
}

/// Whether the list cannot be taken past an entry.
pub open spec fn stops_at(entries: Seq<ScoreEntry>, i: int) -> bool {
    &&& 0 <= i < entries.len()
    &&& !entry_valid(entries[i]) || conflicts(entry_rows(entries), i)
}

/// Whether an entry is the first past which the list cannot be taken.
pub open spec fn first_stop(entries: Seq<ScoreEntry>, i: int) -> bool {
    stops_at(entries, i) && forall|k: int| 0 <= k < i ==> !#[trigger] stops_at(entries, k)
}

/// The number of scores in the last section with a name.
pub open spec fn section_count(sections: Seq<SectionModel>, id: Seq<char>) -> nat
    decreases sections.len(),
{
    if sections.len() == 0 {
        0
    } else if sections.last().id == id {
        sections.last().scores.len()
    } else {
        section_count(sections.drop_last(), id)
    }
}

/// Whether a section of a complete list is too short.
pub open spec fn section_short(sections: Seq<SectionModel>, i: int) -> bool {
    section_count(sections, HEARTHARENA_SECTIONS@[i]@) < HEARTHARENA_SECTION_MINIMUM
}

proof fn stops_of_longer(entries: Seq<ScoreEntry>, longer: Seq<ScoreEntry>, k: int)
    requires
        0 <= k < entries.len() <= longer.len(),
        longer.take(entries.len() as int) == entries,
    ensures
        stops_at(longer, k) == stops_at(entries, k),
{
    assert(longer[k] == longer.take(entries.len() as int)[k]);
    assert(entry_rows(longer).take(entry_rows(entries).len() as int) =~= entry_rows(entries)) by {
        assert forall|i: int| 0 <= i < entries.len() implies entry_rows(longer)[i] == entry_rows(
            entries,
        )[i] by {
            assert(longer[i] == longer.take(entries.len() as int)[i]);
        }
    }
    conflicts_of_longer(entry_rows(entries), entry_rows(longer), k);
}

fn take_scores(
    book: &mut RatingBook,
    class: Option<HeroClass>,
    scores: &Vec<(String, String)>,
    Ghost(done): Ghost<Seq<ScoreEntry>>,
    Ghost(more): Ghost<Seq<ScoreEntry>>,
) -> (r: Result<(), RatingError>)
    requires
        old(book).wf(),
        holds_last(old(book).rows(), entry_rows(done)),
        forall|k: int| 0 <= k < done.len() ==> !#[trigger] stops_at(done, k),
        more == scores@.map_values(
            |s: (String, String)| ScoreEntry { class, card: s.0@, score: s.1@ },
        ),
    ensures
        match r {
            Ok(_) => final(book).wf() && holds_last(final(book).rows(), entry_rows(done + more))
                && forall|k: int|
                0 <= k < (done + more).len() ==> !#[trigger] stops_at(done + more, k),
            Err(RatingError::InvalidCard) => exists|i: int| #[trigger]
                first_stop(done + more, i) && !entry_valid((done + more)[i]),
            Err(RatingError::Conflict { card_id }) => exists|i: int| #[trigger]
                first_stop(done + more, i) && entry_valid((done + more)[i]) && card_id@ == trimmed(
                    (done + more)[i].card,
                ),
            Err(_) => false,
        },
{
    let ghost all = done + more;
    let ghost n = done.len() as int;
    let mut i: usize = 0;
    assert(all.take(n) =~= done);
    while i < scores.len()
        invariant
            i <= scores.len(),
            n == done.len(),
            all == done + more,
            more == scores@.map_values(
                |s: (String, String)| ScoreEntry { class, card: s.0@, score: s.1@ },
            ),
            book.wf(),
            holds_last(book.rows(), entry_rows(all.take(n + i))),
            forall|k: int| 0 <= k < n + i ==> !#[trigger] stops_at(all.take(n + i), k),
        decreases scores.len() - i,
    {
        let card_id = text::trim(scores[i].0.as_str());
        let digits = chars_of(scores[i].1.as_str());
        let parsed = text::parse_number(digits.as_slice(), HEARTHARENA_MAXIMUM_SCORE);
        let ghost e = more[i as int];
        proof {
            assert(all[n + i] == e);
            assert forall|k: int| 0 <= k < n + i implies !#[trigger] stops_at(all, k) by {
                stops_of_longer(all.take(n + i), all, k);
                assert(!stops_at(all.take(n + i), k));
            }
        }
        if card_id.as_str().is_empty() || parsed.is_none() {
            assert(first_stop(all, n + i));
            return Err(RatingError::InvalidCard);
        }
        let score: u64 = parsed.unwrap();
        let row = LocalRatingRow {
            card_id: card_id.clone(),
            class,
            value: whole_value(score as u16),
            sample_size: None,
            label: Some(text::copy(heartharena_score_label(score))),
        };
        assert(row@ == entry_row(e));
        let conflict = insert_checked(book, row, Ghost(entry_rows(all.take(n + i))));
        proof {
            assert(entry_rows(all.take(n + i)).push(entry_row(e)) =~= entry_rows(
                all.take(n + i + 1),
            ));
            assert(all.take(n + i + 1).take(n + i) =~= all.take(n + i));
            assert(all.take(n + i + 1)[n + i] == e);
            stops_of_longer(all.take(n + i + 1), all, n + i);
        }
        if conflict {
            assert(stops_at(all.take(n + i + 1), n + i));
            assert(first_stop(all, n + i));
            return Err(RatingError::Conflict { card_id });
        }
        proof {
            assert forall|k: int| 0 <= k < n + i + 1 implies !#[trigger] stops_at(
                all.take(n + i + 1),
                k,
            ) by {
                if k < n + i {
                    stops_of_longer(all.take(n + i), all.take(n + i + 1), k);
                    assert(!stops_at(all.take(n + i), k));
                }
            }
        }
        i = i + 1;
    }
    assert(all.take(n + i) =~= all);
    Ok(())
}

/// The models of sections.
pub open spec fn section_models(sections: Seq<HearthArenaSection>) -> Seq<SectionModel> {
    sections.map_values(|s: HearthArenaSection| s@)
}

fn count_section(sections: &Vec<HearthArenaSection>, id: &str) -> (r: usize)
    ensures
        r == section_count(section_models(sections@), id@),
{
    let ghost all = section_models(sections@);
    let mut n: usize = sections.len();
    assert(all.take(n as int) =~= all);
    while n > 0
        invariant
            n <= sections.len(),
            all == section_models(sections@),
            section_count(all.take(n as int), id@) == section_count(all, id@),
        decreases n,
    {
        assert(all.take(n as int).drop_last() =~= all.take(n - 1));
        assert(all.take(n as int).last() == all[n - 1]);
        if text::str_eq(sections[n - 1].id.as_str(), id) {
            return sections[n - 1].scores.len();
        }
        n = n - 1;
    }
    0
}

proof fn entries_of_more_sections(sections: Seq<SectionModel>, n: int)
    requires
        0 <= n <= sections.len(),
    ensures
        score_entries(sections).len() >= score_entries(sections.take(n)).len(),
        score_entries(sections).take(score_entries(sections.take(n)).len() as int)
            == score_entries(sections.take(n)),
    decreases sections.len() - n,
{
    if n == sections.len() {
        assert(sections.take(n) =~= sections);
        assert(score_entries(sections).take(score_entries(sections).len() as int)
            =~= score_entries(sections));
    } else {
        entries_of_more_sections(sections, n + 1);
        assert(sections.take(n + 1).drop_last() =~= sections.take(n));
        let a = score_entries(sections.take(n));
        let b = score_entries(sections.take(n + 1));
        assert(b.take(a.len() as int) =~= a);
        assert(score_entries(sections).take(a.len() as int) =~= score_entries(sections).take(
            b.len() as int,
        ).take(a.len() as int));
    }
}

/// Whether the outcome of taking the scores of a tier list is the right one.
pub open spec fn scores_taken(
    r: Result<Vec<LocalRatingRow>, RatingError>,
    sections: Seq<SectionModel>,
) -> bool {
    let entries = score_entries(sections);
    let whole_list = forall|k: int| 0 <= k < entries.len() ==> !#[trigger] stops_at(entries, k);
    match r {
        Err(RatingError::InvalidCard) => exists|i: int| #[trigger]
            first_stop(entries, i) && !entry_valid(entries[i]),
        Err(RatingError::Conflict { card_id }) => exists|i: int| #[trigger]
            first_stop(entries, i) && entry_valid(entries[i]) && card_id@ == trimmed(
                entries[i].card,
            ),
        Err(RatingError::IncompleteSection { section, count }) => whole_list && exists|i: int|
            {
                &&& 0 <= i < 12
                &&& #[trigger] section_short(sections, i)
                &&& section@ == HEARTHARENA_SECTIONS@[i]@
                &&& count == section_count(sections, section@)
                &&& forall|j: int| 0 <= j < i ==> !#[trigger] section_short(sections, j)
            },
        Err(RatingError::TooFewScores { count }) => {
            &&& whole_list
            &&& forall|j: int| 0 <= j < 12 ==> !#[trigger] section_short(sections, j)
            &&& count < HEARTHARENA_MINIMUM_SCORES
            &&& exists|book: Seq<RowModel>| #[trigger]
                holds_last(book, entry_rows(entries)) && book.len() == count
        },
        Err(_) => false,
        Ok(rows) => {
            &&& whole_list
            &&& forall|j: int| 0 <= j < 12 ==> !#[trigger] section_short(sections, j)
            &&& rows@.len() >= HEARTHARENA_MINIMUM_SCORES
            &&& holds_last(row_models(rows@), entry_rows(entries))
        },
    }
}

/// Takes the scores of all sections of a complete tier list.
pub fn take_heartharena_sections(sections: &Vec<HearthArenaSection>) -> (r: Result<
    Vec<LocalRatingRow>,
    RatingError,
>)
    ensures
        scores_taken(r, section_models(sections@)),
{
    let ghost all = section_models(sections@);
    let ghost entries = score_entries(all);
    let mut book = RatingBook::new();
    let mut i: usize = 0;
    assert(all.take(0) =~= Seq::<SectionModel>::empty());
    assert(entry_rows(score_entries(all.take(0))) =~= Seq::<RowModel>::empty());
    while i < sections.len()
        invariant
            i <= sections.len(),
            all == section_models(sections@),
            entries == score_entries(all),
            book.wf(),
            holds_last(book.rows(), entry_rows(score_entries(all.take(i as int)))),
            forall|k: int|
                0 <= k < score_entries(all.take(i as int)).len() ==> !#[trigger] stops_at(
                    score_entries(all.take(i as int)),
                    k,
                ),
        decreases sections.len() - i,
    {
        let ghost done = score_entries(all.take(i as int));
        let ghost more = section_entries(all[i as int]);
        proof {
            assert(all.take(i + 1).drop_last() =~= all.take(i as int));
            assert(all.take(i + 1).last() == all[i as int]);
            entries_of_more_sections(all, i + 1);
        }
        match heartharena_section_class(sections[i].id.as_str()) {
            None => {
                assert(done + more =~= done);
            },
            Some(class) => {
                assert(more =~= sections@[i as int].scores@.map_values(
                    |s: (String, String)| ScoreEntry { class, card: s.0@, score: s.1@ },
                ));
                match take_scores(&mut book, class, &sections[i].scores, Ghost(done), Ghost(more)) {
                    Ok(_) => {},
                    Err(e) => {
                        proof {
                            let now = done + more;
                            assert(entries.take(now.len() as int) == now);
                            let c = choose|c: int| #[trigger]
                                first_stop(now, c) && (e is InvalidCard ==> !entry_valid(now[c]))
                                    && (e matches RatingError::Conflict { card_id } ==> entry_valid(
                                    now[c],
                                ) && card_id@ == trimmed(now[c].card));
                            assert(now[c] == entries[c]) by {
                                assert(entries.take(now.len() as int)[c] == entries[c]);
                            }
                            assert forall|k: int| 0 <= k <= c implies #[trigger] stops_at(
                                entries,
                                k,
                            ) == stops_at(now, k) by {
                                stops_of_longer(now, entries, k);
                            }
                            assert(first_stop(entries, c));
                        }
                        return Err(e);
                    },
                }
            },
        }
        i = i + 1;
    }
    assert(all.take(i as int) =~= all);
    let mut s: usize = 0;
    while s < 12
        invariant
            s <= 12,
            all == section_models(sections@),
            entries == score_entries(all),
            forall|k: int| 0 <= k < entries.len() ==> !#[trigger] stops_at(entries, k),
            forall|j: int| 0 <= j < s ==> !#[trigger] section_short(all, j),
        decreases 12 - s,
    {
        let count: usize = count_section(sections, HEARTHARENA_SECTIONS[s]);
        if count < HEARTHARENA_SECTION_MINIMUM {
            assert(section_short(all, s as int));
            return Err(
                RatingError::IncompleteSection {
                    section: text::copy(HEARTHARENA_SECTIONS[s]),
                    count,
                },
            );
        }
        s = s + 1;
    }
    if book.len() < HEARTHARENA_MINIMUM_SCORES {
        return Err(RatingError::TooFewScores { count: book.len() });
    }
    Ok(book.into_rows())
}

/// The moment at which a day begins in universal time, in seconds, for a date in a
/// `chrono` format; `None` where the text is no such date.
pub uninterp spec fn midnight_of(date: Seq<char>, format: Seq<char>) -> Option<i64>;

/// Runs `chrono::NaiveDate::parse_from_str` and takes the day's first moment in universal time.
/// Claimed: the result depends on the text and the format alone.
#[verifier::external_body]
pub(crate) fn parse_midnight(date: &str, format: &str) -> (r: Option<i64>)
    ensures
        r == midnight_of(date@, format@),
{
    let day = chrono::NaiveDate::parse_from_str(date, format).ok()?;
    Some(day.and_hms_opt(0, 0, 0)?.and_utc().timestamp())
}

/// The first moment of a date with a year of two or of four digits.
pub open spec fn changelog_moment(date: Seq<char>) -> Option<i64> {
    match midnight_of(date, "%m/%d/%y"@) {
        Some(t) => Some(t),
        None => midnight_of(date, "%m/%d/%Y"@),
    }
}

/// What the heading of the latest change says: its moment, and a version made of date and note.
pub open spec fn changelog_of(groups: Option<Seq<Option<Seq<char>>>>) -> Option<
    (i64, Seq<char>),
> {
    match groups {
        None => None,
        Some(g) => match changelog_moment(group_or_empty(g, 1)) {
            None => None,
            Some(t) => Some(
                (t, group_or_empty(g, 1) + ": "@ + trimmed(group_or_empty(g, 2))),
            ),
        },
    }
}

/// The sections of a tier-list page.
pub open spec fn page_sections(source: Seq<char>) -> Seq<SectionModel> {
    match_list(HEARTHARENA_SECTION@, source).map_values(
        |g: Seq<Option<Seq<char>>>|
            SectionModel {
                id: group_or_empty(g, 1),
                scores: match_list(HEARTHARENA_CARD@, group_or_empty(g, 2)).map_values(
                    |c: Seq<Option<Seq<char>>>| (group_or_empty(c, 1), group_or_empty(c, 2)),
                ),
            },
    )
}

fn read_scores(block: &str) -> (r: Vec<(String, String)>)
    ensures
        r@.map_values(|s: (String, String)| (s.0@, s.1@)) == match_list(
            HEARTHARENA_CARD@,
            block@,
        ).map_values(|c: Seq<Option<Seq<char>>>| (group_or_empty(c, 1), group_or_empty(c, 2))),
{
    let found = pattern::all_matches(HEARTHARENA_CARD, block);
    let ghost wanted = match_list(HEARTHARENA_CARD@, block@).map_values(
        |c: Seq<Option<Seq<char>>>| (group_or_empty(c, 1), group_or_empty(c, 2)),
    );
    let mut out: Vec<(String, String)> = Vec::new();
    let mut i: usize = 0;
    while i < found.len()
        invariant
            i <= found.len(),
            group_lists(found@) == match_list(HEARTHARENA_CARD@, block@),
            wanted == match_list(HEARTHARENA_CARD@, block@).map_values(
                |c: Seq<Option<Seq<char>>>| (group_or_empty(c, 1), group_or_empty(c, 2)),
            ),
            out@.map_values(|s: (String, String)| (s.0@, s.1@)) =~= wanted.take(i as int),
        decreases found.len() - i,
    {
        let ghost before = out@;
        assert(group_lists(found@)[i as int] == group_texts(found@[i as int]@));
        let pair = (pattern::group_text(&found[i], 1), pattern::group_text(&found[i], 2));
        out.push(pair);
        assert(out@.map_values(|s: (String, String)| (s.0@, s.1@)) =~= before.map_values(
            |s: (String, String)| (s.0@, s.1@),
        ).push(wanted[i as int]));
        i = i + 1;
    }
    assert(group_lists(found@).len() == found@.len());
    assert(wanted.take(i as int) =~= wanted);
    out
}

fn read_sections(source: &str) -> (r: Vec<HearthArenaSection>)
    ensures
        section_models(r@) == page_sections(source@),
{
    let found = pattern::all_matches(HEARTHARENA_SECTION, source);
    let ghost wanted = page_sections(source@);
    let mut out: Vec<HearthArenaSection> = Vec::new();
    let mut i: usize = 0;
    while i < found.len()
        invariant
            i <= found.len(),
            group_lists(found@) == match_list(HEARTHARENA_SECTION@, source@),
            wanted == page_sections(source@),
            section_models(out@) =~= wanted.take(i as int),
        decreases found.len() - i,
    {
        let ghost before = out@;
        assert(group_lists(found@)[i as int] == group_texts(found@[i as int]@));
        let block = pattern::group_text(&found[i], 2);
        let section = HearthArenaSection {
            id: pattern::group_text(&found[i], 1),
            scores: read_scores(block.as_str()),
        };
        assert(section@ == wanted[i as int]);
        out.push(section);
        assert(section_models(out@) =~= section_models(before).push(section@));
        i = i + 1;
    }
    assert(group_lists(found@).len() == found@.len());
    assert(wanted.take(i as int) =~= wanted);
    out
}

/// Whether the outcome of importing a tier list is the right one.
pub open spec fn tier_list_imported(
    r: Result<LocalRatingFile, RatingError>,
    sections: Seq<SectionModel>,
    changelog: Option<(i64, Seq<char>)>,
) -> bool {
    match r {
        Ok(file) => {
            &&& scores_taken(Ok(file.ratings), sections)
            &&& file.provider@ == "HearthArena public tier list"@
            &&& file.arena_season is None
            &&& match changelog {
                None => false,
                Some((seconds, version)) => file.data_timestamp == (Timestamp {
                    seconds,
                    nanoseconds: 0,
                }) && opt_text(file.data_version) == Some(version),
            }
        },
        Err(RatingError::MissingChangelog) => changelog is None && exists|rows: Vec<LocalRatingRow>|
            scores_taken(Ok::<Vec<LocalRatingRow>, RatingError>(rows), sections),
        Err(e) => scores_taken(Err(e), sections),
    }
}

/// Imports a tier list from its sections and the heading of its latest change.
pub fn import_heartharena_sections(
    sections: &Vec<HearthArenaSection>,
    changelog: Option<(i64, String)>,
) -> (r: Result<LocalRatingFile, RatingError>)
    ensures
        tier_list_imported(
            r,
            section_models(sections@),
            match changelog {
                Some((t, version)) => Some((t, version@)),
                None => None,
            },
        ),
{
    let rows = match take_heartharena_sections(sections) {
        Ok(rows) => rows,
        Err(e) => return Err(e),
    };
    match changelog {
        None => {
            assert(scores_taken(
                Ok::<Vec<LocalRatingRow>, RatingError>(rows),
                section_models(sections@),
            ));
            Err(RatingError::MissingChangelog)
        },
        Some((seconds, version)) => Ok(
            LocalRatingFile {
                provider: text::copy("HearthArena public tier list"),
                data_timestamp: Timestamp { seconds, nanoseconds: 0 },
                arena_season: None,
                data_version: Some(version),
                ratings: rows,
            },
        ),
    }
}

/// The moment and version that the heading of the latest change gives.
pub fn changelog_from_groups(groups: Option<Vec<Option<String>>>) -> (r: Option<(i64, String)>)
    ensures
        (match r {
            Some((t, version)) => Some((t, version@)),
            None => None,
        }) == changelog_of(pattern::found_groups(groups)),
{
    let g = match groups {
        Some(g) => g,
        None => return None,
    };
    let date = pattern::group_text(&g, 1);
    let moment = match parse_midnight(date.as_str(), "%m/%d/%y") {
        Some(t) => Some(t),
        None => parse_midnight(date.as_str(), "%m/%d/%Y"),
    };
    match moment {
        None => None,
        Some(t) => {
            let note = text::trim(pattern::group_text(&g, 2).as_str());
            let mut version = date;
            version.append(": ");
            version.append(note.as_str());
            Some((t, version))
        },
    }
}

/// Imports every score of a tier-list page. Card ids come from the page's own image addresses,
/// so that names are never matched.
pub fn import_heartharena_html(source: &str) -> (r: Result<LocalRatingFile, RatingError>)
    ensures
        tier_list_imported(
            r,
            page_sections(source@),
            changelog_of(match_groups(HEARTHARENA_CHANGELOG@, source@)),
        ),
{
    let sections = read_sections(source);
    let changelog = changelog_from_groups(pattern::first_match(HEARTHARENA_CHANGELOG, source));
    import_heartharena_sections(&sections, changelog)
}

} // verus!
