//! Ratings of cards by provider: lookup, merging, and the importers.
//!
//! A rating value is held as the bits of a single-precision number; the comparisons that the
//! rules make are made on the bits.

use vstd::prelude::*;

use crate::card_data::Timestamp;
use crate::state::{opt_text, HeroClass};
use crate::text;
use crate::text::{decimal, str_lt, text_lt, text_lt_irreflexive, text_lt_total, text_lt_transitive};

verus! {

/// Where ratings come from.
#[derive(Debug, PartialEq, Eq)]
pub struct ProviderMetadata {
    pub provider: String,
    pub data_timestamp: Timestamp,
    pub arena_season: Option<String>,
    pub data_version: Option<String>,
}

/// Whether two descriptions of a source say the same.
pub open spec fn same_source(a: ProviderMetadata, b: ProviderMetadata) -> bool {
    &&& a.provider@ == b.provider@
    &&& a.data_timestamp == b.data_timestamp
    &&& opt_text(a.arena_season) == opt_text(b.arena_season)
    &&& opt_text(a.data_version) == opt_text(b.data_version)
}

impl Clone for ProviderMetadata {
    fn clone(&self) -> (r: Self)
        ensures
            same_source(r, *self),
    {
        ProviderMetadata {
            provider: self.provider.clone(),
            data_timestamp: self.data_timestamp,
            arena_season: self.arena_season.clone(),
            data_version: self.data_version.clone(),
        }
    }
}

/// A rating value: the bits of a single-precision number.
#[derive(Clone, Copy, Debug, PartialEq, Eq, Structural)]
pub struct RatingValue {
    pub bits: u32,
}

/// The bits without the sign.
pub open spec fn magnitude(v: RatingValue) -> int {
    if v.bits >= 0x8000_0000 {
        v.bits - 0x8000_0000
    } else {
        v.bits as int
    }
}

/// Whether the bits stand for no number.
pub open spec fn is_nan(v: RatingValue) -> bool {
    magnitude(v) > 0x7f80_0000
}

/// Whether two values are the same number: equal bits, or two zeros.
pub open spec fn same_number(a: RatingValue, b: RatingValue) -> bool {
    !is_nan(a) && !is_nan(b) && (a.bits == b.bits || (magnitude(a) == 0 && magnitude(b) == 0))
}

/// Whether a value is a percentage: a number from zero to one hundred.
pub open spec fn is_percentage(v: RatingValue) -> bool {
    magnitude(v) == 0 || v.bits <= 0x42c8_0000
}

impl RatingValue {
    fn magnitude_bits(&self) -> (r: u32)
        ensures
            r == magnitude(*self),
    {
        if self.bits >= 0x8000_0000 {
            self.bits - 0x8000_0000
        } else {
            self.bits
        }
    }

    /// Whether two values are the same number.
    pub fn same_as(&self, other: &RatingValue) -> (r: bool)
        ensures
            r == same_number(*self, *other),
    {
        let a: u32 = self.magnitude_bits();
        let b: u32 = other.magnitude_bits();
        a <= 0x7f80_0000 && b <= 0x7f80_0000 && (self.bits == other.bits || (a == 0 && b == 0))
    }

    /// Whether the value is a number from zero to one hundred.
    pub fn percentage(&self) -> (r: bool)
        ensures
            r == is_percentage(*self),
    {
        self.magnitude_bits() == 0 || self.bits <= 0x42c8_0000
    }
}

/// A provider's rating of a card, on the provider's own scale.
#[derive(Debug, PartialEq, Eq)]
pub struct CardRating {
    pub card_id: String,
    pub value: RatingValue,
    pub sample_size: Option<u64>,
    pub label: Option<String>,
}

/// A rating with the provider that gave it.
#[derive(Debug, PartialEq, Eq)]
pub struct ProviderRating {
    pub provider: ProviderMetadata,
    pub rating: CardRating,
}

/// A source of ratings.
pub trait RatingProvider {
    /// Where the ratings come from.
    fn metadata(&self) -> &ProviderMetadata;

    /// The rating of a card for a class.
    fn rating(&self, card_id: &str, class: Option<HeroClass>) -> Option<CardRating>;

    /// The ratings behind `rating`, one for each source.
    fn provider_ratings(&self, card_id: &str, class: Option<HeroClass>) -> (r: Vec<ProviderRating>)
        default_ensures
            exists|rating: Option<CardRating>, source: &ProviderMetadata|
                #![trigger call_ensures(Self::rating, (self, card_id, class), rating), call_ensures(
                    Self::metadata,
                    (self,),
                    source,
                )]
                call_ensures(Self::rating, (self, card_id, class), rating) && call_ensures(
                    Self::metadata,
                    (self,),
                    source,
                ) && is_single_rating(r@, *source, rating),
    {
        let rating = self.rating(card_id, class);
        single_rating(self.metadata(), rating)
    }
}

/// Whether ratings are those of one source: its rating, where it has one.
pub open spec fn is_single_rating(
    ratings: Seq<ProviderRating>,
    source: ProviderMetadata,
    rating: Option<CardRating>,
) -> bool {
    match rating {
        Some(rating) => ratings.len() == 1 && same_source(ratings[0].provider, source)
            && ratings[0].rating == rating,
        None => ratings.len() == 0,
    }
}

/// The ratings of one source: its rating, where it has one.
pub fn single_rating(source: &ProviderMetadata, rating: Option<CardRating>) -> (r: Vec<
    ProviderRating,
>)
    ensures
        is_single_rating(r@, *source, rating),
{
    let mut out: Vec<ProviderRating> = Vec::new();
    match rating {
        Some(rating) => {
            out.push(ProviderRating { provider: source.clone(), rating });
        },
        None => {},
    }
    out
}

/// A row of a rating file.
#[derive(Debug, PartialEq, Eq)]
pub struct LocalRatingRow {
    pub card_id: String,
    pub class: Option<HeroClass>,
    pub value: RatingValue,
    pub sample_size: Option<u64>,
    pub label: Option<String>,
}

/// A rating file after it was read.
#[derive(Debug, PartialEq, Eq)]
pub struct LocalRatingFile {
    pub provider: String,
    pub data_timestamp: Timestamp,
    pub arena_season: Option<String>,
    pub data_version: Option<String>,
    pub ratings: Vec<LocalRatingRow>,
}

/// A row of a rating file, over texts.
pub struct RowModel {
    pub card_id: Seq<char>,
    pub class: Option<HeroClass>,
    pub value: RatingValue,
    pub sample_size: Option<u64>,
    pub label: Option<Seq<char>>,
}

impl View for LocalRatingRow {
    type V = RowModel;

    open spec fn view(&self) -> RowModel {
        RowModel {
            card_id: self.card_id@,
            class: self.class,
            value: self.value,
            sample_size: self.sample_size,
            label: opt_text(self.label),
        }
    }
}

impl View for CardRating {
    type V = RowModel;

    open spec fn view(&self) -> RowModel {
        RowModel {
            card_id: self.card_id@,
            class: None,
            value: self.value,
            sample_size: self.sample_size,
            label: opt_text(self.label),
        }
    }
}

/// A sequence of rows, over texts.
pub open spec fn row_models(rows: Seq<LocalRatingRow>) -> Seq<RowModel> {
    rows.map_values(|r: LocalRatingRow| r@)
}

/// The position of a class among the rows of one card: the rows for all classes come first.
pub open spec fn class_rank(class: Option<HeroClass>) -> int {
    match class {
        None => 0,
        Some(HeroClass::DeathKnight) => 1,
        Some(HeroClass::DemonHunter) => 2,
        Some(HeroClass::Druid) => 3,
        Some(HeroClass::Hunter) => 4,
        Some(HeroClass::Mage) => 5,
        Some(HeroClass::Paladin) => 6,
        Some(HeroClass::Priest) => 7,
        Some(HeroClass::Rogue) => 8,
        Some(HeroClass::Shaman) => 9,
        Some(HeroClass::Warlock) => 10,
        Some(HeroClass::Warrior) => 11,
    }
}

fn class_position(class: Option<HeroClass>) -> (r: u8)
    ensures
        r == class_rank(class),
{
    match class {
        None => 0,
        Some(HeroClass::DeathKnight) => 1,
        Some(HeroClass::DemonHunter) => 2,
        Some(HeroClass::Druid) => 3,
        Some(HeroClass::Hunter) => 4,
        Some(HeroClass::Mage) => 5,
        Some(HeroClass::Paladin) => 6,
        Some(HeroClass::Priest) => 7,
        Some(HeroClass::Rogue) => 8,
        Some(HeroClass::Shaman) => 9,
        Some(HeroClass::Warlock) => 10,
        Some(HeroClass::Warrior) => 11,
    }
}

/// Whether one card and class come before another.
pub open spec fn key_lt(
    id: Seq<char>,
    class: Option<HeroClass>,
    other_id: Seq<char>,
    other_class: Option<HeroClass>,
) -> bool {
    text_lt(id, other_id) || (id == other_id && class_rank(class) < class_rank(other_class))
}

/// Whether one row comes before another.
pub open spec fn row_lt(a: RowModel, b: RowModel) -> bool {
    key_lt(a.card_id, a.class, b.card_id, b.class)
}

/// Whether two rows rate the same card for the same class.
pub open spec fn same_key(a: RowModel, b: RowModel) -> bool {
    a.card_id == b.card_id && a.class == b.class
}

/// Whether the rows stand in order, each card and class once.
pub open spec fn rows_sorted(rows: Seq<RowModel>) -> bool {
    forall|i: int, j: int| 0 <= i < j < rows.len() ==> row_lt(#[trigger] rows[i], #[trigger] rows[j])
}

proof fn row_lt_irreflexive(a: RowModel, b: RowModel)
    requires
        same_key(a, b),
    ensures
        !row_lt(a, b),
{
    text_lt_irreflexive(a.card_id);
}

proof fn row_lt_transitive(a: RowModel, b: RowModel, c: RowModel)
    requires
        row_lt(a, b),
        row_lt(b, c),
    ensures
        row_lt(a, c),
{
    if text_lt(a.card_id, b.card_id) && text_lt(b.card_id, c.card_id) {
        text_lt_transitive(a.card_id, b.card_id, c.card_id);
    }
}

proof fn row_lt_total(a: RowModel, b: RowModel)
    ensures
        same_key(a, b) || row_lt(a, b) || row_lt(b, a),
{
    text_lt_total(a.card_id, b.card_id);
}

proof fn sorted_rows_are_distinct(rows: Seq<RowModel>, i: int, j: int)
    requires
        rows_sorted(rows),
        0 <= i < rows.len(),
        0 <= j < rows.len(),
        same_key(rows[i], rows[j]),
    ensures
        i == j,
{
    row_lt_irreflexive(rows[i], rows[j]);
    row_lt_irreflexive(rows[j], rows[i]);
}

/// The rows of several files, each card and class once.
pub struct RatingBook {
    rows: Vec<LocalRatingRow>,
}

impl RatingBook {
    /// The rows in order.
    pub closed spec fn rows(&self) -> Seq<RowModel> {
        row_models(self.rows@)
    }

    /// The rows stand in order, each card and class once.
    pub open spec fn wf(&self) -> bool {
        rows_sorted(self.rows())
    }

    /// Whether the book has a row for a card and class.
    pub open spec fn has(&self, id: Seq<char>, class: Option<HeroClass>) -> bool {
        exists|i: int|
            0 <= i < self.rows().len() && (#[trigger] self.rows()[i]).card_id == id
                && self.rows()[i].class == class
    }

    /// The row for a card and class.
    pub open spec fn row(&self, id: Seq<char>, class: Option<HeroClass>) -> RowModel {
        self.rows()[choose|i: int|
            0 <= i < self.rows().len() && (#[trigger] self.rows()[i]).card_id == id
                && self.rows()[i].class == class]
    }

    /// A row stands for its card and class.
    pub proof fn row_at(&self, i: int)
        requires
            self.wf(),
            0 <= i < self.rows().len(),
        ensures
            self.has(self.rows()[i].card_id, self.rows()[i].class),
            self.row(self.rows()[i].card_id, self.rows()[i].class) == self.rows()[i],
    {
        let id = self.rows()[i].card_id;
        let class = self.rows()[i].class;
        let j = choose|j: int|
            0 <= j < self.rows().len() && (#[trigger] self.rows()[j]).card_id == id
                && self.rows()[j].class == class;
        sorted_rows_are_distinct(self.rows(), i, j);
    }

    /// A book without rows.
    pub fn new() -> (r: Self)
        ensures
            r.wf(),
            r.rows() == Seq::<RowModel>::empty(),
    {
        let r = RatingBook { rows: Vec::new() };
        assert(r.rows() =~= Seq::<RowModel>::empty());
        r
    }

    /// The number of rows.
    pub fn len(&self) -> (r: usize)
        ensures
            r == self.rows().len(),
    {
        self.rows.len()
    }

    /// The row at a place.
    pub fn row_ref(&self, i: usize) -> (r: &LocalRatingRow)
        requires
            i < self.rows().len(),
        ensures
            r@ == self.rows()[i as int],
    {
        &self.rows[i]
    }

    fn position(&self, id: &str, class: Option<HeroClass>) -> (r: (bool, usize))
        requires
            self.wf(),
        ensures
            r.1 <= self.rows().len(),
            r.0 ==> r.1 < self.rows().len() && self.rows()[r.1 as int].card_id == id@
                && self.rows()[r.1 as int].class == class,
            !r.0 ==> !self.has(id@, class),
            !r.0 ==> forall|i: int|
                0 <= i < r.1 ==> key_lt(
                    (#[trigger] self.rows()[i]).card_id,
                    self.rows()[i].class,
                    id@,
                    class,
                ),
            !r.0 ==> forall|i: int|
                r.1 <= i < self.rows().len() ==> key_lt(
                    id@,
                    class,
                    (#[trigger] self.rows()[i]).card_id,
                    self.rows()[i].class,
                ),
    {
        let ghost wanted = RowModel {
            card_id: id@,
            class,
            value: RatingValue { bits: 0 },
            sample_size: None,
            label: None,
        };
        let mut lo: usize = 0;
        let mut hi: usize = self.rows.len();
        while lo < hi
            invariant
                lo <= hi <= self.rows.len(),
                self.rows().len() == self.rows.len(),
                self.wf(),
                wanted.card_id == id@,
                wanted.class == class,
                forall|i: int| 0 <= i < lo ==> row_lt(#[trigger] self.rows()[i], wanted),
                forall|i: int|
                    hi <= i < self.rows().len() ==> row_lt(wanted, #[trigger] self.rows()[i]),
            decreases hi - lo,
        {
            let mid: usize = lo + (hi - lo) / 2;
            let here = &self.rows[mid];
            let ghost h = self.rows()[mid as int];
            assert(h == here@);
            let own: u8 = class_position(here.class);
            let want: u8 = class_position(class);
            let before_id = str_lt(here.card_id.as_str(), id);
            let same_id = text::str_eq(here.card_id.as_str(), id);
            if before_id || (same_id && own < want) {
                assert forall|i: int| 0 <= i < mid + 1 implies row_lt(
                    #[trigger] self.rows()[i],
                    wanted,
                ) by {
                    if i < mid {
                        row_lt_transitive(self.rows()[i], h, wanted);
                    }
                }
                lo = mid + 1;
            } else if same_id && own == want {
                return (true, mid);
            } else {
                proof {
                    row_lt_total(h, wanted);
                }
                assert forall|i: int| mid <= i < self.rows().len() implies row_lt(
                    wanted,
                    #[trigger] self.rows()[i],
                ) by {
                    if mid < i {
                        row_lt_transitive(wanted, h, self.rows()[i]);
                    }
                }
                hi = mid;
            }
        }
        proof {
            if self.has(id@, class) {
                let i = choose|i: int|
                    0 <= i < self.rows().len() && (#[trigger] self.rows()[i]).card_id == id@
                        && self.rows()[i].class == class;
                row_lt_irreflexive(self.rows()[i], wanted);
                row_lt_irreflexive(wanted, self.rows()[i]);
            }
        }
        (false, lo)
    }

    /// The row for a card and class.
    pub fn get(&self, id: &str, class: Option<HeroClass>) -> (r: Option<&LocalRatingRow>)
        requires
            self.wf(),
        ensures
            match r {
                Some(row) => self.has(id@, class) && row@ == self.row(id@, class),
                None => !self.has(id@, class),
            },
    {
        let (found, i) = self.position(id, class);
        if found {
            proof {
                self.row_at(i as int);
            }
            Some(&self.rows[i])
        } else {
            None
        }
    }

    /// Puts a row in place of the one for the same card and class, and gives the old value.
    pub fn insert(&mut self, row: LocalRatingRow) -> (r: Option<RatingValue>)
        requires
            old(self).wf(),
        ensures
            final(self).wf(),
            forall|x: RowModel| #[trigger]
                final(self).rows().contains(x) <==> (x == row@ || (old(self).rows().contains(x)
                    && !same_key(x, row@))),
            match r {
                Some(value) => old(self).has(row@.card_id, row@.class) && value == old(self).row(
                    row@.card_id,
                    row@.class,
                ).value,
                None => !old(self).has(row@.card_id, row@.class),
            },
            final(self).rows().len() == old(self).rows().len() + (if r is Some {
                0int
            } else {
                1int
            }),
    {
        let (found, at) = self.position(row.card_id.as_str(), row.class);
        let ghost before = *self;
        let ghost rows0 = self.rows();
        let ghost new = row@;
        if found {
            let value = self.rows[at].value;
            proof {
                before.row_at(at as int);
            }
            self.rows.set(at, row);
            proof {
                assert(self.rows() =~= rows0.update(at as int, new));
                assert forall|i: int, j: int| 0 <= i < j < self.rows().len() implies row_lt(
                    #[trigger] self.rows()[i],
                    #[trigger] self.rows()[j],
                ) by {
                    assert(row_lt(rows0[i], rows0[j]));
                }
                assert forall|x: RowModel| #[trigger] self.rows().contains(x) <==> (x == new || (
                rows0.contains(x) && !same_key(x, new))) by {
                    if self.rows().contains(x) && x != new {
                        let i = self.rows().index_of(x);
                        assert(i != at);
                        assert(rows0[i] == x);
                        if same_key(x, new) {
                            sorted_rows_are_distinct(rows0, i, at as int);
                        }
                    }
                    if x == new {
                        assert(self.rows()[at as int] == x);
                    }
                    if rows0.contains(x) && !same_key(x, new) {
                        let i = rows0.index_of(x);
                        assert(i != at);
                        assert(self.rows()[i] == x);
                    }
                }
            }
            Some(value)
        } else {
            self.rows.insert(at, row);
            proof {
                assert(self.rows() =~= rows0.insert(at as int, new));
                assert forall|i: int, j: int| 0 <= i < j < self.rows().len() implies row_lt(
                    #[trigger] self.rows()[i],
                    #[trigger] self.rows()[j],
                ) by {
                    if i < at && j < at {
                        assert(row_lt(rows0[i], rows0[j]));
                    } else if i < at && j == at {
                        assert(self.rows()[i] == rows0[i]);
                    } else if i < at {
                        assert(row_lt(rows0[i], rows0[j - 1]));
                    } else if i == at {
                        assert(self.rows()[j] == rows0[j - 1]);
                    } else {
                        assert(row_lt(rows0[i - 1], rows0[j - 1]));
                    }
                }
                assert forall|x: RowModel| #[trigger] self.rows().contains(x) <==> (x == new || (
                rows0.contains(x) && !same_key(x, new))) by {
                    if self.rows().contains(x) && x != new {
                        let i = self.rows().index_of(x);
                        if i < at {
                            assert(rows0[i] == x);
                        } else {
                            assert(rows0[i - 1] == x);
                        }
                        let k = rows0.index_of(x);
                        assert(rows0[k] == x);
                    }
                    if x == new {
                        assert(self.rows()[at as int] == x);
                    }
                    if rows0.contains(x) {
                        let i = rows0.index_of(x);
                        if i < at {
                            assert(self.rows()[i] == x);
                        } else {
                            assert(self.rows()[i + 1] == x);
                        }
                    }
                }
            }
            None
        }
    }

    /// The rows, in order.
    pub fn into_rows(self) -> (r: Vec<LocalRatingRow>)
        ensures
            row_models(r@) == self.rows(),
    {
        self.rows
    }
}

/// Whether a row is the last one for its card and class.
pub open spec fn last_for_key(rows: Seq<RowModel>, i: int) -> bool {
    &&& 0 <= i < rows.len()
    &&& forall|j: int| i < j < rows.len() ==> !same_key(rows[i], #[trigger] rows[j])
}

/// Whether a book holds the last row for each card and class.
pub open spec fn holds_last(book: Seq<RowModel>, rows: Seq<RowModel>) -> bool {
    &&& rows_sorted(book)
    &&& forall|x: RowModel| #[trigger]
        book.contains(x) <==> exists|i: int| #[trigger] last_for_key(rows, i) && rows[i] == x
}

/// A book that takes one more row holds the last rows of the longer list.
pub proof fn book_takes_one_more(
    before: Seq<RowModel>,
    after: Seq<RowModel>,
    rows: Seq<RowModel>,
    new: RowModel,
)
    requires
        holds_last(before, rows),
        rows_sorted(after),
        forall|x: RowModel| #[trigger]
            after.contains(x) <==> (x == new || (before.contains(x) && !same_key(x, new))),
    ensures
        holds_last(after, rows.push(new)),
{
    let longer = rows.push(new);
    let n = rows.len() as int;
    assert forall|x: RowModel| #[trigger] after.contains(x) <==> exists|i: int| #[trigger]
        last_for_key(longer, i) && longer[i] == x by {
        if after.contains(x) {
            if x == new {
                assert(last_for_key(longer, n));
                assert(longer[n] == x);
            } else {
                assert(before.contains(x));
                let i = choose|i: int| #[trigger] last_for_key(rows, i) && rows[i] == x;
                assert(last_for_key(longer, i)) by {
                    assert forall|j: int| i < j < longer.len() implies !same_key(
                        longer[i],
                        #[trigger] longer[j],
                    ) by {
                        if j < n {
                            assert(!same_key(rows[i], rows[j]));
                        }
                    }
                }
                assert(longer[i] == x);
            }
        }
        if exists|i: int| #[trigger] last_for_key(longer, i) && longer[i] == x {
            let i = choose|i: int| #[trigger] last_for_key(longer, i) && longer[i] == x;
            if i < n {
                assert(!same_key(longer[i], longer[n]));
                assert(last_for_key(rows, i)) by {
                    assert forall|j: int| i < j < rows.len() implies !same_key(
                        rows[i],
                        #[trigger] rows[j],
                    ) by {
                        assert(!same_key(longer[i], longer[j]));
                    }
                }
                assert(rows[i] == x);
                assert(before.contains(x));
            }
        }
    }
}

/// Whether a rating is what a row gives.
pub open spec fn gives_row(r: Option<CardRating>, row: Option<RowModel>) -> bool {
    match (r, row) {
        (Some(rating), Some(row)) => rating.card_id@ == row.card_id && rating.value == row.value
            && rating.sample_size == row.sample_size && opt_text(rating.label) == row.label,
        (None, None) => true,
        _ => false,
    }
}

/// The ratings of one file, by card and class.
pub struct LocalJsonRatingProvider {
    metadata: ProviderMetadata,
    ratings: RatingBook,
}

impl LocalJsonRatingProvider {
    #[verifier::type_invariant]
    spec fn rows_in_order(self) -> bool {
        self.wf()
    }

    /// The rows by card and class.
    pub closed spec fn book(&self) -> RatingBook {
        self.ratings
    }

    /// The source of the ratings.
    pub closed spec fn source(&self) -> ProviderMetadata {
        self.metadata
    }

    /// The rows stand in order, each card and class once.
    pub open spec fn wf(&self) -> bool {
        self.book().wf()
    }

    /// The rating of a card: that for the class, or else the one for all classes.
    pub open spec fn rated(&self, id: Seq<char>, class: Option<HeroClass>) -> Option<RowModel> {
        if self.book().has(id, class) {
            Some(self.book().row(id, class))
        } else if self.book().has(id, None) {
            Some(self.book().row(id, None))
        } else {
            None
        }
    }

    /// Takes the ratings of a file. Of several rows for a card and class the last counts.
    pub fn from_file(file: LocalRatingFile) -> (r: Self)
        ensures
            r.wf(),
            holds_last(r.book().rows(), row_models(file.ratings@)),
            r.source().provider@ == file.provider@,
            r.source().data_timestamp == file.data_timestamp,
            opt_text(r.source().arena_season) == opt_text(file.arena_season),
            opt_text(r.source().data_version) == opt_text(file.data_version),
    {
        let ghost all = row_models(file.ratings@);
        let mut book = RatingBook::new();
        let rows = &file.ratings;
        let mut i: usize = 0;
        assert(all.take(0) =~= Seq::<RowModel>::empty());
        while i < rows.len()
            invariant
                i <= rows.len(),
                all == row_models(rows@),
                book.wf(),
                holds_last(book.rows(), all.take(i as int)),
            decreases rows.len() - i,
        {
            let ghost before = book.rows();
            let row = copy_row(&rows[i]);
            book.insert(row);
            proof {
                book_takes_one_more(before, book.rows(), all.take(i as int), all[i as int]);
                assert(all.take(i + 1) =~= all.take(i as int).push(all[i as int]));
            }
            i = i + 1;
        }
        assert(all.take(i as int) =~= all);
        LocalJsonRatingProvider {
            metadata: ProviderMetadata {
                provider: file.provider.clone(),
                data_timestamp: file.data_timestamp,
                arena_season: file.arena_season.clone(),
                data_version: file.data_version.clone(),
            },
            ratings: book,
        }
    }

    /// The row that rates a card for a class.
    pub fn find(&self, card_id: &str, class: Option<HeroClass>) -> (r: Option<CardRating>)
        ensures
            gives_row(r, self.rated(card_id@, class)),
    {
        proof {
            use_type_invariant(self);
        }
        let found = match self.ratings.get(card_id, class) {
            Some(row) => Some(row),
            None => self.ratings.get(card_id, None),
        };
        match found {
            Some(row) => Some(
                CardRating {
                    card_id: row.card_id.clone(),
                    value: row.value,
                    sample_size: row.sample_size,
                    label: row.label.clone(),
                },
            ),
            None => None,
        }
    }

    /// The source of the ratings.
    pub fn source_metadata(&self) -> (r: &ProviderMetadata)
        ensures
            *r == self.source(),
    {
        &self.metadata
    }

    /// The values of all rows, in order.
    pub fn values(&self) -> (r: Vec<RatingValue>)
        ensures
            r@ == self.book().rows().map_values(|row: RowModel| row.value),
    {
        let mut out: Vec<RatingValue> = Vec::new();
        let mut i: usize = 0;
        let ghost wanted = self.book().rows().map_values(|row: RowModel| row.value);
        while i < self.ratings.len()
            invariant
                i <= self.ratings.rows().len(),
                wanted == self.ratings.rows().map_values(|row: RowModel| row.value),
                out@ =~= wanted.take(i as int),
            decreases self.ratings.rows().len() - i,
        {
            out.push(self.ratings.row_ref(i).value);
            i = i + 1;
        }
        assert(wanted.take(i as int) =~= wanted);
        out
    }
}

impl RatingProvider for LocalJsonRatingProvider {
    fn metadata(&self) -> (r: &ProviderMetadata)
        ensures
            *r == self.source(),
    {
        self.source_metadata()
    }

    fn rating(&self, card_id: &str, class: Option<HeroClass>) -> (r: Option<CardRating>)
        ensures
            gives_row(r, self.rated(card_id@, class)),
    {
        self.find(card_id, class)
    }

    fn provider_ratings(&self, card_id: &str, class: Option<HeroClass>) -> (r: Vec<ProviderRating>)
        ensures
            match self.rated(card_id@, class) {
                Some(row) => r@.len() == 1 && same_source(r@[0].provider, self.source())
                    && gives_row(Some(r@[0].rating), Some(row)),
                None => r@.len() == 0,
            },
    {
        single_rating(self.source_metadata(), self.find(card_id, class))
    }
}

/// The values behind a provider's ratings.
pub fn local_rating_values(provider: &LocalJsonRatingProvider) -> (r: Vec<RatingValue>)
    ensures
        r@ == provider.book().rows().map_values(|row: RowModel| row.value),
{
    provider.values()
}

/// The rating for a class comes before the one for all classes, which stands in only where
/// there is none for the class.
pub proof fn class_rating_comes_first(
    provider: LocalJsonRatingProvider,
    id: Seq<char>,
    class: Option<HeroClass>,
)
    ensures
        provider.book().has(id, class) ==> provider.rated(id, class) == Some(
            provider.book().row(id, class),
        ),
        !provider.book().has(id, class) ==> provider.rated(id, class) == provider.rated(id, None),
{
}

fn copy_row(row: &LocalRatingRow) -> (r: LocalRatingRow)
    ensures
        r@ == row@,
{
    LocalRatingRow {
        card_id: row.card_id.clone(),
        class: row.class,
        value: row.value,
        sample_size: row.sample_size,
        label: row.label.clone(),
    }
}

/// Why rating data was refused.
#[derive(Debug, PartialEq, Eq)]
pub enum RatingError {
    NoFiles,
    Conflict { card_id: String },
    InvalidCard,
    TooFewScores { count: usize },
    UnknownClass { context: String },
    EmptyCardId,
    InvalidWinRate { card_id: String },
    IncompleteSection { section: String, count: usize },
    MissingChangelog,
    NoProviders,
}

/// Where refused rating data came from.
#[derive(Clone, Copy, Debug, PartialEq, Eq, Structural)]
pub enum RatingOrigin {
    HearthArena,
    HsReplay,
    Firestone,
    LocalFiles,
}

/// The words for refused rating data.
pub open spec fn rating_refusal(e: RatingError, origin: RatingOrigin) -> Seq<char> {
    match e {
        RatingError::NoFiles => "no rating files to merge"@,
        RatingError::Conflict { card_id } => if origin is HearthArena {
            "HearthArena returned conflicting scores for "@ + card_id@
        } else {
            "Conflicting scores for "@ + card_id@ + " from merged rating files"@
        },
        RatingError::InvalidCard => if origin is HearthArena {
            "HearthArena returned an invalid card ID or score"@
        } else {
            "HSReplay returned an invalid card ID or win rate"@
        },
        RatingError::TooFewScores { count } => (if origin is HearthArena {
            "HearthArena response is incomplete: only "@
        } else {
            "HSReplay response is incomplete: only "@
        }) + decimal(count as nat) + " unique class/card scores"@,
        RatingError::UnknownClass { context } => "unknown Firestone class `"@ + context@ + "`"@,
        RatingError::EmptyCardId => "Firestone returned an empty card ID"@,
        RatingError::InvalidWinRate { card_id } =>
            "Firestone returned an invalid played win rate for "@ + card_id@,
        RatingError::IncompleteSection { section, count } =>
            "HearthArena response is incomplete: section `"@ + section@ + "` has only "@ + decimal(
                count as nat,
            ) + " scores"@,
        RatingError::MissingChangelog =>
            "HearthArena response did not contain a parseable changelog date"@,
        RatingError::NoProviders => "a composite rating provider needs at least one source"@,
    }
}

impl RatingError {
    /// The refusal in words.
    pub fn message(&self, origin: RatingOrigin) -> (r: String)
        ensures
            r@ == rating_refusal(*self, origin),
    {
        match self {
            RatingError::NoFiles => text::copy("no rating files to merge"),
            RatingError::Conflict { card_id } => {
                if origin == RatingOrigin::HearthArena {
                    let mut out = text::copy("HearthArena returned conflicting scores for ");
                    out.append(card_id.as_str());
                    out
                } else {
                    let mut out = text::copy("Conflicting scores for ");
                    out.append(card_id.as_str());
                    out.append(" from merged rating files");
                    out
                }
            },
            RatingError::InvalidCard => if origin == RatingOrigin::HearthArena {
                text::copy("HearthArena returned an invalid card ID or score")
            } else {
                text::copy("HSReplay returned an invalid card ID or win rate")
            },
            RatingError::TooFewScores { count } => {
                let mut out = if origin == RatingOrigin::HearthArena {
                    text::copy("HearthArena response is incomplete: only ")
                } else {
                    text::copy("HSReplay response is incomplete: only ")
                };
                text::push_decimal(&mut out, *count as u64);
                out.append(" unique class/card scores");
                out
            },
            RatingError::UnknownClass { context } => {
                let mut out = text::copy("unknown Firestone class `");
                out.append(context.as_str());
                out.append("`");
                out
            },
            RatingError::EmptyCardId => text::copy("Firestone returned an empty card ID"),
            RatingError::InvalidWinRate { card_id } => {
                let mut out = text::copy("Firestone returned an invalid played win rate for ");
                out.append(card_id.as_str());
                out
            },
            RatingError::IncompleteSection { section, count } => {
                let mut out = text::copy("HearthArena response is incomplete: section `");
                out.append(section.as_str());
                out.append("` has only ");
                text::push_decimal(&mut out, *count as u64);
                out.append(" scores");
                out
            },
            RatingError::MissingChangelog =>
                text::copy("HearthArena response did not contain a parseable changelog date"),
            RatingError::NoProviders => text::copy("a composite rating provider needs at least one source"),
        }
    }
}

/// The rows of all files, in their order.
pub open spec fn all_rows(files: Seq<LocalRatingFile>) -> Seq<RowModel>
    decreases files.len(),
{
    if files.len() == 0 {
        Seq::empty()
    } else {
        all_rows(files.drop_last()) + row_models(files.last().ratings@)
    }
}

/// Whether one moment comes before another.
pub open spec fn earlier(a: Timestamp, b: Timestamp) -> bool {
    a.seconds < b.seconds || (a.seconds == b.seconds && a.nanoseconds < b.nanoseconds)
}

/// Whether a row contradicts the last one before it for the same card and class.
pub open spec fn conflicts(rows: Seq<RowModel>, i: int) -> bool {
    &&& 0 <= i < rows.len()
    &&& exists|j: int|
        {
            &&& #[trigger] last_for_key(rows.take(i), j)
            &&& same_key(rows[j], rows[i])
            &&& !same_number(rows[j].value, rows[i].value)
        }
}

/// Whether some row contradicts an earlier one, and no row before it does.
pub open spec fn first_conflict(rows: Seq<RowModel>, i: int) -> bool {
    conflicts(rows, i) && forall|k: int| 0 <= k < i ==> !#[trigger] conflicts(rows, k)
}

fn later_of(a: Timestamp, b: Timestamp) -> (r: Timestamp)
    ensures
        r == (if earlier(a, b) {
            b
        } else {
            a
        }),
{
    if a.seconds < b.seconds || (a.seconds == b.seconds && a.nanoseconds < b.nanoseconds) {
        b
    } else {
        a
    }
}

/// Whether a moment is the latest of the files'.
pub open spec fn is_latest(t: Timestamp, files: Seq<LocalRatingFile>) -> bool {
    &&& exists|i: int| 0 <= i < files.len() && (#[trigger] files[i]).data_timestamp == t
    &&& forall|i: int| 0 <= i < files.len() ==> !earlier(t, (#[trigger] files[i]).data_timestamp)
}

/// Whether a row contradicts an earlier one does not depend on the rows after it.
pub proof fn conflicts_of_longer(rows: Seq<RowModel>, longer: Seq<RowModel>, k: int)
    requires
        0 <= k < rows.len() <= longer.len(),
        longer.take(rows.len() as int) == rows,
    ensures
        conflicts(longer, k) == conflicts(rows, k),
{
    assert(longer.take(k) =~= rows.take(k)) by {
        assert(longer.take(rows.len() as int).take(k) =~= longer.take(k));
    }
    assert forall|j: int| 0 <= j <= k implies longer[j] == rows[j] by {
        assert(longer.take(rows.len() as int)[j] == rows[j]);
    }
    if conflicts(longer, k) {
        let j = choose|j: int|
            {
                &&& #[trigger] last_for_key(longer.take(k), j)
                &&& same_key(longer[j], longer[k])
                &&& !same_number(longer[j].value, longer[k].value)
            };
        assert(last_for_key(rows.take(k), j));
    }
    if conflicts(rows, k) {
        let j = choose|j: int|
            {
                &&& #[trigger] last_for_key(rows.take(k), j)
                &&& same_key(rows[j], rows[k])
                &&& !same_number(rows[j].value, rows[k].value)
            };
        assert(last_for_key(longer.take(k), j));
    }
}

/// Puts a row into a book and tells whether it contradicts the row before it.
pub(crate) fn insert_checked(book: &mut RatingBook, row: LocalRatingRow, Ghost(done): Ghost<Seq<RowModel>>) -> (r:
    bool)
    requires
        old(book).wf(),
        holds_last(old(book).rows(), done),
    ensures
        final(book).wf(),
        holds_last(final(book).rows(), done.push(row@)),
        r == conflicts(done.push(row@), done.len() as int),
{
    let ghost before = *book;
    let ghost new = row@;
    let ghost longer = done.push(new);
    let ghost n = done.len() as int;
    let value = row.value;
    let previous = book.insert(row);
    proof {
        book_takes_one_more(before.rows(), book.rows(), done, new);
        assert(longer.take(n) =~= done);
    }
    match previous {
        None => {
            proof {
                if conflicts(longer, n) {
                    let j = choose|j: int|
                        {
                            &&& #[trigger] last_for_key(longer.take(n), j)
                            &&& same_key(longer[j], longer[n])
                            &&& !same_number(longer[j].value, longer[n].value)
                        };
                    assert(last_for_key(done, j) && done[j] == longer[j]);
                    assert(before.rows().contains(done[j]));
                    let p = before.rows().index_of(done[j]);
                    assert(before.rows()[p].card_id == new.card_id);
                }
            }
            false
        },
        Some(old_value) => {
            let same = old_value.same_as(&value);
            proof {
                let p = choose|p: int|
                    0 <= p < before.rows().len() && (#[trigger] before.rows()[p]).card_id
                        == new.card_id && before.rows()[p].class == new.class;
                let r0 = before.rows()[p];
                assert(before.rows().contains(r0));
                let j = choose|j: int| #[trigger] last_for_key(done, j) && done[j] == r0;
                assert(last_for_key(longer.take(n), j));
                if same {
                    if conflicts(longer, n) {
                        let m = choose|m: int|
                            {
                                &&& #[trigger] last_for_key(longer.take(n), m)
                                &&& same_key(longer[m], longer[n])
                                &&& !same_number(longer[m].value, longer[n].value)
                            };
                        assert(last_for_key(done, m));
                        if m < j {
                            assert(!same_key(done[m], done[j]));
                        } else if j < m {
                            assert(!same_key(done[j], done[m]));
                        }
                    }
                } else {
                    assert(same_key(longer[j], longer[n]));
                }
            }
            !same
        },
    }
}

fn merge_rows(book: &mut RatingBook, rows: &Vec<LocalRatingRow>, Ghost(done): Ghost<Seq<RowModel>>) -> (r:
    Result<(), RatingError>)
    requires
        old(book).wf(),
        holds_last(old(book).rows(), done),
        forall|k: int| 0 <= k < done.len() ==> !#[trigger] conflicts(done, k),
    ensures
        match r {
            Ok(_) => final(book).wf() && holds_last(final(book).rows(), done + row_models(rows@))
                && forall|k: int|
                0 <= k < (done + row_models(rows@)).len() ==> !#[trigger] conflicts(
                    done + row_models(rows@),
                    k,
                ),
            Err(RatingError::Conflict { card_id }) => exists|i: int| #[trigger]
                first_conflict(done + row_models(rows@), i) && (done + row_models(rows@))[i].card_id
                    == card_id@,
            Err(_) => false,
        },
{
    let ghost all = done + row_models(rows@);
    let ghost n = done.len() as int;
    let mut i: usize = 0;
    assert(all.take(n) =~= done);
    while i < rows.len()
        invariant
            i <= rows.len(),
            n == done.len(),
            all == done + row_models(rows@),
            book.wf(),
            holds_last(book.rows(), all.take(n + i)),
            forall|k: int| 0 <= k < n + i ==> !#[trigger] conflicts(all.take(n + i), k),
        decreases rows.len() - i,
    {
        let row = copy_row(&rows[i]);
        let card_id = rows[i].card_id.clone();
        let conflict = insert_checked(book, row, Ghost(all.take(n + i)));
        proof {
            assert(all.take(n + i + 1) =~= all.take(n + i).push(rows@[i as int]@));
            assert forall|k: int| 0 <= k < n + i implies !#[trigger] conflicts(
                all.take(n + i + 1),
                k,
            ) by {
                assert(all.take(n + i + 1).take(n + i) =~= all.take(n + i));
                conflicts_of_longer(all.take(n + i), all.take(n + i + 1), k);
                assert(!conflicts(all.take(n + i), k));
            }
        }
        if conflict {
            proof {
                assert forall|k: int| 0 <= k <= n + i implies #[trigger] conflicts(all, k)
                    == conflicts(all.take(n + i + 1), k) by {
                    conflicts_of_longer(all.take(n + i + 1), all, k);
                }
                assert(first_conflict(all, n + i)) by {
                    assert(conflicts(all.take(n + i + 1), n + i));
                    assert forall|k: int| 0 <= k < n + i implies !#[trigger] conflicts(
                        all,
                        k,
                    ) by {
                        assert(!conflicts(all.take(n + i + 1), k));
                    }
                }
                assert(all[n + i].card_id == card_id@);
            }
            return Err(RatingError::Conflict { card_id });
        }
        i = i + 1;
    }
    assert(all.take(n + i) =~= all);
    Ok(())
}

/// Joins several rating files into one. The latest moment counts; two files that rate a card
/// differently for the same class are refused.
pub fn merge_local_rating_files(provider: &str, files: Vec<LocalRatingFile>) -> (r: Result<
    LocalRatingFile,
    RatingError,
>)
    ensures
        match r {
            Ok(file) => {
                &&& files@.len() > 0
                &&& forall|k: int|
                    0 <= k < all_rows(files@).len() ==> !#[trigger] conflicts(all_rows(files@), k)
                &&& holds_last(row_models(file.ratings@), all_rows(files@))
                &&& is_latest(file.data_timestamp, files@)
                &&& file.provider@ == provider@
                &&& file.arena_season is None
                &&& file.data_version is None
            },
            Err(RatingError::Conflict { card_id }) => exists|i: int| #[trigger]
                first_conflict(all_rows(files@), i) && all_rows(files@)[i].card_id == card_id@,
            Err(RatingError::NoFiles) => files@.len() == 0,
            Err(_) => false,
        },
{
    let mut book = RatingBook::new();
    if files.len() == 0 {
        return Err(RatingError::NoFiles);
    }
    let mut latest = files[0].data_timestamp;
    let mut i: usize = 0;
    assert(files@.take(0) =~= Seq::<LocalRatingFile>::empty());
    while i < files.len()
        invariant
            i <= files.len(),
            files.len() > 0,
            i == 0 ==> latest == files@[0].data_timestamp,
            i > 0 ==> is_latest(latest, files@.take(i as int)),
            book.wf(),
            holds_last(book.rows(), all_rows(files@.take(i as int))),
            forall|k: int|
                0 <= k < all_rows(files@.take(i as int)).len() ==> !#[trigger] conflicts(
                    all_rows(files@.take(i as int)),
                    k,
                ),
        decreases files.len() - i,
    {
        let ghost before = latest;
        latest = later_of(latest, files[i].data_timestamp);
        let ghost done = all_rows(files@.take(i as int));
        proof {
            assert(files@.take(i + 1).drop_last() =~= files@.take(i as int));
            assert(files@.take(i + 1).last() == files@[i as int]);
            latest_of_longer(before, latest, files@, i as int);
        }
        match merge_rows(&mut book, &files[i].ratings, Ghost(done)) {
            Ok(_) => {},
            Err(e) => {
                proof {
                    let now = done + row_models(files@[i as int].ratings@);
                    rows_of_more_files(files@, i + 1);
                    let c = choose|c: int| #[trigger] first_conflict(now, c) && now[c].card_id
                        == e->Conflict_card_id@;
                    let all = all_rows(files@);
                    assert(all.take(now.len() as int) == now);
                    assert forall|k: int| 0 <= k <= c implies #[trigger] conflicts(all, k)
                        == conflicts(now, k) by {
                        conflicts_of_longer(now, all, k);
                    }
                    assert(first_conflict(all, c)) by {
                        assert forall|k: int| 0 <= k < c implies !#[trigger] conflicts(
                            all,
                            k,
                        ) by {
                            assert(!conflicts(now, k));
                        }
                    }
                    assert(all[c] == all.take(now.len() as int)[c]);
                }
                return Err(e);
            },
        }
        i = i + 1;
    }
    assert(files@.take(i as int) =~= files@);
    Ok(
        LocalRatingFile {
            provider: text::copy(provider),
            data_timestamp: latest,
            arena_season: None,
            data_version: None,
            ratings: book.into_rows(),
        },
    )
}

proof fn latest_of_longer(
    before: Timestamp,
    after: Timestamp,
    files: Seq<LocalRatingFile>,
    i: int,
)
    requires
        0 <= i < files.len(),
        i == 0 ==> before == files[0].data_timestamp,
        i > 0 ==> is_latest(before, files.take(i)),
        after == (if earlier(before, files[i].data_timestamp) {
            files[i].data_timestamp
        } else {
            before
        }),
    ensures
        is_latest(after, files.take(i + 1)),
{
    let longer = files.take(i + 1);
    assert(longer[i] == files[i]);
    if i > 0 {
        let j = choose|j: int|
            0 <= j < files.take(i).len() && (#[trigger] files.take(i)[j]).data_timestamp == before;
        assert(longer[j].data_timestamp == before);
    }
    assert forall|k: int| 0 <= k < longer.len() implies !earlier(
        after,
        (#[trigger] longer[k]).data_timestamp,
    ) by {
        if k < i {
            assert(files.take(i)[k] == longer[k]);
        }
    }
    assert(exists|k: int| 0 <= k < longer.len() && (#[trigger] longer[k]).data_timestamp == after);
}

proof fn rows_of_more_files(files: Seq<LocalRatingFile>, n: int)
    requires
        0 <= n <= files.len(),
    ensures
        all_rows(files).len() >= all_rows(files.take(n)).len(),
        all_rows(files).take(all_rows(files.take(n)).len() as int) == all_rows(files.take(n)),
    decreases files.len() - n,
{
    if n == files.len() {
        assert(files.take(n) =~= files);
        assert(all_rows(files).take(all_rows(files).len() as int) =~= all_rows(files));
    } else {
        rows_of_more_files(files, n + 1);
        assert(files.take(n + 1).drop_last() =~= files.take(n));
        let a = all_rows(files.take(n));
        let b = all_rows(files.take(n + 1));
        assert(b.take(a.len() as int) =~= a);
        assert(all_rows(files).take(a.len() as int) =~= all_rows(files).take(b.len() as int).take(
            a.len() as int,
        ));
    }
}

} // verus!
