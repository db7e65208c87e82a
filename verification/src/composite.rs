use crate::imports::{join_texts, joined};
use crate::ratings::{
    earlier, gives_row, same_source, CardRating, LocalJsonRatingProvider, ProviderMetadata, ProviderRating,
    RatingError, RatingValue, RowModel,
};
use crate::card_data::Timestamp;
use crate::state::{opt_text, HeroClass};
use crate::text::{self, decimal, texts};
use vstd::prelude::*;

verus! {

/// Several providers whose ratings are shown together.
pub struct CompositeRatingProvider {
    sources: Vec<LocalJsonRatingProvider>,
    metadata: ProviderMetadata,
}

/// The names of providers.
pub open spec fn provider_names(sources: Seq<LocalJsonRatingProvider>) -> Seq<Seq<char>> {
    sources.map_values(|p: LocalJsonRatingProvider| p.source().provider@)
}

/// Whether a moment is the earliest of the providers'.
pub open spec fn is_earliest(t: Timestamp, sources: Seq<LocalJsonRatingProvider>) -> bool {
    &&& exists|i: int|
        0 <= i < sources.len() && (#[trigger] sources[i]).source().data_timestamp == t
    &&& forall|i: int|
        0 <= i < sources.len() ==> !earlier(
            (#[trigger] sources[i]).source().data_timestamp,
            t,
        )
}

impl CompositeRatingProvider {
    /// The providers.
    pub closed spec fn providers(&self) -> Seq<LocalJsonRatingProvider> {
        self.sources@
    }

    /// The joint source.
    pub closed spec fn source(&self) -> ProviderMetadata {
        self.metadata
    }

    /// Joins providers. The joint data is as old as the oldest.
    pub fn from_providers(providers: Vec<LocalJsonRatingProvider>) -> (r: Result<
        Self,
        RatingError,
    >)
        ensures
            match r {
                Err(e) => e is NoProviders && providers@.len() == 0,
                Ok(c) => {
                    &&& providers@.len() > 0
                    &&& c.providers() == providers@
                    &&& c.source().provider@ == "Composite: "@ + joined(
                        provider_names(providers@),
                        " + "@,
                    )
                    &&& is_earliest(c.source().data_timestamp, providers@)
                    &&& c.source().arena_season is None
                    &&& c.source().data_version is None
                },
            },
    {
        if providers.len() == 0 {
            return Err(RatingError::NoProviders);
        }
        let mut names: Vec<String> = Vec::new();
        let mut oldest = providers[0].source_metadata().data_timestamp;
        let mut i: usize = 0;
        while i < providers.len()
            invariant
                i <= providers.len(),
                providers.len() > 0,
                texts(names@) =~= provider_names(providers@).take(i as int),
                exists|k: int|
                    0 <= k < providers@.len() && (k < i || k == 0) && (
                    #[trigger] providers@[k]).source().data_timestamp == oldest,
                forall|k: int|
                    0 <= k < i ==> !earlier(
                        (#[trigger] providers@[k]).source().data_timestamp,
                        oldest,
                    ),
            decreases providers.len() - i,
        {
            let metadata = providers[i].source_metadata();
            let ghost before = names@;
            let name = metadata.provider.clone();
            names.push(name);
            assert(texts(names@) =~= texts(before).push(name@));
            let t = metadata.data_timestamp;
            if t.seconds < oldest.seconds || (t.seconds == oldest.seconds && t.nanoseconds
                < oldest.nanoseconds) {
                oldest = t;
                assert(providers@[i as int].source().data_timestamp == oldest);
            }
            i = i + 1;
        }
        assert(provider_names(providers@).take(i as int) =~= provider_names(providers@));
        let mut provider = text::copy("Composite: ");
        provider.append(join_texts(&names, " + ").as_str());
        Ok(
            CompositeRatingProvider {
                sources: providers,
                metadata: ProviderMetadata {
                    provider,
                    data_timestamp: oldest,
                    arena_season: None,
                    data_version: None,
                },
            },
        )
    }

    /// The joint source.
    pub fn source_metadata(&self) -> (r: &ProviderMetadata)
        ensures
            *r == self.source(),
    {
        &self.metadata
    }

    /// The number of providers.
    pub fn len(&self) -> (r: usize)
        ensures
            r == self.providers().len(),
    {
        self.sources.len()
    }

    /// The provider at a place.
    pub fn provider_at(&self, i: usize) -> (r: &LocalJsonRatingProvider)
        requires
            i < self.providers().len(),
        ensures
            *r == self.providers()[i as int],
    {
        &self.sources[i]
    }

    /// The ratings of a card, one for each provider that rates it.
    pub fn provider_ratings(&self, card_id: &str, class: Option<HeroClass>) -> (r: Vec<
        ProviderRating,
    >)
        ensures
            shows_each(r@, self.providers(), card_id@, class),
    {
        let mut out: Vec<ProviderRating> = Vec::new();
        let mut i: usize = 0;
        assert(self.sources@.take(0) =~= Seq::<LocalJsonRatingProvider>::empty());
        while i < self.sources.len()
            invariant
                i <= self.sources.len(),
                shows_each(out@, self.sources@.take(i as int), card_id@, class),
            decreases self.sources.len() - i,
        {
            let ghost before = out@;
            let ghost now = self.sources@.take(i + 1);
            proof {
                assert(now.drop_last() =~= self.sources@.take(i as int));
                assert(now.last() == self.sources@[i as int]);
            }
            match self.sources[i].find(card_id, class) {
                Some(rating) => {
                    let provider = self.sources[i].source_metadata().clone();
                    out.push(ProviderRating { provider, rating });
                    assert(out@.drop_last() =~= before);
                },
                None => {},
            }
            i = i + 1;
        }
        assert(self.sources@.take(i as int) =~= self.sources@);
        out
    }

    /// Whether any provider rates a card.
    pub fn rates(&self, card_id: &str, class: Option<HeroClass>) -> (r: bool)
        ensures
            r == (rating_rows(self.providers(), card_id@, class).len() > 0),
    {
        let shown = self.provider_ratings(card_id, class);
        proof {
            every_rating_provider_is_shown(shown@, self.providers(), card_id@, class);
        }
        shown.len() > 0
    }

    /// The joint rating of a card, for the mean of the providers' scores.
    pub fn combined_rating(&self, card_id: &str, class: Option<HeroClass>, mean: RatingValue) -> (r:
        Option<CardRating>)
        ensures
            match r {
                None => rating_rows(self.providers(), card_id@, class).len() == 0,
                Some(c) => {
                    let rows = rating_rows(self.providers(), card_id@, class);
                    &&& rows.len() > 0
                    &&& c.card_id@ == card_id@
                    &&& c.value == mean
                    &&& c.sample_size == if total_sample(rows) == 0 {
                        None
                    } else {
                        Some(total_sample(rows) as u64)
                    }
                    &&& opt_text(c.label) == Some(
                        "mean of "@ + decimal(rows.len()) + " normalized source scores"@,
                    )
                },
            },
    {
        let mut joined_sources: u64 = 0;
        let mut sample_size: u64 = 0;
        let mut i: usize = 0;
        assert(self.sources@.take(0) =~= Seq::<LocalJsonRatingProvider>::empty());
        while i < self.sources.len()
            invariant
                i <= self.sources.len(),
                joined_sources <= i,
                joined_sources == rating_rows(self.sources@.take(i as int), card_id@, class).len(),
                sample_size == total_sample(
                    rating_rows(self.sources@.take(i as int), card_id@, class),
                ),
            decreases self.sources.len() - i,
        {
            let ghost now = self.sources@.take(i + 1);
            let ghost rows = rating_rows(self.sources@.take(i as int), card_id@, class);
            proof {
                assert(now.drop_last() =~= self.sources@.take(i as int));
                assert(now.last() == self.sources@[i as int]);
            }
            match self.sources[i].find(card_id, class) {
                Some(rating) => {
                    joined_sources = joined_sources + 1;
                    let more: u64 = match rating.sample_size {
                        Some(n) => n,
                        None => 0,
                    };
                    proof {
                        let row = now.last().rated(card_id@, class)->0;
                        assert(rows.push(row).drop_last() =~= rows);
                        assert(rows.push(row).last() == row);
                    }
                    if more > u64::MAX - sample_size {
                        sample_size = u64::MAX;
                    } else {
                        sample_size = sample_size + more;
                    }
                },
                None => {},
            }
            i = i + 1;
        }
        assert(self.sources@.take(i as int) =~= self.sources@);
        if joined_sources == 0 {
            return None;
        }
        let mut label = text::copy("mean of ");
        text::push_decimal(&mut label, joined_sources);
        label.append(" normalized source scores");
        Some(
            CardRating {
                card_id: text::copy(card_id),
                value: mean,
                sample_size: if sample_size > 0 {
                    Some(sample_size)
                } else {
                    None
                },
                label: Some(label),
            },
        )
    }
}

/// The rows of the providers that rate a card.
pub open spec fn rating_rows(
    providers: Seq<LocalJsonRatingProvider>,
    id: Seq<char>,
    class: Option<HeroClass>,
) -> Seq<RowModel>
    decreases providers.len(),
{
    if providers.len() == 0 {
        Seq::empty()
    } else {
        let before = rating_rows(providers.drop_last(), id, class);
        match providers.last().rated(id, class) {
            Some(row) => before.push(row),
            None => before,
        }
    }
}

/// The games behind rows, up to what the counter holds.
pub open spec fn total_sample(rows: Seq<RowModel>) -> nat
    decreases rows.len(),
{
    if rows.len() == 0 {
        0
    } else {
        let sum = total_sample(rows.drop_last()) + match rows.last().sample_size {
            Some(n) => n as nat,
            None => 0,
        };
        if sum > u64::MAX {
            u64::MAX as nat
        } else {
            sum
        }
    }
}

/// Whether ratings are those of the providers that rate a card, each with its source.
pub open spec fn shows_each(
    shown: Seq<ProviderRating>,
    providers: Seq<LocalJsonRatingProvider>,
    id: Seq<char>,
    class: Option<HeroClass>,
) -> bool
    decreases providers.len(),
{
    if providers.len() == 0 {
        shown.len() == 0
    } else {
        match providers.last().rated(id, class) {
            None => shows_each(shown, providers.drop_last(), id, class),
            Some(row) => {
                &&& shown.len() > 0
                &&& shows_each(shown.drop_last(), providers.drop_last(), id, class)
                &&& gives_row(Some(shown.last().rating), Some(row))
                &&& same_source(shown.last().provider, providers.last().source())
            },
        }
    }
}

/// Providers are shown exactly where they rate the card.
pub proof fn every_rating_provider_is_shown(
    shown: Seq<ProviderRating>,
    providers: Seq<LocalJsonRatingProvider>,
    id: Seq<char>,
    class: Option<HeroClass>,
)
    requires
        shows_each(shown, providers, id, class),
    ensures
        shown.len() == rating_rows(providers, id, class).len(),
    decreases providers.len(),
{
    if providers.len() > 0 {
        match providers.last().rated(id, class) {
            None => every_rating_provider_is_shown(shown, providers.drop_last(), id, class),
            Some(_) => every_rating_provider_is_shown(
                shown.drop_last(),
                providers.drop_last(),
                id,
                class,
            ),
        }
    }
}

} // verus!
