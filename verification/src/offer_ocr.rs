//! Reading the titles of offered cards from the screen: which card a title names, and when a
//! reading counts.
//!
//! A title names a card only where exactly one fits. An offer counts after two readings that agree.
use crate::card_data::{
    cards_near, collectible, found_cards, letter_or_number, near_cards, ocr_name, CardCache,
    CardMetadata, CardModel,
};
use crate::composite::{rating_rows, CompositeRatingProvider};
use crate::draft_view::{key_model, DraftKey, KeyModel};
use crate::imports::{join_texts, joined};
use crate::state::HeroClass;
use crate::text::{self, texts, trimmed};
use crate::text_map::{sorted_texts_are_unique, strictly_sorted, TextSet};
use vstd::prelude::*;

verus! {

/// The titles that lines may be, without blank ones.
pub open spec fn titles(lines: Seq<Seq<char>>) -> Seq<Seq<char>>
    decreases lines.len(),
{
    if lines.len() == 0 {
        Seq::empty()
    } else if trimmed(lines.last()).len() == 0 {
        titles(lines.drop_last())
    } else {
        titles(lines.drop_last()).push(trimmed(lines.last()))
    }
}

/// The titles that lines may be: each of them, and all of them together.
pub open spec fn variants(lines: Seq<Seq<char>>) -> Seq<Seq<char>> {
    let single = titles(lines);
    if single.len() > 1 {
        single.push(joined(single, " "@))
    } else {
        single
    }
}

/// Whether a title is that of a card.
pub open spec fn names(cards: Seq<CardModel>, title: Seq<char>, i: int) -> bool {
    &&& 0 <= i < cards.len()
    &&& ocr_name(title).len() > 0
    &&& collectible(cards[i])
    &&& ocr_name(cards[i].name) == ocr_name(title)
}

/// Whether a title names a card with an id.
pub open spec fn title_is(cards: Seq<CardModel>, title: Seq<char>, id: Seq<char>) -> bool {
    exists|i: int| #[trigger] names(cards, title, i) && cards[i].id == id
}

/// Whether one of some titles names a card with an id.
pub open spec fn named(cards: Seq<CardModel>, all: Seq<Seq<char>>, id: Seq<char>) -> bool {
    exists|v: int| 0 <= v < all.len() && title_is(cards, #[trigger] all[v], id)
}

/// The number of letters and digits of a title.
pub open spec fn letters(title: Seq<char>) -> nat
    decreases title.len(),
{
    if title.len() == 0 {
        0
    } else {
        letters(title.drop_last()) + if letter_or_number(title.last()) {
            1nat
        } else {
            0
        }
    }
}

/// How many edits a title may be away from a card's name: two for a long one, else one.
pub open spec fn radius(title: Seq<char>) -> nat {
    if letters(title) >= 10 {
        2
    } else {
        1
    }
}

/// The cards near a title, with the number of edits.
pub open spec fn near_of(cards: Seq<CardModel>, title: Seq<char>) -> Seq<(CardModel, nat)> {
    if ocr_name(title).len() < 6 {
        Seq::empty()
    } else {
        cards_near(cards, ocr_name(title), radius(title))
    }
}

/// Whether a card with an id is a number of edits away from a title.
pub open spec fn title_near(cards: Seq<CardModel>, title: Seq<char>, id: Seq<char>, d: nat) -> bool {
    exists|j: int|
        0 <= j < near_of(cards, title).len() && (#[trigger] near_of(cards, title)[j]).0.id == id
            && near_of(cards, title)[j].1 == d
}

/// Whether a card with an id is a number of edits away from one of some titles.
pub open spec fn near(cards: Seq<CardModel>, all: Seq<Seq<char>>, id: Seq<char>, d: nat) -> bool {
    exists|v: int| 0 <= v < all.len() && title_near(cards, #[trigger] all[v], id, d)
}

/// Whether no card is nearer to the titles than one with an id.
pub open spec fn nearest(cards: Seq<CardModel>, all: Seq<Seq<char>>, id: Seq<char>) -> bool {
    exists|d: nat| #[trigger]
        near(cards, all, id, d) && forall|other: Seq<char>, e: nat| #[trigger]
            near(cards, all, other, e) ==> d <= e
}

/// Whether some titles name a card.
pub open spec fn any_named(cards: Seq<CardModel>, all: Seq<Seq<char>>) -> bool {
    exists|id: Seq<char>| #[trigger] named(cards, all, id)
}

/// Whether these are the cards that the titles may name: those that they name, else the nearest.
pub open spec fn are_matches(m: Seq<Seq<char>>, cards: Seq<CardModel>, all: Seq<Seq<char>>) -> bool {
    &&& strictly_sorted(m)
    &&& forall|id: Seq<char>| #[trigger]
        m.contains(id) <==> if any_named(cards, all) {
            named(cards, all, id)
        } else {
            nearest(cards, all, id)
        }
}

/// The cards that titles may name are determined.
pub proof fn matches_are_determined(
    a: Seq<Seq<char>>,
    b: Seq<Seq<char>>,
    cards: Seq<CardModel>,
    all: Seq<Seq<char>>,
)
    requires
        are_matches(a, cards, all),
        are_matches(b, cards, all),
    ensures
        a == b,
{
    sorted_texts_are_unique(a, b);
}

fn collect_titles(lines: &Vec<String>) -> (r: Vec<String>)
    ensures
        texts(r@) == titles(texts(lines@)),
{
    let ghost all = texts(lines@);
    let mut out: Vec<String> = Vec::new();
    let mut i: usize = 0;
    assert(all.take(0) =~= Seq::<Seq<char>>::empty());
    assert(texts(out@) =~= Seq::<Seq<char>>::empty());
    while i < lines.len()
        invariant
            i <= lines.len(),
            all == texts(lines@),
            texts(out@) == titles(all.take(i as int)),
        decreases lines.len() - i,
    {
        assert(all.take(i + 1).drop_last() =~= all.take(i as int));
        assert(all.take(i + 1).last() == lines@[i as int]@);
        let title = text::trim(lines[i].as_str());
        if !title.as_str().is_empty() {
            let ghost before = out@;
            out.push(title);
            assert(texts(out@) =~= texts(before).push(title@));
        }
        i = i + 1;
    }
    assert(all.take(i as int) =~= all);
    out
}

fn collect_variants(lines: &Vec<String>) -> (r: Vec<String>)
    ensures
        texts(r@) == variants(texts(lines@)),
{
    let mut out = collect_titles(lines);
    if out.len() > 1 {
        let whole = join_texts(&out, " ");
        let ghost before = out@;
        out.push(whole);
        assert(texts(out@) =~= texts(before).push(whole@));
    }
    out
}

fn count_letters(title: &str) -> (r: usize)
    ensures
        r == letters(title@),
{
    let chars = text::chars_of(title);
    let mut count: usize = 0;
    let mut i: usize = 0;
    assert(chars@.take(0) =~= Seq::<char>::empty());
    while i < chars.len()
        invariant
            i <= chars.len(),
            count <= i,
            count == letters(chars@.take(i as int)),
        decreases chars.len() - i,
    {
        assert(chars@.take(i + 1).drop_last() =~= chars@.take(i as int));
        assert(chars@.take(i + 1).last() == chars@[i as int]);
        if chars[i].is_alphanumeric() {
            count = count + 1;
        }
        i = i + 1;
    }
    assert(chars@.take(i as int) =~= chars@);
    count
}

proof fn filtered_items_come_from(
    cards: Seq<CardModel>,
    keep: spec_fn(CardModel) -> bool,
    j: int,
) -> (i: int)
    requires
        0 <= j < cards.filter(keep).len(),
    ensures
        0 <= i < cards.len(),
        cards[i] == cards.filter(keep)[j],
    decreases cards.len(),
{
    reveal(Seq::filter);
    let before = cards.drop_last();
    if j < before.filter(keep).len() {
        filtered_items_come_from(before, keep, j)
    } else {
        cards.len() - 1
    }
}

proof fn filtered_cards_are_named(
    cards: Seq<CardModel>,
    kept: Seq<CardModel>,
    title: Seq<char>,
    id: Seq<char>,
)
    requires
        ocr_name(title).len() > 0,
        kept == cards.filter(
            |c: CardModel| collectible(c) && ocr_name(c.name) == ocr_name(title),
        ),
    ensures
        title_is(cards, title, id) <==> exists|j: int|
            0 <= j < kept.len() && (#[trigger] kept[j]).id == id,
{
    let keep = |c: CardModel| collectible(c) && ocr_name(c.name) == ocr_name(title);
    if title_is(cards, title, id) {
        let i = choose|i: int| #[trigger] names(cards, title, i) && cards[i].id == id;
        assert(keep(cards[i]));
        cards.filter_lemma(keep);
        assert(kept.contains(cards[i]));
        let j = choose|j: int| 0 <= j < kept.len() && kept[j] == cards[i];
        assert(kept[j].id == id);
    }
    if exists|j: int| 0 <= j < kept.len() && (#[trigger] kept[j]).id == id {
        let j = choose|j: int| 0 <= j < kept.len() && (#[trigger] kept[j]).id == id;
        cards.filter_lemma(keep);
        assert(keep(kept[j]));
        let i = filtered_items_come_from(cards, keep, j);
        assert(names(cards, title, i));
    }
}

fn insert_named(found: &mut TextSet, cards: &CardCache, title: &str)
    requires
        old(found).wf(),
        cards.wf(),
    ensures
        final(found).wf(),
        forall|id: Seq<char>| #[trigger]
            final(found).has(id) <==> old(found).has(id) || title_is(cards.cards(), title@, id),
{
    let hits = cards.find_collectible_by_ocr_name(title);
    let ghost models = found_cards(hits@);
    let ghost first = *found;
    let mut i: usize = 0;
    while i < hits.len()
        invariant
            i <= hits.len(),
            models == found_cards(hits@),
            found.wf(),
            forall|id: Seq<char>| #[trigger]
                found.has(id) <==> first.has(id) || exists|j: int|
                    0 <= j < i && (#[trigger] models[j]).id == id,
        decreases hits.len() - i,
    {
        let card: &CardMetadata = hits[i];
        let ghost before = *found;
        found.insert(text::copy(card.id.as_str()));
        assert forall|id: Seq<char>| #[trigger] found.has(id) <==> first.has(id) || exists|j: int|
            0 <= j < i + 1 && (#[trigger] models[j]).id == id by {
            assert(models[i as int] == card@);
            assert(before.has(id) <==> first.has(id) || exists|j: int|
                0 <= j < i && (#[trigger] models[j]).id == id);
        }
        i = i + 1;
    }
    proof {
        assert forall|id: Seq<char>| #[trigger] found.has(id) <==> first.has(id) || title_is(
            cards.cards(),
            title@,
            id,
        ) by {
            assert(models.len() == hits@.len());
            if ocr_name(title@).len() == 0 {
                assert(!title_is(cards.cards(), title@, id));
            } else {
                filtered_cards_are_named(cards.cards(), models, title@, id);
            }
        }
    }
}

fn find_named(cards: &CardCache, all: &Vec<String>) -> (r: TextSet)
    requires
        cards.wf(),
    ensures
        r.wf(),
        forall|id: Seq<char>| #[trigger] r.has(id) <==> named(cards.cards(), texts(all@), id),
{
    let ghost list = texts(all@);
    let mut found = TextSet::new();
    let mut i: usize = 0;
    while i < all.len()
        invariant
            i <= all.len(),
            cards.wf(),
            list == texts(all@),
            found.wf(),
            forall|id: Seq<char>| #[trigger]
                found.has(id) <==> exists|v: int|
                    0 <= v < i && title_is(cards.cards(), #[trigger] list[v], id),
        decreases all.len() - i,
    {
        let ghost before = found;
        insert_named(&mut found, cards, all[i].as_str());
        assert forall|id: Seq<char>| #[trigger] found.has(id) <==> exists|v: int|
            0 <= v < i + 1 && title_is(cards.cards(), #[trigger] list[v], id) by {
            assert(list[i as int] == all@[i as int]@);
            assert(before.has(id) <==> exists|v: int|
                0 <= v < i && title_is(cards.cards(), #[trigger] list[v], id));
        }
        i = i + 1;
    }
    found
}

/// The nearest cards so far: their least number of edits, and the cards with it.
struct Nearest {
    found: TextSet,
    best: Option<usize>,
}

/// Whether the nearest cards are those that hits of the first titles amount to.
spec fn nearest_so_far(
    n: Nearest,
    hit: spec_fn(Seq<char>, nat) -> bool,
) -> bool {
    &&& n.found.wf()
    &&& match n.best {
        None => (forall|id: Seq<char>, d: nat| !(#[trigger] hit(id, d))) && forall|id: Seq<char>|
            !(#[trigger] n.found.has(id)),
        Some(best) => {
            &&& forall|id: Seq<char>, d: nat| #[trigger] hit(id, d) ==> best <= d
            &&& exists|id: Seq<char>| #[trigger] n.found.has(id)
            &&& forall|id: Seq<char>| #[trigger] n.found.has(id) <==> hit(id, best as nat)
        },
    }
}

fn take_hit(nearest: Nearest, id: &str, d: usize, Ghost(hit): Ghost<spec_fn(Seq<char>, nat) -> bool>) -> (r: Nearest)
    requires
        nearest_so_far(nearest, hit),
    ensures
        nearest_so_far(r, |k: Seq<char>, e: nat| hit(k, e) || (k == id@ && e == d as nat)),
{
    let ghost more = |k: Seq<char>, e: nat| hit(k, e) || (k == id@ && e == d as nat);
    let fresh = match nearest.best {
        None => true,
        Some(best) => d < best,
    };
    if fresh {
        let mut found = TextSet::new();
        found.insert(text::copy(id));
        let r = Nearest { found, best: Some(d) };
        proof {
            assert(r.found.has(id@));
            assert forall|k: Seq<char>| #[trigger] r.found.has(k) <==> more(k, d as nat) by {
                match nearest.best {
                    None => {
                        assert(!hit(k, d as nat));
                    },
                    Some(best) => {
                        if hit(k, d as nat) {
                            assert(best <= d);
                        }
                    },
                }
            }
            assert forall|k: Seq<char>, e: nat| #[trigger] more(k, e) implies d <= e by {
                if hit(k, e) {
                    match nearest.best {
                        None => {},
                        Some(best) => {
                            assert(best <= e);
                        },
                    }
                }
            }
        }
        r
    } else {
        let best: usize = match nearest.best {
            None => d,
            Some(best) => best,
        };
        let mut found = nearest.found;
        let ghost before = found;
        if d == best {
            found.insert(text::copy(id));
        }
        let r = Nearest { found, best: Some(best) };
        proof {
            let k0 = choose|k: Seq<char>| #[trigger] before.has(k);
            assert(r.found.has(k0));
            assert forall|k: Seq<char>| #[trigger] r.found.has(k) <==> more(k, best as nat) by {
                assert(before.has(k) <==> hit(k, best as nat));
            }
            assert forall|k: Seq<char>, e: nat| #[trigger] more(k, e) implies best <= e by {
                if hit(k, e) {
                    assert(best <= e);
                }
            }
        }
        r
    }
}

fn find_nearest(cards: &CardCache, all: &Vec<String>) -> (r: TextSet)
    requires
        cards.wf(),
    ensures
        r.wf(),
        forall|id: Seq<char>| #[trigger] r.has(id) <==> nearest(cards.cards(), texts(all@), id),
{
    let ghost list = texts(all@);
    let ghost known = cards.cards();
    let mut so_far = Nearest { found: TextSet::new(), best: None };
    let mut i: usize = 0;
    assert(nearest_so_far(
        so_far,
        |id: Seq<char>, d: nat| exists|v: int|
            0 <= v < 0 && title_near(known, #[trigger] list[v], id, d),
    ));
    while i < all.len()
        invariant
            i <= all.len(),
            cards.wf(),
            known == cards.cards(),
            list == texts(all@),
            nearest_so_far(
                so_far,
                |id: Seq<char>, d: nat| exists|v: int|
                    0 <= v < i && title_near(known, #[trigger] list[v], id, d),
            ),
        decreases all.len() - i,
    {
        let title = all[i].as_str();
        let reach: usize = if count_letters(title) >= 10 {
            2
        } else {
            1
        };
        let hits = cards.find_collectible_by_ocr_name_near(title, reach);
        let ghost models = near_cards(hits@);
        assert(list[i as int] == title@);
        assert(models == near_of(known, title@));
        let ghost earlier = |id: Seq<char>, d: nat| exists|v: int|
            0 <= v < i && title_near(known, #[trigger] list[v], id, d);
        let mut j: usize = 0;
        let ghost mut seen = earlier;
        while j < hits.len()
            invariant
                j <= hits.len(),
                models == near_cards(hits@),
                nearest_so_far(so_far, seen),
                forall|id: Seq<char>, d: nat| #[trigger]
                    seen(id, d) <==> earlier(id, d) || exists|k: int|
                        0 <= k < j && (#[trigger] models[k]).0.id == id && models[k].1 == d,
            decreases hits.len() - j,
        {
            let (card, distance): (&CardMetadata, usize) = hits[j];
            assert(models[j as int] == (card@, distance as nat));
            let ghost before = seen;
            so_far = take_hit(so_far, card.id.as_str(), distance, Ghost(seen));
            proof {
                seen = |k: Seq<char>, e: nat| before(k, e) || (k == card.id@ && e == distance as nat);
                assert forall|id: Seq<char>, d: nat| #[trigger] seen(id, d) <==> earlier(id, d)
                    || exists|k: int|
                    0 <= k < j + 1 && (#[trigger] models[k]).0.id == id && models[k].1 == d by {
                    assert(before(id, d) <==> earlier(id, d) || exists|k: int|
                        0 <= k < j && (#[trigger] models[k]).0.id == id && models[k].1 == d);
                }
            }
            j = j + 1;
        }
        proof {
            let now = |id: Seq<char>, d: nat| exists|v: int|
                0 <= v < i + 1 && title_near(known, #[trigger] list[v], id, d);
            assert forall|id: Seq<char>, d: nat| #[trigger] now(id, d) <==> seen(id, d) by {
                assert(title_near(known, list[i as int], id, d) <==> exists|k: int|
                    0 <= k < models.len() && (#[trigger] models[k]).0.id == id && models[k].1 == d);
                if now(id, d) {
                    let v = choose|v: int|
                        0 <= v < i + 1 && title_near(known, #[trigger] list[v], id, d);
                    if v < i {
                        assert(earlier(id, d));
                    }
                }
                if seen(id, d) {
                    if earlier(id, d) {
                        let v = choose|v: int|
                            0 <= v < i && title_near(known, #[trigger] list[v], id, d);
                        assert(title_near(known, list[v], id, d));
                    }
                }
            }
            assert(nearest_so_far(so_far, now));
        }
        i = i + 1;
    }
    proof {
        let hit = |id: Seq<char>, d: nat| exists|v: int|
            0 <= v < i && title_near(known, #[trigger] list[v], id, d);
        assert forall|id: Seq<char>, d: nat| #[trigger] hit(id, d) <==> near(known, list, id, d) by {}
        assert(nearest_so_far(so_far, hit));
        assert forall|id: Seq<char>| #[trigger] so_far.found.has(id) <==> nearest(known, list, id) by {
            match so_far.best {
                None => {
                    assert(!so_far.found.has(id));
                    if nearest(known, list, id) {
                        let d = choose|d: nat| #[trigger] near(known, list, id, d);
                        assert(hit(id, d));
                    }
                },
                Some(best) => {
                    if so_far.found.has(id) {
                        assert(hit(id, best as nat));
                        assert(near(known, list, id, best as nat));
                        assert forall|other: Seq<char>, e: nat| #[trigger]
                            near(known, list, other, e) implies best <= e by {
                            assert(hit(other, e));
                        }
                    }
                    if nearest(known, list, id) {
                        let d = choose|d: nat| #[trigger]
                            near(known, list, id, d) && forall|other: Seq<char>, e: nat| #[trigger]
                                near(known, list, other, e) ==> d <= e;
                        let k0 = choose|k: Seq<char>| #[trigger] so_far.found.has(k);
                        assert(hit(k0, best as nat));
                        assert(near(known, list, k0, best as nat));
                        assert(hit(id, d));
                    }
                },
            }
        }
    }
    so_far.found
}

/// The cards that the lines at one place may name.
pub fn offer_matches(lines: &Vec<String>, cards: &CardCache) -> (r: Vec<String>)
    requires
        cards.wf(),
    ensures
        are_matches(texts(r@), cards.cards(), variants(texts(lines@))),
{
    let all = collect_variants(lines);
    let exact = find_named(cards, &all);
    let ghost known = cards.cards();
    let ghost list = texts(all@);
    if exact.len() > 0 {
        proof {
            let id = exact.elems()[0];
            assert(exact.has(id));
            assert(named(known, list, id));
            exact.elems_are_sorted();
            assert forall|id: Seq<char>| #[trigger] exact.elems().contains(id) <==> named(
                known,
                list,
                id,
            ) by {
                assert(exact.has(id) <==> named(known, list, id));
            }
        }
        return exact.to_vec();
    }
    proof {
        if any_named(known, list) {
            let id = choose|id: Seq<char>| #[trigger] named(known, list, id);
            assert(exact.has(id));
        }
    }
    let close = find_nearest(cards, &all);
    proof {
        close.elems_are_sorted();
        assert forall|id: Seq<char>| #[trigger] close.elems().contains(id) <==> nearest(
            known,
            list,
            id,
        ) by {
            assert(close.has(id) <==> nearest(known, list, id));
        }
    }
    close.to_vec()
}

/// Why a place names no card.
#[derive(Clone, Copy, Debug, PartialEq, Eq, Structural)]
pub enum OfferTitleError {
    NoMatch,
    SeveralMatches,
}

impl OfferTitleError {
    /// The words for an error.
    pub fn message(self) -> (r: &'static str)
        ensures
            r@ == (match self {
                OfferTitleError::NoMatch => {
                    "offer title did not exactly match a collectible card"@
                },
                OfferTitleError::SeveralMatches => {
                    "offer title matched multiple collectible card IDs"@
                },
            }),
    {
        match self {
            OfferTitleError::NoMatch => "offer title did not exactly match a collectible card",
            OfferTitleError::SeveralMatches => "offer title matched multiple collectible card IDs",
        }
    }
}

/// Whether a card is rated.
pub open spec fn is_rated(
    ratings: Option<&CompositeRatingProvider>,
    class: Option<HeroClass>,
    id: Seq<char>,
) -> bool {
    match ratings {
        None => false,
        Some(provider) => rating_rows(provider.providers(), id, class).len() > 0,
    }
}

/// The matches that are left: where several fit, the one that is rated, if it is the only one.
pub open spec fn kept_matches(
    m: Seq<Seq<char>>,
    ratings: Option<&CompositeRatingProvider>,
    class: Option<HeroClass>,
) -> Seq<Seq<char>> {
    let rated = m.filter(|id: Seq<char>| is_rated(ratings, class, id));
    if m.len() > 1 && rated.len() == 1 {
        rated
    } else {
        m
    }
}

/// Whether this is the card that the matches leave, or why there is none.
pub open spec fn chosen(r: Result<String, OfferTitleError>, kept: Seq<Seq<char>>) -> bool {
    match r {
        Ok(id) => kept.len() == 1 && id@ == kept[0],
        Err(OfferTitleError::NoMatch) => kept.len() == 0,
        Err(OfferTitleError::SeveralMatches) => kept.len() > 1,
    }
}

fn find_rated(
    matches: &Vec<String>,
    ratings: Option<&CompositeRatingProvider>,
    class: Option<HeroClass>,
) -> (r: Vec<String>)
    ensures
        texts(r@) == texts(matches@).filter(|id: Seq<char>| is_rated(ratings, class, id)),
{
    let ghost all = texts(matches@);
    let ghost keep = |id: Seq<char>| is_rated(ratings, class, id);
    let mut out: Vec<String> = Vec::new();
    let mut i: usize = 0;
    assert(all.take(0).filter(keep) =~= Seq::<Seq<char>>::empty()) by {
        reveal(Seq::filter);
    }
    assert(texts(out@) =~= Seq::<Seq<char>>::empty());
    while i < matches.len()
        invariant
            i <= matches.len(),
            all == texts(matches@),
            keep == (|id: Seq<char>| is_rated(ratings, class, id)),
            texts(out@) == all.take(i as int).filter(keep),
        decreases matches.len() - i,
    {
        let id = matches[i].as_str();
        assert(all[i as int] == id@);
        proof {
            crate::card_data::filter_step(all, keep, i as int);
        }
        let rated = match ratings {
            None => false,
            Some(provider) => provider.rates(id, class),
        };
        if rated {
            let ghost before = out@;
            out.push(text::copy(id));
            assert(texts(out@) =~= texts(before).push(id@));
        }
        i = i + 1;
    }
    assert(all.take(i as int) =~= all);
    out
}

/// The card that the lines at one place of an offer name. Where several cards fit, only a rating
/// can decide between them: no guess is made.
pub fn resolve_offer_ocr_slot(
    lines: &Vec<String>,
    cards: &CardCache,
    ratings: Option<&CompositeRatingProvider>,
    class: Option<HeroClass>,
) -> (r: Result<String, OfferTitleError>)
    requires
        cards.wf(),
    ensures
        exists|m: Seq<Seq<char>>| #[trigger]
            are_matches(m, cards.cards(), variants(texts(lines@))) && chosen(
                r,
                kept_matches(m, ratings, class),
            ),
{
    let mut matches = offer_matches(lines, cards);
    let ghost m = texts(matches@);
    assert(are_matches(m, cards.cards(), variants(texts(lines@))));
    if matches.len() > 1 {
        let rated = find_rated(&matches, ratings, class);
        assert(rated@.len() == texts(rated@).len());
        if rated.len() == 1 {
            matches = rated;
        }
    }
    let ghost kept = kept_matches(m, ratings, class);
    assert(texts(matches@) == kept);
    if matches.len() == 0 {
        assert(chosen(Err(OfferTitleError::NoMatch), kept));
        return Err(OfferTitleError::NoMatch);
    }
    if matches.len() > 1 {
        assert(chosen(Err(OfferTitleError::SeveralMatches), kept));
        return Err(OfferTitleError::SeveralMatches);
    }
    let id = text::copy(matches[0].as_str());
    assert(kept[0] == id@);
    assert(chosen(Ok(id), kept));
    Ok(id)
}

/// The time between two looks at the screen, in milliseconds.
pub const DRAFT_CAPTURE_INTERVAL_MILLIS: u64 = 800;

/// The time that has passed, in milliseconds.
pub open spec fn elapsed(since: u64, now: u64) -> nat {
    if now >= since {
        (now - since) as nat
    } else {
        0
    }
}

/// Whether it is time for another look.
pub open spec fn due(last: Option<u64>, now: u64, interval: u64) -> bool {
    match last {
        Some(last) => elapsed(last, now) >= interval,
        None => true,
    }
}

/// Whether it is time for another look.
pub fn is_due(last: Option<u64>, now: u64, interval: u64) -> (r: bool)
    ensures
        r == due(last, now, interval),
{
    match last {
        Some(last) => if now >= last {
            now - last >= interval
        } else {
            interval == 0
        },
        None => true,
    }
}

/// What the badges show.
#[derive(Clone, Copy, Debug, PartialEq, Eq, Structural)]
pub enum OfferDisplay {
    /// Nothing.
    Hidden,
    /// That the titles are being read.
    Scanning,
    /// That a reading is being confirmed.
    Confirming,
    /// The scores of the cards.
    Scores,
}

impl OfferDisplay {
    /// The heading and the small print while an offer is read.
    pub fn status_text(self) -> (r: Option<(&'static str, &'static str)>)
        ensures
            match self {
                OfferDisplay::Scanning => r matches Some(t) && t.0@ == "READING OFFER…"@ && t.1@
                    == "SCANNING CARD TITLES"@,
                OfferDisplay::Confirming => r matches Some(t) && t.0@ == "READING OFFER…"@ && t.1@
                    == "CONFIRMING MATCH"@,
                _ => r is None,
            },
    {
        match self {
            OfferDisplay::Scanning => Some(("READING OFFER…", "SCANNING CARD TITLES")),
            OfferDisplay::Confirming => Some(("READING OFFER…", "CONFIRMING MATCH")),
            OfferDisplay::Hidden | OfferDisplay::Scores => None,
        }
    }
}

/// The state of reading offers. What it shows of an offer never changes what the logs tell.
pub struct OfferOcrWorker {
    pub current_key: Option<DraftKey>,
    /// The cards of a reading that is not confirmed yet.
    pub pending: Option<Vec<String>>,
    pub display: OfferDisplay,
    /// Whether the window of the game is known.
    pub window_known: bool,
    pub confirmed: bool,
    pub last_capture_at: Option<u64>,
}

/// The model of the state of reading offers.
pub struct OcrModel {
    pub current_key: Option<KeyModel>,
    pub pending: Option<Seq<Seq<char>>>,
    pub display: OfferDisplay,
    pub window_known: bool,
    pub confirmed: bool,
    pub last_capture_at: Option<u64>,
}

impl View for OfferOcrWorker {
    type V = OcrModel;

    open spec fn view(&self) -> OcrModel {
        OcrModel {
            current_key: key_model(self.current_key),
            pending: match self.pending {
                Some(ids) => Some(texts(ids@)),
                None => None,
            },
            display: self.display,
            window_known: self.window_known,
            confirmed: self.confirmed,
            last_capture_at: self.last_capture_at,
        }
    }
}

/// The state before any offer.
pub open spec fn no_offer() -> OcrModel {
    OcrModel {
        current_key: None,
        pending: None,
        display: OfferDisplay::Hidden,
        window_known: false,
        confirmed: false,
        last_capture_at: None,
    }
}

/// What has to be done after an offer was looked for.
#[derive(Clone, Copy, Debug, PartialEq, Eq, Structural)]
pub enum OcrStep {
    /// Nothing: there is no offer to read.
    Idle,
    /// The offer is the one from before.
    Continue,
    /// The offer is a new one: the window of the game has to be looked for.
    FindWindow,
}

/// The state at a new offer, after the window was looked for.
pub open spec fn at_new_offer(key: KeyModel, window: bool) -> OcrModel {
    OcrModel {
        current_key: Some(key),
        pending: None,
        display: if window {
            OfferDisplay::Scanning
        } else {
            OfferDisplay::Hidden
        },
        window_known: window,
        confirmed: false,
        last_capture_at: None,
    }
}

/// The state after a reading.
pub open spec fn after_reading(s: OcrModel, ids: Option<Seq<Seq<char>>>) -> OcrModel {
    match ids {
        None => OcrModel {
            display: if s.window_known {
                OfferDisplay::Scanning
            } else {
                s.display
            },
            ..s
        },
        Some(ids) => if s.pending == Some(ids) {
            OcrModel {
                pending: None,
                display: OfferDisplay::Scores,
                window_known: true,
                confirmed: true,
                ..s
            }
        } else {
            OcrModel {
                pending: Some(ids),
                display: OfferDisplay::Confirming,
                window_known: true,
                ..s
            }
        },
    }
}

fn same_ids(a: &Vec<String>, b: &Vec<String>) -> (r: bool)
    ensures
        r == (texts(a@) == texts(b@)),
{
    if a.len() != b.len() {
        assert(texts(a@).len() != texts(b@).len());
        return false;
    }
    let mut i: usize = 0;
    while i < a.len()
        invariant
            i <= a.len(),
            a.len() == b.len(),
            forall|k: int| 0 <= k < i ==> texts(a@)[k] == texts(b@)[k],
        decreases a.len() - i,
    {
        if !text::str_eq(a[i].as_str(), b[i].as_str()) {
            assert(texts(a@)[i as int] != texts(b@)[i as int]);
            return false;
        }
        assert(texts(a@)[i as int] == texts(b@)[i as int]);
        i = i + 1;
    }
    assert(texts(a@) =~= texts(b@));
    true
}

impl OfferOcrWorker {
    /// The state before any offer.
    pub fn new() -> (r: OfferOcrWorker)
        ensures
            r@ == no_offer(),
    {
        OfferOcrWorker {
            current_key: None,
            pending: None,
            display: OfferDisplay::Hidden,
            window_known: false,
            confirmed: false,
            last_capture_at: None,
        }
    }

    /// Forgets the offer.
    pub fn reset(&mut self)
        ensures
            final(self)@ == no_offer(),
    {
        *self = OfferOcrWorker::new();
    }

    /// Looks whether there is an offer to read, and whether it is a new one.
    pub fn note_offer(&mut self, key: &Option<DraftKey>) -> (r: OcrStep)
        ensures
            match key_model(*key) {
                None => r == OcrStep::Idle && final(self)@ == no_offer(),
                Some(k) => final(self)@ == old(self)@ && r == if old(self)@.current_key == Some(k) {
                    OcrStep::Continue
                } else {
                    OcrStep::FindWindow
                },
            },
    {
        match key {
            None => {
                self.reset();
                OcrStep::Idle
            },
            Some(key) => {
                let same = match &self.current_key {
                    Some(current) => current.same_as(key),
                    None => false,
                };
                if same {
                    OcrStep::Continue
                } else {
                    OcrStep::FindWindow
                }
            },
        }
    }

    /// Begins with a new offer.
    pub fn begin_offer(&mut self, key: DraftKey, window_known: bool)
        ensures
            final(self)@ == at_new_offer(key@, window_known),
    {
        *self =
        OfferOcrWorker {
            current_key: Some(key),
            pending: None,
            display: if window_known {
                OfferDisplay::Scanning
            } else {
                OfferDisplay::Hidden
            },
            window_known,
            confirmed: false,
            last_capture_at: None,
        };
    }

    /// Whether the screen is to be read now. An offer that is confirmed is not read again.
    pub fn start_capture(&mut self, now: u64) -> (r: bool)
        ensures
            r == (!old(self)@.confirmed && due(
                old(self)@.last_capture_at,
                now,
                DRAFT_CAPTURE_INTERVAL_MILLIS,
            )),
            final(self)@ == (if r {
                OcrModel { last_capture_at: Some(now), ..old(self)@ }
            } else {
                old(self)@
            }),
    {
        if self.confirmed || !is_due(self.last_capture_at, now, DRAFT_CAPTURE_INTERVAL_MILLIS) {
            return false;
        }
        self.last_capture_at = Some(now);
        true
    }

    /// Takes a reading in; `None` where it failed. The cards are the offer's once two readings
    /// agree; the result says whether that is so.
    pub fn take_reading(&mut self, ids: Option<Vec<String>>) -> (r: bool)
        ensures
            final(self)@ == after_reading(
                old(self)@,
                match ids {
                    Some(ids) => Some(texts(ids@)),
                    None => None,
                },
            ),
            r == (ids matches Some(ids) && old(self)@.pending == Some(texts(ids@))),
    {
        match ids {
            None => {
                if self.window_known {
                    self.display = OfferDisplay::Scanning;
                }
                false
            },
            Some(ids) => {
                let same = match &self.pending {
                    Some(pending) => same_ids(pending, &ids),
                    None => false,
                };
                self.window_known = true;
                if same {
                    self.pending = None;
                    self.display = OfferDisplay::Scores;
                    self.confirmed = true;
                    true
                } else {
                    self.pending = Some(ids);
                    self.display = OfferDisplay::Confirming;
                    false
                }
            },
        }
    }

    /// Takes back an offer whose scores cannot be shown: it is read again.
    pub fn withdraw_scores(&mut self)
        ensures
            final(self)@ == (OcrModel {
                display: OfferDisplay::Hidden,
                confirmed: false,
                ..old(self)@
            }),
    {
        self.display = OfferDisplay::Hidden;
        self.confirmed = false;
    }
}

/// An offer counts only after two readings in a row that agree.
pub proof fn offers_need_two_readings(s: OcrModel, first: Option<Seq<Seq<char>>>, second: Option<Seq<Seq<char>>>)
    requires
        !s.confirmed,
        s.pending is None,
        after_reading(after_reading(s, first), second).confirmed,
    ensures
        first is Some,
        first == second,
{
}

} // verus!
