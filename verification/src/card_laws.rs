//! What cards resolve to, what is taken over of an imported card, and how names are compared.
use crate::card_data::{
    cards_near, collected, collectible, edit_distance, edit_distance_zero_is_equality,
    imported_card, last_usable, letter_or_number, ocr_char, ocr_name, usable, CardCache,
    CardCacheError, CardCacheInput, CardModel, HearthstoneJsonCard, ResolutionModel,
    CARD_CACHE_FORMAT_VERSION,
};
use crate::score_laws::{spelling_ignores_case, spells};
use crate::state::opt_text;
use crate::text::{is_space, occurs_at, texts, trim_end, trim_start, trimmed};
use vstd::prelude::*;

verus! {

/// Whether nothing but white space stands in a text.
pub open spec fn blank(s: Seq<char>) -> bool {
    forall|i: int| 0 <= i < s.len() ==> is_space(#[trigger] s[i])
}

/// Whether a text neither begins nor ends with white space.
pub open spec fn bare(s: Seq<char>) -> bool {
    s.len() > 0 ==> !is_space(s[0]) && !is_space(s.last())
}

proof fn start_is_blank(s: Seq<char>)
    ensures
        trim_start(s).len() <= s.len(),
        s == s.take(s.len() - trim_start(s).len()) + trim_start(s),
        blank(s.take(s.len() - trim_start(s).len())),
        trim_start(s).len() > 0 ==> !is_space(trim_start(s)[0]),
    decreases s.len(),
{
    let t = trim_start(s);
    if s.len() > 0 && is_space(s[0]) {
        let rest = s.drop_first();
        start_is_blank(rest);
        let head = s.take(s.len() - t.len());
        let less = rest.take(rest.len() - t.len());
        assert(head =~= seq![s[0]] + less);
        assert forall|i: int| 0 <= i < head.len() implies is_space(#[trigger] head[i]) by {
            if i > 0 {
                assert(head[i] == less[i - 1]);
            }
        }
        assert(s =~= seq![s[0]] + rest);
        assert(seq![s[0]] + (less + t) =~= head + t);
    } else {
        assert(s.take(0) + s =~= s);
    }
}

proof fn end_is_blank(s: Seq<char>)
    ensures
        trim_end(s).len() <= s.len(),
        s == trim_end(s) + s.skip(trim_end(s).len() as int),
        blank(s.skip(trim_end(s).len() as int)),
        trim_end(s).len() > 0 ==> !is_space(trim_end(s).last()) && trim_end(s)[0] == s[0],
    decreases s.len(),
{
    let t = trim_end(s);
    if s.len() > 0 && is_space(s.last()) {
        let rest = s.drop_last();
        end_is_blank(rest);
        let tail = s.skip(t.len() as int);
        let less = rest.skip(t.len() as int);
        assert(tail =~= less.push(s.last()));
        assert forall|i: int| 0 <= i < tail.len() implies is_space(#[trigger] tail[i]) by {
            if i < less.len() {
                assert(tail[i] == less[i]);
            }
        }
        assert(s =~= rest.push(s.last()));
        assert((t + less).push(s.last()) =~= t + tail);
    } else {
        assert(s + s.skip(s.len() as int) =~= s);
    }
}

/// Trimming takes white space from both ends, all of it, and nothing else.
pub proof fn trimming_takes_white_space_only(s: Seq<char>)
    ensures
        bare(trimmed(s)),
        exists|before: Seq<char>, after: Seq<char>|
            blank(before) && blank(after) && s == #[trigger] (before + trimmed(s) + after),
        blank(s) <==> trimmed(s).len() == 0,
{
    let t = trim_start(s);
    start_is_blank(s);
    end_is_blank(t);
    let before = s.take(s.len() - t.len());
    let after = t.skip(trimmed(s).len() as int);
    assert(s =~= before + trimmed(s) + after);
    if blank(s) {
        if trimmed(s).len() > 0 {
            assert(s[before.len() as int] == trimmed(s)[0]);
        }
    }
    if trimmed(s).len() == 0 {
        assert forall|i: int| 0 <= i < s.len() implies is_space(#[trigger] s[i]) by {
            if i < before.len() {
                assert(s[i] == before[i]);
            } else {
                assert(s[i] == after[i - before.len()]);
            }
        }
    }
}

/// Whether an id stands for a card that is not shown: a blank one, a zero, or the word for it.
pub open spec fn hidden_id(id: Seq<char>) -> bool {
    blank(id) || trimmed(id) == seq!['0'] || spells(trimmed(id), "UNKNOWN"@)
}

/// Whether an id stands for a hero or for the game.
pub open spec fn entity_id(id: Seq<char>) -> bool {
    occurs_at(trimmed(id), "HERO_"@, 0) || occurs_at(trimmed(id), "GAME_"@, 0)
}

/// Whether an id is made of at least three capitals, digits and underscores.
pub open spec fn well_written(id: Seq<char>) -> bool {
    let t = trimmed(id);
    t.len() > 2 && forall|i: int|
        0 <= i < t.len() ==> (#[trigger] t[i] == '_' || 'A' <= t[i] <= 'Z' || '0' <= t[i] <= '9')
}

/// What an id resolves to: nothing for a hidden one, an entity for a hero or the game, an error
/// for one that is badly written, and otherwise the card with that id, or the id where no such
/// card is known.
pub proof fn ids_resolve_to_their_card(cache: CardCache, id: Seq<char>)
    requires
        cache.wf(),
    ensures
        ({
            let r = cache.resolution(id);
            let plain = !hidden_id(id) && !entity_id(id) && well_written(id);
            &&& r is Unrevealed <==> hidden_id(id)
            &&& r == (ResolutionModel::NonCardEntity { entity_id: trimmed(id) }) <==> !hidden_id(id)
                && entity_id(id)
            &&& r == (ResolutionModel::InvalidCardId { card_id: trimmed(id) }) <==> !hidden_id(id)
                && !entity_id(id) && !well_written(id)
            &&& r matches ResolutionModel::Resolved { card } ==> plain && card.id == trimmed(id)
                && cache.cards().contains(card)
            &&& forall|i: int|
                plain && 0 <= i < cache.cards().len() && (#[trigger] cache.cards()[i]).id
                    == trimmed(id) ==> r == (ResolutionModel::Resolved { card: cache.cards()[i] })
            &&& r is MissingMetadata <==> plain && forall|i: int|
                0 <= i < cache.cards().len() ==> (#[trigger] cache.cards()[i]).id != trimmed(id)
            &&& r is MissingMetadata ==> r->MissingMetadata_card_id == trimmed(id)
        }),
{
    let t = trimmed(id);
    trimming_takes_white_space_only(id);
    reveal_strlit("UNKNOWN");
    reveal_strlit("0");
    reveal_strlit("HERO_");
    reveal_strlit("GAME_");
    spelling_ignores_case(t, "UNKNOWN"@);
    assert(crate::text::upper_ascii_text(t) == "0"@ <==> t == seq!['0']) by {
        let u = crate::text::upper_ascii_text(t);
        if u == "0"@ {
            assert(u.len() == t.len());
            assert(u[0] == '0');
            assert(t =~= seq!['0']);
        }
        if t == seq!['0'] {
            assert(u =~= "0"@);
        }
    }
    assert(crate::card_data::valid_card_id(t) <==> well_written(id));
    if cache.card(t) is Some {
        let i = choose|i: int|
            0 <= i < cache.cards().len() && #[trigger] cache.cards()[i].id == t;
        assert(cache.card(t) == Some(cache.cards()[i]));
    }
    assert forall|i: int|
        0 <= i < cache.cards().len() && (#[trigger] cache.cards()[i]).id == t implies cache.card(t)
        == Some(cache.cards()[i]) by {
        cache.card_at(i);
    }
}

/// An imported card keeps what the list says of it. Only a weapon has charges: those given as its
/// health, or else those given as its durability where that is not zero. The classes are those
/// that are listed, or else the one that is named.
pub proof fn imported_cards_keep_their_facts(card: HearthstoneJsonCard)
    ensures
        ({
            let m = imported_card(card);
            let weapon = card.card_type matches Some(kind) && spells(kind@, "WEAPON"@);
            &&& m.id == card.id@
            &&& m.name == card.name@
            &&& m.cost == card.cost
            &&& m.card_type == opt_text(card.card_type)
            &&& m.collectible == card.collectible
            &&& m.set == opt_text(card.set)
            &&& m.dbf_id == card.dbf_id
            &&& !weapon ==> m.durability is None
            &&& weapon && card.health is Some ==> m.durability == card.health
            &&& weapon && card.health is None && card.durability == Some(0u8) ==> m.durability is None
            &&& weapon && card.health is None && card.durability != Some(0u8) ==> m.durability
                == card.durability
            &&& card.classes@.len() > 0 ==> m.classes == texts(card.classes@)
            &&& card.classes@.len() == 0 && card.card_class is Some ==> m.classes.len() == 1
                && m.classes[0] == card.card_class->0@
            &&& card.classes@.len() == 0 && card.card_class is None ==> m.classes.len() == 0
        }),
{
    reveal_strlit("WEAPON");
    if card.card_type is Some {
        spelling_ignores_case(card.card_type->0@, "WEAPON"@);
    }
}

/// A collection of cards holds a card for exactly the ids that come with a name, each once, and
/// that card is the last such record with the id.
pub proof fn collections_hold_the_named_cards(cards: Seq<CardModel>, records: Seq<CardModel>)
    requires
        collected(cards, records),
    ensures
        forall|i: int|
            0 <= i < records.len() && !blank((#[trigger] records[i]).id) && !blank(records[i].name)
                ==> exists|k: int| 0 <= k < cards.len() && (#[trigger] cards[k]).id == records[i].id,
        forall|k: int|
            0 <= k < cards.len() ==> !blank((#[trigger] cards[k]).id) && !blank(cards[k].name)
                && records.contains(cards[k]),
        forall|k: int, m: int|
            0 <= k < m < cards.len() ==> (#[trigger] cards[k]).id != (#[trigger] cards[m]).id,
{
    assert forall|i: int|
        0 <= i < records.len() && !blank((#[trigger] records[i]).id) && !blank(
            records[i].name,
        ) implies exists|k: int|
        0 <= k < cards.len() && (#[trigger] cards[k]).id == records[i].id by {
        trimming_takes_white_space_only(records[i].id);
        trimming_takes_white_space_only(records[i].name);
        let last = last_named(records, i);
        assert(cards.contains(records[last]));
        let k = choose|k: int| 0 <= k < cards.len() && cards[k] == records[last];
        assert(cards[k].id == records[i].id);
    }
    assert forall|k: int| 0 <= k < cards.len() implies !blank((#[trigger] cards[k]).id) && !blank(
        cards[k].name,
    ) && records.contains(cards[k]) by {
        assert(cards.contains(cards[k]));
        let i = choose|i: int| #[trigger] last_usable(records, i) && records[i] == cards[k];
        trimming_takes_white_space_only(records[i].id);
        trimming_takes_white_space_only(records[i].name);
    }
    let ids = cards.map_values(|c: CardModel| c.id);
    assert forall|k: int, m: int| 0 <= k < m < cards.len() implies (#[trigger] cards[k]).id != (
    #[trigger] cards[m]).id by {
        if cards[k].id == cards[m].id {
            assert(ids[k] == ids[m]);
            crate::text_map::sorted_texts_are_distinct(ids, k, m);
        }
    }
}

proof fn last_named(records: Seq<CardModel>, i: int) -> (last: int)
    requires
        0 <= i < records.len(),
        usable(records[i]),
    ensures
        last_usable(records, last),
        records[last].id == records[i].id,
    decreases records.len() - i,
{
    if last_usable(records, i) {
        i
    } else {
        let j = choose|j: int|
            i < j < records.len() && #[trigger] usable(records[j]) && records[j].id
                == records[i].id;
        last_named(records, j)
    }
}

/// The cards near a name are the collectible ones whose name is at most so many edits away, with
/// the number of edits.
pub proof fn near_names_are_within_reach(cards: Seq<CardModel>, name: Seq<char>, maximum: nat)
    ensures
        forall|k: int|
            0 <= k < cards_near(cards, name, maximum).len() ==> {
                let found = #[trigger] cards_near(cards, name, maximum)[k];
                &&& cards.contains(found.0)
                &&& found.0.collectible == Some(true)
                &&& found.1 == edit_distance(name, ocr_name(found.0.name))
                &&& found.1 <= maximum
            },
        forall|i: int|
            0 <= i < cards.len() && (#[trigger] cards[i]).collectible == Some(true) && edit_distance(
                name,
                ocr_name(cards[i].name),
            ) <= maximum ==> cards_near(cards, name, maximum).contains(
                (cards[i], edit_distance(name, ocr_name(cards[i].name))),
            ),
    decreases cards.len(),
{
    let all = cards_near(cards, name, maximum);
    if cards.len() > 0 {
        let rest = cards.drop_last();
        let before = cards_near(rest, name, maximum);
        near_names_are_within_reach(rest, name, maximum);
        assert forall|k: int| 0 <= k < all.len() implies {
            let found = #[trigger] all[k];
            &&& cards.contains(found.0)
            &&& found.0.collectible == Some(true)
            &&& found.1 == edit_distance(name, ocr_name(found.0.name))
            &&& found.1 <= maximum
        } by {
            if k < before.len() {
                assert(all[k] == before[k]);
                let i = choose|i: int| 0 <= i < rest.len() && rest[i] == before[k].0;
                assert(cards[i] == before[k].0);
            } else {
                assert(cards[cards.len() - 1] == all[k].0);
            }
        }
        assert forall|i: int|
            0 <= i < cards.len() && (#[trigger] cards[i]).collectible == Some(true)
                && edit_distance(name, ocr_name(cards[i].name)) <= maximum implies all.contains(
            (cards[i], edit_distance(name, ocr_name(cards[i].name))),
        ) by {
            let wanted = (cards[i], edit_distance(name, ocr_name(cards[i].name)));
            if i < rest.len() {
                assert(rest[i] == cards[i]);
                let k = choose|k: int| 0 <= k < before.len() && before[k] == wanted;
                assert(all[k] == wanted);
            } else {
                assert(all[all.len() - 1] == wanted);
            }
        }
    }
}

/// One edit: a character is put in, taken out or changed at the end of one text.
pub proof fn one_edit_is_one_step(a: Seq<char>, b: Seq<char>, c: char, d: char)
    ensures
        edit_distance(a.push(c), b) <= edit_distance(a, b) + 1,
        edit_distance(a, b.push(c)) <= edit_distance(a, b) + 1,
        edit_distance(a.push(c), b.push(d)) <= edit_distance(a, b) + 1,
        edit_distance(a.push(c), b.push(c)) <= edit_distance(a, b),
        c != d ==> edit_distance(a.push(c), a.push(d)) == 1,
        edit_distance(a.push(c), a) == 1,
        edit_distance(a, a.push(c)) == 1,
{
    assert(a.push(c).drop_last() =~= a);
    assert(b.push(c).drop_last() =~= b);
    assert(b.push(d).drop_last() =~= b);
    assert(a.push(d).drop_last() =~= a);
    edit_distance_zero_is_equality(a, a);
    edit_distance_zero_is_equality(a.push(c), a.push(d));
    edit_distance_zero_is_equality(a.push(c), a);
    edit_distance_zero_is_equality(a, a.push(c));
    if a.push(c) == a.push(d) {
        assert(a.push(c).last() == a.push(d).last());
    }
    if a.push(c) == a {
        assert(a.push(c).len() == a.len());
    }
    if a.len() == 0 {
        assert(edit_distance(a, b) == b.len());
    }
    if b.len() == 0 {
        assert(edit_distance(a, b) == a.len());
    }
}

/// A catalog keeps where its cards come from: what its file says, and for a bare list that it was
/// imported from one. A file of another version is refused.
pub proof fn catalogs_keep_their_origin(
    input: CardCacheInput,
    r: Result<CardCache, CardCacheError>,
)
    requires
        call_ensures(CardCache::from_input, (input,), r),
    ensures
        match input {
            CardCacheInput::Cache(file) => {
                &&& r is Ok <==> file.format_version == CARD_CACHE_FORMAT_VERSION
                &&& r matches Ok(c) ==> c.source@ == file.source@ && c.data_version@
                    == file.data_version@ && c.updated_at == Some(file.updated_at)
            },
            CardCacheInput::RawCards(_) => {
                &&& r matches Ok(c)
                &&& c.source@ == "raw-json-import"@
                &&& c.data_version@ == "unknown"@
                &&& c.updated_at is None
            },
        },
{
}

/// Names that were read off the screen are compared by their letters and numbers: an apostrophe
/// counts however it is written, a dash counts as white space, and other marks do not count.
pub proof fn marks_hardly_count(c: char)
    ensures
        letter_or_number(c) && (c as u32) < 128 && c != '`' ==> ocr_char(c) == Some(c),
        c == '\'' || c == '`' || c == '\u{2018}' || c == '\u{2019}' || c == '\u{02bc}' ==> ocr_char(c)
            == Some('\''),
        c == '-' ==> ocr_char(c) == Some(' '),
        c == ' ' || c == '\t' ==> ocr_char(c) == Some(' '),
        c == '.' || c == ',' || c == '!' || c == ':' || c == '(' || c == ')' ==> ocr_char(c) is None,
{
}

} // verus!
