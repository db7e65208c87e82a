//! Which facts about cards are taken, and how their tags are written.
use crate::analysis::{
    card_fault, file_fault, holds_tags, normal_tag, tag_fault, tags_fault, AnalysisFactCard,
    AnalysisFacts, AnalysisFactsFile, FactsError, FactsFault,
};
use crate::card_laws::{blank, trimming_takes_white_space_only};
use crate::setup_laws::{names_are_compared_without_case, same_name};
use crate::text::{occurs_at, texts, trimmed};
use vstd::prelude::*;

verus! {

/// Whether a category is written in small letters, digits, underscores and hyphens.
pub open spec fn well_written(category: Seq<char>) -> bool {
    category.len() > 0 && forall|i: int|
        0 <= i < category.len() ==> (#[trigger] category[i] == '-' || category[i] == '_' || 'a'
            <= category[i] <= 'z' || '0' <= category[i] <= '9')
}

/// A tag is taken without regard to letter case and to the white space around it. It is refused
/// where it is blank, or names a synergy or a requirement that is badly written; every other tag
/// is taken.
pub proof fn tags_are_taken_where_they_are_well_written(tag: Seq<char>, other: Seq<char>)
    ensures
        normal_tag(tag) == normal_tag(other) <==> same_name(tag, other),
        tag_fault(tag) == Some(FactsFault::EmptyTag) <==> blank(tag),
        tag_fault(tag) is None <==> !blank(tag) && {
            let t = normal_tag(tag);
            &&& occurs_at(t, "synergy:"@, 0) ==> well_written(t.skip(8))
            &&& occurs_at(t, "requires:"@, 0) ==> well_written(t.skip(9))
        },
        tag_fault(tag) is Some && !blank(tag) ==> tag_fault(tag) == Some(
            FactsFault::InvalidCategory { tag },
        ),
{
    names_are_compared_without_case(tag, other);
    reveal_strlit("synergy:");
    reveal_strlit("requires:");
    let t = normal_tag(tag);
    if occurs_at(t, "synergy:"@, 0) {
        assert(t.subrange(0, 8)[0] == 's');
        if occurs_at(t, "requires:"@, 0) {
            assert(t.subrange(0, 9)[0] == 'r');
        }
    }
    assert("synergy:"@.len() == 8 && "requires:"@.len() == 9);
}

proof fn faultless_tags(tags: Seq<Seq<char>>)
    ensures
        tags_fault(tags) is None <==> forall|i: int|
            0 <= i < tags.len() ==> tag_fault(#[trigger] tags[i]) is None,
    decreases tags.len(),
{
    if tags.len() > 0 {
        let rest = tags.drop_first();
        faultless_tags(rest);
        if tags_fault(tags) is None {
            assert forall|i: int| 0 <= i < tags.len() implies tag_fault(#[trigger] tags[i]) is None by {
                if i > 0 {
                    assert(rest[i - 1] == tags[i]);
                }
            }
        }
        if forall|i: int| 0 <= i < tags.len() ==> tag_fault(#[trigger] tags[i]) is None {
            assert forall|i: int| 0 <= i < rest.len() implies tag_fault(#[trigger] rest[i]) is None by {
                assert(rest[i] == tags[i + 1]);
            }
            assert(tag_fault(tags[0]) is None);
        }
    }
}

/// The facts about a card are taken exactly where it has an id that no card before it has, and all
/// its tags are taken; a file exactly where it is of the first format and names its source and
/// version.
pub proof fn facts_are_taken_where_they_are_sound(
    cards: Seq<AnalysisFactCard>,
    i: int,
    file: AnalysisFactsFile,
)
    requires
        0 <= i < cards.len(),
    ensures
        card_fault(cards, i) is None <==> {
            &&& !blank(cards[i].card_id@)
            &&& forall|k: int|
                0 <= k < cards[i].tags@.len() ==> tag_fault((#[trigger] cards[i].tags@[k])@) is None
            &&& forall|j: int|
                0 <= j < i ==> trimmed((#[trigger] cards[j]).card_id@) != trimmed(cards[i].card_id@)
        },
        card_fault(cards, i) == Some(FactsFault::EmptyCardId) <==> blank(cards[i].card_id@),
        file_fault(file) is None <==> file.schema_version == 1 && !blank(file.source@) && !blank(
            file.data_version@,
        ),
        file_fault(file) == Some(FactsFault::EmptySource) <==> file.schema_version == 1 && blank(
            file.source@,
        ),
        file_fault(file) == Some(FactsFault::EmptyDataVersion) <==> file.schema_version == 1
            && !blank(file.source@) && blank(file.data_version@),
{
    trimming_takes_white_space_only(cards[i].card_id@);
    trimming_takes_white_space_only(file.source@);
    trimming_takes_white_space_only(file.data_version@);
    let tags = texts(cards[i].tags@);
    faultless_tags(tags);
    assert forall|k: int| 0 <= k < tags.len() implies #[trigger] tags[k] == cards[i].tags@[k]@ by {}
    if tags_fault(tags) is None {
        assert forall|k: int| 0 <= k < cards[i].tags@.len() implies tag_fault(
            (#[trigger] cards[i].tags@[k])@,
        ) is None by {
            assert(tag_fault(tags[k]) is None);
        }
    }
    if forall|k: int|
        0 <= k < cards[i].tags@.len() ==> tag_fault((#[trigger] cards[i].tags@[k])@) is None {
        assert forall|k: int| 0 <= k < tags.len() implies tag_fault(#[trigger] tags[k]) is None by {
            assert(tags[k] == cards[i].tags@[k]@);
        }
    }
    if tags_fault(tags) is Some {
        fault_of_some_tag(tags);
    }
}

proof fn fault_of_some_tag(tags: Seq<Seq<char>>)
    requires
        tags_fault(tags) is Some,
    ensures
        tags_fault(tags)->0 is EmptyTag || tags_fault(tags)->0 is InvalidCategory,
    decreases tags.len(),
{
    if tag_fault(tags[0]) is None {
        fault_of_some_tag(tags.drop_first());
    }
}

/// The facts that are taken from a file are those of its cards: a card has exactly the tags that are
/// listed for it, as they are compared, and no other card has any.
pub proof fn facts_are_those_of_the_file(file: AnalysisFactsFile, facts: AnalysisFacts, i: int)
    requires
        call_ensures(AnalysisFacts::from_file, (file,), Ok::<AnalysisFacts, FactsError>(facts)),
        0 <= i < file.cards@.len(),
    ensures
        ({
            let card = file.cards@[i];
            let id = trimmed(card.card_id@);
            &&& facts.by_id.has(id)
            &&& forall|j: int|
                0 <= j < card.tags@.len() ==> facts.by_id.at(id).has(
                    normal_tag((#[trigger] card.tags@[j])@),
                )
            &&& forall|t: Seq<char>| #[trigger]
                facts.by_id.at(id).has(t) ==> exists|j: int|
                    0 <= j < card.tags@.len() && normal_tag((#[trigger] card.tags@[j])@) == t
        }),
        facts.source@ == file.source@,
        facts.data_version@ == file.data_version@,
        forall|id: Seq<char>| #[trigger]
            facts.by_id.has(id) ==> exists|k: int|
                0 <= k < file.cards@.len() && trimmed((#[trigger] file.cards@[k]).card_id@) == id,
{
    let card = file.cards@[i];
    let id = trimmed(card.card_id@);
    let tags = texts(card.tags@);
    assert(holds_tags(facts.by_id.at(id), tags));
    assert forall|j: int| 0 <= j < card.tags@.len() implies facts.by_id.at(id).has(
        normal_tag((#[trigger] card.tags@[j])@),
    ) by {
        assert(normal_tag(tags[j]) == normal_tag(card.tags@[j]@));
    }
    assert forall|t: Seq<char>| #[trigger] facts.by_id.at(id).has(t) implies exists|j: int|
        0 <= j < card.tags@.len() && normal_tag((#[trigger] card.tags@[j])@) == t by {
        let j = choose|j: int| 0 <= j < tags.len() && normal_tag(#[trigger] tags[j]) == t;
        assert(normal_tag(card.tags@[j]@) == t);
    }
}

} // verus!
