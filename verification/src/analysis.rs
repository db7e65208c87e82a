//! Deterministic analysis of a deck and of offered cards.
//!
//! Only explicit metadata and verified facts count. What is missing stays visible as
//! uncertainty; nothing is inferred from names.

use vstd::prelude::*;

use crate::text;
use crate::text::{chars_of, decimal, lower_ascii_text, occurs_at, string_of, texts, trimmed};
use crate::text_map::{TextMap, TextSet};

verus! {

/// The version of deck profiles.
pub const ANALYSIS_SCHEMA_VERSION: u32 = 1;

/// The version of facts files.
pub const ANALYSIS_FACTS_SCHEMA_VERSION: u32 = 1;

/// The features that are counted for every deck.
pub const FEATURE_TAGS: [&'static str; 10] = [
    "removal",
    "board_clear",
    "card_draw",
    "discover",
    "generation",
    "reach",
    "taunt",
    "stabilization",
    "token",
    "deathrattle",
];

/// Whether a tag names one of the counted features.
pub open spec fn is_feature(tag: Seq<char>) -> bool {
    exists|i: int| 0 <= i < 10 && (#[trigger] FEATURE_TAGS@[i])@ == tag
}

/// Whether a tag names one of the counted features.
pub fn is_feature_tag(tag: &str) -> (r: bool)
    ensures
        r == is_feature(tag@),
{
    let mut i: usize = 0;
    while i < 10
        invariant
            i <= 10,
            forall|j: int| 0 <= j < i ==> (#[trigger] FEATURE_TAGS@[j])@ != tag@,
        decreases 10 - i,
    {
        if text::str_eq(FEATURE_TAGS[i], tag) {
            return true;
        }
        i = i + 1;
    }
    false
}

/// A facts file after it was read.
#[derive(Debug)]
pub struct AnalysisFactsFile {
    pub schema_version: u32,
    pub source: String,
    pub data_version: String,
    pub cards: Vec<AnalysisFactCard>,
}

/// The facts about one card, as a file gives them.
#[derive(Debug)]
pub struct AnalysisFactCard {
    pub card_id: String,
    pub tags: Vec<String>,
}

/// Why a facts file was refused.
#[derive(Debug, PartialEq, Eq)]
pub enum FactsError {
    UnsupportedSchema { found: u32 },
    EmptySource,
    EmptyDataVersion,
    EmptyCardId,
    EmptyTag,
    InvalidCategory { tag: String },
    DuplicateCardId { card_id: String },
}

/// Why a facts file was refused, over texts.
pub enum FactsFault {
    UnsupportedSchema { found: u32 },
    EmptySource,
    EmptyDataVersion,
    EmptyCardId,
    EmptyTag,
    InvalidCategory { tag: Seq<char> },
    DuplicateCardId { card_id: Seq<char> },
}

impl View for FactsError {
    type V = FactsFault;

    open spec fn view(&self) -> FactsFault {
        match *self {
            FactsError::UnsupportedSchema { found } => FactsFault::UnsupportedSchema { found },
            FactsError::EmptySource => FactsFault::EmptySource,
            FactsError::EmptyDataVersion => FactsFault::EmptyDataVersion,
            FactsError::EmptyCardId => FactsFault::EmptyCardId,
            FactsError::EmptyTag => FactsFault::EmptyTag,
            FactsError::InvalidCategory { tag } => FactsFault::InvalidCategory { tag: tag@ },
            FactsError::DuplicateCardId { card_id } => FactsFault::DuplicateCardId {
                card_id: card_id@,
            },
        }
    }
}

impl FactsError {
    /// The refusal in words.
    pub fn message(&self) -> (r: String)
        ensures
            r@ == (match self@ {
                FactsFault::UnsupportedSchema { found } =>
                    "unsupported analysis facts schemaVersion "@ + decimal(found as nat)
                        + "; expected "@ + decimal(ANALYSIS_FACTS_SCHEMA_VERSION as nat),
                FactsFault::EmptySource => "analysis facts source must not be empty"@,
                FactsFault::EmptyDataVersion => "analysis facts dataVersion must not be empty"@,
                FactsFault::EmptyCardId => "analysis facts contains an empty cardId"@,
                FactsFault::EmptyTag => "analysis facts contains an empty tag"@,
                FactsFault::InvalidCategory { tag } => "analysis facts tag `"@ + tag
                    + "` has an invalid category"@,
                FactsFault::DuplicateCardId { card_id } =>
                    "analysis facts contains duplicate cardId `"@ + card_id + "`"@,
            }),
    {
        let mut out = String::new();
        match self {
            FactsError::UnsupportedSchema { found } => {
                out.append("unsupported analysis facts schemaVersion ");
                text::push_decimal(&mut out, *found as u64);
                out.append("; expected ");
                text::push_decimal(&mut out, ANALYSIS_FACTS_SCHEMA_VERSION as u64);
                assert(out@ =~= "unsupported analysis facts schemaVersion "@ + decimal(
                    *found as nat,
                ) + "; expected "@ + decimal(ANALYSIS_FACTS_SCHEMA_VERSION as nat));
            },
            FactsError::EmptySource => {
                return text::copy("analysis facts source must not be empty");
            },
            FactsError::EmptyDataVersion => {
                return text::copy("analysis facts dataVersion must not be empty");
            },
            FactsError::EmptyCardId => {
                return text::copy("analysis facts contains an empty cardId");
            },
            FactsError::EmptyTag => {
                return text::copy("analysis facts contains an empty tag");
            },
            FactsError::InvalidCategory { tag } => {
                out.append("analysis facts tag `");
                out.append(tag.as_str());
                out.append("` has an invalid category");
                assert(out@ =~= "analysis facts tag `"@ + tag@ + "` has an invalid category"@);
            },
            FactsError::DuplicateCardId { card_id } => {
                out.append("analysis facts contains duplicate cardId `");
                out.append(card_id.as_str());
                out.append("`");
                assert(out@ =~= "analysis facts contains duplicate cardId `"@ + card_id@ + "`"@);
            },
        }
        out
    }
}

/// Whether a character may stand in the category of a tag.
pub open spec fn category_char(c: char) -> bool {
    ('a' <= c <= 'z') || ('0' <= c <= '9') || c == '_' || c == '-'
}

/// Whether a category is a name.
pub open spec fn valid_category(s: Seq<char>) -> bool {
    s.len() > 0 && forall|i: int| 0 <= i < s.len() ==> category_char(#[trigger] s[i])
}

/// The form in which a tag is kept: trimmed, in lower case.
pub open spec fn normal_tag(tag: Seq<char>) -> Seq<char> {
    lower_ascii_text(trimmed(tag))
}

/// The category that a tag carries.
pub open spec fn tag_category(tag: Seq<char>) -> Option<Seq<char>> {
    if occurs_at(tag, "synergy:"@, 0) {
        Some(tag.skip("synergy:"@.len() as int))
    } else if occurs_at(tag, "requires:"@, 0) {
        Some(tag.skip("requires:"@.len() as int))
    } else {
        None
    }
}

/// What is wrong with a tag.
pub open spec fn tag_fault(tag: Seq<char>) -> Option<FactsFault> {
    if normal_tag(tag).len() == 0 {
        Some(FactsFault::EmptyTag)
    } else {
        match tag_category(normal_tag(tag)) {
            Some(category) => if valid_category(category) {
                None
            } else {
                Some(FactsFault::InvalidCategory { tag })
            },
            None => None,
        }
    }
}

fn is_valid_category(s: &str) -> (r: bool)
    ensures
        r == valid_category(s@),
{
    let chars = chars_of(s);
    if chars.len() == 0 {
        return false;
    }
    let mut i: usize = 0;
    while i < chars.len()
        invariant
            i <= chars.len(),
            chars@ == s@,
            forall|j: int| 0 <= j < i ==> category_char(#[trigger] s@[j]),
        decreases chars.len() - i,
    {
        let c = chars[i];
        if !(('a' <= c && c <= 'z') || ('0' <= c && c <= '9') || c == '_' || c == '-') {
            assert(!category_char(s@[i as int]));
            return false;
        }
        i = i + 1;
    }
    true
}

/// Brings a tag into the form in which it is kept.
pub fn normalize_fact_tag(value: &str) -> (r: Result<String, FactsError>)
    ensures
        match r {
            Ok(tag) => tag_fault(value@) is None && tag@ == normal_tag(value@),
            Err(e) => tag_fault(value@) == Some(e@),
        },
{
    let chars = chars_of(value);
    let lower = text::to_lower_ascii_chars(text::trim_chars(chars.as_slice()));
    let normalized = string_of(lower.as_slice());
    if lower.len() == 0 {
        return Err(FactsError::EmptyTag);
    }
    let category = match text::strip_prefix(normalized.as_str(), "synergy:") {
        Some(c) => Some(c),
        None => text::strip_prefix(normalized.as_str(), "requires:"),
    };
    match category {
        Some(c) => {
            if !is_valid_category(c.as_str()) {
                return Err(FactsError::InvalidCategory { tag: text::copy(value) });
            }
        },
        None => {},
    }
    Ok(normalized)
}

/// Verified facts by card id.
#[derive(Debug)]
pub struct AnalysisFacts {
    /// The tags by card id.
    pub by_id: TextMap<TextSet>,
    pub source: String,
    pub data_version: String,
}

/// What is wrong with the first tag that has a fault.
pub open spec fn tags_fault(tags: Seq<Seq<char>>) -> Option<FactsFault>
    decreases tags.len(),
{
    if tags.len() == 0 {
        None
    } else if tag_fault(tags[0]) is Some {
        tag_fault(tags[0])
    } else {
        tags_fault(tags.drop_first())
    }
}

/// What is wrong with a card of a facts file, given the cards before it.
pub open spec fn card_fault(cards: Seq<AnalysisFactCard>, i: int) -> Option<FactsFault> {
    let id = trimmed(cards[i].card_id@);
    if id.len() == 0 {
        Some(FactsFault::EmptyCardId)
    } else if tags_fault(texts(cards[i].tags@)) is Some {
        tags_fault(texts(cards[i].tags@))
    } else if exists|j: int| 0 <= j < i && trimmed((#[trigger] cards[j]).card_id@) == id {
        Some(FactsFault::DuplicateCardId { card_id: id })
    } else {
        None
    }
}

/// What is wrong with a facts file.
pub open spec fn file_fault(file: AnalysisFactsFile) -> Option<FactsFault> {
    if file.schema_version != ANALYSIS_FACTS_SCHEMA_VERSION {
        Some(FactsFault::UnsupportedSchema { found: file.schema_version })
    } else if trimmed(file.source@).len() == 0 {
        Some(FactsFault::EmptySource)
    } else if trimmed(file.data_version@).len() == 0 {
        Some(FactsFault::EmptyDataVersion)
    } else {
        None
    }
}

/// Whether a set holds the kept forms of the given tags.
pub open spec fn holds_tags(set: TextSet, tags: Seq<Seq<char>>) -> bool {
    &&& set.wf()
    &&& forall|t: Seq<char>| #[trigger]
        set.has(t) <==> exists|j: int| 0 <= j < tags.len() && normal_tag(#[trigger] tags[j]) == t
}

fn collect_tags(tags: &Vec<String>) -> (r: Result<TextSet, FactsError>)
    ensures
        match r {
            Ok(set) => tags_fault(texts(tags@)) is None && holds_tags(set, texts(tags@)),
            Err(e) => tags_fault(texts(tags@)) == Some(e@),
        },
{
    let ghost all = texts(tags@);
    let mut set = TextSet::new();
    let mut i: usize = 0;
    assert(all.skip(0) =~= all);
    while i < tags.len()
        invariant
            i <= tags.len(),
            all == texts(tags@),
            tags_fault(all) == tags_fault(all.skip(i as int)),
            set.wf(),
            forall|t: Seq<char>| #[trigger]
                set.has(t) <==> exists|j: int|
                    0 <= j < i && normal_tag(#[trigger] all[j]) == t,
        decreases tags.len() - i,
    {
        assert(all.skip(i as int)[0] == all[i as int]);
        assert(all.skip(i as int).drop_first() =~= all.skip(i + 1));
        match normalize_fact_tag(tags[i].as_str()) {
            Err(e) => return Err(e),
            Ok(tag) => {
                let ghost before = set;
                set.insert(tag);
                assert forall|t: Seq<char>| #[trigger] set.has(t) <==> exists|j: int|
                    0 <= j < i + 1 && normal_tag(#[trigger] all[j]) == t by {
                    if set.has(t) {
                        if before.has(t) {
                            let j = choose|j: int|
                                0 <= j < i && normal_tag(#[trigger] all[j]) == t;
                            assert(normal_tag(all[j]) == t);
                        } else {
                            assert(normal_tag(all[i as int]) == t);
                        }
                    }
                }
            },
        }
        i = i + 1;
    }
    Ok(set)
}

impl AnalysisFacts {
    /// Every record holds a set of tags.
    pub open spec fn wf(&self) -> bool {
        &&& self.by_id.wf()
        &&& forall|id: Seq<char>| #[trigger] self.by_id.has(id) ==> self.by_id.at(id).wf()
    }

    /// The tags of a card that has a record, in their order.
    pub open spec fn record(&self, id: Seq<char>) -> Option<Seq<Seq<char>>> {
        if self.by_id.has(id) {
            Some(self.by_id.at(id).elems())
        } else {
            None
        }
    }

    /// The tags of a card, in their order; none where it has no record.
    pub open spec fn tags_of(&self, id: Seq<char>) -> Seq<Seq<char>> {
        match self.record(id) {
            Some(tags) => tags,
            None => Seq::empty(),
        }
    }

    /// No facts at all.
    pub fn empty() -> (r: Self)
        ensures
            r.wf(),
            forall|id: Seq<char>| #[trigger] r.record(id) is None,
            r.by_id.keys().len() == 0,
            r.source@ == Seq::<char>::empty(),
            r.data_version@ == Seq::<char>::empty(),
    {
        AnalysisFacts { by_id: TextMap::new(), source: String::new(), data_version: String::new() }
    }

    /// Takes the facts of a file that was read, or refuses it for its first fault.
    pub fn from_file(file: AnalysisFactsFile) -> (r: Result<Self, FactsError>)
        ensures
            match r {
                Err(e) => if file_fault(file) is Some {
                    file_fault(file) == Some(e@)
                } else {
                    exists|i: int|
                        {
                            &&& 0 <= i < file.cards@.len()
                            &&& #[trigger] card_fault(file.cards@, i) == Some(e@)
                            &&& forall|j: int|
                                0 <= j < i ==> #[trigger] card_fault(file.cards@, j) is None
                        }
                },
                Ok(facts) => {
                    &&& file_fault(file) is None
                    &&& forall|i: int|
                        0 <= i < file.cards@.len() ==> #[trigger] card_fault(
                            file.cards@,
                            i,
                        ) is None
                    &&& facts.wf()
                    &&& facts.source@ == file.source@
                    &&& facts.data_version@ == file.data_version@
                    &&& forall|i: int|
                        0 <= i < file.cards@.len() ==> facts.by_id.has(
                            trimmed((#[trigger] file.cards@[i]).card_id@),
                        ) && holds_tags(
                            facts.by_id.at(trimmed(file.cards@[i].card_id@)),
                            texts(file.cards@[i].tags@),
                        )
                    &&& forall|id: Seq<char>| #[trigger]
                        facts.by_id.has(id) ==> exists|i: int|
                            0 <= i < file.cards@.len() && trimmed(
                                (#[trigger] file.cards@[i]).card_id@,
                            ) == id
                },
            },
    {
        if file.schema_version != ANALYSIS_FACTS_SCHEMA_VERSION {
            return Err(FactsError::UnsupportedSchema { found: file.schema_version });
        }
        if text::is_blank(file.source.as_str()) {
            return Err(FactsError::EmptySource);
        }
        if text::is_blank(file.data_version.as_str()) {
            return Err(FactsError::EmptyDataVersion);
        }
        let mut by_id: TextMap<TextSet> = TextMap::new();
        let cards = &file.cards;
        let mut i: usize = 0;
        while i < cards.len()
            invariant
                i <= cards.len(),
                *cards == file.cards,
                file_fault(file) is None,
                by_id.wf(),
                forall|j: int| 0 <= j < i ==> #[trigger] card_fault(cards@, j) is None,
                forall|j: int|
                    0 <= j < i ==> by_id.has(trimmed((#[trigger] cards@[j]).card_id@))
                        && holds_tags(
                        by_id.at(trimmed(cards@[j].card_id@)),
                        texts(cards@[j].tags@),
                    ),
                forall|id: Seq<char>| #[trigger]
                    by_id.has(id) ==> exists|j: int|
                        0 <= j < i && trimmed((#[trigger] cards@[j]).card_id@) == id,
            decreases cards.len() - i,
        {
            let card_id = text::trim(cards[i].card_id.as_str());
            if card_id.as_str().is_empty() {
                assert(card_fault(cards@, i as int) == Some(FactsFault::EmptyCardId));
                return Err(FactsError::EmptyCardId);
            }
            match collect_tags(&cards[i].tags) {
                Err(e) => {
                    assert(card_fault(cards@, i as int) == Some(e@));
                    return Err(e);
                },
                Ok(tags) => {
                    if by_id.contains(card_id.as_str()) {
                        let ghost id = card_id@;
                        assert(exists|j: int|
                            0 <= j < i && trimmed((#[trigger] cards@[j]).card_id@) == id);
                        assert(card_fault(cards@, i as int) == Some(
                            FactsFault::DuplicateCardId { card_id: id },
                        ));
                        return Err(FactsError::DuplicateCardId { card_id });
                    }
                    let ghost before = by_id;
                    let ghost id = card_id@;
                    by_id.insert(card_id, tags);
                    proof {
                        assert(card_fault(cards@, i as int) is None) by {
                            if exists|j: int|
                                0 <= j < i && trimmed((#[trigger] cards@[j]).card_id@) == id {
                                let j = choose|j: int|
                                    0 <= j < i && trimmed((#[trigger] cards@[j]).card_id@) == id;
                                assert(before.has(trimmed(cards@[j].card_id@)));
                            }
                        }
                        assert forall|j: int| 0 <= j < i + 1 implies by_id.has(
                            trimmed((#[trigger] cards@[j]).card_id@),
                        ) && holds_tags(
                            by_id.at(trimmed(cards@[j].card_id@)),
                            texts(cards@[j].tags@),
                        ) by {
                            if j < i {
                                assert(before.has(trimmed(cards@[j].card_id@)));
                                assert(trimmed(cards@[j].card_id@) != id);
                            }
                        }
                        assert forall|k: Seq<char>| #[trigger] by_id.has(k) implies exists|j: int|
                            0 <= j < i + 1 && trimmed((#[trigger] cards@[j]).card_id@) == k by {
                            if k == id {
                                assert(trimmed(cards@[i as int].card_id@) == k);
                            } else {
                                assert(before.has(k));
                                let j = choose|j: int|
                                    0 <= j < i && trimmed((#[trigger] cards@[j]).card_id@) == k;
                                assert(trimmed(cards@[j].card_id@) == k);
                            }
                        }
                    }
                },
            }
            i = i + 1;
        }
        let facts = AnalysisFacts {
            by_id,
            source: file.source.clone(),
            data_version: file.data_version.clone(),
        };
        assert(facts.wf()) by {
            assert forall|id: Seq<char>| #[trigger] facts.by_id.has(id) implies facts.by_id.at(
                id,
            ).wf() by {
                let j = choose|j: int|
                    0 <= j < cards@.len() && trimmed((#[trigger] cards@[j]).card_id@) == id;
                assert(by_id.has(trimmed(cards@[j].card_id@)));
            }
        }
        Ok(facts)
    }

    /// Whether a card has a record. A record without tags says that the card has none.
    pub fn contains(&self, card_id: &str) -> (r: bool)
        requires
            self.wf(),
        ensures
            r == (self.record(trimmed(card_id@)) is Some),
    {
        let id = text::trim(card_id);
        self.by_id.contains(id.as_str())
    }

    /// The tags of a card, in their order.
    pub fn tags(&self, card_id: &str) -> (r: Vec<String>)
        requires
            self.wf(),
        ensures
            texts(r@) == self.tags_of(trimmed(card_id@)),
    {
        let id = text::trim(card_id);
        match self.by_id.get(id.as_str()) {
            Some(set) => set.to_vec(),
            None => {
                let none: Vec<String> = Vec::new();
                assert(texts(none@) =~= Seq::<Seq<char>>::empty());
                none
            },
        }
    }

    /// The number of cards with a record.
    pub fn len(&self) -> (r: usize)
        ensures
            r == self.by_id.keys().len(),
    {
        self.by_id.len()
    }
}

} // verus!
