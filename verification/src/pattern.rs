//! Regular expressions, as far as the log grammar and the importers use them.

use crate::imports::{HEARTHARENA_CARD, HEARTHARENA_CHANGELOG, HEARTHARENA_SECTION};
use crate::log_parser::{
    Stamp, CLIENT_CHOICE, DRAFT_CARD, DRAFT_DECK, DRAFT_MODE, ON_BEGIN, ON_CHOSEN,
    ON_REDRAFT_BEGIN, TIMESTAMP,
};
use crate::text::contains_part;
use vstd::prelude::*;

verus! {

/// Whether a pattern is one that the library uses. These are small: whether a larger one compiles
/// can depend on the machine.
pub open spec fn in_use(pattern: Seq<char>) -> bool {
    ||| pattern == TIMESTAMP@
    ||| pattern == DRAFT_DECK@
    ||| pattern == DRAFT_CARD@
    ||| pattern == ON_BEGIN@
    ||| pattern == ON_REDRAFT_BEGIN@
    ||| pattern == ON_CHOSEN@
    ||| pattern == DRAFT_MODE@
    ||| pattern == CLIENT_CHOICE@
    ||| pattern == HEARTHARENA_SECTION@
    ||| pattern == HEARTHARENA_CARD@
    ||| pattern == HEARTHARENA_CHANGELOG@
}

/// The groups of the first match of a regular expression in a text: group zero is the whole
/// match, a group that took no part in it is `None`. `None` stands for no match.
pub uninterp spec fn match_groups(pattern: Seq<char>, text: Seq<char>) -> Option<
    Seq<Option<Seq<char>>>,
>;

/// The texts of the groups of a match.
pub open spec fn group_texts(groups: Seq<Option<String>>) -> Seq<Option<Seq<char>>> {
    groups.map_values(
        |g: Option<String>|
            match g {
                Some(s) => Some(s@),
                None => None,
            },
    )
}

/// The groups of the first match, as texts.
pub open spec fn found_groups(found: Option<Vec<Option<String>>>) -> Option<
    Seq<Option<Seq<char>>>,
> {
    match found {
        Some(groups) => Some(group_texts(groups@)),
        None => None,
    }
}

/// The text of one group; the empty text where the group took no part.
pub open spec fn group_or_empty(groups: Seq<Option<Seq<char>>>, index: int) -> Seq<char> {
    if 0 <= index < groups.len() && groups[index] is Some {
        groups[index]->0
    } else {
        Seq::empty()
    }
}

/// The text of one group, where it took part.
pub open spec fn group_if_any(groups: Seq<Option<Seq<char>>>, index: int) -> Option<Seq<char>> {
    if 0 <= index < groups.len() {
        groups[index]
    } else {
        None
    }
}

/// The fixed words at the head of a record form; none for the other patterns.
pub open spec fn fixed_words(pattern: Seq<char>) -> Seq<char> {
    if pattern == DRAFT_DECK@ {
        "Draft Deck ID:"@
    } else if pattern == DRAFT_CARD@ {
        "Draft deck contains card"@
    } else if pattern == ON_BEGIN@ {
        "OnBegin"@
    } else if pattern == ON_REDRAFT_BEGIN@ {
        "OnRedraftBegin"@
    } else if pattern == ON_CHOSEN@ {
        "OnChosen()"@
    } else if pattern == DRAFT_MODE@ {
        "SetDraftMode"@
    } else if pattern == CLIENT_CHOICE@ {
        "Client chooses:"@
    } else {
        Seq::empty()
    }
}

/// Whether what groups captured stands in a text.
pub open spec fn stand_in(groups: Option<Seq<Option<Seq<char>>>>, text: Seq<char>) -> bool {
    groups matches Some(g) ==> forall|i: int|
        0 <= i < g.len() && #[trigger] g[i] is Some ==> contains_part(text, g[i]->0)
}

/// Whether a text that a record form matched holds the fixed words of that form.
pub open spec fn has_fixed_words(
    groups: Option<Seq<Option<Seq<char>>>>,
    pattern: Seq<char>,
    text: Seq<char>,
) -> bool {
    groups is Some ==> contains_part(text, fixed_words(pattern))
}

/// Whether the pattern for time stamps found the digits of the stamp that heads a text.
pub open spec fn finds_stamps(
    groups: Option<Seq<Option<Seq<char>>>>,
    pattern: Seq<char>,
    text: Seq<char>,
) -> bool {
    pattern == TIMESTAMP@ ==> forall|stamp: Stamp| #[trigger]
        stamp.heads(text) ==> (groups matches Some(g) && stamp.found(g))
}

/// Runs `regex::Regex::new` on the pattern and `regex::Regex::captures` on the text, and hands
/// out the captured texts. Claimed: the result depends on pattern and text alone; what a group
/// captured stands in the text; a text that a record form matches holds the fixed words of that
/// form; and in a text made of a time stamp and a message, the pattern for time stamps finds the
/// digits of the stamp. What else a pattern finds in a text is left unsaid.
#[verifier::external_body]
pub(crate) fn first_match(pattern: &str, text: &str) -> (r: Option<Vec<Option<String>>>)
    requires
        in_use(pattern@),
    ensures
        found_groups(r) == match_groups(pattern@, text@),
        stand_in(found_groups(r), text@),
        has_fixed_words(found_groups(r), pattern@, text@),
        finds_stamps(found_groups(r), pattern@, text@),
{
    regex::Regex::new(pattern).ok()?.captures(text).map(|found| {
        found.iter().map(|group| group.map(|part| part.as_str().to_owned())).collect()
    })
}

/// The text of one group of a match; empty where the group took no part.
pub fn group_text(groups: &Vec<Option<String>>, index: usize) -> (r: String)
    ensures
        r@ == group_or_empty(group_texts(groups@), index as int),
{
    if index < groups.len() {
        match &groups[index] {
            Some(s) => s.clone(),
            None => String::new(),
        }
    } else {
        String::new()
    }
}

/// The text of one group of a match, where it took part.
pub fn group_option(groups: &Vec<Option<String>>, index: usize) -> (r: Option<String>)
    ensures
        (match r {
            Some(s) => Some(s@),
            None => None,
        }) == group_if_any(group_texts(groups@), index as int),
{
    if index < groups.len() {
        match &groups[index] {
            Some(s) => Some(s.clone()),
            None => None,
        }
    } else {
        None
    }
}

/// The groups of all matches of a regular expression in a text, one after the other, none
/// overlapping another.
pub uninterp spec fn match_list(pattern: Seq<char>, text: Seq<char>) -> Seq<
    Seq<Option<Seq<char>>>,
>;

/// The groups of several matches, as texts.
pub open spec fn group_lists(matches: Seq<Vec<Option<String>>>) -> Seq<Seq<Option<Seq<char>>>> {
    matches.map_values(|m: Vec<Option<String>>| group_texts(m@))
}

/// Runs `regex::Regex::new` on the pattern and `regex::Regex::captures_iter` on the text, and
/// hands out the captured texts. Claimed: the result depends on pattern and text alone.
#[verifier::external_body]
pub(crate) fn all_matches(pattern: &str, text: &str) -> (r: Vec<Vec<Option<String>>>)
    requires
        in_use(pattern@),
    ensures
        group_lists(r@) == match_list(pattern@, text@),
{
    let Ok(compiled) = regex::Regex::new(pattern) else {
        return Vec::new();
    };
    compiled.captures_iter(text).map(|found| {
        found.iter().map(|group| group.map(|part| part.as_str().to_owned())).collect()
    }).collect()
}

} // verus!
