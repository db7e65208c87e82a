//! Card metadata with explicit answers for everything that is not known.

use vstd::prelude::*;

use crate::state::opt_text;
use crate::text;
use crate::text::{
    chars_of, is_space, lower_ascii_text, occurs_at, string_of, texts, trim_start, trimmed,
    upper_ascii_text,
};
use crate::text_map::{sorted_texts_are_distinct, sorted_texts_are_unique, strictly_sorted, TextMap};

verus! {

/// The version of the cache file format.
pub const CARD_CACHE_FORMAT_VERSION: u32 = 1;

/// A moment in universal time.
#[derive(Clone, Copy, Debug, PartialEq, Eq, Structural)]
pub struct Timestamp {
    pub seconds: i64,
    pub nanoseconds: u32,
}

/// What is known of one card.
#[derive(Debug, PartialEq, Eq)]
pub struct CardMetadata {
    pub id: String,
    pub name: String,
    pub cost: Option<u8>,
    /// The printed durability of a weapon.
    pub durability: Option<u8>,
    pub card_type: Option<String>,
    pub classes: Vec<String>,
    pub collectible: Option<bool>,
    pub set: Option<String>,
    pub dbf_id: Option<u32>,
}

/// What is known of one card, over texts.
pub struct CardModel {
    pub id: Seq<char>,
    pub name: Seq<char>,
    pub cost: Option<u8>,
    pub durability: Option<u8>,
    pub card_type: Option<Seq<char>>,
    pub classes: Seq<Seq<char>>,
    pub collectible: Option<bool>,
    pub set: Option<Seq<char>>,
    pub dbf_id: Option<u32>,
}

impl View for CardMetadata {
    type V = CardModel;

    open spec fn view(&self) -> CardModel {
        CardModel {
            id: self.id@,
            name: self.name@,
            cost: self.cost,
            durability: self.durability,
            card_type: opt_text(self.card_type),
            classes: texts(self.classes@),
            collectible: self.collectible,
            set: opt_text(self.set),
            dbf_id: self.dbf_id,
        }
    }
}

impl Clone for CardMetadata {
    fn clone(&self) -> (r: Self)
        ensures
            r@ == self@,
    {
        let classes = self.classes.clone();
        assert(texts(classes@) =~= texts(self.classes@));
        CardMetadata {
            id: self.id.clone(),
            name: self.name.clone(),
            cost: self.cost,
            durability: self.durability,
            card_type: self.card_type.clone(),
            classes,
            collectible: self.collectible,
            set: self.set.clone(),
            dbf_id: self.dbf_id,
        }
    }
}

/// A cache file after it was read.
#[derive(Debug)]
pub struct CardCacheFile {
    pub format_version: u32,
    pub source: String,
    pub data_version: String,
    pub updated_at: Timestamp,
    pub cards: Vec<CardMetadata>,
}

/// Card data after it was read: a cache file, or a bare list of cards.
#[derive(Debug)]
pub enum CardCacheInput {
    Cache(CardCacheFile),
    RawCards(Vec<CardMetadata>),
}

/// Why card data was refused.
#[derive(Clone, Copy, Debug, PartialEq, Eq, Structural)]
pub enum CardCacheError {
    UnsupportedFormat { found: u32 },
}

impl CardCacheError {
    /// The refusal in words.
    pub fn message(&self) -> (r: String)
        ensures
            r@ == "unsupported card cache format "@ + text::decimal(
                self->UnsupportedFormat_found as nat,
            ) + "; expected "@ + text::decimal(CARD_CACHE_FORMAT_VERSION as nat),
    {
        let CardCacheError::UnsupportedFormat { found } = *self;
        let mut out = String::new();
        out.append("unsupported card cache format ");
        text::push_decimal(&mut out, found as u64);
        out.append("; expected ");
        text::push_decimal(&mut out, CARD_CACHE_FORMAT_VERSION as u64);
        assert(out@ =~= "unsupported card cache format "@ + text::decimal(
            self->UnsupportedFormat_found as nat,
        ) + "; expected "@ + text::decimal(CARD_CACHE_FORMAT_VERSION as nat));
        out
    }
}

/// Card metadata by card id.
pub struct CardCache {
    /// The cards by their ids.
    pub by_id: TextMap<CardMetadata>,
    pub source: String,
    pub data_version: String,
    pub updated_at: Option<Timestamp>,
}

/// What a card id stands for.
#[derive(Debug, PartialEq, Eq)]
pub enum CardResolution {
    Resolved { card: CardMetadata },
    Unrevealed,
    NonCardEntity { entity_id: String },
    MissingMetadata { card_id: String },
    InvalidCardId { card_id: String },
}

/// What a card id stands for, over texts.
pub enum ResolutionModel {
    Resolved { card: CardModel },
    Unrevealed,
    NonCardEntity { entity_id: Seq<char> },
    MissingMetadata { card_id: Seq<char> },
    InvalidCardId { card_id: Seq<char> },
}

impl View for CardResolution {
    type V = ResolutionModel;

    open spec fn view(&self) -> ResolutionModel {
        match *self {
            CardResolution::Resolved { card } => ResolutionModel::Resolved { card: card@ },
            CardResolution::Unrevealed => ResolutionModel::Unrevealed,
            CardResolution::NonCardEntity { entity_id } => ResolutionModel::NonCardEntity {
                entity_id: entity_id@,
            },
            CardResolution::MissingMetadata { card_id } => ResolutionModel::MissingMetadata {
                card_id: card_id@,
            },
            CardResolution::InvalidCardId { card_id } => ResolutionModel::InvalidCardId {
                card_id: card_id@,
            },
        }
    }
}

impl Clone for CardResolution {
    fn clone(&self) -> (r: Self)
        ensures
            r@ == self@,
    {
        match self {
            CardResolution::Resolved { card } => CardResolution::Resolved { card: card.clone() },
            CardResolution::Unrevealed => CardResolution::Unrevealed,
            CardResolution::NonCardEntity { entity_id } => CardResolution::NonCardEntity {
                entity_id: entity_id.clone(),
            },
            CardResolution::MissingMetadata { card_id } => CardResolution::MissingMetadata {
                card_id: card_id.clone(),
            },
            CardResolution::InvalidCardId { card_id } => CardResolution::InvalidCardId {
                card_id: card_id.clone(),
            },
        }
    }
}

/// Whether a card has an id and a name, and so can be used.
pub open spec fn usable(card: CardModel) -> bool {
    trimmed(card.id).len() > 0 && trimmed(card.name).len() > 0
}

/// A sequence of cards, over texts.
pub open spec fn card_models(cards: Seq<CardMetadata>) -> Seq<CardModel> {
    cards.map_values(|c: CardMetadata| c@)
}

/// Whether a record is the last usable one with its id.
pub open spec fn last_usable(records: Seq<CardModel>, i: int) -> bool {
    &&& 0 <= i < records.len()
    &&& usable(records[i])
    &&& forall|j: int|
        i < j < records.len() && #[trigger] usable(records[j]) ==> records[j].id != records[i].id
}

/// Whether the cards are the last usable records, in the order of their ids.
pub open spec fn collected(cards: Seq<CardModel>, records: Seq<CardModel>) -> bool {
    &&& strictly_sorted(cards.map_values(|c: CardModel| c.id))
    &&& forall|c: CardModel| #[trigger]
        cards.contains(c) <==> exists|i: int| #[trigger] last_usable(records, i) && records[i] == c
}

/// Whether every character may stand in a card id.
pub open spec fn card_id_char(c: char) -> bool {
    ('A' <= c <= 'Z') || ('0' <= c <= '9') || c == '_'
}

/// Whether a text has the form of a card id.
pub open spec fn valid_card_id(s: Seq<char>) -> bool {
    s.len() >= 3 && forall|i: int| 0 <= i < s.len() ==> card_id_char(#[trigger] s[i])
}

/// Whether a text has the form of a card id.
pub fn is_valid_card_id(value: &str) -> (r: bool)
    ensures
        r == valid_card_id(value@),
{
    let chars = chars_of(value);
    if chars.len() < 3 {
        return false;
    }
    let mut i: usize = 0;
    while i < chars.len()
        invariant
            i <= chars.len(),
            chars@ == value@,
            forall|j: int| 0 <= j < i ==> card_id_char(#[trigger] value@[j]),
        decreases chars.len() - i,
    {
        let c = chars[i];
        if !(('A' <= c && c <= 'Z') || ('0' <= c && c <= '9') || c == '_') {
            assert(!card_id_char(value@[i as int]));
            return false;
        }
        i = i + 1;
    }
    true
}

/// What an id that names no card stands for, or `None` where it has the form of a card id.
pub open spec fn special_id(id: Seq<char>) -> Option<ResolutionModel> {
    if id.len() == 0 || upper_ascii_text(id) == "UNKNOWN"@ || upper_ascii_text(id) == "0"@ {
        Some(ResolutionModel::Unrevealed)
    } else if occurs_at(id, "HERO_"@, 0) || occurs_at(id, "GAME_"@, 0) {
        Some(ResolutionModel::NonCardEntity { entity_id: id })
    } else if !valid_card_id(id) {
        Some(ResolutionModel::InvalidCardId { card_id: id })
    } else {
        None
    }
}

/// The lower-case form of a character outside ASCII in the sense of `char::to_lowercase`.
pub uninterp spec fn lowercase_of(c: char) -> Seq<char>;

/// Whether `char::is_alphanumeric` counts a character outside ASCII as a letter or a number.
pub uninterp spec fn alphanumeric(c: char) -> bool;

/// The lower-case form of a character.
pub open spec fn lowered(c: char) -> Seq<char> {
    if (c as u32) < 128 {
        seq![text::lower_ascii(c)]
    } else {
        lowercase_of(c)
    }
}

/// Whether a character is a letter or a number of ASCII.
pub open spec fn ascii_alphanumeric(c: char) -> bool {
    'a' <= c <= 'z' || 'A' <= c <= 'Z' || '0' <= c <= '9'
}

/// Whether a character counts as a letter or a number.
pub open spec fn letter_or_number(c: char) -> bool {
    if (c as u32) < 128 {
        ascii_alphanumeric(c)
    } else {
        alphanumeric(c)
    }
}

/// Runs `char::to_lowercase`. Claimed: the capital letters of ASCII become their small ones, other
/// characters of ASCII stay, and outside ASCII the result depends on the character alone.
#[verifier::external_body]
pub(crate) fn lowercase(c: char) -> (r: Vec<char>)
    ensures
        (c as u32) < 128 ==> r@ == seq![text::lower_ascii(c)],
        (c as u32) >= 128 ==> r@ == lowercase_of(c),
{
    c.to_lowercase().collect()
}

/// `char::is_alphanumeric` holds of the letters and digits of ASCII and of no other character of
/// it, and outside ASCII depends on the character alone.
pub assume_specification[ char::is_alphanumeric ](c: char) -> (r: bool)
    ensures
        (c as u32) < 128 ==> r == ascii_alphanumeric(c),
        (c as u32) >= 128 ==> r == alphanumeric(c),
;

/// What a lower-case character becomes in a name read from the screen; `None` where it is
/// dropped.
pub open spec fn ocr_char(c: char) -> Option<char> {
    if c == '\u{2018}' || c == '\u{2019}' || c == '\u{02bc}' || c == '`' {
        Some('\'')
    } else if letter_or_number(c) || c == '\'' {
        Some(c)
    } else if is_space(c) || c == '-' {
        Some(' ')
    } else {
        None
    }
}

/// What a sequence of lower-case characters becomes.
pub open spec fn ocr_chars(s: Seq<char>) -> Seq<char>
    decreases s.len(),
{
    if s.len() == 0 {
        Seq::empty()
    } else {
        match ocr_char(s.last()) {
            Some(c) => ocr_chars(s.drop_last()).push(c),
            None => ocr_chars(s.drop_last()),
        }
    }
}

/// What the characters of a name become.
pub open spec fn folded(s: Seq<char>) -> Seq<char>
    decreases s.len(),
{
    if s.len() == 0 {
        Seq::empty()
    } else {
        folded(s.drop_last()) + ocr_chars(lowered(s.last()))
    }
}

/// The length of the word at the head of a text.
pub open spec fn word_len(s: Seq<char>) -> nat
    decreases s.len(),
{
    if s.len() > 0 && !is_space(s[0]) {
        1 + word_len(s.drop_first())
    } else {
        0
    }
}

proof fn word_len_bounds(s: Seq<char>)
    ensures
        word_len(s) <= s.len(),
        forall|i: int| 0 <= i < word_len(s) ==> !is_space(#[trigger] s[i]),
        word_len(s) < s.len() ==> is_space(s[word_len(s) as int]),
    decreases s.len(),
{
    if s.len() > 0 && !is_space(s[0]) {
        word_len_bounds(s.drop_first());
        assert forall|i: int| 0 <= i < word_len(s) implies !is_space(#[trigger] s[i]) by {
            if i > 0 {
                assert(s.drop_first()[i - 1] == s[i]);
            }
        }
    }
}

proof fn trim_start_shortens(s: Seq<char>)
    ensures
        trim_start(s).len() <= s.len(),
        trim_start(s).len() > 0 ==> !is_space(trim_start(s)[0]),
        trim_start(s) == s.skip(s.len() - trim_start(s).len()),
    decreases s.len(),
{
    if s.len() > 0 && is_space(s[0]) {
        trim_start_shortens(s.drop_first());
        assert(s.drop_first().skip(s.drop_first().len() - trim_start(s).len()) =~= s.skip(
            s.len() - trim_start(s).len(),
        ));
    } else {
        assert(s.skip(0) =~= s);
    }
}

/// The words of a text with one space between each two.
pub open spec fn spaced_words(s: Seq<char>) -> Seq<char>
    decreases s.len(),
    via spaced_words_decreases
{
    let t = trim_start(s);
    if t.len() == 0 {
        Seq::empty()
    } else {
        let n = word_len(t);
        let rest = spaced_words(t.skip(n as int));
        if rest.len() == 0 {
            t.take(n as int)
        } else {
            t.take(n as int).push(' ') + rest
        }
    }
}

#[via_fn]
proof fn spaced_words_decreases(s: Seq<char>) {
    trim_start_shortens(s);
    word_len_bounds(trim_start(s));
}

/// A name as it is compared after it was read from the screen: lower case, apostrophes alike,
/// other punctuation dropped, one space between words.
pub open spec fn ocr_name(s: Seq<char>) -> Seq<char> {
    spaced_words(folded(s))
}

/// Names in ASCII that differ in letter case alone are compared as equal.
pub proof fn ocr_names_ignore_letter_case(s: Seq<char>, t: Seq<char>)
    requires
        forall|i: int| 0 <= i < s.len() ==> (#[trigger] s[i] as u32) < 128,
        forall|i: int| 0 <= i < t.len() ==> (#[trigger] t[i] as u32) < 128,
        text::lower_ascii_text(s) == text::lower_ascii_text(t),
    ensures
        ocr_name(s) == ocr_name(t),
{
    folds_alike(s, t);
}

proof fn folds_alike(s: Seq<char>, t: Seq<char>)
    requires
        forall|i: int| 0 <= i < s.len() ==> (#[trigger] s[i] as u32) < 128,
        forall|i: int| 0 <= i < t.len() ==> (#[trigger] t[i] as u32) < 128,
        text::lower_ascii_text(s) == text::lower_ascii_text(t),
    ensures
        folded(s) == folded(t),
    decreases s.len(),
{
    assert(text::lower_ascii_text(s).len() == s.len() && text::lower_ascii_text(t).len() == t.len());
    if s.len() > 0 {
        assert(text::lower_ascii_text(s).last() == text::lower_ascii(s.last()));
        assert(text::lower_ascii_text(t).last() == text::lower_ascii(t.last()));
        assert(text::lower_ascii_text(s.drop_last()) =~= text::lower_ascii_text(s).drop_last());
        assert(text::lower_ascii_text(t.drop_last()) =~= text::lower_ascii_text(t).drop_last());
        folds_alike(s.drop_last(), t.drop_last());
    }
}

fn push_ocr_chars(out: &mut Vec<char>, s: &Vec<char>)
    ensures
        final(out)@ == old(out)@ + ocr_chars(s@),
{
    let mut i: usize = 0;
    let ghost base = out@;
    assert(s@.take(0) =~= Seq::<char>::empty());
    assert(out@ =~= base + ocr_chars(s@.take(0)));
    while i < s.len()
        invariant
            i <= s.len(),
            out@ =~= base + ocr_chars(s@.take(i as int)),
        decreases s.len() - i,
    {
        let c = s[i];
        assert(s@.take(i + 1).drop_last() =~= s@.take(i as int));
        assert(s@.take(i + 1).last() == c);
        if c == '\u{2018}' || c == '\u{2019}' || c == '\u{02bc}' || c == '`' {
            out.push('\'');
        } else if c.is_alphanumeric() || c == '\'' {
            out.push(c);
        } else if text::is_whitespace(c) || c == '-' {
            out.push(' ');
        }
        i = i + 1;
    }
    assert(s@.take(i as int) =~= s@);
}

pub(crate) fn join_words(s: &Vec<char>) -> (r: Vec<char>)
    ensures
        r@ == spaced_words(s@),
{
    let mut out: Vec<char> = Vec::new();
    let mut i: usize = 0;
    assert(s@.skip(0) =~= s@);
    assert(out@ + spaced_words(s@) =~= spaced_words(s@));
    loop
        invariant
            i <= s.len(),
            out@.len() == 0 ==> spaced_words(s@) == spaced_words(s@.skip(i as int)),
            out@.len() > 0 ==> spaced_words(s@) == (if spaced_words(s@.skip(i as int)).len() == 0 {
                out@
            } else {
                out@.push(' ') + spaced_words(s@.skip(i as int))
            }),
        decreases s.len() - i,
    {
        let ghost i0 = i as int;
        while i < s.len() && text::is_whitespace(s[i])
            invariant
                i0 <= i <= s.len(),
                trim_start(s@.skip(i as int)) == trim_start(s@.skip(i0)),
            decreases s.len() - i,
        {
            assert(s@.skip(i as int).drop_first() =~= s@.skip(i + 1));
            i = i + 1;
        }
        let ghost t = s@.skip(i as int);
        assert(trim_start(s@.skip(i0)) == t);
        if i >= s.len() {
            assert(spaced_words(s@.skip(i0)) =~= Seq::<char>::empty());
            return out;
        }
        let ghost before = out@;
        if out.len() > 0 {
            out.push(' ');
        }
        let ghost head = out@;
        let ghost start = i as int;
        assert(out@ =~= head + t.take(0));
        while i < s.len() && !text::is_whitespace(s[i])
            invariant
                0 <= start <= i <= s.len(),
                t == s@.skip(start),
                out@ == head + t.take(i - start),
                word_len(t) == (i - start) + word_len(s@.skip(i as int)),
            decreases s.len() - i,
        {
            out.push(s[i]);
            assert(t.take(i - start + 1) =~= t.take(i - start).push(s@[i as int]));
            assert(s@.skip(i as int).drop_first() =~= s@.skip(i + 1));
            i = i + 1;
        }
        proof {
            let n = i - start;
            assert(word_len(t) == n);
            assert(t.skip(n) =~= s@.skip(i as int));
            let rest = spaced_words(s@.skip(i as int));
            assert(spaced_words(s@.skip(i0)) == (if rest.len() == 0 {
                t.take(n)
            } else {
                t.take(n).push(' ') + rest
            }));
            assert(n > 0);
            if before.len() == 0 {
                assert(out@ =~= t.take(n));
            } else {
                assert(out@ =~= before.push(' ') + t.take(n));
                assert(before.push(' ') + (t.take(n).push(' ') + rest) =~= out@.push(' ') + rest);
            }
        }
    }
}

/// Puts a name into the form in which names read from the screen are compared.
pub fn normalize_ocr_name(value: &str) -> (r: String)
    ensures
        r@ == ocr_name(value@),
{
    let chars = chars_of(value);
    let mut out: Vec<char> = Vec::new();
    let mut i: usize = 0;
    assert(chars@.take(0) =~= Seq::<char>::empty());
    while i < chars.len()
        invariant
            i <= chars.len(),
            out@ == folded(chars@.take(i as int)),
        decreases chars.len() - i,
    {
        let low = lowercase(chars[i]);
        assert(chars@.take(i + 1).drop_last() =~= chars@.take(i as int));
        assert(chars@.take(i + 1).last() == chars@[i as int]);
        push_ocr_chars(&mut out, &low);
        i = i + 1;
    }
    assert(chars@.take(i as int) =~= chars@);
    let joined = join_words(&out);
    string_of(joined.as_slice())
}

/// The least number of insertions, deletions and substitutions that make one text the other.
pub open spec fn edit_distance(a: Seq<char>, b: Seq<char>) -> nat
    decreases a.len() + b.len(),
{
    if a.len() == 0 {
        b.len()
    } else if b.len() == 0 {
        a.len()
    } else {
        let across = edit_distance(a, b.drop_last()) + 1;
        let down = edit_distance(a.drop_last(), b) + 1;
        let along = edit_distance(a.drop_last(), b.drop_last()) + if a.last() != b.last() {
            1nat
        } else {
            0nat
        };
        let least = if across <= down {
            across
        } else {
            down
        };
        if least <= along {
            least
        } else {
            along
        }
    }
}

/// The distance is at most the length of the longer text.
pub proof fn edit_distance_is_bounded(a: Seq<char>, b: Seq<char>)
    ensures
        edit_distance(a, b) <= a.len() || edit_distance(a, b) <= b.len(),
    decreases a.len() + b.len(),
{
    if a.len() > 0 && b.len() > 0 {
        edit_distance_is_bounded(a.drop_last(), b.drop_last());
    }
}

/// The distance does not depend on the order of the texts.
pub proof fn edit_distance_is_symmetric(a: Seq<char>, b: Seq<char>)
    ensures
        edit_distance(a, b) == edit_distance(b, a),
    decreases a.len() + b.len(),
{
    if a.len() > 0 && b.len() > 0 {
        edit_distance_is_symmetric(a, b.drop_last());
        edit_distance_is_symmetric(a.drop_last(), b);
        edit_distance_is_symmetric(a.drop_last(), b.drop_last());
    }
}

/// The distance is zero between equal texts and only there.
pub proof fn edit_distance_zero_is_equality(a: Seq<char>, b: Seq<char>)
    ensures
        edit_distance(a, b) == 0 <==> a == b,
    decreases a.len() + b.len(),
{
    if a.len() == 0 || b.len() == 0 {
        if a.len() == b.len() {
            assert(a =~= b);
        }
    } else {
        edit_distance_zero_is_equality(a.drop_last(), b.drop_last());
        assert(a =~= a.drop_last().push(a.last()));
        assert(b =~= b.drop_last().push(b.last()));
    }
}

/// The least number of edits between two texts.
pub fn levenshtein(left: &str, right: &str) -> (r: usize)
    ensures
        r == edit_distance(left@, right@),
{
    let a = chars_of(left);
    let b = chars_of(right);
    let n: usize = b.len();
    let mut previous: Vec<u128> = Vec::new();
    previous.push(0);
    let mut j: usize = 0;
    assert(a@.take(0) =~= Seq::<char>::empty());
    while j < n
        invariant
            j <= n,
            n == b.len(),
            previous.len() == j + 1,
            forall|k: int|
                0 <= k <= j ==> #[trigger] previous@[k] == edit_distance(a@.take(0), b@.take(k)),
        decreases n - j,
    {
        previous.push(j as u128 + 1);
        j = j + 1;
    }
    let mut i: usize = 0;
    while i < a.len()
        invariant
            i <= a.len(),
            n == b.len(),
            previous.len() == n + 1,
            forall|k: int|
                0 <= k <= n ==> #[trigger] previous@[k] == edit_distance(
                    a@.take(i as int),
                    b@.take(k),
                ),
        decreases a.len() - i,
    {
        let c = a[i];
        let mut current: Vec<u128> = Vec::new();
        current.push(i as u128 + 1);
        assert(b@.take(0) =~= Seq::<char>::empty());
        let mut j: usize = 0;
        while j < n
            invariant
                j <= n,
                n == b.len(),
                i < a.len(),
                c == a@[i as int],
                previous.len() == n + 1,
                current.len() == j + 1,
                forall|k: int|
                    0 <= k <= n ==> #[trigger] previous@[k] == edit_distance(
                        a@.take(i as int),
                        b@.take(k),
                    ),
                forall|k: int|
                    0 <= k <= j ==> #[trigger] current@[k] == edit_distance(
                        a@.take(i + 1),
                        b@.take(k),
                    ),
            decreases n - j,
        {
            proof {
                edit_distance_is_bounded(a@.take(i + 1), b@.take(j as int));
                edit_distance_is_bounded(a@.take(i as int), b@.take(j + 1));
                edit_distance_is_bounded(a@.take(i as int), b@.take(j as int));
                assert(a@.take(i + 1).drop_last() =~= a@.take(i as int));
                assert(b@.take(j + 1).drop_last() =~= b@.take(j as int));
                assert(a@.take(i + 1).last() == c);
                assert(b@.take(j + 1).last() == b@[j as int]);
                assert(current@[j as int] == edit_distance(a@.take(i + 1), b@.take(j as int)));
                assert(previous@[j + 1] == edit_distance(a@.take(i as int), b@.take(j + 1)));
                assert(previous@[j as int] == edit_distance(a@.take(i as int), b@.take(j as int)));
            }
            let across: u128 = current[j] + 1;
            let down: u128 = previous[j + 1] + 1;
            let mut along: u128 = previous[j];
            if c != b[j] {
                along = along + 1;
            }
            let mut least: u128 = across;
            if down < least {
                least = down;
            }
            if along < least {
                least = along;
            }
            current.push(least);
            j = j + 1;
        }
        previous = current;
        i = i + 1;
    }
    proof {
        assert(a@.take(i as int) =~= a@);
        assert(b@.take(n as int) =~= b@);
        edit_distance_is_bounded(a@, b@);
        assert(previous@[n as int] == edit_distance(a@.take(i as int), b@.take(n as int)));
    }
    previous[n] as usize
}

/// The cards that a list of references points to, over texts.
pub open spec fn found_cards(found: Seq<&CardMetadata>) -> Seq<CardModel> {
    found.map_values(|c: &CardMetadata| c@)
}

/// The cards that a list of references with distances points to, over texts.
pub open spec fn near_cards(found: Seq<(&CardMetadata, usize)>) -> Seq<(CardModel, nat)> {
    found.map_values(|c: (&CardMetadata, usize)| (c.0@, c.1 as nat))
}

/// Whether a card is known to be collectible.
pub open spec fn collectible(card: CardModel) -> bool {
    card.collectible == Some(true)
}

/// The collectible cards whose names are within a distance of a name, with the distance.
pub open spec fn cards_near(cards: Seq<CardModel>, name: Seq<char>, maximum: nat) -> Seq<
    (CardModel, nat),
>
    decreases cards.len(),
{
    if cards.len() == 0 {
        Seq::empty()
    } else {
        let before = cards_near(cards.drop_last(), name, maximum);
        let distance = edit_distance(name, ocr_name(cards.last().name));
        if collectible(cards.last()) && distance <= maximum {
            before.push((cards.last(), distance))
        } else {
            before
        }
    }
}

impl CardCache {
    /// The cards in the order of their ids.
    pub open spec fn cards(&self) -> Seq<CardModel> {
        card_models(self.by_id.values())
    }

    /// The cards stand in the order of their ids, each id once.
    pub open spec fn wf(&self) -> bool {
        &&& self.by_id.wf()
        &&& self.by_id.keys() == self.cards().map_values(|c: CardModel| c.id)
    }

    /// The card with an id, where there is one.
    pub open spec fn card(&self, id: Seq<char>) -> Option<CardModel> {
        if exists|i: int| 0 <= i < self.cards().len() && #[trigger] self.cards()[i].id == id {
            let i = choose|i: int| 0 <= i < self.cards().len() && #[trigger] self.cards()[i].id == id;
            Some(self.cards()[i])
        } else {
            None
        }
    }

    /// What a card id stands for.
    pub open spec fn resolution(&self, card_id: Seq<char>) -> ResolutionModel {
        let id = trimmed(card_id);
        match special_id(id) {
            Some(special) => special,
            None => match self.card(id) {
                Some(card) => ResolutionModel::Resolved { card },
                None => ResolutionModel::MissingMetadata { card_id: id },
            },
        }
    }

    /// The ids of the cards differ.
    pub proof fn ids_are_strictly_sorted(&self)
        requires
            self.wf(),
        ensures
            strictly_sorted(self.cards().map_values(|c: CardModel| c.id)),
    {
    }

    /// A card is found under its id.
    pub proof fn card_at(&self, i: int)
        requires
            self.wf(),
            0 <= i < self.cards().len(),
        ensures
            self.card(self.cards()[i].id) == Some(self.cards()[i]),
    {
        let id = self.cards()[i].id;
        let j = choose|j: int| 0 <= j < self.cards().len() && #[trigger] self.cards()[j].id == id;
        let ids = self.cards().map_values(|c: CardModel| c.id);
        assert(ids[i] == ids[j]);
        sorted_texts_are_distinct(ids, i, j);
    }

    /// A cache without cards.
    pub fn empty() -> (r: Self)
        ensures
            r.wf(),
            r.cards() == Seq::<CardModel>::empty(),
            r.source@ == Seq::<char>::empty(),
            r.data_version@ == Seq::<char>::empty(),
            r.updated_at is None,
    {
        let r = CardCache {
            by_id: TextMap::new(),
            source: String::new(),
            data_version: String::new(),
            updated_at: None,
        };
        assert(r.cards() =~= Seq::<CardModel>::empty());
        assert(r.cards().map_values(|c: CardModel| c.id) =~= Seq::<Seq<char>>::empty());
        r
    }

    fn collect(records: Vec<CardMetadata>) -> (r: TextMap<CardMetadata>)
        ensures
            r.wf(),
            r.keys() == card_models(r.values()).map_values(|c: CardModel| c.id),
            collected(card_models(r.values()), card_models(records@)),
    {
        let ghost all = card_models(records@);
        let mut map: TextMap<CardMetadata> = TextMap::new();
        let mut i: usize = 0;
        assert(card_models(map.values()).map_values(|c: CardModel| c.id) =~= map.keys());
        assert(all.take(0) =~= Seq::<CardModel>::empty());
        while i < records.len()
            invariant
                i <= records.len(),
                all == card_models(records@),
                map.wf(),
                map.keys() == card_models(map.values()).map_values(|c: CardModel| c.id),
                forall|k: Seq<char>| #[trigger]
                    map.has(k) <==> exists|j: int| #[trigger]
                        last_usable(all.take(i as int), j) && all[j].id == k,
                forall|k: Seq<char>, j: int|
                    #[trigger] map.has(k) && #[trigger] last_usable(all.take(i as int), j)
                        && all[j].id == k ==> map.at(k)@ == all[j],
            decreases records.len() - i,
        {
            let card = &records[i];
            let ghost n = i as int;
            let ghost before = map;
            let ghost head = all.take(n);
            let ghost longer = all.take(n + 1);
            assert(all[n] == card@);
            let fits = !text::is_blank(card.id.as_str()) && !text::is_blank(card.name.as_str());
            if fits {
                let ghost kept = card@;
                map.insert(card.id.clone(), card.clone());
                proof {
                    assert forall|k: Seq<char>| #[trigger] map.has(k) <==> exists|j: int| #[trigger]
                        last_usable(longer, j) && all[j].id == k by {
                        if k == kept.id {
                            assert(last_usable(longer, n));
                        } else {
                            if map.has(k) {
                                let j = choose|j: int| #[trigger]
                                    last_usable(head, j) && all[j].id == k;
                                assert(last_usable(longer, j)) by {
                                    assert(longer[j] == head[j]);
                                    assert forall|m: int|
                                        j < m < longer.len() && #[trigger] usable(
                                            longer[m],
                                        ) implies longer[m].id != longer[j].id by {
                                        if m < n {
                                            assert(usable(head[m]));
                                        }
                                    }
                                }
                            }
                            if exists|j: int| #[trigger] last_usable(longer, j) && all[j].id == k {
                                let j = choose|j: int| #[trigger]
                                    last_usable(longer, j) && all[j].id == k;
                                assert(j != n);
                                assert(last_usable(head, j)) by {
                                    assert forall|m: int|
                                        j < m < head.len() && #[trigger] usable(
                                            head[m],
                                        ) implies head[m].id != head[j].id by {
                                        assert(usable(longer[m]));
                                    }
                                }
                                assert(before.has(k));
                            }
                        }
                    }
                    assert forall|k: Seq<char>, j: int|
                        #[trigger] map.has(k) && #[trigger] last_usable(longer, j) && all[j].id
                            == k implies map.at(k)@ == all[j] by {
                        if k == kept.id {
                            if j < n {
                                assert(usable(longer[n]));
                            }
                        } else {
                            assert(j != n);
                            assert(last_usable(head, j)) by {
                                assert forall|m: int|
                                    j < m < head.len() && #[trigger] usable(
                                        head[m],
                                    ) implies head[m].id != head[j].id by {
                                    assert(usable(longer[m]));
                                }
                            }
                            assert(before.has(k));
                        }
                    }
                    Self::keys_stay_ids(before, map, kept);
                }
            } else {
                proof {
                    assert forall|j: int| #[trigger] last_usable(longer, j) <==> last_usable(
                        head,
                        j,
                    ) by {
                        if last_usable(longer, j) {
                            assert(j != n);
                            assert forall|m: int|
                                j < m < head.len() && #[trigger] usable(head[m]) implies head[m].id
                                != head[j].id by {
                                assert(usable(longer[m]));
                            }
                        }
                        if last_usable(head, j) {
                            assert forall|m: int|
                                j < m < longer.len() && #[trigger] usable(
                                    longer[m],
                                ) implies longer[m].id != longer[j].id by {
                                assert(m < n);
                                assert(usable(head[m]));
                            }
                        }
                    }
                    assert forall|k: Seq<char>| #[trigger] map.has(k) <==> exists|j: int| #[trigger]
                        last_usable(longer, j) && all[j].id == k by {
                        if map.has(k) {
                            let j = choose|j: int| #[trigger]
                                last_usable(head, j) && all[j].id == k;
                            assert(last_usable(longer, j));
                        }
                        if exists|j: int| #[trigger] last_usable(longer, j) && all[j].id == k {
                            let j = choose|j: int| #[trigger]
                                last_usable(longer, j) && all[j].id == k;
                            assert(last_usable(head, j));
                        }
                    }
                }
            }
            i = i + 1;
        }
        proof {
            assert(all.take(i as int) =~= all);
            let cards = card_models(map.values());
            assert forall|c: CardModel| #[trigger] cards.contains(c) <==> exists|j: int| #[trigger]
                last_usable(all, j) && all[j] == c by {
                if cards.contains(c) {
                    let p = choose|p: int| 0 <= p < cards.len() && cards[p] == c;
                    map.value_at(p);
                    assert(map.keys()[p] == c.id);
                    assert(map.has(c.id));
                    let j = choose|j: int| #[trigger] last_usable(all, j) && all[j].id == c.id;
                    assert(map.at(c.id)@ == all[j]);
                }
                if exists|j: int| #[trigger] last_usable(all, j) && all[j] == c {
                    let j = choose|j: int| #[trigger] last_usable(all, j) && all[j] == c;
                    assert(map.has(c.id));
                    let p = map.keys().index_of(c.id);
                    assert(map.keys()[p] == c.id);
                    map.value_at(p);
                    assert(map.at(c.id)@ == c);
                    assert(cards[p] == c);
                }
            }
        }
        map
    }

    proof fn keys_stay_ids(
        before: TextMap<CardMetadata>,
        after: TextMap<CardMetadata>,
        card: CardModel,
    )
        requires
            before.wf(),
            after.wf(),
            before.keys() == card_models(before.values()).map_values(|c: CardModel| c.id),
            after.has(card.id),
            after.at(card.id)@ == card,
            forall|k: Seq<char>| k != card.id ==> (#[trigger] after.has(k) <==> before.has(k)),
            forall|k: Seq<char>|
                k != card.id && before.has(k) ==> #[trigger] after.at(k) == before.at(k),
        ensures
            after.keys() == card_models(after.values()).map_values(|c: CardModel| c.id),
    {
        let ids = card_models(after.values()).map_values(|c: CardModel| c.id);
        assert forall|p: int| 0 <= p < after.keys().len() implies after.keys()[p] == ids[p] by {
            after.value_at(p);
            let k = after.keys()[p];
            if k != card.id {
                assert(after.has(k));
                assert(before.has(k));
                let q = before.keys().index_of(k);
                assert(before.keys()[q] == k);
                before.value_at(q);
                assert(before.keys()[q] == card_models(before.values()).map_values(
                    |c: CardModel| c.id,
                )[q]);
            }
        }
        assert(after.keys() =~= ids);
    }

    /// Makes a cache of card data that was read. Records without an id or a name are dropped;
    /// of several with one id the last counts.
    pub fn from_input(input: CardCacheInput) -> (r: Result<Self, CardCacheError>)
        ensures
            match input {
                CardCacheInput::Cache(file) => match r {
                    Err(CardCacheError::UnsupportedFormat { found }) => found
                        == file.format_version && found != CARD_CACHE_FORMAT_VERSION,
                    Ok(cache) => {
                        &&& file.format_version == CARD_CACHE_FORMAT_VERSION
                        &&& cache.wf()
                        &&& collected(cache.cards(), card_models(file.cards@))
                        &&& cache.source@ == file.source@
                        &&& cache.data_version@ == file.data_version@
                        &&& cache.updated_at == Some(file.updated_at)
                    },
                },
                CardCacheInput::RawCards(cards) => match r {
                    Err(_) => false,
                    Ok(cache) => {
                        &&& cache.wf()
                        &&& collected(cache.cards(), card_models(cards@))
                        &&& cache.source@ == "raw-json-import"@
                        &&& cache.data_version@ == "unknown"@
                        &&& cache.updated_at is None
                    },
                },
            },
    {
        match input {
            CardCacheInput::Cache(file) => {
                if file.format_version != CARD_CACHE_FORMAT_VERSION {
                    return Err(CardCacheError::UnsupportedFormat { found: file.format_version });
                }
                Ok(
                    CardCache {
                        by_id: Self::collect(file.cards),
                        source: file.source,
                        data_version: file.data_version,
                        updated_at: Some(file.updated_at),
                    },
                )
            },
            CardCacheInput::RawCards(cards) => Ok(
                CardCache {
                    by_id: Self::collect(cards),
                    source: string_of(chars_of("raw-json-import").as_slice()),
                    data_version: string_of(chars_of("unknown").as_slice()),
                    updated_at: None,
                },
            ),
        }
    }

    proof fn lookup_is_card(&self, id: Seq<char>)
        requires
            self.wf(),
        ensures
            match self.by_id.lookup(id) {
                Some(c) => self.card(id) == Some(c@),
                None => self.card(id) is None,
            },
    {
        let ids = self.cards().map_values(|c: CardModel| c.id);
        if self.by_id.has(id) {
            let p = self.by_id.keys().index_of(id);
            assert(self.by_id.keys()[p] == id);
            self.by_id.value_at(p);
            assert(ids[p] == id);
            assert(self.cards()[p].id == id);
            self.card_at(p);
        } else if exists|i: int| 0 <= i < self.cards().len() && #[trigger] self.cards()[i].id == id {
            let i = choose|i: int| 0 <= i < self.cards().len() && #[trigger] self.cards()[i].id == id;
            assert(ids[i] == id);
            assert(self.by_id.keys()[i] == id);
        }
    }

    /// What a card id stands for. Nothing is stored on the way.
    pub fn resolve(&self, card_id: &str) -> (r: CardResolution)
        requires
            self.wf(),
        ensures
            r@ == self.resolution(card_id@),
    {
        let id = text::trim(card_id);
        let chars = chars_of(id.as_str());
        let upper = text::to_upper_ascii_chars(chars.as_slice());
        let upper = string_of(upper.as_slice());
        if chars.len() == 0 || text::str_eq(upper.as_str(), "UNKNOWN") || text::str_eq(
            upper.as_str(),
            "0",
        ) {
            return CardResolution::Unrevealed;
        }
        if text::str_starts_with(id.as_str(), "HERO_") || text::str_starts_with(
            id.as_str(),
            "GAME_",
        ) {
            return CardResolution::NonCardEntity { entity_id: id };
        }
        if !is_valid_card_id(id.as_str()) {
            return CardResolution::InvalidCardId { card_id: id };
        }
        proof {
            self.lookup_is_card(id@);
        }
        match self.by_id.get(id.as_str()) {
            Some(card) => CardResolution::Resolved { card: card.clone() },
            None => CardResolution::MissingMetadata { card_id: id },
        }
    }

    /// The card with an id.
    pub fn get(&self, card_id: &str) -> (r: Option<&CardMetadata>)
        requires
            self.wf(),
        ensures
            match r {
                Some(card) => self.card(trimmed(card_id@)) == Some(card@),
                None => self.card(trimmed(card_id@)) is None,
            },
    {
        let id = text::trim(card_id);
        proof {
            self.lookup_is_card(id@);
        }
        self.by_id.get(id.as_str())
    }

    /// All cards with a name, in the order of their ids; the case of ASCII letters does not
    /// count.
    pub fn find_by_name(&self, name: &str) -> (r: Vec<&CardMetadata>)
        requires
            self.wf(),
        ensures
            found_cards(r@) == self.cards().filter(
                |c: CardModel| lower_ascii_text(c.name) == lower_ascii_text(trimmed(name@)),
            ),
    {
        let wanted_text = chars_of(name);
        let wanted = text::trim_chars(wanted_text.as_slice());
        let ghost keep = |c: CardModel|
            lower_ascii_text(c.name) == lower_ascii_text(trimmed(name@));
        let mut found: Vec<&CardMetadata> = Vec::new();
        let mut i: usize = 0;
        assert(self.cards().take(0).filter(keep) =~= Seq::<CardModel>::empty()) by {
            reveal(Seq::filter);
        }
        assert(found_cards(found@) =~= Seq::<CardModel>::empty());
        while i < self.by_id.len()
            invariant
                i <= self.cards().len(),
                self.by_id.wf(),
                wanted@ == trimmed(name@),
                keep == (|c: CardModel|
                    lower_ascii_text(c.name) == lower_ascii_text(trimmed(name@))),
                found_cards(found@) == self.cards().take(i as int).filter(keep),
            decreases self.cards().len() - i,
        {
            let card = self.by_id.entry_at(i);
            let own = chars_of(card.name.as_str());
            let same = text::eq_ignore_ascii_case(own.as_slice(), wanted);
            proof {
                filter_step(self.cards(), keep, i as int);
            }
            let ghost before = found@;
            if same {
                found.push(card);
                assert(found_cards(found@) =~= found_cards(before).push(card@));
            }
            i = i + 1;
        }
        assert(self.cards().take(i as int) =~= self.cards());
        found
    }

    /// The collectible cards whose name, read from the screen, would be this one. Nothing is
    /// guessed: another name never matches.
    pub fn find_collectible_by_ocr_name(&self, name: &str) -> (r: Vec<&CardMetadata>)
        requires
            self.wf(),
        ensures
            found_cards(r@) == (if ocr_name(name@).len() == 0 {
                Seq::<CardModel>::empty()
            } else {
                self.cards().filter(
                    |c: CardModel| collectible(c) && ocr_name(c.name) == ocr_name(name@),
                )
            }),
    {
        let wanted = normalize_ocr_name(name);
        let ghost keep = |c: CardModel| collectible(c) && ocr_name(c.name) == ocr_name(name@);
        let mut found: Vec<&CardMetadata> = Vec::new();
        assert(found_cards(found@) =~= Seq::<CardModel>::empty());
        if wanted.as_str().is_empty() {
            return found;
        }
        let mut i: usize = 0;
        assert(self.cards().take(0).filter(keep) =~= Seq::<CardModel>::empty()) by {
            reveal(Seq::filter);
        }
        while i < self.by_id.len()
            invariant
                i <= self.cards().len(),
                self.by_id.wf(),
                wanted@ == ocr_name(name@),
                keep == (|c: CardModel| collectible(c) && ocr_name(c.name) == ocr_name(name@)),
                found_cards(found@) == self.cards().take(i as int).filter(keep),
            decreases self.cards().len() - i,
        {
            let card = self.by_id.entry_at(i);
            let known = match card.collectible {
                Some(b) => b,
                None => false,
            };
            let same = known && text::str_eq(
                normalize_ocr_name(card.name.as_str()).as_str(),
                wanted.as_str(),
            );
            proof {
                filter_step(self.cards(), keep, i as int);
            }
            let ghost before = found@;
            if same {
                found.push(card);
                assert(found_cards(found@) =~= found_cards(before).push(card@));
            }
            i = i + 1;
        }
        assert(self.cards().take(i as int) =~= self.cards());
        found
    }

    /// The collectible cards whose names are within a few edits of a name of at least six
    /// characters, with the number of edits.
    pub fn find_collectible_by_ocr_name_near(&self, name: &str, maximum_distance: usize) -> (r: Vec<
        (&CardMetadata, usize),
    >)
        requires
            self.wf(),
        ensures
            near_cards(r@) == (if ocr_name(name@).len() < 6 {
                Seq::<(CardModel, nat)>::empty()
            } else {
                cards_near(self.cards(), ocr_name(name@), maximum_distance as nat)
            }),
    {
        let wanted = normalize_ocr_name(name);
        let mut found: Vec<(&CardMetadata, usize)> = Vec::new();
        assert(near_cards(found@) =~= Seq::<(CardModel, nat)>::empty());
        let wanted_chars = chars_of(wanted.as_str());
        if wanted_chars.len() < 6 {
            return found;
        }
        let mut i: usize = 0;
        assert(self.cards().take(0) =~= Seq::<CardModel>::empty());
        while i < self.by_id.len()
            invariant
                i <= self.cards().len(),
                self.by_id.wf(),
                wanted@ == ocr_name(name@),
                near_cards(found@) == cards_near(
                    self.cards().take(i as int),
                    ocr_name(name@),
                    maximum_distance as nat,
                ),
            decreases self.cards().len() - i,
        {
            let card = self.by_id.entry_at(i);
            let known = match card.collectible {
                Some(b) => b,
                None => false,
            };
            proof {
                assert(self.cards().take(i + 1).drop_last() =~= self.cards().take(i as int));
                assert(self.cards().take(i + 1).last() == card@);
            }
            let ghost before = found@;
            if known {
                let distance: usize = levenshtein(
                    wanted.as_str(),
                    normalize_ocr_name(card.name.as_str()).as_str(),
                );
                if distance <= maximum_distance {
                    found.push((card, distance));
                    assert(near_cards(found@) =~= near_cards(before).push(
                        (card@, distance as nat),
                    ));
                }
            }
            i = i + 1;
        }
        assert(self.cards().take(i as int) =~= self.cards());
        found
    }

    /// The number of cards.
    pub fn len(&self) -> (r: usize)
        ensures
            r == self.cards().len(),
    {
        self.by_id.len()
    }

    /// Whether there are no cards.
    pub fn is_empty(&self) -> (r: bool)
        ensures
            r == (self.cards().len() == 0),
    {
        self.by_id.len() == 0
    }

    /// The form in which the cache is saved; `now` stands for an unknown time of update.
    pub fn to_file(&self, now: Timestamp) -> (r: CardCacheFile)
        ensures
            r.format_version == CARD_CACHE_FORMAT_VERSION,
            r.source@ == self.source@,
            r.data_version@ == self.data_version@,
            r.updated_at == (match self.updated_at {
                Some(t) => t,
                None => now,
            }),
            card_models(r.cards@) == self.cards(),
    {
        let mut cards: Vec<CardMetadata> = Vec::new();
        let mut i: usize = 0;
        while i < self.by_id.len()
            invariant
                i <= self.cards().len(),
                card_models(cards@) =~= self.cards().take(i as int),
            decreases self.cards().len() - i,
        {
            let ghost before = cards@;
            let card = self.by_id.entry_at(i).clone();
            cards.push(card);
            assert(card_models(cards@) =~= card_models(before).push(self.cards()[i as int]));
            i = i + 1;
        }
        assert(self.cards().take(i as int) =~= self.cards());
        CardCacheFile {
            format_version: CARD_CACHE_FORMAT_VERSION,
            source: self.source.clone(),
            data_version: self.data_version.clone(),
            updated_at: match self.updated_at {
                Some(t) => t,
                None => now,
            },
            cards,
        }
    }
}

pub(crate) proof fn filter_step<A>(s: Seq<A>, keep: spec_fn(A) -> bool, i: int)
    requires
        0 <= i < s.len(),
    ensures
        s.take(i + 1).filter(keep) == (if keep(s[i]) {
            s.take(i).filter(keep).push(s[i])
        } else {
            s.take(i).filter(keep)
        }),
{
    reveal(Seq::filter);
    assert(s.take(i + 1).drop_last() =~= s.take(i));
    assert(s.take(i + 1).last() == s[i]);
}

/// What is read of the cards that were written is what was written: a card cache comes back from
/// its file.
pub proof fn written_cards_are_read(
    records: Seq<CardModel>,
    written: Seq<CardModel>,
    read: Seq<CardModel>,
)
    requires
        collected(written, records),
        collected(read, written),
    ensures
        read == written,
{
    let ids = written.map_values(|c: CardModel| c.id);
    let read_ids = read.map_values(|c: CardModel| c.id);
    assert forall|i: int| 0 <= i < written.len() implies #[trigger] last_usable(written, i) by {
        assert(written.contains(written[i]));
        assert forall|j: int|
            i < j < written.len() && #[trigger] usable(written[j]) implies written[j].id
            != written[i].id by {
            assert(ids[i] == written[i].id && ids[j] == written[j].id);
            if ids[i] == ids[j] {
                sorted_texts_are_distinct(ids, i, j);
            }
        }
    }
    assert forall|k: Seq<char>| ids.contains(k) <==> read_ids.contains(k) by {
        if ids.contains(k) {
            let i = ids.index_of(k);
            assert(last_usable(written, i));
            assert(read.contains(written[i]));
            let j = read.index_of(written[i]);
            assert(read_ids[j] == k);
        }
        if read_ids.contains(k) {
            let j = read_ids.index_of(k);
            assert(read.contains(read[j]));
            let i = choose|i: int| #[trigger] last_usable(written, i) && written[i] == read[j];
            assert(ids[i] == k);
        }
    }
    sorted_texts_are_unique(ids, read_ids);
    assert(read.len() == read_ids.len() && written.len() == ids.len());
    assert forall|j: int| 0 <= j < read.len() implies read[j] == written[j] by {
        assert(read.contains(read[j]));
        let i = choose|i: int| #[trigger] last_usable(written, i) && written[i] == read[j];
        assert(ids[i] == read_ids[j] && read_ids[j] == ids[j]);
        sorted_texts_are_distinct(ids, i, j);
    }
    assert(read =~= written);
}

/// A card in the public card list.
#[derive(Debug)]
pub struct HearthstoneJsonCard {
    pub id: String,
    pub name: String,
    pub cost: Option<u8>,
    pub durability: Option<u8>,
    pub health: Option<u8>,
    pub card_type: Option<String>,
    pub classes: Vec<String>,
    pub card_class: Option<String>,
    pub collectible: Option<bool>,
    pub set: Option<String>,
    pub dbf_id: Option<u32>,
}

/// What a card of the public list says of a card. A weapon's durability stands under its
/// health, and only in a few old records under its durability.
pub open spec fn imported_card(card: HearthstoneJsonCard) -> CardModel {
    let weapon = match card.card_type {
        Some(t) => lower_ascii_text(t@) == lower_ascii_text("WEAPON"@),
        None => false,
    };
    CardModel {
        id: card.id@,
        name: card.name@,
        cost: card.cost,
        durability: if !weapon {
            None
        } else if card.health is Some {
            card.health
        } else if card.durability is Some && card.durability->0 > 0 {
            card.durability
        } else {
            None
        },
        card_type: opt_text(card.card_type),
        classes: if card.classes@.len() > 0 {
            texts(card.classes@)
        } else {
            match card.card_class {
                Some(c) => seq![c@],
                None => Seq::empty(),
            }
        },
        collectible: card.collectible,
        set: opt_text(card.set),
        dbf_id: card.dbf_id,
    }
}

fn import_card(card: HearthstoneJsonCard) -> (r: CardMetadata)
    ensures
        r@ == imported_card(card),
{
    let weapon = match &card.card_type {
        Some(t) => {
            let own = chars_of(t.as_str());
            let wanted = chars_of("WEAPON");
            text::eq_ignore_ascii_case(own.as_slice(), wanted.as_slice())
        },
        None => false,
    };
    let mut durability: Option<u8> = None;
    if weapon {
        match card.health {
            Some(h) => {
                durability = Some(h);
            },
            None => {
                match card.durability {
                    Some(d) => {
                        if d > 0 {
                            durability = Some(d);
                        }
                    },
                    None => {},
                }
            },
        }
    }
    let mut classes: Vec<String> = card.classes;
    if classes.len() == 0 {
        match card.card_class {
            Some(c) => {
                classes.push(c);
            },
            None => {},
        }
    }
    let r = CardMetadata {
        id: card.id,
        name: card.name,
        cost: card.cost,
        durability,
        card_type: card.card_type,
        classes,
        collectible: card.collectible,
        set: card.set,
        dbf_id: card.dbf_id,
    };
    assert(r@.classes =~= imported_card(card).classes);
    r
}

/// Makes a cache of the public card list.
pub fn import_hearthstonejson(
    raw_cards: Vec<HearthstoneJsonCard>,
    source_url: String,
    data_version: String,
    now: Timestamp,
) -> (r: CardCache)
    ensures
        r.wf(),
        collected(
            r.cards(),
            raw_cards@.map_values(|c: HearthstoneJsonCard| imported_card(c)),
        ),
        r.source@ == source_url@,
        r.data_version@ == data_version@,
        r.updated_at == Some(now),
{
    let ghost wanted = raw_cards@.map_values(|c: HearthstoneJsonCard| imported_card(c));
    let ghost n = raw_cards@.len();
    let mut rest = raw_cards;
    let mut back: Vec<CardMetadata> = Vec::new();
    while rest.len() > 0
        invariant
            rest@.len() + back@.len() == n,
            n == raw_cards@.len(),
            rest@ == raw_cards@.take(rest@.len() as int),
            wanted == raw_cards@.map_values(|c: HearthstoneJsonCard| imported_card(c)),
            forall|i: int| 0 <= i < back@.len() ==> (#[trigger] back@[i])@ == wanted[n - 1 - i],
        decreases rest.len(),
    {
        let raw = rest.pop().unwrap();
        let card = import_card(raw);
        back.push(card);
    }
    let mut cards: Vec<CardMetadata> = Vec::new();
    while back.len() > 0
        invariant
            back@.len() <= n,
            n == wanted.len(),
            forall|i: int| 0 <= i < back@.len() ==> (#[trigger] back@[i])@ == wanted[n - 1 - i],
            card_models(cards@) =~= wanted.take(n - back@.len()),
        decreases back.len(),
    {
        let ghost m = back@.len() as int;
        let ghost before = cards@;
        assert(back@[m - 1]@ == wanted[n - m]);
        let card = back.pop().unwrap();
        cards.push(card);
        assert(card_models(cards@) =~= card_models(before).push(card@));
        assert(wanted.take(n - m + 1) =~= wanted.take(n - m).push(card@));
    }
    assert(wanted.take(n as int) =~= wanted);
    CardCache {
        by_id: CardCache::collect(cards),
        source: source_url,
        data_version,
        updated_at: Some(now),
    }
}

} // verus!
