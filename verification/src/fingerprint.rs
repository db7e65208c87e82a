//! Fingerprints of card art, and how the cards of a catalog are ranked by them.
//!
//! A fingerprint compares the brightness of neighbouring samples on a grid of nine by eight, so it
//! does not change with the overall brightness of a frame.
use crate::frame::{checked, FaultModel, GrayFrame, RecognitionError};
use crate::text::{
    self, str_lt, text_lt, text_lt_irreflexive, text_lt_total, text_lt_transitive, trimmed,
};
use crate::text_map::TextSet;
use vstd::prelude::*;

verus! {

/// The number of samples of a row.
pub const DHASH_SAMPLE_WIDTH: u32 = 9;

/// The number of rows of samples.
pub const DHASH_SAMPLE_HEIGHT: u32 = 8;

/// The number of comparisons.
pub const DHASH_BITS: u32 = 64;

/// The place of a sample in a frame.
pub open spec fn sample_place(sample: int, source_len: int, sample_len: int) -> int {
    sample * source_len / sample_len
}

proof fn samples_stand_inside(sample: int, source_len: int, sample_len: int)
    by (nonlinear_arith)
    requires
        0 <= sample < sample_len,
        0 < source_len,
    ensures
        0 <= sample * source_len / sample_len < source_len,
{
}

fn scaled_coordinate(sample: u32, source_len: u32, sample_len: u32) -> (r: u32)
    requires
        sample < sample_len,
        0 < source_len,
    ensures
        r == sample_place(sample as int, source_len as int, sample_len as int),
        r < source_len,
{
    proof {
        samples_stand_inside(sample as int, source_len as int, sample_len as int);
        assert(0 <= sample * source_len <= 0xffff_ffff * 0xffff_ffff) by (nonlinear_arith)
            requires
                0 <= sample <= 0xffff_ffff,
                0 <= source_len <= 0xffff_ffff,
        ;
    }
    ((sample as u64 * source_len as u64) / sample_len as u64) as u32
}

/// The brightness of a sample.
pub open spec fn sampled(frame: GrayFrame, x: int, y: int) -> u8 {
    frame.at(
        sample_place(x, frame.width as int, DHASH_SAMPLE_WIDTH as int),
        sample_place(y, frame.height as int, DHASH_SAMPLE_HEIGHT as int),
    )
}

/// Whether a comparison finds the sample on the right brighter. Comparisons are numbered row by
/// row, eight to a row.
pub open spec fn brightens(frame: GrayFrame, k: int) -> bool {
    sampled(frame, k % 8 + 1, k / 8) > sampled(frame, k % 8, k / 8)
}

/// The fingerprint that the first comparisons make up.
pub open spec fn hash_of(frame: GrayFrame, n: int) -> u64
    decreases n,
{
    if n <= 0 {
        0
    } else if brightens(frame, n - 1) {
        hash_of(frame, n - 1) | (1u64 << ((n - 1) as u64))
    } else {
        hash_of(frame, n - 1)
    }
}

/// A fingerprint.
#[derive(Clone, Copy, Debug, PartialEq, Eq, PartialOrd, Ord, Hash, Structural)]
pub struct DHash(pub u64);

/// The number of ones in a number's binary digits.
pub open spec fn ones(n: nat) -> nat
    decreases n,
{
    if n == 0 {
        0
    } else {
        ones(n / 2) + n % 2
    }
}

/// The number of comparisons in which two fingerprints differ.
pub open spec fn distance(a: DHash, b: DHash) -> nat {
    ones((a.0 ^ b.0) as nat)
}

/// A power of two.
spec fn two_to(k: nat) -> nat
    decreases k,
{
    if k == 0 {
        1
    } else {
        2 * two_to((k - 1) as nat)
    }
}

proof fn few_digits_have_few_ones(n: nat, k: nat)
    requires
        n < two_to(k),
    ensures
        ones(n) <= k,
    decreases k,
{
    if n > 0 {
        few_digits_have_few_ones(n / 2, (k - 1) as nat);
    }
}

/// Two fingerprints differ in at most all comparisons.
pub proof fn distances_are_bounded(a: DHash, b: DHash)
    ensures
        distance(a, b) <= DHASH_BITS,
{
    let n = (a.0 ^ b.0) as nat;
    assert(two_to(64) == 0x1_0000_0000_0000_0000nat) by {
        reveal_with_fuel(two_to, 65);
    }
    few_digits_have_few_ones(n, 64);
}

/// The order of two fingerprints does not matter for their distance.
pub proof fn distances_are_symmetric(a: DHash, b: DHash)
    ensures
        distance(a, b) == distance(b, a),
{
    let x = a.0;
    let y = b.0;
    assert(x ^ y == y ^ x) by (bit_vector);
}

/// Fingerprints that differ nowhere are the same.
pub proof fn distance_zero_is_equality(a: DHash, b: DHash)
    ensures
        distance(a, b) == 0 <==> a == b,
{
    let x = a.0;
    let y = b.0;
    assert(x ^ y == 0 <==> x == y) by (bit_vector);
    no_ones_is_zero((x ^ y) as nat);
}

proof fn no_ones_is_zero(n: nat)
    ensures
        ones(n) == 0 <==> n == 0,
    decreases n,
{
    if n > 0 {
        no_ones_is_zero(n / 2);
    }
}

/// The bit of a comparison is set exactly where it found the sample on the right brighter.
pub proof fn bits_tell_comparisons(frame: GrayFrame, k: u64)
    requires
        k < 64,
    ensures
        (hash_of(frame, 64) >> k) & 1 == 1 <==> brightens(frame, k as int),
{
    bits_so_far(frame, 64, k);
}

proof fn bits_so_far(frame: GrayFrame, n: int, k: u64)
    requires
        0 <= n <= 64,
        k < 64,
    ensures
        (hash_of(frame, n) >> k) & 1 == 1 <==> k < n && brightens(frame, k as int),
    decreases n,
{
    if n == 0 {
        assert((0u64 >> k) & 1 == 0) by (bit_vector)
            requires
                k < 64,
        ;
    } else {
        bits_so_far(frame, n - 1, k);
        let before = hash_of(frame, n - 1);
        let m = (n - 1) as u64;
        assert(((before | (1u64 << m)) >> k) & 1 == (if k == m {
            1u64
        } else {
            (before >> k) & 1
        })) by (bit_vector)
            requires
                k < 64,
                m < 64,
        ;
        assert((before >> k) & 1 == 0 || (before >> k) & 1 == 1) by (bit_vector);
    }
}

/// Frames that compare alike have the same fingerprint.
proof fn like_frames_hash_alike(a: GrayFrame, b: GrayFrame, n: int)
    requires
        0 <= n <= 64,
        forall|k: int| 0 <= k < 64 ==> #[trigger] brightens(a, k) == brightens(b, k),
    ensures
        hash_of(a, n) == hash_of(b, n),
    decreases n,
{
    if n > 0 {
        like_frames_hash_alike(a, b, n - 1);
        assert(brightens(a, n - 1) == brightens(b, n - 1));
    }
}

/// A change of brightness that keeps the order of the pixels keeps the fingerprint.
pub proof fn brightness_changes_keep_the_fingerprint(a: GrayFrame, b: GrayFrame)
    requires
        a.fault() is None,
        a.width == b.width,
        a.height == b.height,
        a.pixels@.len() == b.pixels@.len(),
        forall|i: int, j: int|
            0 <= i < a.pixels@.len() && 0 <= j < a.pixels@.len() ==> (#[trigger] a.pixels@[i]
                < #[trigger] a.pixels@[j] <==> b.pixels@[i] < b.pixels@[j]),
    ensures
        hash_of(a, 64) == hash_of(b, 64),
{
    assert forall|k: int| 0 <= k < 64 implies #[trigger] brightens(a, k) == brightens(b, k) by {
        let y = sample_place(k / 8, a.height as int, DHASH_SAMPLE_HEIGHT as int);
        let left = sample_place(k % 8, a.width as int, DHASH_SAMPLE_WIDTH as int);
        let right = sample_place(k % 8 + 1, a.width as int, DHASH_SAMPLE_WIDTH as int);
        samples_stand_inside(k / 8, a.height as int, DHASH_SAMPLE_HEIGHT as int);
        samples_stand_inside(k % 8, a.width as int, DHASH_SAMPLE_WIDTH as int);
        samples_stand_inside(k % 8 + 1, a.width as int, DHASH_SAMPLE_WIDTH as int);
        let i = y * a.width + left;
        let j = y * a.width + right;
        assert(0 <= y * a.width && y * a.width + a.width <= a.width * a.height)
            by (nonlinear_arith)
            requires
                0 <= y < a.height,
                0 < a.width,
        ;
        assert(a.pixels@[i] < a.pixels@[j] <==> b.pixels@[i] < b.pixels@[j]);
    }
    like_frames_hash_alike(a, b, 64);
}

impl DHash {
    /// The fingerprint of a frame.
    pub fn from_grayscale(frame: &GrayFrame) -> (r: Result<DHash, RecognitionError>)
        ensures
            match r {
                Err(e) => frame.fault() == Some(e@),
                Ok(hash) => frame.fault() is None && hash.0 == hash_of(*frame, 64),
            },
    {
        match frame.validate() {
            Err(e) => return Err(e),
            Ok(()) => {},
        }
        let mut hash: u64 = 0;
        let mut k: u32 = 0;
        while k < 64
            invariant
                k <= 64,
                frame.fault() is None,
                hash == hash_of(*frame, k as int),
            decreases 64 - k,
        {
            let x: u32 = k % 8;
            let y: u32 = scaled_coordinate(k / 8, frame.height, DHASH_SAMPLE_HEIGHT);
            let left: u8 = frame.pixel(scaled_coordinate(x, frame.width, DHASH_SAMPLE_WIDTH), y);
            let right: u8 = frame.pixel(
                scaled_coordinate(x + 1, frame.width, DHASH_SAMPLE_WIDTH),
                y,
            );
            if right > left {
                hash = hash | (1u64 << (k as u64));
            }
            k = k + 1;
        }
        Ok(DHash(hash))
    }

    /// The number of comparisons in which two fingerprints differ.
    pub fn hamming_distance(self, other: DHash) -> (r: u32)
        ensures
            r == distance(self, other),
            r <= DHASH_BITS,
    {
        proof {
            distances_are_bounded(self, other);
        }
        let mut rest: u64 = self.0 ^ other.0;
        let mut count: u32 = 0;
        while rest > 0
            invariant
                count + ones(rest as nat) == distance(self, other),
                distance(self, other) <= DHASH_BITS,
            decreases rest,
        {
            count = count + (rest % 2) as u32;
            rest = rest / 2;
        }
        count
    }

    /// The fingerprint as sixteen hexadecimal digits.
    pub fn to_hex(self) -> (r: String)
        ensures
            r@ == hex_digits(self.0 as nat, 16),
    {
        let mut out = String::new();
        push_hex(&mut out, self.0, 16);
        assert(out@ =~= hex_digits(self.0 as nat, 16));
        out
    }

    /// Reads a fingerprint from sixteen hexadecimal digits.
    pub fn from_hex(value: &str) -> (r: Option<DHash>)
        ensures
            match r {
                Some(hash) => is_hex_hash(trimmed(value@)) && hash.0 == hex_value(trimmed(value@)),
                None => !is_hex_hash(trimmed(value@)),
            },
    {
        let chars = text::chars_of(value);
        let digits = text::trim_chars(chars.as_slice());
        if digits.len() != 16 {
            return None;
        }
        let mut number: u64 = 0;
        let mut i: usize = 0;
        while i < digits.len()
            invariant
                i <= digits.len(),
                digits@.len() == 16,
                digits@ == trimmed(value@),
                number == hex_value(digits@.take(i as int)),
                forall|k: int| 0 <= k < i ==> is_hex(#[trigger] digits@[k]),
            decreases digits.len() - i,
        {
            let digit: u64 = match read_hex(digits[i]) {
                None => {
                    assert(!is_hex(digits@[i as int]));
                    return None;
                },
                Some(digit) => digit,
            };
            proof {
                let head = digits@.take(i + 1);
                assert(head.drop_last() =~= digits@.take(i as int));
                assert(head.last() == digits@[i as int]);
                assert forall|k: int| 0 <= k < head.len() implies is_hex(#[trigger] head[k]) by {
                    assert(is_hex(digits@[k]));
                }
                hex_values_are_bounded(head);
                sixteens_grow((i + 1) as nat, 16);
                sixteens_are_full();
            }
            number = number * 16 + digit;
            i = i + 1;
        }
        assert(digits@.take(i as int) =~= digits@);
        Some(DHash(number))
    }
}

/// A hexadecimal digit.
pub open spec fn hex_char(n: nat) -> char {
    if n < 10 {
        (48 + n) as u8 as char
    } else {
        (87 + n) as u8 as char
    }
}

/// The last hexadecimal digits of a number.
pub open spec fn hex_digits(n: nat, count: nat) -> Seq<char>
    decreases count,
{
    if count == 0 {
        Seq::empty()
    } else {
        hex_digits(n / 16, (count - 1) as nat).push(hex_char(n % 16))
    }
}

/// Whether a character is a hexadecimal digit.
pub open spec fn is_hex(c: char) -> bool {
    '0' <= c <= '9' || 'a' <= c <= 'f' || 'A' <= c <= 'F'
}

/// The value of a hexadecimal digit.
pub open spec fn hex_digit(c: char) -> nat {
    if '0' <= c <= '9' {
        (c as u32 - 48) as nat
    } else if 'a' <= c <= 'f' {
        (c as u32 - 87) as nat
    } else if 'A' <= c <= 'F' {
        (c as u32 - 55) as nat
    } else {
        0
    }
}

/// The number that hexadecimal digits stand for.
pub open spec fn hex_value(s: Seq<char>) -> nat
    decreases s.len(),
{
    if s.len() == 0 {
        0
    } else {
        hex_value(s.drop_last()) * 16 + hex_digit(s.last())
    }
}

/// Whether a text is a fingerprint: sixteen hexadecimal digits.
pub open spec fn is_hex_hash(s: Seq<char>) -> bool {
    s.len() == 16 && forall|k: int| 0 <= k < s.len() ==> is_hex(#[trigger] s[k])
}

/// A power of sixteen.
spec fn sixteen_to(k: nat) -> nat
    decreases k,
{
    if k == 0 {
        1
    } else {
        16 * sixteen_to((k - 1) as nat)
    }
}

proof fn sixteens_are_full()
    ensures
        sixteen_to(16) == 0x1_0000_0000_0000_0000nat,
{
    reveal_with_fuel(sixteen_to, 17);
}

proof fn sixteens_grow(j: nat, k: nat)
    requires
        j <= k,
    ensures
        sixteen_to(j) <= sixteen_to(k),
    decreases k,
{
    if j < k {
        sixteens_grow(j, (k - 1) as nat);
    }
}

proof fn hex_values_are_bounded(s: Seq<char>)
    requires
        forall|k: int| 0 <= k < s.len() ==> is_hex(#[trigger] s[k]),
    ensures
        hex_value(s) < sixteen_to(s.len()),
    decreases s.len(),
{
    if s.len() > 0 {
        let head = s.drop_last();
        assert forall|k: int| 0 <= k < head.len() implies is_hex(#[trigger] head[k]) by {
            assert(is_hex(s[k]));
        }
        hex_values_are_bounded(head);
        assert(is_hex(s[s.len() - 1]));
    }
}

fn read_hex(c: char) -> (r: Option<u64>)
    ensures
        match r {
            Some(n) => is_hex(c) && n == hex_digit(c) && n < 16,
            None => !is_hex(c),
        },
{
    if '0' <= c && c <= '9' {
        Some((c as u32 - 48) as u64)
    } else if 'a' <= c && c <= 'f' {
        Some((c as u32 - 87) as u64)
    } else if 'A' <= c && c <= 'F' {
        Some((c as u32 - 55) as u64)
    } else {
        None
    }
}

fn push_hex(out: &mut String, n: u64, count: u32)
    ensures
        final(out)@ == old(out)@ + hex_digits(n as nat, count as nat),
    decreases count,
{
    if count > 0 {
        push_hex(out, n / 16, count - 1);
        let d: u8 = (n % 16) as u8;
        if d < 10 {
            out.push((48 + d) as char);
        } else {
            out.push((87 + d) as char);
        }
    }
    assert(out@ =~= old(out)@ + hex_digits(n as nat, count as nat));
}

/// A fingerprint comes back from its hexadecimal digits.
pub proof fn hex_digits_are_read(hash: DHash)
    ensures
        is_hex_hash(hex_digits(hash.0 as nat, 16)),
        hex_value(hex_digits(hash.0 as nat, 16)) == hash.0,
        trimmed(hex_digits(hash.0 as nat, 16)) == hex_digits(hash.0 as nat, 16),
{
    sixteens_are_full();
    digits_come_back(hash.0 as nat, 16);
    let s = hex_digits(hash.0 as nat, 16);
    assert(is_hex(s[0]) && is_hex(s[15]));
    assert(text::trim_start(s) == s);
    assert(text::trim_end(s) == s);
}

proof fn digits_come_back(n: nat, count: nat)
    requires
        n < sixteen_to(count),
    ensures
        hex_digits(n, count).len() == count,
        hex_value(hex_digits(n, count)) == n,
        forall|k: int| 0 <= k < count ==> is_hex(#[trigger] hex_digits(n, count)[k]),
    decreases count,
{
    if count > 0 {
        digits_come_back(n / 16, (count - 1) as nat);
        let s = hex_digits(n, count);
        let head = hex_digits(n / 16, (count - 1) as nat);
        assert(s.drop_last() =~= head);
        assert(s.last() == hex_char(n % 16));
        assert(hex_digit(hex_char(n % 16)) == n % 16);
        assert forall|k: int| 0 <= k < count implies is_hex(#[trigger] s[k]) by {
            if k < count - 1 {
                assert(s[k] == head[k]);
            }
        }
    }
}

/// The fingerprint of a card's art.
#[derive(Debug, PartialEq, Eq)]
pub struct CardArtFingerprint {
    pub card_id: String,
    pub hash: DHash,
}

impl View for CardArtFingerprint {
    type V = (Seq<char>, DHash);

    open spec fn view(&self) -> (Seq<char>, DHash) {
        (self.card_id@, self.hash)
    }
}

impl CardArtFingerprint {
    /// What is wrong with the id of a card.
    pub open spec fn id_fault(card_id: Seq<char>) -> Option<FaultModel> {
        if trimmed(card_id).len() == 0 {
            Some(FaultModel::InvalidCardId)
        } else {
            None
        }
    }

    /// The fingerprint of a card's art.
    pub fn from_grayscale(card_id: String, frame: &GrayFrame) -> (r: Result<
        CardArtFingerprint,
        RecognitionError,
    >)
        ensures
            match r {
                Err(e) => Some(e@) == (if Self::id_fault(card_id@) is Some {
                    Self::id_fault(card_id@)
                } else {
                    frame.fault()
                }),
                Ok(card) => Self::id_fault(card_id@) is None && frame.fault() is None
                    && card.card_id@ == card_id@ && card.hash.0 == hash_of(*frame, 64),
            },
    {
        if text::is_blank(card_id.as_str()) {
            return Err(RecognitionError::InvalidCardId);
        }
        match DHash::from_grayscale(frame) {
            Err(e) => Err(e),
            Ok(hash) => Ok(CardArtFingerprint { card_id, hash }),
        }
    }
}

/// How the fingerprints of a catalog were made.
#[derive(Clone, Copy, Debug, PartialEq, Eq, Structural)]
pub enum FingerprintAlgorithm {
    DHashLumaV1,
}

impl Default for FingerprintAlgorithm {
    fn default() -> (r: Self)
        ensures
            r == FingerprintAlgorithm::DHashLumaV1,
    {
        FingerprintAlgorithm::DHashLumaV1
    }
}

/// The fingerprints of many cards.
#[derive(Debug, PartialEq, Eq)]
pub struct FingerprintCatalog {
    pub algorithm: FingerprintAlgorithm,
    pub cards: Vec<CardArtFingerprint>,
}

/// The fingerprints of a catalog.
pub open spec fn fingerprints(cards: Seq<CardArtFingerprint>) -> Seq<(Seq<char>, DHash)> {
    cards.map_values(|c: CardArtFingerprint| c@)
}

/// Whether an id stands among the first cards.
pub open spec fn named_before(cards: Seq<(Seq<char>, DHash)>, id: Seq<char>, n: int) -> bool {
    exists|k: int| 0 <= k < n && (#[trigger] cards[k]).0 == id
}

/// The first fault among the first cards.
pub open spec fn cards_fault(cards: Seq<(Seq<char>, DHash)>, n: int) -> Option<FaultModel>
    decreases n,
{
    if n <= 0 {
        None
    } else {
        match cards_fault(cards, n - 1) {
            Some(fault) => Some(fault),
            None => if trimmed(cards[n - 1].0).len() == 0 {
                Some(FaultModel::InvalidCardId)
            } else if named_before(cards, cards[n - 1].0, n - 1) {
                Some(FaultModel::DuplicateCardId(cards[n - 1].0))
            } else {
                None
            },
        }
    }
}

/// What is wrong with a catalog.
pub open spec fn catalog_fault(cards: Seq<(Seq<char>, DHash)>) -> Option<FaultModel> {
    if cards.len() == 0 {
        Some(FaultModel::EmptyFingerprintCatalog)
    } else {
        cards_fault(cards, cards.len() as int)
    }
}

proof fn first_fault_stays(cards: Seq<(Seq<char>, DHash)>, i: int, n: int)
    requires
        0 <= i <= n,
        cards_fault(cards, i) is Some,
    ensures
        cards_fault(cards, n) == cards_fault(cards, i),
    decreases n - i,
{
    if i < n {
        first_fault_stays(cards, i + 1, n);
    }
}

/// The cards of a sound catalog have different ids.
pub proof fn catalog_ids_differ(cards: Seq<(Seq<char>, DHash)>, i: int, j: int)
    requires
        catalog_fault(cards) is None,
        0 <= i < j < cards.len(),
    ensures
        cards[i].0 != cards[j].0,
{
    if cards_fault(cards, j + 1) is Some {
        first_fault_stays(cards, j + 1, cards.len() as int);
    }
    if cards[i].0 == cards[j].0 {
        assert(named_before(cards, cards[j].0, j));
    }
}

/// A card with its distance from the fingerprint that was seen.
#[derive(Debug, PartialEq, Eq)]
pub struct RankedCandidate {
    pub card_id: String,
    /// The number of comparisons that differ.
    pub distance_bits: u32,
    /// Of the first card: by how much the second one is further away, where that counts.
    pub margin_bits: Option<u32>,
}

/// The model of a ranked card: its id and its distance.
pub open spec fn ranks(v: Seq<RankedCandidate>) -> Seq<(Seq<char>, nat)> {
    v.map_values(|c: RankedCandidate| (c.card_id@, c.distance_bits as nat))
}

/// Whether a card stands before another one: it is nearer, or as near with a smaller id.
pub open spec fn nearer(a: (Seq<char>, nat), b: (Seq<char>, nat)) -> bool {
    a.1 < b.1 || (a.1 == b.1 && text_lt(a.0, b.0))
}

/// Whether the cards stand in the order of their distance.
pub open spec fn in_order(v: Seq<(Seq<char>, nat)>) -> bool {
    forall|i: int, j: int| 0 <= i < j < v.len() ==> nearer(#[trigger] v[i], #[trigger] v[j])
}

/// The cards with their distance.
pub open spec fn measured(cards: Seq<(Seq<char>, DHash)>, observed: DHash) -> Seq<(Seq<char>, nat)> {
    cards.map_values(|c: (Seq<char>, DHash)| (c.0, distance(observed, c.1)))
}

/// Whether a ranking holds all cards in the order of their distance.
pub open spec fn is_ranking(
    v: Seq<(Seq<char>, nat)>,
    cards: Seq<(Seq<char>, DHash)>,
    observed: DHash,
) -> bool {
    &&& in_order(v)
    &&& v.len() == cards.len()
    &&& forall|c: (Seq<char>, nat)| #[trigger] v.contains(c) <==> measured(cards, observed).contains(c)
}

/// The margin of the first card of a ranking.
pub open spec fn margin(v: Seq<(Seq<char>, nat)>, required: u32) -> Option<nat> {
    if v.len() > 1 && required != 0 {
        Some((v[1].1 - v[0].1) as nat)
    } else {
        None
    }
}

proof fn nearer_is_an_order(a: (Seq<char>, nat), b: (Seq<char>, nat), c: (Seq<char>, nat))
    ensures
        nearer(a, b) && nearer(b, c) ==> nearer(a, c),
        !nearer(a, a),
        a.0 != b.0 ==> nearer(a, b) || nearer(b, a),
{
    if nearer(a, b) && nearer(b, c) && a.1 == b.1 && b.1 == c.1 {
        text_lt_transitive(a.0, b.0, c.0);
    }
    text_lt_irreflexive(a.0);
    text_lt_total(a.0, b.0);
}

fn stands_before(id: &str, bits: u32, other: &RankedCandidate) -> (r: bool)
    ensures
        r == nearer((id@, bits as nat), (other.card_id@, other.distance_bits as nat)),
{
    bits < other.distance_bits || (bits == other.distance_bits && str_lt(
        id,
        other.card_id.as_str(),
    ))
}

/// Puts a card into a ranking.
fn place_card(ranked: &mut Vec<RankedCandidate>, id: &str, bits: u32)
    requires
        in_order(ranks(old(ranked)@)),
        forall|k: int| 0 <= k < old(ranked)@.len() ==> (#[trigger] old(ranked)@[k]).card_id@ != id@,
    ensures
        in_order(ranks(final(ranked)@)),
        final(ranked)@.len() == old(ranked)@.len() + 1,
        forall|c: (Seq<char>, nat)| #[trigger]
            ranks(final(ranked)@).contains(c) <==> ranks(old(ranked)@).contains(c) || c == (
                id@,
                bits as nat,
            ),
        (forall|k: int| 0 <= k < old(ranked)@.len() ==> (#[trigger] old(ranked)@[k]).margin_bits is None)
            ==> forall|k: int|
            0 <= k < final(ranked)@.len() ==> (#[trigger] final(ranked)@[k]).margin_bits is None,
{
    let ghost before = ranks(ranked@);
    let ghost new = (id@, bits as nat);
    let mut at: usize = 0;
    while at < ranked.len() && !stands_before(id, bits, &ranked[at])
        invariant
            at <= ranked.len(),
            before == ranks(ranked@),
            new == (id@, bits as nat),
            in_order(before),
            forall|k: int| 0 <= k < ranked@.len() ==> (#[trigger] ranked@[k]).card_id@ != id@,
            forall|k: int| 0 <= k < at ==> nearer(#[trigger] before[k], new),
        decreases ranked.len() - at,
    {
        proof {
            assert(before[at as int].0 == ranked@[at as int].card_id@);
            nearer_is_an_order(before[at as int], new, new);
        }
        at = at + 1;
    }
    ranked.insert(
        at,
        RankedCandidate { card_id: text::copy(id), distance_bits: bits, margin_bits: None },
    );
    proof {
        let now = ranks(ranked@);
        assert(now =~= before.insert(at as int, new));
        assert forall|i: int, j: int| 0 <= i < j < now.len() implies nearer(
            #[trigger] now[i],
            #[trigger] now[j],
        ) by {
            if i < at && j < at {
                assert(nearer(before[i], before[j]));
            } else if i < at && j == at {
            } else if i < at {
                assert(nearer(before[i], before[j - 1]));
            } else if i == at {
                assert(nearer(new, before[at as int]));
                if j - 1 > at {
                    nearer_is_an_order(new, before[at as int], before[j - 1]);
                }
            } else {
                assert(nearer(before[i - 1], before[j - 1]));
            }
        }
        assert forall|c: (Seq<char>, nat)| #[trigger] now.contains(c) <==> before.contains(c) || c
            == new by {
            if before.contains(c) {
                let k = choose|k: int| 0 <= k < before.len() && before[k] == c;
                if k < at {
                    assert(now[k] == c);
                } else {
                    assert(now[k + 1] == c);
                }
            }
            if c == new {
                assert(now[at as int] == c);
            }
            if now.contains(c) {
                let k = choose|k: int| 0 <= k < now.len() && now[k] == c;
                if k < at {
                    assert(before[k] == c);
                } else if k > at {
                    assert(before[k - 1] == c);
                }
            }
        }
    }
}

impl FingerprintCatalog {
    /// Whether the catalog can be used.
    pub fn validate(&self) -> (r: Result<(), RecognitionError>)
        ensures
            checked(r, catalog_fault(fingerprints(self.cards@))),
    {
        let ghost all = fingerprints(self.cards@);
        if self.cards.len() == 0 {
            return Err(RecognitionError::EmptyFingerprintCatalog);
        }
        let mut seen = TextSet::new();
        let mut i: usize = 0;
        while i < self.cards.len()
            invariant
                i <= self.cards.len(),
                all == fingerprints(self.cards@),
                seen.wf(),
                forall|id: Seq<char>| #[trigger] seen.has(id) <==> named_before(all, id, i as int),
                cards_fault(all, i as int) is None,
            decreases self.cards.len() - i,
        {
            let card = &self.cards[i];
            assert(all[i as int] == card@);
            let ghost before = seen;
            if text::is_blank(card.card_id.as_str()) {
                proof {
                    first_fault_stays(all, i + 1, all.len() as int);
                }
                return Err(RecognitionError::InvalidCardId);
            }
            if seen.contains(card.card_id.as_str()) {
                proof {
                    first_fault_stays(all, i + 1, all.len() as int);
                }
                return Err(RecognitionError::DuplicateCardId(text::copy(card.card_id.as_str())));
            }
            seen.insert(text::copy(card.card_id.as_str()));
            proof {
                assert forall|id: Seq<char>| #[trigger] seen.has(id) <==> named_before(
                    all,
                    id,
                    i + 1,
                ) by {
                    if named_before(all, id, i as int) {
                        let k = choose|k: int| 0 <= k < i && (#[trigger] all[k]).0 == id;
                        assert(all[k].0 == id);
                    }
                    if named_before(all, id, i + 1) {
                        let k = choose|k: int| 0 <= k < i + 1 && (#[trigger] all[k]).0 == id;
                        if k < i {
                            assert(named_before(all, id, i as int));
                        }
                    }
                    if id == card.card_id@ {
                        assert(all[i as int].0 == id);
                    }
                    assert(before.has(id) <==> named_before(all, id, i as int));
                }
            }
            i = i + 1;
        }
        Ok(())
    }

    /// A catalog of cards.
    pub fn new(cards: Vec<CardArtFingerprint>) -> (r: Result<FingerprintCatalog, RecognitionError>)
        ensures
            match r {
                Err(e) => catalog_fault(fingerprints(cards@)) == Some(e@),
                Ok(catalog) => catalog_fault(fingerprints(cards@)) is None && catalog.algorithm
                    == FingerprintAlgorithm::DHashLumaV1 && catalog.cards == cards,
            },
    {
        let catalog = FingerprintCatalog { algorithm: FingerprintAlgorithm::DHashLumaV1, cards };
        match catalog.validate() {
            Err(e) => Err(e),
            Ok(()) => Ok(catalog),
        }
    }

    /// The nearest cards to a fingerprint that was seen, at most so many, with the margin of the
    /// first one. The fingerprints of the catalog are sound.
    pub fn rank_by_distance(&self, observed: DHash, required_margin: u32, most: usize) -> (r: Vec<
        RankedCandidate,
    >)
        requires
            catalog_fault(fingerprints(self.cards@)) is None,
        ensures
            exists|all: Seq<(Seq<char>, nat)>| #[trigger]
                is_ranking(all, fingerprints(self.cards@), observed) && ranks(r@) == all.take(
                    if most < all.len() {
                        most as int
                    } else {
                        all.len() as int
                    },
                ) && forall|k: int|
                    0 <= k < r@.len() ==> margin_is(
                        (#[trigger] r@[k]).margin_bits,
                        if k == 0 {
                            margin(all, required_margin)
                        } else {
                            None
                        },
                    ),
    {
        let ghost cards = fingerprints(self.cards@);
        let ghost wanted = measured(cards, observed);
        let mut ranked: Vec<RankedCandidate> = Vec::new();
        let mut i: usize = 0;
        while i < self.cards.len()
            invariant
                i <= self.cards.len(),
                cards == fingerprints(self.cards@),
                wanted == measured(cards, observed),
                catalog_fault(cards) is None,
                ranked@.len() == i,
                in_order(ranks(ranked@)),
                forall|c: (Seq<char>, nat)| #[trigger]
                    ranks(ranked@).contains(c) <==> wanted.take(i as int).contains(c),
                forall|k: int| 0 <= k < ranked@.len() ==> (#[trigger] ranked@[k]).margin_bits is None,
            decreases self.cards.len() - i,
        {
            let card = &self.cards[i];
            let bits: u32 = observed.hamming_distance(card.hash);
            let ghost before = ranks(ranked@);
            let ghost new = (card.card_id@, bits as nat);
            proof {
                assert(cards[i as int] == card@);
                assert(wanted[i as int] == new);
                assert forall|k: int| 0 <= k < ranked@.len() implies (
                #[trigger] ranked@[k]).card_id@ != card.card_id@ by {
                    let c = before[k];
                    assert(before.contains(c));
                    let m = choose|m: int|
                        0 <= m < wanted.take(i as int).len() && wanted.take(i as int)[m] == c;
                    assert(wanted[m].0 == cards[m].0);
                    catalog_ids_differ(cards, m, i as int);
                }
            }
            place_card(&mut ranked, card.card_id.as_str(), bits);
            proof {
                assert forall|c: (Seq<char>, nat)| #[trigger] ranks(ranked@).contains(c)
                    <==> wanted.take(i + 1).contains(c) by {
                    let longer = wanted.take(i + 1);
                    assert(longer =~= wanted.take(i as int).push(new));
                    if wanted.take(i as int).contains(c) {
                        let m = choose|m: int|
                            0 <= m < wanted.take(i as int).len() && wanted.take(i as int)[m] == c;
                        assert(longer[m] == c);
                    }
                    if c == new {
                        assert(longer[i as int] == c);
                    }
                    if longer.contains(c) {
                        let m = choose|m: int|
                            0 <= m < longer.len() && longer[m] == c;
                        if m < i {
                            assert(wanted.take(i as int)[m] == c);
                        }
                    }
                }
            }
            i = i + 1;
        }
        let ghost all = ranks(ranked@);
        proof {
            assert(wanted.take(i as int) =~= wanted);
            assert(is_ranking(all, cards, observed));
        }
        if ranked.len() > 1 && required_margin != 0 {
            proof {
                assert(nearer(all[0], all[1]));
            }
            let gap: u32 = ranked[1].distance_bits - ranked[0].distance_bits;
            let first = RankedCandidate {
                card_id: text::copy(ranked[0].card_id.as_str()),
                distance_bits: ranked[0].distance_bits,
                margin_bits: Some(gap),
            };
            ranked.set(0, first);
        }
        assert(ranks(ranked@) =~= all);
        let kept: usize = if most < ranked.len() {
            most
        } else {
            ranked.len()
        };
        ranked.truncate(kept);
        assert(ranks(ranked@) =~= all.take(kept as int));
        ranked
    }
}

/// Whether a margin is what the model says.
pub open spec fn margin_is(bits: Option<u32>, model: Option<nat>) -> bool {
    match (bits, model) {
        (Some(n), Some(m)) => n == m,
        (None, None) => true,
        _ => false,
    }
}

} // verus!
