//! Text as sequences of characters: trimming, searching, ordering, numbers.

use vstd::prelude::*;
use vstd::string::*;

verus! {

/// `String::push` appends one character to the end of the string.
pub assume_specification[ String::push ](s: &mut String, c: char)
    ensures
        final(s)@ == old(s)@.push(c),
;

/// The characters with the Unicode `White_Space` property.
pub open spec fn is_space(c: char) -> bool {
    let n = c as u32;
    ||| 0x09 <= n <= 0x0d
    ||| n == 0x20
    ||| n == 0x85
    ||| n == 0xa0
    ||| n == 0x1680
    ||| 0x2000 <= n <= 0x200a
    ||| n == 0x2028
    ||| n == 0x2029
    ||| n == 0x202f
    ||| n == 0x205f
    ||| n == 0x3000
}

/// Whether a character is white space.
pub fn is_whitespace(c: char) -> (r: bool)
    ensures
        r == is_space(c),
{
    let n: u32 = c as u32;
    (0x09 <= n && n <= 0x0d) || n == 0x20 || n == 0x85 || n == 0xa0 || n == 0x1680 || (0x2000 <= n
        && n <= 0x200a) || n == 0x2028 || n == 0x2029 || n == 0x202f || n == 0x205f || n == 0x3000
}

/// The characters of a string slice.
pub fn chars_of(s: &str) -> (r: Vec<char>)
    ensures
        r@ == s@,
{
    let mut out: Vec<char> = Vec::new();
    for c in it: s.chars()
        invariant
            it.seq() == s@,
            out@ == it.seq().take(it.index() as int),
    {
        out.push(c);
        assert(out@ =~= it.seq().take(it.index() + 1));
    }
    assert(out@ =~= s@);
    out
}

/// The string made of the given characters.
pub fn string_of(chars: &[char]) -> (r: String)
    ensures
        r@ == chars@,
{
    let mut out = String::new();
    let mut i: usize = 0;
    while i < chars.len()
        invariant
            i <= chars.len(),
            out@ == chars@.take(i as int),
        decreases chars.len() - i,
    {
        out.push(chars[i]);
        assert(chars@.take(i as int).push(chars@[i as int]) =~= chars@.take(i + 1));
        i = i + 1;
    }
    assert(chars@.take(i as int) =~= chars@);
    out
}

/// The views of a sequence of strings.
pub open spec fn texts(v: Seq<String>) -> Seq<Seq<char>> {
    v.map_values(|s: String| s@)
}

/// A text without its leading white space.
pub open spec fn trim_start(s: Seq<char>) -> Seq<char>
    decreases s.len(),
{
    if s.len() > 0 && is_space(s[0]) {
        trim_start(s.drop_first())
    } else {
        s
    }
}

/// A text without its trailing white space.
pub open spec fn trim_end(s: Seq<char>) -> Seq<char>
    decreases s.len(),
{
    if s.len() > 0 && is_space(s.last()) {
        trim_end(s.drop_last())
    } else {
        s
    }
}

/// A text without leading and trailing white space.
pub open spec fn trimmed(s: Seq<char>) -> Seq<char> {
    trim_end(trim_start(s))
}

/// Drops the leading white space.
pub fn trim_start_chars(s: &[char]) -> (r: &[char])
    ensures
        r@ == trim_start(s@),
{
    let mut i: usize = 0;
    assert(s@.skip(0) =~= s@);
    while i < s.len() && is_whitespace(s[i])
        invariant
            i <= s.len(),
            trim_start(s@.skip(i as int)) == trim_start(s@),
        decreases s.len() - i,
    {
        assert(s@.skip(i as int).drop_first() =~= s@.skip(i + 1));
        i = i + 1;
    }
    let r = vstd::slice::slice_subrange(s, i, s.len());
    assert(r@ =~= s@.skip(i as int));
    r
}

/// Drops the trailing white space.
pub fn trim_end_chars(s: &[char]) -> (r: &[char])
    ensures
        r@ == trim_end(s@),
{
    let mut n: usize = s.len();
    assert(s@.take(n as int) =~= s@);
    while n > 0 && is_whitespace(s[n - 1])
        invariant
            n <= s.len(),
            trim_end(s@.take(n as int)) == trim_end(s@),
        decreases n,
    {
        assert(s@.take(n as int).drop_last() =~= s@.take(n - 1));
        assert(s@.take(n as int).last() == s@[n - 1]);
        n = n - 1;
    }
    let r = vstd::slice::slice_subrange(s, 0, n);
    assert(r@ =~= s@.take(n as int));
    if n > 0 {
        assert(s@.take(n as int).last() == s@[n - 1]);
    }
    r
}

/// Drops the white space at both ends.
pub fn trim_chars(s: &[char]) -> (r: &[char])
    ensures
        r@ == trimmed(s@),
{
    let t = trim_start_chars(s);
    trim_end_chars(t)
}

/// The trimmed text of a string slice.
pub fn trim(s: &str) -> (r: String)
    ensures
        r@ == trimmed(s@),
{
    let v = chars_of(s);
    string_of(trim_chars(v.as_slice()))
}

/// Whether nothing but white space stands in the text.
pub fn is_blank(s: &str) -> (r: bool)
    ensures
        r == (trimmed(s@).len() == 0),
{
    let v = chars_of(s);
    trim_chars(v.as_slice()).len() == 0
}

/// The lower-case form of an ASCII capital; every other character is itself.
pub open spec fn lower_ascii(c: char) -> char {
    if 'A' <= c <= 'Z' {
        (c as u8 + 32) as char
    } else {
        c
    }
}

/// A text with its ASCII capitals in lower case.
pub open spec fn lower_ascii_text(s: Seq<char>) -> Seq<char> {
    s.map_values(|c: char| lower_ascii(c))
}

/// Lower-cases one ASCII capital.
pub fn to_lower_ascii(c: char) -> (r: char)
    ensures
        r == lower_ascii(c),
{
    if 'A' <= c && c <= 'Z' {
        let b: u8 = c as u8;
        (b + 32) as char
    } else {
        c
    }
}

/// Lower-cases the ASCII capitals of a text.
pub fn to_lower_ascii_chars(s: &[char]) -> (r: Vec<char>)
    ensures
        r@ == lower_ascii_text(s@),
{
    let mut out: Vec<char> = Vec::new();
    let mut i: usize = 0;
    while i < s.len()
        invariant
            i <= s.len(),
            out@ =~= lower_ascii_text(s@.take(i as int)),
        decreases s.len() - i,
    {
        out.push(to_lower_ascii(s[i]));
        i = i + 1;
    }
    assert(s@.take(i as int) =~= s@);
    out
}

/// Whether two texts are equal up to the case of ASCII letters.
pub fn eq_ignore_ascii_case(a: &[char], b: &[char]) -> (r: bool)
    ensures
        r == (lower_ascii_text(a@) == lower_ascii_text(b@)),
{
    if a.len() != b.len() {
        assert(lower_ascii_text(a@).len() != lower_ascii_text(b@).len());
        return false;
    }
    let mut i: usize = 0;
    while i < a.len()
        invariant
            i <= a.len(),
            a.len() == b.len(),
            forall|j: int| 0 <= j < i ==> lower_ascii(#[trigger] a@[j]) == lower_ascii(b@[j]),
        decreases a.len() - i,
    {
        if to_lower_ascii(a[i]) != to_lower_ascii(b[i]) {
            assert(lower_ascii_text(a@)[i as int] != lower_ascii_text(b@)[i as int]);
            return false;
        }
        i = i + 1;
    }
    assert(lower_ascii_text(a@) =~= lower_ascii_text(b@));
    true
}

/// Whether two character slices are equal.
pub fn chars_eq(a: &[char], b: &[char]) -> (r: bool)
    ensures
        r == (a@ == b@),
{
    if a.len() != b.len() {
        return false;
    }
    let mut i: usize = 0;
    while i < a.len()
        invariant
            i <= a.len(),
            a.len() == b.len(),
            forall|j: int| 0 <= j < i ==> #[trigger] a@[j] == b@[j],
        decreases a.len() - i,
    {
        if a[i] != b[i] {
            return false;
        }
        i = i + 1;
    }
    assert(a@ =~= b@);
    true
}

/// Whether two string slices hold the same text.
pub fn str_eq(a: &str, b: &str) -> (r: bool)
    ensures
        r == (a@ == b@),
{
    let x = chars_of(a);
    let y = chars_of(b);
    chars_eq(x.as_slice(), y.as_slice())
}

/// Whether `part` stands in `whole` at index `at`.
pub open spec fn occurs_at<T>(whole: Seq<T>, part: Seq<T>, at: int) -> bool {
    &&& 0 <= at
    &&& at + part.len() <= whole.len()
    &&& whole.subrange(at, at + part.len()) == part
}

/// Whether `part` stands anywhere in `whole`.
pub open spec fn contains_part<T>(whole: Seq<T>, part: Seq<T>) -> bool {
    exists|at: int| occurs_at(whole, part, at)
}

/// What stands in a part stands in the whole.
pub proof fn parts_of_parts<T>(whole: Seq<T>, part: Seq<T>, inner: Seq<T>)
    requires
        contains_part(whole, part),
        contains_part(part, inner),
    ensures
        contains_part(whole, inner),
{
    let i = choose|i: int| occurs_at(whole, part, i);
    let j = choose|j: int| occurs_at(part, inner, j);
    assert(whole.subrange(i + j, i + j + inner.len()) =~= part.subrange(j, j + inner.len()));
    assert(occurs_at(whole, inner, i + j));
}

/// Whether `part` stands in `whole` at index `at`.
pub fn chars_at(whole: &[char], part: &[char], at: usize) -> (r: bool)
    ensures
        r == occurs_at(whole@, part@, at as int),
{
    if part.len() > whole.len() || at > whole.len() - part.len() {
        return false;
    }
    let mut i: usize = 0;
    while i < part.len()
        invariant
            i <= part.len(),
            at + part.len() <= whole.len(),
            forall|j: int| 0 <= j < i ==> #[trigger] part@[j] == whole@[at + j],
        decreases part.len() - i,
    {
        if whole[at + i] != part[i] {
            assert(whole@.subrange(at as int, at + part.len())[i as int] != part@[i as int]);
            return false;
        }
        i = i + 1;
    }
    assert(whole@.subrange(at as int, at + part.len()) =~= part@);
    true
}

/// The first index, not below `from`, at which `part` stands in `whole`.
pub fn find_from(whole: &[char], part: &[char], from: usize) -> (r: Option<usize>)
    ensures
        match r {
            Some(at) => {
                &&& from <= at
                &&& occurs_at(whole@, part@, at as int)
                &&& forall|k: int| from <= k < at ==> !occurs_at(whole@, part@, k)
            },
            None => forall|k: int| from <= k ==> !occurs_at(whole@, part@, k),
        },
{
    let mut i: usize = from;
    while i <= whole.len()
        invariant
            from <= i,
            i <= whole.len() + 1 || i == from,
            forall|k: int| from <= k < i ==> !occurs_at(whole@, part@, k),
        decreases whole.len() + 1 - i,
    {
        if chars_at(whole, part, i) {
            return Some(i);
        }
        if i == whole.len() {
            return None;
        }
        i = i + 1;
    }
    None
}

/// Whether `part` stands anywhere in `whole`.
pub fn contains_chars(whole: &[char], part: &[char]) -> (r: bool)
    ensures
        r == contains_part(whole@, part@),
{
    match find_from(whole, part, 0) {
        Some(at) => {
            assert(occurs_at(whole@, part@, at as int));
            true
        },
        None => {
            assert(forall|k: int| occurs_at(whole@, part@, k) ==> 0 <= k);
            false
        },
    }
}

/// Whether `part` stands anywhere in `whole`.
pub fn str_contains(whole: &str, part: &str) -> (r: bool)
    ensures
        r == contains_part(whole@, part@),
{
    let w = chars_of(whole);
    let p = chars_of(part);
    contains_chars(w.as_slice(), p.as_slice())
}

/// Whether the text begins with the given prefix.
pub fn str_starts_with(whole: &str, prefix: &str) -> (r: bool)
    ensures
        r == occurs_at(whole@, prefix@, 0),
{
    let w = chars_of(whole);
    let p = chars_of(prefix);
    chars_at(w.as_slice(), p.as_slice(), 0)
}

/// The order of texts: by the first character that differs, a prefix before the longer text.
pub open spec fn text_lt(a: Seq<char>, b: Seq<char>) -> bool
    decreases a.len(),
{
    if b.len() == 0 {
        false
    } else if a.len() == 0 {
        true
    } else if a[0] != b[0] {
        a[0] < b[0]
    } else {
        text_lt(a.drop_first(), b.drop_first())
    }
}

/// Whether one text comes before another.
pub fn chars_lt(a: &[char], b: &[char]) -> (r: bool)
    ensures
        r == text_lt(a@, b@),
{
    let mut i: usize = 0;
    assert(a@.skip(0) =~= a@);
    assert(b@.skip(0) =~= b@);
    while i < a.len() && i < b.len()
        invariant
            i <= a.len(),
            i <= b.len(),
            text_lt(a@.skip(i as int), b@.skip(i as int)) == text_lt(a@, b@),
        decreases a.len() - i,
    {
        if a[i] != b[i] {
            return a[i] < b[i];
        }
        assert(a@.skip(i as int).drop_first() =~= a@.skip(i + 1));
        assert(b@.skip(i as int).drop_first() =~= b@.skip(i + 1));
        i = i + 1;
    }
    i < b.len()
}

/// Whether one string comes before another.
pub fn str_lt(a: &str, b: &str) -> (r: bool)
    ensures
        r == text_lt(a@, b@),
{
    let x = chars_of(a);
    let y = chars_of(b);
    chars_lt(x.as_slice(), y.as_slice())
}

/// No text comes before itself.
pub proof fn text_lt_irreflexive(a: Seq<char>)
    ensures
        !text_lt(a, a),
    decreases a.len(),
{
    if a.len() > 0 {
        text_lt_irreflexive(a.drop_first());
    }
}

/// The order of texts is transitive.
pub proof fn text_lt_transitive(a: Seq<char>, b: Seq<char>, c: Seq<char>)
    requires
        text_lt(a, b),
        text_lt(b, c),
    ensures
        text_lt(a, c),
    decreases a.len(),
{
    if a.len() > 0 && b.len() > 0 && c.len() > 0 && a[0] == b[0] && b[0] == c[0] {
        text_lt_transitive(a.drop_first(), b.drop_first(), c.drop_first());
    }
}

/// Of two different texts one comes before the other.
pub proof fn text_lt_total(a: Seq<char>, b: Seq<char>)
    ensures
        a == b || text_lt(a, b) || text_lt(b, a),
    decreases a.len(),
{
    if a.len() > 0 && b.len() > 0 && a[0] == b[0] {
        text_lt_total(a.drop_first(), b.drop_first());
        if a.drop_first() == b.drop_first() {
            assert(a =~= seq![a[0]] + a.drop_first());
            assert(b =~= seq![b[0]] + b.drop_first());
        }
    } else if a.len() == 0 && b.len() == 0 {
        assert(a =~= b);
    }
}

/// The decimal digit for a number below ten.
pub open spec fn digit(n: nat) -> char {
    (48 + n) as u8 as char
}

/// A natural number in decimal notation.
pub open spec fn decimal(n: nat) -> Seq<char>
    decreases n,
{
    if n < 10 {
        seq![digit(n)]
    } else {
        decimal(n / 10).push(digit(n % 10))
    }
}

/// Appends a number in decimal notation.
pub fn push_decimal(out: &mut String, n: u64)
    ensures
        final(out)@ == old(out)@ + decimal(n as nat),
    decreases n,
{
    if n < 10 {
        let d: u8 = n as u8;
        out.push((48 + d) as char);
        assert(out@ =~= old(out)@ + decimal(n as nat));
    } else {
        push_decimal(out, n / 10);
        let d: u8 = (n % 10) as u8;
        out.push((48 + d) as char);
        assert(out@ =~= old(out)@ + decimal(n as nat));
    }
}

/// A number in decimal notation.
pub fn decimal_text(n: u64) -> (r: String)
    ensures
        r@ == decimal(n as nat),
{
    let mut out = String::new();
    push_decimal(&mut out, n);
    assert(out@ =~= decimal(n as nat));
    out
}

/// Whether every character is a decimal digit.
pub open spec fn all_digits(s: Seq<char>) -> bool {
    forall|i: int| 0 <= i < s.len() ==> '0' <= #[trigger] s[i] <= '9'
}

/// The number that a sequence of decimal digits stands for.
pub open spec fn digits_value(s: Seq<char>) -> nat
    decreases s.len(),
{
    if s.len() == 0 {
        0
    } else {
        digits_value(s.drop_last()) * 10 + (s.last() as u32 - 48) as nat
    }
}

/// A text without one leading plus sign, where more follows it.
pub open spec fn unsigned_part(s: Seq<char>) -> Seq<char> {
    if s.len() > 1 && s[0] == '+' {
        s.skip(1)
    } else {
        s
    }
}

/// The number that a text stands for, where it is one and not above `max`.
pub open spec fn parsed_number(s: Seq<char>, max: nat) -> Option<nat> {
    let d = unsigned_part(s);
    if d.len() > 0 && all_digits(d) && digits_value(d) <= max {
        Some(digits_value(d))
    } else {
        None
    }
}

/// The digits at the head of a number stand for no more than all of them.
pub proof fn digits_value_grows(s: Seq<char>, i: int)
    requires
        0 <= i <= s.len(),
    ensures
        digits_value(s.take(i)) <= digits_value(s),
    decreases s.len() - i,
{
    if i == s.len() {
        assert(s.take(i) =~= s);
    } else {
        digits_value_grows(s, i + 1);
        assert(s.take(i + 1).drop_last() =~= s.take(i));
    }
}

/// Ten to the power of a number.
pub open spec fn ten_to(n: nat) -> nat
    decreases n,
{
    if n == 0 {
        1
    } else {
        10 * ten_to((n - 1) as nat)
    }
}

/// Digits behind others move these up by their number of places.
pub proof fn digits_behind_digits(a: Seq<char>, b: Seq<char>)
    ensures
        digits_value(a + b) == digits_value(a) * ten_to(b.len()) + digits_value(b),
    decreases b.len(),
{
    if b.len() == 0 {
        assert(a + b =~= a);
        assert(digits_value(a) * 1 == digits_value(a));
        assert(ten_to(b.len()) == 1);
    } else {
        digits_behind_digits(a, b.drop_last());
        assert((a + b).drop_last() =~= a + b.drop_last());
        assert((a + b).last() == b.last());
        let p = ten_to((b.len() - 1) as nat);
        let x = digits_value(a);
        assert(x * (10 * p) == (x * p) * 10) by (nonlinear_arith);
        assert(ten_to(b.len()) == 10 * p);
    }
}

/// Digits stand for less than the power of ten of their number.
pub proof fn digits_are_bounded(s: Seq<char>)
    requires
        all_digits(s),
    ensures
        digits_value(s) < ten_to(s.len()),
    decreases s.len(),
{
    if s.len() > 0 {
        assert forall|i: int| 0 <= i < s.drop_last().len() implies '0' <= #[trigger]
            s.drop_last()[i] <= '9' by {
            assert(s.drop_last()[i] == s[i]);
        }
        digits_are_bounded(s.drop_last());
        assert('0' <= s[s.len() - 1] <= '9');
    }
}

/// A number comes back from its decimal digits.
pub proof fn decimals_are_read(n: nat)
    ensures
        decimal(n).len() > 0,
        all_digits(decimal(n)),
        digits_value(decimal(n)) == n,
    decreases n,
{
    let d = decimal(n);
    if n >= 10 {
        decimals_are_read(n / 10);
        assert(d.drop_last() =~= decimal(n / 10));
    } else {
        assert(d.drop_last() =~= Seq::<char>::empty());
        assert(digits_value(d.drop_last()) == 0);
    }
    assert(d.last() == digit(n % 10));
    assert forall|i: int| 0 <= i < d.len() implies '0' <= #[trigger] d[i] <= '9' by {
        if i < d.len() - 1 {
            assert(d[i] == decimal(n / 10)[i]);
        }
    }
}

/// Reads a number, not above `max`, from a text.
pub fn parse_number(s: &[char], max: u64) -> (r: Option<u64>)
    ensures
        match r {
            Some(n) => parsed_number(s@, max as nat) == Some(n as nat),
            None => parsed_number(s@, max as nat) is None,
        },
{
    let mut start: usize = 0;
    if s.len() > 1 && s[0] == '+' {
        start = 1;
    }
    let d = vstd::slice::slice_subrange(s, start, s.len());
    assert(d@ =~= unsigned_part(s@));
    if d.len() == 0 {
        return None;
    }
    let mut acc: u64 = 0;
    let mut i: usize = 0;
    while i < d.len()
        invariant
            i <= d.len(),
            d@ == unsigned_part(s@),
            acc <= max,
            acc == digits_value(d@.take(i as int)),
            all_digits(d@.take(i as int)),
        decreases d.len() - i,
    {
        let c = d[i];
        if !('0' <= c && c <= '9') {
            assert(!all_digits(d@));
            return None;
        }
        let v: u64 = (c as u32 - 48) as u64;
        proof {
            digits_value_grows(d@, i + 1);
            assert(d@.take(i + 1).drop_last() =~= d@.take(i as int));
            assert(d@.take(i + 1).last() == c);
        }
        if v > max || acc > (max - v) / 10 {
            return None;
        }
        acc = acc * 10 + v;
        assert forall|j: int| 0 <= j < d@.take(i + 1).len() implies '0' <= #[trigger] d@.take(
            i + 1,
        )[j] <= '9' by {
            if j < i {
                assert(d@.take(i as int)[j] == d@[j]);
            }
        }
        i = i + 1;
    }
    assert(d@.take(i as int) =~= d@);
    Some(acc)
}

/// A text with its ASCII letters in upper case.
pub open spec fn upper_ascii(c: char) -> char {
    if 'a' <= c <= 'z' {
        (c as u8 - 32) as char
    } else {
        c
    }
}

/// A text with its ASCII letters in upper case.
pub open spec fn upper_ascii_text(s: Seq<char>) -> Seq<char> {
    s.map_values(|c: char| upper_ascii(c))
}

/// A part of a text stands in upper case in the text in upper case.
pub proof fn upper_parts(whole: Seq<char>, part: Seq<char>)
    requires
        contains_part(whole, part),
    ensures
        contains_part(upper_ascii_text(whole), upper_ascii_text(part)),
{
    let i = choose|i: int| occurs_at(whole, part, i);
    assert(upper_ascii_text(whole).subrange(i, i + part.len()) =~= upper_ascii_text(part)) by {
        assert forall|k: int| 0 <= k < part.len() implies upper_ascii_text(whole)[i + k]
            == upper_ascii_text(part)[k] by {
            assert(whole.subrange(i, i + part.len())[k] == part[k]);
        }
    }
    assert(occurs_at(upper_ascii_text(whole), upper_ascii_text(part), i));
}

/// Upper-cases the ASCII letters of a text.
pub fn to_upper_ascii_chars(s: &[char]) -> (r: Vec<char>)
    ensures
        r@ == upper_ascii_text(s@),
{
    let mut out: Vec<char> = Vec::new();
    let mut i: usize = 0;
    while i < s.len()
        invariant
            i <= s.len(),
            out@ =~= upper_ascii_text(s@.take(i as int)),
        decreases s.len() - i,
    {
        let c = s[i];
        if 'a' <= c && c <= 'z' {
            let b: u8 = c as u8;
            out.push((b - 32) as char);
        } else {
            out.push(c);
        }
        i = i + 1;
    }
    assert(s@.take(i as int) =~= s@);
    out
}

/// What follows the prefix of a text that begins with it.
pub fn strip_prefix(s: &str, prefix: &str) -> (r: Option<String>)
    ensures
        match r {
            Some(rest) => occurs_at(s@, prefix@, 0) && s@ == prefix@ + rest@ && rest@ == s@.skip(
                prefix@.len() as int,
            ),
            None => !occurs_at(s@, prefix@, 0),
        },
{
    let w = chars_of(s);
    let p = chars_of(prefix);
    if !chars_at(w.as_slice(), p.as_slice(), 0) {
        return None;
    }
    let rest = vstd::slice::slice_subrange(w.as_slice(), p.len(), w.len());
    assert(rest@ =~= s@.skip(prefix@.len() as int));
    assert(s@ =~= prefix@ + rest@) by {
        assert(s@.subrange(0, prefix@.len() as int) == prefix@);
        assert(s@ =~= s@.subrange(0, prefix@.len() as int) + s@.skip(prefix@.len() as int));
    }
    Some(string_of(rest))
}

/// A text that is a prefix followed by another text begins with the prefix.
pub proof fn prefix_stands_at_the_head(prefix: Seq<char>, rest: Seq<char>)
    ensures
        occurs_at(prefix + rest, prefix, 0),
        (prefix + rest).skip(prefix.len() as int) == rest,
{
    assert((prefix + rest).subrange(0, prefix.len() as int) =~= prefix);
    assert((prefix + rest).skip(prefix.len() as int) =~= rest);
}

/// A copy of a text.
pub fn copy(s: &str) -> (r: String)
    ensures
        r@ == s@,
{
    string_of(chars_of(s).as_slice())
}

} // verus!
