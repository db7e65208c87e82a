//! Configuration text in sections of assignments, and changes that leave the rest of it alone.
use crate::text::{self, lower_ascii_text, is_space, trim_end, trim_start, trimmed};
use vstd::prelude::*;

verus! {

/// The first place of a character from a place on.
pub open spec fn char_place(s: Seq<char>, c: char, i: int) -> Option<int>
    decreases s.len() - i,
{
    if i < 0 || i >= s.len() {
        None
    } else if s[i] == c {
        Some(i)
    } else {
        char_place(s, c, i + 1)
    }
}

/// The place found is the first: no such character stands before it.
pub proof fn char_place_is_first(s: Seq<char>, c: char, i: int)
    requires
        0 <= i,
    ensures
        match char_place(s, c, i) {
            Some(k) => i <= k < s.len() && s[k] == c && forall|j: int| i <= j < k ==> s[j] != c,
            None => forall|j: int| i <= j < s.len() ==> s[j] != c,
        },
    decreases s.len() - i,
{
    if i < s.len() && s[i] != c {
        char_place_is_first(s, c, i + 1);
    }
}

proof fn char_place_from(s: Seq<char>, c: char, i: int, k: int)
    requires
        0 <= i <= k < s.len(),
        s[k] == c,
        forall|j: int| i <= j < k ==> s[j] != c,
    ensures
        char_place(s, c, i) == Some(k),
    decreases k - i,
{
    if i < k {
        char_place_from(s, c, i + 1, k);
    }
}

/// Finds the first place of a character.
pub fn find_char(s: &[char], c: char, from: usize) -> (r: Option<usize>)
    ensures
        match r {
            Some(k) => char_place(s@, c, from as int) == Some(k as int) && from <= k < s.len(),
            None => char_place(s@, c, from as int) is None,
        },
{
    let mut i: usize = from;
    while i < s.len()
        invariant
            from <= i,
            char_place(s@, c, from as int) == char_place(s@, c, i as int),
        decreases s.len() - i,
    {
        if s[i] == c {
            return Some(i);
        }
        i = i + 1;
    }
    None
}

/// A line without a carriage return at its end.
pub open spec fn without_cr(s: Seq<char>) -> Seq<char> {
    if s.len() > 0 && s.last() == '\r' {
        s.drop_last()
    } else {
        s
    }
}

/// The lines of a text. A line ends with a line feed, which a carriage return may precede; the
/// last may lack its end.
pub open spec fn lines_of(s: Seq<char>) -> Seq<Seq<char>>
    decreases s.len(),
{
    if s.len() == 0 {
        Seq::empty()
    } else {
        match char_place(s, '\n', 0) {
            None => seq![s],
            Some(k) => if 0 <= k < s.len() {
                seq![without_cr(s.take(k))] + lines_of(s.skip(k + 1))
            } else {
                Seq::empty()
            },
        }
    }
}

/// The rows of characters.
pub open spec fn rows(v: Seq<Vec<char>>) -> Seq<Seq<char>> {
    v.map_values(|row: Vec<char>| row@)
}

/// Takes a text apart into its lines.
pub fn split_lines(s: &[char]) -> (r: Vec<Vec<char>>)
    ensures
        rows(r@) == lines_of(s@),
{
    let mut out: Vec<Vec<char>> = Vec::new();
    let mut at: usize = 0;
    assert(s@.skip(0) =~= s@);
    assert(rows(out@) + lines_of(s@) =~= lines_of(s@));
    while at < s.len()
        invariant
            at <= s.len(),
            lines_of(s@) == rows(out@) + lines_of(s@.skip(at as int)),
        decreases s.len() - at,
    {
        let ghost rest = s@.skip(at as int);
        let ghost before = out@;
        let tail = vstd::slice::slice_subrange(s, at, s.len());
        assert(tail@ =~= rest);
        let end: usize = match find_char(tail, '\n', 0) {
            None => {
                let row = vstd::slice::slice_to_vec(tail);
                out.push(row);
                assert(rows(out@) =~= rows(before) + seq![rest]);
                return out;
            },
            Some(k) => at + k,
        };
        let last: usize = if end > at && s[end - 1] == '\r' {
            end - 1
        } else {
            end
        };
        let part = vstd::slice::slice_subrange(s, at, last);
        assert(part@ =~= without_cr(rest.take(end - at)));
        let row = vstd::slice::slice_to_vec(part);
        out.push(row);
        proof {
            assert(rest.skip(end - at + 1) =~= s@.skip(end + 1));
            assert(rows(out@) =~= rows(before).push(part@));
            assert(rows(before) + (seq![part@] + lines_of(s@.skip(end + 1))) =~= rows(out@)
                + lines_of(s@.skip(end + 1)));
        }
        at = end + 1;
    }
    assert(s@.skip(at as int) =~= Seq::<char>::empty());
    assert(rows(out@) + Seq::<Seq<char>>::empty() =~= rows(out@));
    out
}

/// Lines, each with its ending.
pub open spec fn terminated(lines: Seq<Seq<char>>, ending: Seq<char>) -> Seq<char>
    decreases lines.len(),
{
    if lines.len() == 0 {
        Seq::empty()
    } else {
        lines[0] + ending + terminated(lines.skip(1), ending)
    }
}

/// The name of the section that a line begins.
pub open spec fn header_name(line: Seq<char>) -> Option<Seq<char>> {
    let t = trimmed(line);
    if t.len() >= 2 && t[0] == '[' && t.last() == ']' {
        Some(trimmed(t.subrange(1, t.len() - 1)))
    } else {
        None
    }
}

fn find_header(line: &[char]) -> (r: Option<Vec<char>>)
    ensures
        (match r {
            Some(name) => Some(name@),
            None => None,
        }) == header_name(line@),
{
    let t = text::trim_chars(line);
    if t.len() >= 2 && t[0] == '[' && t[t.len() - 1] == ']' {
        let inner = vstd::slice::slice_subrange(t, 1, t.len() - 1);
        Some(vstd::slice::slice_to_vec(text::trim_chars(inner)))
    } else {
        None
    }
}

/// The key of an assignment, in lower case.
pub open spec fn key_of(line: Seq<char>) -> Option<Seq<char>> {
    match char_place(line, '=', 0) {
        Some(k) => Some(lower_ascii_text(trimmed(line.take(k)))),
        None => None,
    }
}

/// The first place of a comment.
pub open spec fn comment_place(s: Seq<char>, i: int) -> Option<int>
    decreases s.len() - i,
{
    if i < 0 || i >= s.len() {
        None
    } else if s[i] == ';' || s[i] == '#' {
        Some(i)
    } else {
        comment_place(s, i + 1)
    }
}

/// A text before its comment.
pub open spec fn before_comment(s: Seq<char>) -> Seq<char> {
    match comment_place(s, 0) {
        Some(k) => s.take(k),
        None => s,
    }
}

/// The text after the equals sign of an assignment.
pub open spec fn assigned(line: Seq<char>) -> Seq<char> {
    match char_place(line, '=', 0) {
        Some(k) => line.skip(k + 1),
        None => Seq::empty(),
    }
}

/// The value of an assignment, without its comment.
pub open spec fn value_of(line: Seq<char>) -> Seq<char> {
    trimmed(before_comment(assigned(line)))
}

/// Whether a line assigns a key, in any letter case.
pub open spec fn assigns(line: Seq<char>, key: Seq<char>) -> bool {
    key_of(line) == Some(lower_ascii_text(key))
}

fn find_comment(s: &[char]) -> (r: Option<usize>)
    ensures
        match r {
            Some(k) => comment_place(s@, 0) == Some(k as int) && k < s.len(),
            None => comment_place(s@, 0) is None,
        },
{
    let mut i: usize = 0;
    while i < s.len()
        invariant
            i <= s.len(),
            comment_place(s@, 0) == comment_place(s@, i as int),
        decreases s.len() - i,
    {
        if s[i] == ';' || s[i] == '#' {
            return Some(i);
        }
        i = i + 1;
    }
    None
}

fn line_assigns(line: &[char], key: &[char]) -> (r: bool)
    ensures
        r == assigns(line@, key@),
{
    match find_char(line, '=', 0) {
        None => false,
        Some(k) => {
            let name = vstd::slice::slice_subrange(line, 0, k);
            assert(name@ =~= line@.take(k as int));
            text::eq_ignore_ascii_case(text::trim_chars(name), key)
        },
    }
}

fn line_value(line: &[char]) -> (r: Vec<char>)
    ensures
        r@ == value_of(line@),
{
    let after: usize = match find_char(line, '=', 0) {
        None => line.len(),
        Some(k) => k + 1,
    };
    let rest = vstd::slice::slice_subrange(line, after, line.len());
    assert(rest@ =~= assigned(line@));
    let end: usize = match find_comment(rest) {
        Some(k) => k,
        None => rest.len(),
    };
    let value = vstd::slice::slice_subrange(rest, 0, end);
    assert(value@ =~= before_comment(assigned(line@)));
    vstd::slice::slice_to_vec(text::trim_chars(value))
}

/// The white space at the end of a text.
pub open spec fn end_space(s: Seq<char>) -> Seq<char> {
    s.skip(trim_end(s).len() as int)
}

/// The white space at the start of a text.
pub open spec fn start_space(s: Seq<char>) -> Seq<char> {
    s.take(s.len() - trim_start(s).len())
}

/// The comment at the end of a value, with the white space before it.
pub open spec fn kept_comment(s: Seq<char>) -> Seq<char> {
    match comment_place(s, 0) {
        Some(k) => end_space(s.take(k)) + s.skip(k),
        None => Seq::empty(),
    }
}

/// The line that assigns a value in the place of another: indentation and comment stay.
pub open spec fn replaced_line(line: Seq<char>, key: Seq<char>, value: Seq<char>) -> Seq<char> {
    start_space(line) + key + "="@ + value + kept_comment(assigned(line))
}

/// The line that assigns a value.
pub open spec fn new_line(key: Seq<char>, value: Seq<char>) -> Seq<char> {
    key + "="@ + value
}

proof fn trim_shortens(s: Seq<char>)
    ensures
        trim_start(s).len() <= s.len(),
        trim_start(s) == s.skip(s.len() - trim_start(s).len()),
        trim_end(s).len() <= s.len(),
        trim_end(s) == s.take(trim_end(s).len() as int),
    decreases s.len(),
{
    if s.len() > 0 {
        if is_space(s[0]) {
            trim_shortens(s.skip(1));
            assert(s.skip(1).skip(s.skip(1).len() - trim_start(s).len()) =~= s.skip(
                s.len() - trim_start(s).len(),
            ));
        } else {
            assert(s.skip(0) =~= s);
        }
        if is_space(s.last()) {
            trim_shortens(s.drop_last());
            assert(s.drop_last().take(trim_end(s).len() as int) =~= s.take(
                trim_end(s).len() as int,
            ));
        } else {
            assert(s.take(s.len() as int) =~= s);
        }
    } else {
        assert(s.skip(0) =~= s);
        assert(s.take(0) =~= s);
    }
}

fn push_slice(out: &mut Vec<char>, s: &[char])
    ensures
        final(out)@ == old(out)@ + s@,
{
    let mut i: usize = 0;
    assert(old(out)@ + s@.take(0) =~= old(out)@);
    while i < s.len()
        invariant
            i <= s.len(),
            out@ == old(out)@ + s@.take(i as int),
        decreases s.len() - i,
    {
        out.push(s[i]);
        assert(out@ =~= old(out)@ + s@.take(i + 1));
        i = i + 1;
    }
    assert(s@.take(i as int) =~= s@);
}

fn replacement_setting_line(line: &[char], key: &[char], value: &[char]) -> (r: Vec<char>)
    ensures
        r@ == replaced_line(line@, key@, value@),
{
    proof {
        trim_shortens(line@);
        reveal_strlit("=");
    }
    let kept: usize = text::trim_start_chars(line).len();
    let indentation = vstd::slice::slice_subrange(line, 0, line.len() - kept);
    assert(indentation@ =~= start_space(line@));
    let mut out: Vec<char> = Vec::new();
    push_slice(&mut out, indentation);
    push_slice(&mut out, key);
    out.push('=');
    push_slice(&mut out, value);
    let after: usize = match find_char(line, '=', 0) {
        None => line.len(),
        Some(k) => k + 1,
    };
    let rest = vstd::slice::slice_subrange(line, after, line.len());
    assert(rest@ =~= assigned(line@));
    if let Some(k) = find_comment(rest) {
        let prefix = vstd::slice::slice_subrange(rest, 0, k);
        assert(prefix@ =~= rest@.take(k as int));
        proof {
            trim_shortens(prefix@);
        }
        let solid: usize = text::trim_end_chars(prefix).len();
        let space = vstd::slice::slice_subrange(prefix, solid, k);
        assert(space@ =~= end_space(prefix@));
        let comment = vstd::slice::slice_subrange(rest, k, rest.len());
        assert(comment@ =~= rest@.skip(k as int));
        push_slice(&mut out, space);
        push_slice(&mut out, comment);
    }
    assert(out@ =~= replaced_line(line@, key@, value@));
    out
}

/// Whether a line after the first assigns a key.
pub open spec fn assigns_below(lines: Seq<Seq<char>>, key: Seq<char>) -> bool {
    exists|i: int| 1 <= i < lines.len() && assigns(#[trigger] lines[i], key)
}

/// The lines of a section that assign a value: each assignment of the key below the first line is
/// replaced, and where there is none the last line is a new one.
pub open spec fn upserted(lines: Seq<Seq<char>>, key: Seq<char>, value: Seq<char>) -> Seq<
    Seq<char>,
> {
    if assigns_below(lines, key) {
        lines.map(
            |i: int, line: Seq<char>|
                if i >= 1 && assigns(line, key) {
                    replaced_line(line, key, value)
                } else {
                    line
                },
        )
    } else {
        lines.push(new_line(key, value))
    }
}

/// Sets a key in the lines of a section.
pub fn upsert_setting(lines: &mut Vec<Vec<char>>, key: &[char], value: &[char])
    ensures
        rows(final(lines)@) == upserted(rows(old(lines)@), key@, value@),
{
    let ghost first = rows(lines@);
    let mut found = false;
    let mut i: usize = 1;
    while i < lines.len()
        invariant
            1 <= i,
            lines@.len() == first.len(),
            first == rows(old(lines)@),
            found == exists|k: int| 1 <= k < i && k < first.len() && assigns(#[trigger] first[k], key@),
            forall|k: int|
                0 <= k < lines@.len() ==> (#[trigger] lines@[k])@ == if 1 <= k < i && assigns(
                    first[k],
                    key@,
                ) {
                    replaced_line(first[k], key@, value@)
                } else {
                    first[k]
                },
        decreases lines.len() - i,
    {
        assert(lines@[i as int]@ == first[i as int]);
        if line_assigns(lines[i].as_slice(), key) {
            let row = replacement_setting_line(lines[i].as_slice(), key, value);
            lines.set(i, row);
            found = true;
        }
        i = i + 1;
    }
    if !found {
        let ghost before = lines@;
        assert(rows(before) =~= first);
        let mut row: Vec<char> = Vec::new();
        push_slice(&mut row, key);
        row.push('=');
        push_slice(&mut row, value);
        proof {
            reveal_strlit("=");
            assert(row@ =~= new_line(key@, value@));
        }
        lines.push(row);
        assert(rows(lines@) =~= rows(before).push(row@));
    } else {
        assert(rows(lines@) =~= upserted(first, key@, value@));
    }
}

/// A section: its name, and its lines with the one that begins it. The lines before any section
/// have no name.
pub struct IniSection {
    pub name: Option<Vec<char>>,
    pub lines: Vec<Vec<char>>,
}

/// A section, over texts.
#[verifier::ext_equal]
pub struct SectionModel {
    pub name: Option<Seq<char>>,
    pub lines: Seq<Seq<char>>,
}

impl View for IniSection {
    type V = SectionModel;

    open spec fn view(&self) -> SectionModel {
        SectionModel {
            name: match self.name {
                Some(n) => Some(n@),
                None => None,
            },
            lines: rows(self.lines@),
        }
    }
}

/// The models of sections.
pub open spec fn section_models(sections: Seq<IniSection>) -> Seq<SectionModel> {
    sections.map_values(|s: IniSection| s@)
}

/// The sections of a text.
pub open spec fn sections_of(lines: Seq<Seq<char>>) -> Seq<SectionModel>
    decreases lines.len(),
{
    if lines.len() == 0 {
        seq![SectionModel { name: None, lines: Seq::empty() }]
    } else {
        let before = sections_of(lines.drop_last());
        let line = lines.last();
        match header_name(line) {
            Some(name) => before.push(SectionModel { name: Some(name), lines: seq![line] }),
            None => before.drop_last().push(
                SectionModel { name: before.last().name, lines: before.last().lines.push(line) },
            ),
        }
    }
}

proof fn sections_are_not_empty(lines: Seq<Seq<char>>)
    ensures
        sections_of(lines).len() > 0,
    decreases lines.len(),
{
    if lines.len() > 0 {
        sections_are_not_empty(lines.drop_last());
    }
}

/// Takes a text apart into its sections.
pub fn split_sections(source: &[char]) -> (r: Vec<IniSection>)
    ensures
        section_models(r@) == sections_of(lines_of(source@)),
{
    let lines = split_lines(source);
    let ghost all = rows(lines@);
    let mut rest = lines;
    let mut sections: Vec<IniSection> = Vec::new();
    sections.push(IniSection { name: None, lines: Vec::new() });
    assert(section_models(sections@) =~= sections_of(all.take(0))) by {
        assert(section_models(sections@)[0].lines =~= Seq::<Seq<char>>::empty());
    }
    let mut i: usize = 0;
    let n: usize = rest.len();
    while i < n
        invariant
            i <= n,
            n == rest.len(),
            n == all.len(),
            forall|k: int| i <= k < n ==> (#[trigger] rest@[k])@ == all[k],
            sections@.len() > 0,
            section_models(sections@) == sections_of(all.take(i as int)),
        decreases n - i,
    {
        let ghost before = sections@;
        let mut line: Vec<char> = Vec::new();
        rest.set_and_swap(i, &mut line);
        let ghost row = line@;
        proof {
            assert(row == all[i as int]);
            assert(all.take(i + 1).drop_last() =~= all.take(i as int));
            assert(all.take(i + 1).last() == row);
        }
        match find_header(line.as_slice()) {
            Some(name) => {
                let mut own: Vec<Vec<char>> = Vec::new();
                own.push(line);
                assert(rows(own@) =~= seq![row]);
                sections.push(IniSection { name: Some(name), lines: own });
                assert(section_models(sections@) =~= section_models(before).push(
                    SectionModel { name: Some(name@), lines: seq![row] },
                ));
            },
            None => {
                match sections.pop() {
                    None => {},
                    Some(last) => {
                        let mut last = last;
                        let ghost own = last.lines@;
                        last.lines.push(line);
                        assert(rows(last.lines@) =~= rows(own).push(row));
                        let ghost changed = last@;
                        sections.push(last);
                        assert(section_models(sections@) =~= section_models(
                            before,
                        ).drop_last().push(changed));
                    },
                }
            },
        }
        i = i + 1;
    }
    assert(all.take(i as int) =~= all);
    sections
}

/// Whether all characters are white space.
pub open spec fn all_space(s: Seq<char>) -> bool {
    forall|i: int| 0 <= i < s.len() ==> is_space(#[trigger] s[i])
}

/// A key that stands for itself: no white space, no equals sign, no bracket at its start.
pub open spec fn plain_key(k: Seq<char>) -> bool {
    &&& k.len() > 0
    &&& k[0] != '['
    &&& forall|i: int| 0 <= i < k.len() ==> !is_space(#[trigger] k[i]) && k[i] != '='
}

/// A value that stands for itself: no white space and no comment sign.
pub open spec fn plain_value(v: Seq<char>) -> bool {
    &&& v.len() > 0
    &&& forall|i: int|
        0 <= i < v.len() ==> !is_space(#[trigger] v[i]) && v[i] != ';' && v[i] != '#'
}

/// Whether a text is nothing, or a comment with white space before it.
pub open spec fn comment_shape(c: Seq<char>) -> bool {
    c.len() == 0 || exists|m: int|
        0 <= m < c.len() && (c[m] == ';' || c[m] == '#') && all_space(#[trigger] c.take(m))
}

proof fn trim_start_drops_space(ws: Seq<char>, r: Seq<char>)
    requires
        all_space(ws),
        r.len() > 0,
        !is_space(r[0]),
    ensures
        trim_start(ws + r) == r,
    decreases ws.len(),
{
    if ws.len() > 0 {
        assert((ws + r)[0] == ws[0]);
        assert((ws + r).drop_first() =~= ws.drop_first() + r);
        assert(all_space(ws.drop_first())) by {
            assert forall|i: int| 0 <= i < ws.drop_first().len() implies is_space(
                #[trigger] ws.drop_first()[i],
            ) by {
                assert(ws.drop_first()[i] == ws[i + 1]);
            }
        }
        trim_start_drops_space(ws.drop_first(), r);
    } else {
        assert(ws + r =~= r);
    }
}

proof fn trim_end_drops_space(r: Seq<char>, ws: Seq<char>)
    requires
        all_space(ws),
        r.len() > 0,
        !is_space(r.last()),
    ensures
        trim_end(r + ws) == r,
    decreases ws.len(),
{
    if ws.len() > 0 {
        assert((r + ws).last() == ws.last());
        assert((r + ws).drop_last() =~= r + ws.drop_last());
        assert(all_space(ws.drop_last())) by {
            assert forall|i: int| 0 <= i < ws.drop_last().len() implies is_space(
                #[trigger] ws.drop_last()[i],
            ) by {
                assert(ws.drop_last()[i] == ws[i]);
            }
        }
        trim_end_drops_space(r, ws.drop_last());
    } else {
        assert(r + ws =~= r);
    }
}

proof fn start_space_is_space(s: Seq<char>)
    ensures
        all_space(start_space(s)),
    decreases s.len(),
{
    trim_shortens(s);
    if s.len() > 0 && is_space(s[0]) {
        start_space_is_space(s.drop_first());
        trim_shortens(s.drop_first());
        assert(start_space(s) =~= seq![s[0]] + start_space(s.drop_first()));
    }
}

proof fn end_space_is_space(s: Seq<char>)
    ensures
        all_space(end_space(s)),
    decreases s.len(),
{
    trim_shortens(s);
    if s.len() > 0 && is_space(s.last()) {
        end_space_is_space(s.drop_last());
        trim_shortens(s.drop_last());
        assert(end_space(s) =~= end_space(s.drop_last()).push(s.last()));
    }
}

proof fn comment_place_is_first(s: Seq<char>, i: int)
    requires
        0 <= i,
    ensures
        match comment_place(s, i) {
            Some(k) => i <= k < s.len() && (s[k] == ';' || s[k] == '#') && forall|j: int|
                i <= j < k ==> s[j] != ';' && s[j] != '#',
            None => forall|j: int| i <= j < s.len() ==> s[j] != ';' && s[j] != '#',
        },
    decreases s.len() - i,
{
    if i < s.len() && s[i] != ';' && s[i] != '#' {
        comment_place_is_first(s, i + 1);
    }
}

proof fn comment_place_from(s: Seq<char>, i: int, k: int)
    requires
        0 <= i <= k < s.len(),
        s[k] == ';' || s[k] == '#',
        forall|j: int| i <= j < k ==> s[j] != ';' && s[j] != '#',
    ensures
        comment_place(s, i) == Some(k),
    decreases k - i,
{
    if i < k {
        comment_place_from(s, i + 1, k);
    }
}

proof fn kept_comments_have_shape(s: Seq<char>)
    ensures
        comment_shape(kept_comment(s)),
{
    comment_place_is_first(s, 0);
    if let Some(k) = comment_place(s, 0) {
        let ws = end_space(s.take(k));
        end_space_is_space(s.take(k));
        let c = ws + s.skip(k);
        assert(c.take(ws.len() as int) =~= ws);
        assert(c[ws.len() as int] == s[k]);
    }
}

proof fn values_end_before_comments(v: Seq<char>, c: Seq<char>)
    requires
        plain_value(v),
        comment_shape(c),
    ensures
        trimmed(before_comment(v + c)) == v,
        kept_comment(v + c) == c,
{
    let s = v + c;
    comment_place_is_first(s, 0);
    if c.len() == 0 {
        assert(s =~= v);
        match comment_place(s, 0) {
            Some(k) => {
                assert(s[k] == v[k]);
            },
            None => {},
        }
        trim_start_drops_space(Seq::empty(), v);
        assert(Seq::<char>::empty() + v =~= v);
        trim_end_drops_space(v, Seq::empty());
        assert(v + Seq::<char>::empty() =~= v);
        assert(kept_comment(s) =~= c);
    } else {
        let m = choose|m: int|
            0 <= m < c.len() && (c[m] == ';' || c[m] == '#') && all_space(#[trigger] c.take(m));
        let ws = c.take(m);
        let k = v.len() + m;
        assert forall|j: int| 0 <= j < k implies s[j] != ';' && s[j] != '#' by {
            if j < v.len() {
                assert(s[j] == v[j]);
            } else {
                assert(s[j] == ws[j - v.len()]);
                assert(is_space(ws[j - v.len()]));
            }
        }
        assert(s[k] == c[m]);
        comment_place_from(s, 0, k);
        assert(s.take(k) =~= v + ws);
        trim_start_drops_space(Seq::empty(), v + ws);
        assert(Seq::<char>::empty() + (v + ws) =~= v + ws);
        assert((v + ws)[0] == v[0]);
        trim_end_drops_space(v, ws);
        assert(end_space(v + ws) =~= ws);
        assert(s.skip(k) =~= c.skip(m));
        assert(kept_comment(s) =~= c);
    }
}

/// A line that assigns a plain value to a plain key: what it assigns, and that writing it once
/// more changes nothing.
proof fn built_lines(ws: Seq<char>, k: Seq<char>, v: Seq<char>, c: Seq<char>)
    requires
        all_space(ws),
        plain_key(k),
        plain_value(v),
        comment_shape(c),
    ensures
        ({
            let line = ws + k + "="@ + v + c;
            &&& key_of(line) == Some(lower_ascii_text(k))
            &&& value_of(line) == v
            &&& replaced_line(line, k, v) == line
            &&& header_name(line) is None
            &&& char_place(line, '=', 0) is Some
        }),
{
    reveal_strlit("=");
    let line = ws + k + "="@ + v + c;
    let at = ws.len() + k.len();
    assert forall|j: int| 0 <= j < at implies line[j] != '=' by {
        if j < ws.len() {
            assert(line[j] == ws[j]);
            assert(is_space(ws[j]));
        } else {
            assert(line[j] == k[j - ws.len()]);
        }
    }
    assert(line[at as int] == '=');
    char_place_from(line, '=', 0, at as int);
    assert(line.take(at as int) =~= ws + k);
    trim_start_drops_space(ws, k);
    trim_end_drops_space(k, Seq::empty());
    assert(k + Seq::<char>::empty() =~= k);
    assert(line.skip((at + 1) as int) =~= v + c);
    values_end_before_comments(v, c);
    let rest = k + "="@ + v + c;
    assert(line =~= ws + rest);
    assert(rest[0] == k[0]);
    trim_start_drops_space(ws, rest);
    assert(start_space(line) =~= ws);
    assert(replaced_line(line, k, v) =~= line);
    trim_shortens(rest);
    let t = trim_end(rest);
    if t.len() >= 2 {
        assert(t[0] == rest[0]);
    }
}

/// Whether a key is assigned below the first line, and every assignment of it there is already
/// the wanted one.
pub open spec fn settled(lines: Seq<Seq<char>>, k: Seq<char>, v: Seq<char>) -> bool {
    &&& assigns_below(lines, k)
    &&& forall|i: int|
        1 <= i < lines.len() && assigns(#[trigger] lines[i], k) ==> value_of(lines[i]) == v
            && replaced_line(lines[i], k, v) == lines[i]
}

proof fn replaced_lines_are_built(line: Seq<char>, k: Seq<char>, v: Seq<char>)
    requires
        plain_key(k),
        plain_value(v),
    ensures
        ({
            let r = replaced_line(line, k, v);
            &&& key_of(r) == Some(lower_ascii_text(k))
            &&& value_of(r) == v
            &&& replaced_line(r, k, v) == r
            &&& header_name(r) is None
        }),
{
    start_space_is_space(line);
    kept_comments_have_shape(assigned(line));
    built_lines(start_space(line), k, v, kept_comment(assigned(line)));
}

proof fn new_lines_are_built(k: Seq<char>, v: Seq<char>)
    requires
        plain_key(k),
        plain_value(v),
    ensures
        ({
            let r = new_line(k, v);
            &&& key_of(r) == Some(lower_ascii_text(k))
            &&& value_of(r) == v
            &&& replaced_line(r, k, v) == r
            &&& header_name(r) is None
        }),
{
    let e = Seq::<char>::empty();
    built_lines(e, k, v, e);
    assert(e + k + "="@ + v + e =~= new_line(k, v));
}

/// Setting a key settles it.
pub proof fn upserting_settles(lines: Seq<Seq<char>>, k: Seq<char>, v: Seq<char>)
    requires
        lines.len() > 0,
        plain_key(k),
        plain_value(v),
    ensures
        settled(upserted(lines, k, v), k, v),
{
    let now = upserted(lines, k, v);
    if assigns_below(lines, k) {
        let i = choose|i: int| 1 <= i < lines.len() && assigns(#[trigger] lines[i], k);
        replaced_lines_are_built(lines[i], k, v);
        assert(assigns(now[i], k));
        assert forall|j: int|
            1 <= j < now.len() && assigns(#[trigger] now[j], k) implies value_of(now[j]) == v
            && replaced_line(now[j], k, v) == now[j] by {
            replaced_lines_are_built(lines[j], k, v);
        }
    } else {
        new_lines_are_built(k, v);
        assert(assigns(now[lines.len() as int], k));
        assert forall|j: int|
            1 <= j < now.len() && assigns(#[trigger] now[j], k) implies j == lines.len() by {
            if j < lines.len() {
                assert(assigns(lines[j], k));
            }
        }
    }
}

/// Setting a key leaves the other keys as they are.
pub proof fn upserting_keeps_others(
    lines: Seq<Seq<char>>,
    k: Seq<char>,
    v: Seq<char>,
    k2: Seq<char>,
    v2: Seq<char>,
)
    requires
        plain_key(k),
        plain_value(v),
        lower_ascii_text(k) != lower_ascii_text(k2),
        settled(lines, k2, v2),
    ensures
        settled(upserted(lines, k, v), k2, v2),
{
    let now = upserted(lines, k, v);
    let i = choose|i: int| 1 <= i < lines.len() && assigns(#[trigger] lines[i], k2);
    assert(now[i] == lines[i]);
    assert(assigns(now[i], k2));
    assert forall|j: int|
        1 <= j < now.len() && assigns(#[trigger] now[j], k2) implies value_of(now[j]) == v2
        && replaced_line(now[j], k2, v2) == now[j] by {
        if j < lines.len() {
            if assigns_below(lines, k) && assigns(lines[j], k) {
                replaced_lines_are_built(lines[j], k, v);
            }
            assert(now[j] == lines[j]);
        } else {
            new_lines_are_built(k, v);
        }
    }
}

/// Setting a key that is settled changes nothing.
pub proof fn upserting_settled_changes_nothing(lines: Seq<Seq<char>>, k: Seq<char>, v: Seq<char>)
    requires
        settled(lines, k, v),
    ensures
        upserted(lines, k, v) == lines,
{
    assert(upserted(lines, k, v) =~= lines);
}

/// A text on one line.
pub open spec fn one_line(s: Seq<char>) -> bool {
    forall|i: int| 0 <= i < s.len() ==> #[trigger] s[i] != '\n'
}

/// The lines of a named section: the first begins it, no other does, and each is one line.
pub open spec fn section_lines(name: Seq<char>, lines: Seq<Seq<char>>) -> bool {
    &&& lines.len() > 0
    &&& header_name(lines[0]) == Some(name)
    &&& forall|i: int| 1 <= i < lines.len() ==> header_name(#[trigger] lines[i]) is None
    &&& forall|i: int| 0 <= i < lines.len() ==> one_line(#[trigger] lines[i])
}

proof fn plain_texts_are_one_line(k: Seq<char>, v: Seq<char>)
    ensures
        plain_key(k) ==> one_line(k),
        plain_value(v) ==> one_line(v),
{
    assert(is_space('\n'));
    if plain_key(k) {
        assert forall|i: int| 0 <= i < k.len() implies #[trigger] k[i] != '\n' by {
            assert(!is_space(k[i]));
        }
    }
    if plain_value(v) {
        assert forall|i: int| 0 <= i < v.len() implies #[trigger] v[i] != '\n' by {
            assert(!is_space(v[i]));
        }
    }
}

proof fn replaced_lines_are_one_line(line: Seq<char>, k: Seq<char>, v: Seq<char>)
    requires
        one_line(line),
        plain_key(k),
        plain_value(v),
    ensures
        one_line(replaced_line(line, k, v)),
        one_line(new_line(k, v)),
{
    reveal_strlit("=");
    plain_texts_are_one_line(k, v);
    trim_shortens(line);
    let rest = assigned(line);
    char_place_is_first(line, '=', 0);
    comment_place_is_first(rest, 0);
    assert forall|i: int| 0 <= i < rest.len() implies rest[i] != '\n' by {
        assert(exists|j: int| 0 <= j < line.len() && #[trigger] line[j] == rest[i]) by {
            if let Some(p) = char_place(line, '=', 0) {
                assert(line[p + 1 + i] == rest[i]);
            }
        }
    }
    let c = kept_comment(rest);
    assert forall|i: int| 0 <= i < c.len() implies #[trigger] c[i] != '\n' by {
        if let Some(p) = comment_place(rest, 0) {
            trim_shortens(rest.take(p));
            let ws = end_space(rest.take(p));
            if i < ws.len() {
                assert(c[i] == rest[trim_end(rest.take(p)).len() + i]);
            } else {
                assert(c[i] == rest[p + (i - ws.len())]);
            }
        }
    }
    let r = replaced_line(line, k, v);
    let ws = start_space(line);
    assert forall|i: int| 0 <= i < r.len() implies #[trigger] r[i] != '\n' by {
        if i < ws.len() {
            assert(r[i] == line[i]);
        } else if i < ws.len() + k.len() {
            assert(r[i] == k[i - ws.len()]);
        } else if i == ws.len() + k.len() {
        } else if i < ws.len() + k.len() + 1 + v.len() {
            assert(r[i] == v[i - ws.len() - k.len() - 1]);
        } else {
            assert(r[i] == c[i - ws.len() - k.len() - 1 - v.len()]);
        }
    }
    let n = new_line(k, v);
    assert forall|i: int| 0 <= i < n.len() implies #[trigger] n[i] != '\n' by {
        if i < k.len() {
            assert(n[i] == k[i]);
        } else if i > k.len() {
            assert(n[i] == v[i - k.len() - 1]);
        }
    }
}

/// Setting a key keeps a section a section.
pub proof fn upserting_keeps_sections(
    name: Seq<char>,
    lines: Seq<Seq<char>>,
    k: Seq<char>,
    v: Seq<char>,
)
    requires
        section_lines(name, lines),
        plain_key(k),
        plain_value(v),
    ensures
        section_lines(name, upserted(lines, k, v)),
{
    let now = upserted(lines, k, v);
    replaced_lines_are_one_line(Seq::empty(), k, v);
    new_lines_are_built(k, v);
    assert forall|i: int| 0 <= i < now.len() implies one_line(#[trigger] now[i]) && (i >= 1
        ==> header_name(now[i]) is None) by {
        if i < lines.len() {
            replaced_lines_are_one_line(lines[i], k, v);
            replaced_lines_are_built(lines[i], k, v);
        }
    }
}

/// The last value of a key below the first line, among the first lines.
pub open spec fn last_value(lines: Seq<Seq<char>>, key: Seq<char>, n: int) -> Option<Seq<char>>
    decreases n,
{
    if n <= 1 {
        None
    } else if assigns(lines[n - 1], key) {
        Some(value_of(lines[n - 1]))
    } else {
        last_value(lines, key, n - 1)
    }
}

/// Whether a section has a name, in any letter case.
pub open spec fn is_for(section: SectionModel, name: Seq<char>) -> bool {
    section.name matches Some(own) && lower_ascii_text(own) == lower_ascii_text(name)
}

/// The last value of a key in the sections with a name, among the first sections.
pub open spec fn lookup(sections: Seq<SectionModel>, name: Seq<char>, key: Seq<char>, n: int) -> Option<
    Seq<char>,
>
    decreases n,
{
    if n <= 0 {
        None
    } else {
        let s = sections[n - 1];
        let own = last_value(s.lines, key, s.lines.len() as int);
        if is_for(s, name) && own is Some {
            own
        } else {
            lookup(sections, name, key, n - 1)
        }
    }
}

/// Whether some section has a name.
pub open spec fn has_section(sections: Seq<SectionModel>, name: Seq<char>) -> bool {
    exists|i: int| 0 <= i < sections.len() && is_for(#[trigger] sections[i], name)
}

fn section_value(lines: &Vec<Vec<char>>, key: &[char]) -> (r: Option<Vec<char>>)
    ensures
        (match r {
            Some(v) => Some(v@),
            None => None,
        }) == last_value(rows(lines@), key@, lines@.len() as int),
{
    let mut n: usize = lines.len();
    while n > 1
        invariant
            n <= lines.len(),
            last_value(rows(lines@), key@, lines@.len() as int) == last_value(
                rows(lines@),
                key@,
                n as int,
            ),
        decreases n,
    {
        assert(rows(lines@)[n - 1] == lines@[n - 1]@);
        if line_assigns(lines[n - 1].as_slice(), key) {
            return Some(line_value(lines[n - 1].as_slice()));
        }
        n = n - 1;
    }
    None
}

/// Whether a section has a name, in any letter case.
pub fn section_is_for(section: &IniSection, name: &[char]) -> (r: bool)
    ensures
        r == is_for(section@, name@),
{
    match &section.name {
        Some(own) => text::eq_ignore_ascii_case(own.as_slice(), name),
        None => false,
    }
}

/// The value of a key in the sections with a name: the last one counts.
pub fn find_value(sections: &Vec<IniSection>, name: &[char], key: &[char]) -> (r: Option<Vec<char>>)
    ensures
        (match r {
            Some(v) => Some(v@),
            None => None,
        }) == lookup(section_models(sections@), name@, key@, sections@.len() as int),
{
    let ghost all = section_models(sections@);
    let mut n: usize = sections.len();
    while n > 0
        invariant
            n <= sections.len(),
            all == section_models(sections@),
            lookup(all, name@, key@, sections@.len() as int) == lookup(all, name@, key@, n as int),
        decreases n,
    {
        assert(all[n - 1] == sections@[n - 1]@);
        if section_is_for(&sections[n - 1], name) {
            let own = section_value(&sections[n - 1].lines, key);
            if own.is_some() {
                return own;
            }
        }
        n = n - 1;
    }
    None
}

/// Whether some section has a name.
pub fn names_section(sections: &Vec<IniSection>, name: &[char]) -> (r: bool)
    ensures
        r == has_section(section_models(sections@), name@),
{
    let ghost all = section_models(sections@);
    let mut i: usize = 0;
    while i < sections.len()
        invariant
            i <= sections.len(),
            all == section_models(sections@),
            forall|k: int| 0 <= k < i ==> !is_for(#[trigger] all[k], name@),
        decreases sections.len() - i,
    {
        assert(all[i as int] == sections@[i as int]@);
        if section_is_for(&sections[i], name) {
            return true;
        }
        i = i + 1;
    }
    false
}

/// The lines of sections, one after the other.
pub open spec fn flattened(sections: Seq<SectionModel>) -> Seq<Seq<char>>
    decreases sections.len(),
{
    if sections.len() == 0 {
        Seq::empty()
    } else {
        flattened(sections.drop_last()) + sections.last().lines
    }
}

/// Sections as they come out of a text: lines without a section, then named ones.
pub open spec fn sound(sections: Seq<SectionModel>) -> bool {
    &&& sections.len() > 0
    &&& sections[0].name is None
    &&& forall|i: int|
        0 <= i < sections[0].lines.len() ==> header_name(#[trigger] sections[0].lines[i]) is None
            && one_line(sections[0].lines[i])
    &&& forall|i: int|
        1 <= i < sections.len() ==> (#[trigger] sections[i]).name is Some && section_lines(
            sections[i].name->0,
            sections[i].lines,
        )
}

pub proof fn lines_are_one_line(s: Seq<char>)
    ensures
        forall|i: int| 0 <= i < lines_of(s).len() ==> one_line(#[trigger] lines_of(s)[i]),
    decreases s.len(),
{
    if s.len() > 0 {
        char_place_is_first(s, '\n', 0);
        match char_place(s, '\n', 0) {
            None => {},
            Some(k) => {
                lines_are_one_line(s.skip(k + 1));
                let first = without_cr(s.take(k));
                assert(one_line(first)) by {
                    assert forall|i: int| 0 <= i < first.len() implies #[trigger] first[i] != '\n' by {
                        assert(first[i] == s[i]);
                    }
                }
                assert forall|i: int| 0 <= i < lines_of(s).len() implies one_line(
                    #[trigger] lines_of(s)[i],
                ) by {
                    if i > 0 {
                        assert(lines_of(s)[i] == lines_of(s.skip(k + 1))[i - 1]);
                    }
                }
            },
        }
    }
}

/// Taking lines apart into sections loses nothing.
pub proof fn sections_hold_all_lines(lines: Seq<Seq<char>>)
    requires
        forall|i: int| 0 <= i < lines.len() ==> one_line(#[trigger] lines[i]),
    ensures
        sound(sections_of(lines)),
        flattened(sections_of(lines)) == lines,
    decreases lines.len(),
{
    if lines.len() == 0 {
        let s = sections_of(lines);
        assert(flattened(s.drop_last()) =~= Seq::<Seq<char>>::empty());
        assert(flattened(s) =~= lines);
    } else {
        let rest = lines.drop_last();
        let line = lines.last();
        assert forall|i: int| 0 <= i < rest.len() implies one_line(#[trigger] rest[i]) by {
            assert(rest[i] == lines[i]);
        }
        sections_hold_all_lines(rest);
        let before = sections_of(rest);
        let now = sections_of(lines);
        match header_name(line) {
            Some(name) => {
                assert(now.drop_last() =~= before);
                assert(flattened(now) =~= lines);
            },
            None => {
                let last = before.last();
                assert(now.drop_last() =~= before.drop_last());
                assert(flattened(before) == flattened(before.drop_last()) + last.lines);
                assert(now.last().lines == last.lines.push(line));
                assert(flattened(now) == flattened(now.drop_last()) + now.last().lines);
                assert(flattened(now) =~= flattened(before).push(line));
                assert(flattened(now) =~= lines);
                assert forall|i: int| 1 <= i < now.len() implies (#[trigger] now[i]).name is Some
                    && section_lines(now[i].name->0, now[i].lines) by {
                    assert(before[i].name is Some);
                    if i == now.len() - 1 {
                        assert(before[i] == last);
                    } else {
                        assert(now[i] == before[i]);
                    }
                }
            },
        }
    }
}

proof fn more_lines_join_the_last_section(lines: Seq<Seq<char>>, more: Seq<Seq<char>>)
    requires
        forall|i: int| 0 <= i < more.len() ==> header_name(#[trigger] more[i]) is None,
    ensures
        sections_of(lines + more) == sections_of(lines).drop_last().push(
            SectionModel {
                name: sections_of(lines).last().name,
                lines: sections_of(lines).last().lines + more,
            },
        ),
    decreases more.len(),
{
    sections_are_not_empty(lines);
    let before = sections_of(lines);
    if more.len() == 0 {
        assert(lines + more =~= lines);
        assert(before.last().lines + more =~= before.last().lines);
        assert(before.drop_last().push(before.last()) =~= before);
    } else {
        let rest = more.drop_last();
        assert((lines + more).drop_last() =~= lines + rest);
        assert((lines + more).last() == more.last());
        more_lines_join_the_last_section(lines, rest);
        let mid = sections_of(lines + rest);
        assert(mid.drop_last() =~= before.drop_last());
        assert((before.last().lines + rest).push(more.last()) =~= before.last().lines + more);
    }
}

/// Taking the lines of sections apart gives the sections again.
pub proof fn sections_come_back(sections: Seq<SectionModel>)
    requires
        sound(sections),
    ensures
        sections_of(flattened(sections)) == sections,
    decreases sections.len(),
{
    let last = sections.last();
    if sections.len() == 1 {
        let none = Seq::<Seq<char>>::empty();
        assert(flattened(sections.drop_last()) =~= none);
        assert(flattened(sections) =~= none + last.lines);
        more_lines_join_the_last_section(none, last.lines);
        let first = sections_of(none);
        assert(first.drop_last() =~= Seq::<SectionModel>::empty());
        assert(none + last.lines =~= last.lines);
        assert(sections_of(flattened(sections)) =~= sections);
    } else {
        let before = sections.drop_last();
        assert(sound(before)) by {
            assert forall|i: int| 1 <= i < before.len() implies (#[trigger] before[i]).name is Some
                && section_lines(before[i].name->0, before[i].lines) by {
                assert(before[i] == sections[i]);
            }
        }
        sections_come_back(before);
        let head = last.lines[0];
        let body = last.lines.skip(1);
        let lines = flattened(before).push(head);
        assert(lines.drop_last() =~= flattened(before));
        assert(sections[sections.len() - 1] == last);
        assert forall|i: int| 0 <= i < body.len() implies header_name(
            #[trigger] body[i],
        ) is None by {
            assert(body[i] == last.lines[i + 1]);
        }
        more_lines_join_the_last_section(lines, body);
        assert(flattened(sections) =~= lines + body);
        assert(seq![head] + body =~= last.lines);
        let mid = sections_of(lines);
        assert(mid.drop_last() =~= before);
        assert(sections_of(flattened(sections)) =~= sections);
    }
}

proof fn first_line_is_read(line: Seq<char>, ending: Seq<char>, rest: Seq<char>)
    requires
        one_line(line),
        ending == seq!['\n'] || ending == seq!['\r', '\n'],
    ensures
        ({
            let s = line + ending + rest;
            lines_of(s) == seq![
                if ending == seq!['\n'] {
                    without_cr(line)
                } else {
                    line
                },
            ] + lines_of(rest)
        }),
{
    let s = line + ending + rest;
    let k = line.len() + ending.len() - 1;
    assert forall|j: int| 0 <= j < k implies s[j] != '\n' by {
        if j < line.len() {
            assert(s[j] == line[j]);
        }
    }
    assert(s[k] == '\n');
    char_place_from(s, '\n', 0, k);
    assert(s.skip(k + 1) =~= rest);
    if ending == seq!['\n'] {
        assert(s.take(k) =~= line);
    } else {
        assert(s.take(k) =~= line.push('\r'));
        assert(line.push('\r').drop_last() =~= line);
        assert(ending != seq!['\n']) by {
            assert(ending.len() == 2);
        }
    }
}

/// Reading lines that were written gives the lines again. With bare line feeds a carriage return
/// at the end of a line is taken for a part of its ending.
pub proof fn written_lines_are_read(lines: Seq<Seq<char>>, ending: Seq<char>)
    requires
        forall|i: int| 0 <= i < lines.len() ==> one_line(#[trigger] lines[i]),
        ending == seq!['\n'] || ending == seq!['\r', '\n'],
    ensures
        lines_of(terminated(lines, ending)) == if ending == seq!['\n'] {
            lines.map_values(|l: Seq<char>| without_cr(l))
        } else {
            lines
        },
    decreases lines.len(),
{
    assert(seq!['\r', '\n'].len() == 2);
    assert(seq!['\n'].len() == 1);
    if lines.len() == 0 {
        assert(lines_of(terminated(lines, ending)) =~= lines);
        assert(lines.map_values(|l: Seq<char>| without_cr(l)) =~= lines);
    } else {
        let rest = lines.skip(1);
        assert forall|i: int| 0 <= i < rest.len() implies one_line(#[trigger] rest[i]) by {
            assert(rest[i] == lines[i + 1]);
        }
        written_lines_are_read(rest, ending);
        first_line_is_read(lines[0], ending, terminated(rest, ending));
        if ending == seq!['\n'] {
            assert(lines_of(terminated(lines, ending)) =~= lines.map_values(
                |l: Seq<char>| without_cr(l),
            ));
        } else {
            assert(lines_of(terminated(lines, ending)) =~= lines);
        }
    }
}

proof fn trim_ignores_final_cr(s: Seq<char>)
    ensures
        trimmed(s.push('\r')) == trimmed(s),
    decreases s.len(),
{
    let t = s.push('\r');
    assert(is_space('\r'));
    if s.len() == 0 {
        assert(t.drop_first() =~= s);
        assert(trim_start(t) =~= trim_start(s));
    } else if is_space(s[0]) {
        assert(t[0] == s[0]);
        assert(t.drop_first() =~= s.drop_first().push('\r'));
        trim_ignores_final_cr(s.drop_first());
    } else {
        assert(t[0] == s[0]);
        assert(t.drop_last() =~= s);
        assert(t.last() == '\r');
    }
}

/// A carriage return at the end of a line changes nothing of what the line says.
pub proof fn final_cr_says_nothing(line: Seq<char>)
    ensures
        header_name(without_cr(line)) == header_name(line),
        key_of(without_cr(line)) == key_of(line),
        value_of(without_cr(line)) == value_of(line),
{
    let s = without_cr(line);
    if s != line {
        assert(line =~= s.push('\r'));
        trim_ignores_final_cr(s);
        char_place_is_first(s, '=', 0);
        match char_place(s, '=', 0) {
            Some(k) => {
                char_place_from(line, '=', 0, k);
                assert(line.take(k) =~= s.take(k));
                let a = s.skip(k + 1);
                let b = line.skip(k + 1);
                assert(b =~= a.push('\r'));
                comment_place_is_first(a, 0);
                match comment_place(a, 0) {
                    Some(c) => {
                        comment_place_from(b, 0, c);
                        assert(b.take(c) =~= a.take(c));
                    },
                    None => {
                        comment_place_is_first(b, 0);
                        if let Some(c) = comment_place(b, 0) {
                            if c < a.len() {
                                assert(a[c] == b[c]);
                            }
                        }
                        trim_ignores_final_cr(a);
                    },
                }
            },
            None => {
                char_place_is_first(line, '=', 0);
                if let Some(k) = char_place(line, '=', 0) {
                    if k < s.len() {
                        assert(s[k] == line[k]);
                    }
                }
                assert(assigned(s) =~= assigned(line));
            },
        }
    }
}

spec fn same_but_cr(a: Seq<SectionModel>, b: Seq<SectionModel>) -> bool {
    &&& a.len() == b.len()
    &&& forall|i: int|
        0 <= i < a.len() ==> {
            &&& (#[trigger] a[i]).name == b[i].name
            &&& a[i].lines == b[i].lines.map_values(|l: Seq<char>| without_cr(l))
        }
}

proof fn sections_ignore_final_cr(lines: Seq<Seq<char>>)
    ensures
        same_but_cr(
            sections_of(lines.map_values(|l: Seq<char>| without_cr(l))),
            sections_of(lines),
        ),
    decreases lines.len(),
{
    let f = |l: Seq<char>| without_cr(l);
    let cut = lines.map_values(f);
    if lines.len() == 0 {
        assert(cut =~= lines);
        assert(Seq::<Seq<char>>::empty().map_values(f) =~= Seq::<Seq<char>>::empty());
    } else {
        let rest = lines.drop_last();
        sections_ignore_final_cr(rest);
        sections_are_not_empty(rest);
        assert(cut.drop_last() =~= rest.map_values(f));
        assert(cut.last() == without_cr(lines.last()));
        final_cr_says_nothing(lines.last());
        let a = sections_of(cut);
        let b = sections_of(lines);
        let a0 = sections_of(rest.map_values(f));
        let b0 = sections_of(rest);
        match header_name(lines.last()) {
            Some(name) => {
                assert(seq![cut.last()] =~= seq![lines.last()].map_values(f));
                assert forall|i: int| 0 <= i < a.len() implies (#[trigger] a[i]).name == b[i].name
                    && a[i].lines == b[i].lines.map_values(f) by {
                    if i < a0.len() {
                        assert(a[i] == a0[i] && b[i] == b0[i]);
                    }
                }
            },
            None => {
                let n = a0.len() - 1;
                assert(a0[n].name == b0[n].name);
                assert(b0[n].lines.push(lines.last()).map_values(f) =~= b0[n].lines.map_values(
                    f,
                ).push(cut.last()));
                assert forall|i: int| 0 <= i < a.len() implies (#[trigger] a[i]).name == b[i].name
                    && a[i].lines == b[i].lines.map_values(f) by {
                    if i < n {
                        assert(a[i] == a0[i] && b[i] == b0[i]);
                    }
                }
            },
        }
    }
}

proof fn last_value_ignores_final_cr(lines: Seq<Seq<char>>, key: Seq<char>, n: int)
    requires
        n <= lines.len(),
    ensures
        last_value(lines.map_values(|l: Seq<char>| without_cr(l)), key, n) == last_value(
            lines,
            key,
            n,
        ),
    decreases n,
{
    if n > 1 {
        final_cr_says_nothing(lines[n - 1]);
        last_value_ignores_final_cr(lines, key, n - 1);
    }
}

proof fn lookup_ignores_final_cr(
    a: Seq<SectionModel>,
    b: Seq<SectionModel>,
    name: Seq<char>,
    key: Seq<char>,
    n: int,
)
    requires
        same_but_cr(a, b),
        n <= a.len(),
    ensures
        lookup(a, name, key, n) == lookup(b, name, key, n),
    decreases n,
{
    if n > 0 {
        assert(a[n - 1].name == b[n - 1].name);
        last_value_ignores_final_cr(b[n - 1].lines, key, b[n - 1].lines.len() as int);
        lookup_ignores_final_cr(a, b, name, key, n - 1);
    }
}

/// What a text says of a key is what its sections say, whatever ended its lines when it was
/// written.
pub proof fn written_sections_say_the_same(
    sections: Seq<SectionModel>,
    ending: Seq<char>,
    name: Seq<char>,
    key: Seq<char>,
)
    requires
        sound(sections),
        ending == seq!['\n'] || ending == seq!['\r', '\n'],
    ensures
        ({
            let again = sections_of(lines_of(terminated(flattened(sections), ending)));
            &&& lookup(again, name, key, again.len() as int) == lookup(
                sections,
                name,
                key,
                sections.len() as int,
            )
            &&& has_section(again, name) == has_section(sections, name)
        }),
{
    let lines = flattened(sections);
    flattened_lines_are_one_line(sections);
    written_lines_are_read(lines, ending);
    sections_come_back(sections);
    if ending == seq!['\n'] {
        sections_ignore_final_cr(lines);
        let again = sections_of(lines.map_values(|l: Seq<char>| without_cr(l)));
        lookup_ignores_final_cr(again, sections, name, key, again.len() as int);
        if has_section(again, name) {
            let i = choose|i: int|
                0 <= i < again.len() && is_for(#[trigger] again[i], name);
            assert(is_for(sections[i], name));
        }
        if has_section(sections, name) {
            let i = choose|i: int|
                0 <= i < sections.len() && is_for(#[trigger] sections[i], name);
            assert(is_for(again[i], name));
        }
    }
}

pub proof fn flattened_lines_are_one_line(sections: Seq<SectionModel>)
    requires
        forall|i: int, j: int|
            0 <= i < sections.len() && 0 <= j < sections[i].lines.len() ==> one_line(
                #[trigger] sections[i].lines[j],
            ),
    ensures
        forall|i: int| 0 <= i < flattened(sections).len() ==> one_line(
            #[trigger] flattened(sections)[i],
        ),
    decreases sections.len(),
{
    if sections.len() > 0 {
        let before = sections.drop_last();
        assert forall|i: int, j: int|
            0 <= i < before.len() && 0 <= j < before[i].lines.len() implies one_line(
            #[trigger] before[i].lines[j],
        ) by {
            assert(before[i] == sections[i]);
            assert(one_line(sections[i].lines[j]));
        }
        flattened_lines_are_one_line(before);
        let all = flattened(sections);
        let n = flattened(before).len();
        assert forall|i: int| 0 <= i < all.len() implies one_line(#[trigger] all[i]) by {
            if i < n {
                assert(all[i] == flattened(before)[i]);
            } else {
                assert(all[i] == sections[sections.len() - 1].lines[i - n]);
            }
        }
    }
}

} // verus!
