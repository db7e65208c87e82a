//! Reading component logs: complete records only, with their place in the file.
//!
//! Every function takes the bytes that the file holds now. An unterminated last record is
//! never taken for a whole one; it is read again once the game has finished it.

use vstd::prelude::*;
use vstd::utf8::*;

use crate::log_component::LogComponent;
use crate::log_parser;
use crate::log_parser::{line_models, might_emit, stamp_of, LineModel, RawLogLine, Stamp};
use crate::text::{chars_of, contains_part, occurs_at, string_of};

verus! {

/// A place between two records of a component log.
#[derive(Clone, Copy, Debug, PartialEq, Eq, Structural)]
pub struct LogCursor {
    pub byte_offset: u64,
    pub line_number: u64,
}

/// The place before the first record.
pub open spec fn file_start() -> LogCursor {
    LogCursor { byte_offset: 0, line_number: 0 }
}

impl Default for LogCursor {
    fn default() -> (r: Self)
        ensures
            r == file_start(),
    {
        LogCursor { byte_offset: 0, line_number: 0 }
    }
}

/// Why a component log could not be read.
#[derive(Clone, Copy, Debug, PartialEq, Eq, Structural)]
pub enum ReadError {
    EmptyNeedle,
    ZeroLimit,
    NotUtf8,
    LineNumberOverflow,
    UnexpectedEnd,
}

/// The byte that ends a record.
pub const NEWLINE: u8 = 10;

/// `std::str::from_utf8` gives the text of well-formed UTF-8 and refuses everything else.
#[verifier::external_body]
pub(crate) fn decode_text(bytes: &[u8]) -> (r: Option<String>)
    ensures
        match r {
            Some(s) => valid_utf8(bytes@) && s@ == decode_utf8(bytes@),
            None => !valid_utf8(bytes@),
        },
{
    std::str::from_utf8(bytes).ok().map(|s| s.to_owned())
}

/// The first line end at or after an offset.
pub open spec fn newline_from(b: Seq<u8>, at: int) -> Option<int>
    decreases b.len() - at,
{
    if at < 0 || at >= b.len() {
        None
    } else if b[at] == NEWLINE {
        Some(at)
    } else {
        newline_from(b, at + 1)
    }
}

/// The first line end lies in the file, and no other lies before it.
pub proof fn newline_from_is_first(b: Seq<u8>, at: int)
    requires
        0 <= at,
    ensures
        match newline_from(b, at) {
            Some(i) => at <= i < b.len() && b[i] == NEWLINE && forall|k: int|
                at <= k < i ==> b[k] != NEWLINE,
            None => forall|k: int| at <= k < b.len() ==> b[k] != NEWLINE,
        },
    decreases b.len() - at,
{
    if at < b.len() && b[at] != NEWLINE {
        newline_from_is_first(b, at + 1);
    }
}

pub(crate) fn find_newline(b: &[u8], at: usize) -> (r: Option<usize>)
    ensures
        match r {
            Some(i) => newline_from(b@, at as int) == Some(i as int) && at <= i < b.len()
                && b@[i as int] == NEWLINE,
            None => newline_from(b@, at as int) is None,
        },
{
    let mut i: usize = at;
    while i < b.len()
        invariant
            at <= i,
            newline_from(b@, at as int) == newline_from(b@, i as int),
        decreases b.len() - i,
    {
        if b[i] == NEWLINE {
            return Some(i);
        }
        i = i + 1;
    }
    None
}

/// The start of the record that holds the byte at `at`: just after the last line end before it.
pub open spec fn line_start(b: Seq<u8>, at: int) -> int
    decreases at,
{
    if at <= 0 {
        0
    } else if b[at - 1] == NEWLINE {
        at
    } else {
        line_start(b, at - 1)
    }
}

/// The start of a record follows a line end, or begins the file, and no line end lies between
/// it and the byte.
pub proof fn line_start_follows_a_newline(b: Seq<u8>, at: int)
    requires
        0 <= at <= b.len(),
    ensures
        0 <= line_start(b, at) <= at,
        line_start(b, at) > 0 ==> b[line_start(b, at) - 1] == NEWLINE,
        forall|k: int| line_start(b, at) <= k < at ==> b[k] != NEWLINE,
    decreases at,
{
    if at > 0 && b[at - 1] != NEWLINE {
        line_start_follows_a_newline(b, at - 1);
    }
}

fn find_line_start(b: &[u8], offset: usize) -> (r: usize)
    requires
        offset <= b.len(),
    ensures
        r == line_start(b@, offset as int),
        r <= offset,
{
    let mut i: usize = offset;
    while i > 0
        invariant
            i <= offset <= b.len(),
            line_start(b@, offset as int) == line_start(b@, i as int),
        decreases i,
    {
        if b[i - 1] == NEWLINE {
            return i;
        }
        i = i - 1;
    }
    0
}

/// The last place before `below` at which the needle begins.
pub open spec fn last_occurrence(b: Seq<u8>, needle: Seq<u8>, below: int) -> Option<int>
    decreases below,
{
    if below <= 0 {
        None
    } else if occurs_at(b, needle, below - 1) {
        Some(below - 1)
    } else {
        last_occurrence(b, needle, below - 1)
    }
}

/// The last occurrence is one, and the needle begins nowhere after it.
pub proof fn last_occurrence_is_the_newest(b: Seq<u8>, needle: Seq<u8>, below: int)
    ensures
        match last_occurrence(b, needle, below) {
            Some(k) => 0 <= k < below && occurs_at(b, needle, k) && forall|j: int|
                k < j < below ==> !occurs_at(b, needle, j),
            None => forall|j: int| j < below ==> !occurs_at(b, needle, j),
        },
    decreases below,
{
    if below > 0 && !occurs_at(b, needle, below - 1) {
        last_occurrence_is_the_newest(b, needle, below - 1);
    }
}

/// A record that holds a marker.
#[derive(Clone, Copy, Debug, PartialEq, Eq, Structural)]
pub struct ReverseLineMatch {
    pub line_start: u64,
    /// Whether the record is terminated. A marker in an unterminated record is pending.
    pub complete: bool,
}

/// The newest record that holds the needle.
pub open spec fn last_line_with(b: Seq<u8>, needle: Seq<u8>) -> Option<ReverseLineMatch> {
    match last_occurrence(b, needle, b.len() as int) {
        Some(k) => Some(
            ReverseLineMatch {
                line_start: line_start(b, k) as u64,
                complete: newline_from(b, k) is Some,
            },
        ),
        None => None,
    }
}

fn bytes_at(b: &[u8], needle: &[u8], at: usize) -> (r: bool)
    requires
        at < b.len(),
    ensures
        r == occurs_at(b@, needle@, at as int),
{
    if needle.len() > b.len() - at {
        return false;
    }
    let mut i: usize = 0;
    while i < needle.len()
        invariant
            i <= needle.len(),
            at + needle.len() <= b.len(),
            forall|j: int| 0 <= j < i ==> #[trigger] needle@[j] == b@[at + j],
        decreases needle.len() - i,
    {
        if b[at + i] != needle[i] {
            assert(b@.subrange(at as int, at + needle.len())[i as int] != needle@[i as int]);
            return false;
        }
        i = i + 1;
    }
    assert(b@.subrange(at as int, at + needle.len()) =~= needle@);
    true
}

/// The last place at which the needle begins.
pub fn find_subslice_from_end(b: &[u8], needle: &[u8]) -> (r: Option<usize>)
    ensures
        match r {
            Some(k) => last_occurrence(b@, needle@, b.len() as int) == Some(k as int) && k
                < b.len(),
            None => last_occurrence(b@, needle@, b.len() as int) is None,
        },
{
    let mut k: usize = b.len();
    while k > 0
        invariant
            k <= b.len(),
            last_occurrence(b@, needle@, b.len() as int) == last_occurrence(b@, needle@, k as int),
        decreases k,
    {
        if bytes_at(b, needle, k - 1) {
            return Some(k - 1);
        }
        k = k - 1;
    }
    None
}

/// Finds the newest record that holds the needle, terminated or not. The grammar of the record
/// is not looked at.
pub fn find_last_line_containing(b: &[u8], needle: &[u8]) -> (r: Result<
    Option<ReverseLineMatch>,
    ReadError,
>)
    ensures
        r == (if needle.len() == 0 {
            Err::<Option<ReverseLineMatch>, ReadError>(ReadError::EmptyNeedle)
        } else {
            Ok(last_line_with(b@, needle@))
        }),
{
    if needle.len() == 0 {
        return Err(ReadError::EmptyNeedle);
    }
    match find_subslice_from_end(b, needle) {
        None => Ok(None),
        Some(k) => {
            let start: usize = find_line_start(b, k);
            let complete = find_newline(b, k).is_some();
            Ok(Some(ReverseLineMatch { line_start: start as u64, complete }))
        },
    }
}

/// The place after the last complete record, without its line number.
pub open spec fn end_cursor(b: Seq<u8>) -> LogCursor {
    LogCursor { byte_offset: line_start(b, b.len() as int) as u64, line_number: 0 }
}

/// Finds the place after the last complete record.
pub fn tail_cursor(b: &[u8]) -> (r: LogCursor)
    ensures
        r == end_cursor(b@),
{
    let end: usize = find_line_start(b, b.len());
    LogCursor { byte_offset: end as u64, line_number: 0 }
}

/// A text without the line ends and carriage returns at its end.
pub open spec fn trim_line_end(s: Seq<char>) -> Seq<char>
    decreases s.len(),
{
    if s.len() > 0 && (s.last() == '\n' || s.last() == '\r') {
        trim_line_end(s.drop_last())
    } else {
        s
    }
}

fn without_line_end(s: &str) -> (r: String)
    ensures
        r@ == trim_line_end(s@),
{
    let chars = chars_of(s);
    let mut n: usize = chars.len();
    assert(s@.take(n as int) =~= s@);
    while n > 0 && (chars[n - 1] == '\n' || chars[n - 1] == '\r')
        invariant
            n <= chars.len(),
            chars@ == s@,
            trim_line_end(s@.take(n as int)) == trim_line_end(s@),
        decreases n,
    {
        assert(s@.take(n as int).drop_last() =~= s@.take(n - 1));
        assert(s@.take(n as int).last() == s@[n - 1]);
        n = n - 1;
    }
    if n > 0 {
        assert(s@.take(n as int).last() == s@[n - 1]);
    }
    let kept = vstd::slice::slice_subrange(chars.as_slice(), 0, n);
    assert(kept@ =~= s@.take(n as int));
    string_of(kept)
}

/// The end of the complete record at an offset, where there is one.
pub open spec fn record_end(b: Seq<u8>, at: int) -> Result<Option<int>, ReadError> {
    if at >= b.len() {
        Ok(None)
    } else {
        match newline_from(b, at) {
            None => if valid_utf8(b.skip(at)) {
                Ok(None)
            } else {
                Err(ReadError::NotUtf8)
            },
            Some(i) => if valid_utf8(b.subrange(at, i + 1)) {
                Ok(Some(i + 1))
            } else {
                Err(ReadError::NotUtf8)
            },
        }
    }
}

/// The text of the record between two offsets.
pub open spec fn record_text(b: Seq<u8>, at: int, end: int) -> Seq<char> {
    trim_line_end(decode_utf8(b.subrange(at, end)))
}

/// The log line with the given text.
pub open spec fn line_of(component: LogComponent, line_number: u64, offset: u64, raw: Seq<char>) -> LineModel {
    LineModel {
        component,
        line_number,
        byte_offset: offset,
        timestamp_key: stamp_of(raw).0,
        message: stamp_of(raw).1,
        raw,
    }
}

/// What reading one record gives, and where the cursor stands then.
pub open spec fn read_next(component: LogComponent, b: Seq<u8>, cursor: LogCursor) -> (
    LogCursor,
    Result<Option<LineModel>, ReadError>,
) {
    match record_end(b, cursor.byte_offset as int) {
        Err(e) => (cursor, Err(e)),
        Ok(None) => (cursor, Ok(None)),
        Ok(Some(end)) => if cursor.line_number == u64::MAX {
            (cursor, Err(ReadError::LineNumberOverflow))
        } else {
            (
                LogCursor {
                    byte_offset: end as u64,
                    line_number: (cursor.line_number + 1) as u64,
                },
                Ok(
                    Some(
                        line_of(
                            component,
                            (cursor.line_number + 1) as u64,
                            cursor.byte_offset,
                            record_text(b, cursor.byte_offset as int, end),
                        ),
                    ),
                ),
            )
        },
    }
}

/// Reading a record moves the cursor forward, and never past the end of the file.
pub proof fn reading_moves_forward(component: LogComponent, b: Seq<u8>, cursor: LogCursor)
    requires
        b.len() <= u64::MAX,
    ensures
        match read_next(component, b, cursor).1 {
            Ok(Some(line)) => {
                &&& cursor.byte_offset < read_next(component, b, cursor).0.byte_offset <= b.len()
                &&& b[read_next(component, b, cursor).0.byte_offset - 1] == NEWLINE
            },
            _ => read_next(component, b, cursor).0 == cursor,
        },
{
    newline_from_is_first(b, cursor.byte_offset as int);
}

/// All complete records from a cursor on.
pub open spec fn read_all(component: LogComponent, b: Seq<u8>, cursor: LogCursor) -> Result<
    (Seq<LineModel>, LogCursor),
    ReadError,
>
    decreases b.len() - cursor.byte_offset,
{
    let (next, found) = read_next(component, b, cursor);
    match found {
        Err(e) => Err(e),
        Ok(None) => Ok((Seq::empty(), cursor)),
        Ok(Some(line)) => if cursor.byte_offset < next.byte_offset <= b.len() {
            match read_all(component, b, next) {
                Err(e) => Err(e),
                Ok((lines, last)) => Ok((seq![line] + lines, last)),
            }
        } else {
            Ok((Seq::empty(), cursor))
        },
    }
}

/// The next record from a cursor on that can hold an event, and where the cursor stands then.
pub open spec fn next_candidate(component: LogComponent, b: Seq<u8>, cursor: LogCursor) -> (
    LogCursor,
    Result<Option<LineModel>, ReadError>,
)
    decreases b.len() - cursor.byte_offset,
{
    let (next, found) = read_next(component, b, cursor);
    match found {
        Ok(Some(line)) => if might_emit(component, line.raw) {
            (next, found)
        } else if cursor.byte_offset < next.byte_offset <= b.len() {
            next_candidate(component, b, next)
        } else {
            (next, Ok(None))
        },
        _ => (next, found),
    }
}

/// The line that an optional log line stands for.
pub open spec fn opt_line(l: Option<RawLogLine>) -> Option<LineModel> {
    match l {
        Some(line) => Some(line@),
        None => None,
    }
}

/// What a read gave, over texts.
pub open spec fn read_result(r: Result<Option<RawLogLine>, ReadError>) -> Result<
    Option<LineModel>,
    ReadError,
> {
    match r {
        Ok(l) => Ok(opt_line(l)),
        Err(e) => Err(e),
    }
}

/// Whether a log line holds what its record says: the message stands in the record, and the key
/// is that of the time stamp at the record's head.
pub open spec fn as_recorded(line: LineModel) -> bool {
    &&& contains_part(line.raw, line.message)
    &&& forall|stamp: Stamp| #[trigger] stamp.heads(line.raw) ==> line.timestamp_key == stamp.key()
}

/// Makes a log line of a record's text.
pub fn materialize_line(
    component: LogComponent,
    raw: String,
    byte_offset: u64,
    line_number: u64,
) -> (r: RawLogLine)
    ensures
        r@ == line_of(component, line_number, byte_offset, raw@),
        as_recorded(r@),
{
    let (timestamp_key, message) = log_parser::split_timestamp(raw.as_str());
    RawLogLine { component, line_number, byte_offset, timestamp_key, message, raw }
}

/// Reads one component log record by record.
#[derive(Clone, Copy, Debug, PartialEq, Eq, Structural)]
pub struct ComponentLogReader {
    component: LogComponent,
    cursor: LogCursor,
}

impl ComponentLogReader {
    /// The component that is read.
    pub closed spec fn source(&self) -> LogComponent {
        self.component
    }

    /// The place after the last record that was read.
    pub closed spec fn place(&self) -> LogCursor {
        self.cursor
    }

    /// Begins to read at a place.
    pub fn open(component: LogComponent, cursor: LogCursor) -> (r: Self)
        ensures
            r.source() == component,
            r.place() == cursor,
    {
        ComponentLogReader { component, cursor }
    }

    /// The place after the last complete record that was read.
    pub fn cursor(&self) -> (r: LogCursor)
        ensures
            r == self.place(),
    {
        self.cursor
    }

    fn read_next_complete_record(&mut self, b: &[u8]) -> (r: Result<Option<String>, ReadError>)
        ensures
            final(self).source() == old(self).source(),
            final(self).place() == read_next(old(self).source(), b@, old(self).place()).0,
            match r {
                Ok(Some(raw)) => read_next(old(self).source(), b@, old(self).place()).1 == Ok::<
                    Option<LineModel>,
                    ReadError,
                >(
                    Some(
                        line_of(
                            old(self).source(),
                            final(self).place().line_number,
                            old(self).place().byte_offset,
                            raw@,
                        ),
                    ),
                ) && old(self).place().byte_offset < final(self).place().byte_offset <= b.len(),
                Ok(None) => read_next(old(self).source(), b@, old(self).place()).1 == Ok::<
                    Option<LineModel>,
                    ReadError,
                >(None),
                Err(e) => read_next(old(self).source(), b@, old(self).place()).1 == Err::<
                    Option<LineModel>,
                    ReadError,
                >(e),
            },
    {
        if self.cursor.byte_offset >= b.len() as u64 {
            return Ok(None);
        }
        let at: usize = self.cursor.byte_offset as usize;
        match find_newline(b, at) {
            None => {
                let rest = vstd::slice::slice_subrange(b, at, b.len());
                assert(rest@ =~= b@.skip(at as int));
                match decode_text(rest) {
                    Some(_) => Ok(None),
                    None => Err(ReadError::NotUtf8),
                }
            },
            Some(i) => {
                let record = vstd::slice::slice_subrange(b, at, i + 1);
                match decode_text(record) {
                    None => Err(ReadError::NotUtf8),
                    Some(text) => {
                        if self.cursor.line_number == u64::MAX {
                            return Err(ReadError::LineNumberOverflow);
                        }
                        self.cursor = LogCursor {
                            byte_offset: (i + 1) as u64,
                            line_number: self.cursor.line_number + 1,
                        };
                        Ok(Some(without_line_end(text.as_str())))
                    },
                }
            },
        }
    }

    /// Reads the next complete record.
    pub fn next_complete_line(&mut self, b: &[u8]) -> (r: Result<Option<RawLogLine>, ReadError>)
        ensures
            final(self).source() == old(self).source(),
            (final(self).place(), read_result(r)) == read_next(
                old(self).source(),
                b@,
                old(self).place(),
            ),
            r matches Ok(Some(_)) ==> old(self).place().byte_offset < final(self).place().byte_offset <= b.len(),
            r matches Ok(Some(line)) ==> as_recorded(line@),
    {
        let offset: u64 = self.cursor.byte_offset;
        match self.read_next_complete_record(b) {
            Err(e) => Err(e),
            Ok(None) => Ok(None),
            Ok(Some(raw)) => Ok(
                Some(materialize_line(self.component, raw, offset, self.cursor.line_number)),
            ),
        }
    }

    /// Reads on to the next record that can hold an event.
    pub fn next_event_candidate(&mut self, b: &[u8]) -> (r: Result<Option<RawLogLine>, ReadError>)
        ensures
            final(self).source() == old(self).source(),
            (final(self).place(), read_result(r)) == next_candidate(
                old(self).source(),
                b@,
                old(self).place(),
            ),
            r matches Ok(Some(_)) ==> old(self).place().byte_offset < final(self).place().byte_offset <= b.len(),
            r matches Ok(Some(line)) ==> as_recorded(line@),
    {
        let ghost start = self.place();
        loop
            invariant
                self.source() == old(self).source(),
                start == old(self).place(),
                start.byte_offset <= self.place().byte_offset,
                next_candidate(self.source(), b@, self.place()) == next_candidate(
                    self.source(),
                    b@,
                    start,
                ),
            decreases b.len() - self.place().byte_offset,
        {
            let offset: u64 = self.cursor.byte_offset;
            match self.read_next_complete_record(b) {
                Err(e) => return Err(e),
                Ok(None) => return Ok(None),
                Ok(Some(raw)) => {
                    if log_parser::component_might_emit_event(self.component, raw.as_str()) {
                        return Ok(
                            Some(
                                materialize_line(
                                    self.component,
                                    raw,
                                    offset,
                                    self.cursor.line_number,
                                ),
                            ),
                        );
                    }
                },
            }
        }
    }

    /// Passes over all complete records.
    pub fn skip_complete_lines(&mut self, b: &[u8]) -> (r: Result<(), ReadError>)
        ensures
            final(self).source() == old(self).source(),
            match read_all(old(self).source(), b@, old(self).place()) {
                Ok((_, last)) => r is Ok && final(self).place() == last,
                Err(e) => r == Err::<(), ReadError>(e),
            },
    {
        let ghost start = self.place();
        loop
            invariant
                self.source() == old(self).source(),
                start == old(self).place(),
                match read_all(self.source(), b@, self.place()) {
                    Ok((_, last)) => read_all(self.source(), b@, start) is Ok && read_all(
                        self.source(),
                        b@,
                        start,
                    )->Ok_0.1 == last,
                    Err(e) => read_all(self.source(), b@, start) == Err::<
                        (Seq<LineModel>, LogCursor),
                        ReadError,
                    >(e),
                },
            decreases b.len() - self.place().byte_offset,
        {
            match self.read_next_complete_record(b) {
                Err(e) => return Err(e),
                Ok(None) => return Ok(()),
                Ok(Some(_)) => {},
            }
        }
    }

    /// Passes at once to the place after the last complete record. For components whose
    /// records hold no events, where line numbers do not matter.
    pub fn fast_forward_inert_component(&mut self, b: &[u8])
        ensures
            final(self).source() == old(self).source(),
            final(self).place() == end_cursor(b@),
    {
        self.cursor = tail_cursor(b);
    }
}

/// Reads all complete records from a place on, and gives the place after the last.
pub fn read_component_file_from(component: LogComponent, b: &[u8], cursor: LogCursor) -> (r: Result<
    (Vec<RawLogLine>, LogCursor),
    ReadError,
>)
    ensures
        match r {
            Ok((lines, last)) => read_all(component, b@, cursor) == Ok::<
                (Seq<LineModel>, LogCursor),
                ReadError,
            >((line_models(lines@), last)) && forall|i: int|
                0 <= i < lines@.len() ==> as_recorded((#[trigger] lines@[i])@),
            Err(e) => read_all(component, b@, cursor) == Err::<
                (Seq<LineModel>, LogCursor),
                ReadError,
            >(e),
        },
{
    let mut reader = ComponentLogReader::open(component, cursor);
    let mut lines: Vec<RawLogLine> = Vec::new();
    loop
        invariant
            reader.source() == component,
            forall|i: int| 0 <= i < lines@.len() ==> as_recorded((#[trigger] lines@[i])@),
            read_all(component, b@, cursor) == (match read_all(component, b@, reader.place()) {
                Ok((rest, last)) => Ok::<(Seq<LineModel>, LogCursor), ReadError>(
                    (line_models(lines@) + rest, last),
                ),
                Err(e) => Err(e),
            }),
        decreases b.len() - reader.place().byte_offset,
    {
        let ghost before = lines@;
        match reader.next_complete_line(b) {
            Err(e) => return Err(e),
            Ok(None) => {
                assert(line_models(lines@) + Seq::<LineModel>::empty() =~= line_models(lines@));
                return Ok((lines, reader.cursor()));
            },
            Ok(Some(line)) => {
                lines.push(line);
                assert(line_models(lines@) =~= line_models(before).push(line@));
                proof {
                    if let Ok((rest, last)) = read_all(component, b@, reader.place()) {
                        assert(line_models(before) + (seq![line@] + rest) =~= line_models(lines@)
                            + rest);
                    }
                }
            },
        }
    }
}

/// Reads all complete records of a component log.
pub fn read_component_file(component: LogComponent, b: &[u8]) -> (r: Result<
    Vec<RawLogLine>,
    ReadError,
>)
    ensures
        match r {
            Ok(lines) => read_all(component, b@, file_start()) is Ok && read_all(
                component,
                b@,
                file_start(),
            )->Ok_0.0 == line_models(lines@) && forall|i: int|
                0 <= i < lines@.len() ==> as_recorded((#[trigger] lines@[i])@),
            Err(e) => read_all(component, b@, file_start()) == Err::<
                (Seq<LineModel>, LogCursor),
                ReadError,
            >(e),
        },
{
    match read_component_file_from(component, b, LogCursor { byte_offset: 0, line_number: 0 }) {
        Ok((lines, _)) => Ok(lines),
        Err(e) => Err(e),
    }
}

/// The records at the end of a component log.
#[derive(Clone, Debug)]
pub struct ComponentTail {
    pub lines: Vec<RawLogLine>,
    /// The place after the last complete record.
    pub cursor: LogCursor,
    /// Whether the tail reaches back to the beginning of the file.
    pub covers_file_start: bool,
}

/// The records at the end of a component log, over texts.
pub struct TailModel {
    pub lines: Seq<LineModel>,
    pub cursor: LogCursor,
    pub covers_file_start: bool,
}

impl View for ComponentTail {
    type V = TailModel;

    open spec fn view(&self) -> TailModel {
        TailModel {
            lines: line_models(self.lines@),
            cursor: self.cursor,
            covers_file_start: self.covers_file_start,
        }
    }
}

/// A text without one carriage return at its end.
pub open spec fn without_return(s: Seq<char>) -> Seq<char> {
    if s.len() > 0 && s.last() == '\r' {
        s.drop_last()
    } else {
        s
    }
}

/// The records between two record boundaries, without line numbers.
pub open spec fn records_between(component: LogComponent, b: Seq<u8>, at: int, end: int) -> Result<
    Seq<LineModel>,
    ReadError,
>
    decreases end - at,
{
    if at >= end {
        Ok(Seq::empty())
    } else {
        match newline_from(b, at) {
            None => Ok(Seq::empty()),
            Some(i) => if !(at <= i < end) {
                Ok(Seq::empty())
            } else if !valid_utf8(b.subrange(at, i)) {
                Err(ReadError::NotUtf8)
            } else {
                let line = line_of(
                    component,
                    0,
                    at as u64,
                    without_return(decode_utf8(b.subrange(at, i))),
                );
                match records_between(component, b, i + 1, end) {
                    Ok(rest) => Ok(seq![line] + rest),
                    Err(e) => Err(e),
                }
            },
        }
    }
}

/// The complete records within the last `max_bytes` bytes of a file. Where the window begins
/// inside a record, that record is left out; where it holds no line end at all, there is no
/// tail.
pub open spec fn tail_of(component: LogComponent, b: Seq<u8>, max_bytes: nat) -> Result<
    Option<TailModel>,
    ReadError,
> {
    let start = if b.len() > max_bytes {
        b.len() - max_bytes
    } else {
        0
    };
    let end = line_start(b, b.len() as int);
    if max_bytes == 0 {
        Err(ReadError::ZeroLimit)
    } else if start > 0 && newline_from(b, start) is None {
        Ok(None)
    } else {
        let first = if start == 0 {
            0
        } else {
            newline_from(b, start)->0 + 1
        };
        match records_between(component, b, first, end) {
            Err(e) => Err(e),
            Ok(lines) => Ok(
                Some(
                    TailModel {
                        lines,
                        cursor: LogCursor { byte_offset: end as u64, line_number: 0 },
                        covers_file_start: start == 0,
                    },
                ),
            ),
        }
    }
}

fn read_records_between(component: LogComponent, b: &[u8], from: usize, end: usize) -> (r: Result<
    Vec<RawLogLine>,
    ReadError,
>)
    requires
        end <= b.len(),
        end > 0 ==> b@[end - 1] == NEWLINE,
    ensures
        match r {
            Ok(lines) => records_between(component, b@, from as int, end as int) == Ok::<
                Seq<LineModel>,
                ReadError,
            >(line_models(lines@)),
            Err(e) => records_between(component, b@, from as int, end as int) == Err::<
                Seq<LineModel>,
                ReadError,
            >(e),
        },
{
    let mut lines: Vec<RawLogLine> = Vec::new();
    let mut at: usize = from;
    assert(line_models(lines@) =~= Seq::<LineModel>::empty());
    proof {
        if let Ok(rest) = records_between(component, b@, at as int, end as int) {
            assert(line_models(lines@) + rest =~= rest);
        }
    }
    while at < end
        invariant
            end <= b.len(),
            end > 0 ==> b@[end - 1] == NEWLINE,
            records_between(component, b@, from as int, end as int) == (match records_between(
                component,
                b@,
                at as int,
                end as int,
            ) {
                Ok(rest) => Ok::<Seq<LineModel>, ReadError>(line_models(lines@) + rest),
                Err(e) => Err(e),
            }),
        decreases end - at,
    {
        proof {
            newline_from_is_first(b@, at as int);
        }
        match find_newline(b, at) {
            None => {
                assert(b@[end - 1] != NEWLINE);
                return Ok(lines);
            },
            Some(i) => {
                let record = vstd::slice::slice_subrange(b, at, i);
                match decode_text(record) {
                    None => return Err(ReadError::NotUtf8),
                    Some(s) => {
                        let chars = chars_of(s.as_str());
                        let mut n: usize = chars.len();
                        if n > 0 && chars[n - 1] == '\r' {
                            n = n - 1;
                        }
                        let kept = vstd::slice::slice_subrange(chars.as_slice(), 0, n);
                        assert(kept@ =~= without_return(s@));
                        let line = materialize_line(component, string_of(kept), at as u64, 0);
                        let ghost before = lines@;
                        lines.push(line);
                        assert(line_models(lines@) =~= line_models(before).push(line@));
                        proof {
                            if let Ok(rest) = records_between(component, b@, i + 1, end as int) {
                                assert(line_models(before) + (seq![line@] + rest) =~= line_models(
                                    lines@,
                                ) + rest);
                            }
                        }
                        at = i + 1;
                    },
                }
            },
        }
    }
    assert(line_models(lines@) + Seq::<LineModel>::empty() =~= line_models(lines@));
    Ok(lines)
}

/// Reads the complete records within the last `max_bytes` bytes of a file. `None` where the
/// window lies inside one over-long record.
pub fn read_component_tail(component: LogComponent, b: &[u8], max_bytes: u64) -> (r: Result<
    Option<ComponentTail>,
    ReadError,
>)
    ensures
        match r {
            Ok(Some(tail)) => tail_of(component, b@, max_bytes as nat) == Ok::<
                Option<TailModel>,
                ReadError,
            >(Some(tail@)),
            Ok(None) => tail_of(component, b@, max_bytes as nat) == Ok::<
                Option<TailModel>,
                ReadError,
            >(None),
            Err(e) => tail_of(component, b@, max_bytes as nat) == Err::<
                Option<TailModel>,
                ReadError,
            >(e),
        },
{
    if max_bytes == 0 {
        return Err(ReadError::ZeroLimit);
    }
    let mut start: usize = 0;
    if b.len() as u64 > max_bytes {
        start = b.len() - max_bytes as usize;
    }
    let mut first: usize = 0;
    if start > 0 {
        match find_newline(b, start) {
            None => return Ok(None),
            Some(i) => {
                first = i + 1;
            },
        }
    }
    let end: usize = find_line_start(b, b.len());
    proof {
        line_start_follows_a_newline(b@, b.len() as int);
    }
    match read_records_between(component, b, first, end) {
        Err(e) => Err(e),
        Ok(lines) => Ok(
            Some(
                ComponentTail {
                    lines,
                    cursor: LogCursor { byte_offset: end as u64, line_number: 0 },
                    covers_file_start: start == 0,
                },
            ),
        ),
    }
}

proof fn appended_bytes_keep_the_newline(b: Seq<u8>, longer: Seq<u8>, at: int)
    requires
        0 <= at,
        b.len() <= longer.len(),
        longer.take(b.len() as int) == b,
        newline_from(b, at) is Some,
    ensures
        newline_from(longer, at) == newline_from(b, at),
{
    newline_from_is_first(b, at);
    newline_from_is_first(longer, at);
    assert forall|k: int| 0 <= k < b.len() implies longer[k] == b[k] by {
        assert(longer.take(b.len() as int)[k] == b[k]);
    }
    let i = newline_from(b, at)->0;
    assert(longer[i] == NEWLINE);
    if newline_from(longer, at) is None {
        assert(longer[i] != NEWLINE);
    } else {
        let j = newline_from(longer, at)->0;
        if j < i {
            assert(b[j] != NEWLINE);
        } else if i < j {
            assert(longer[i] != NEWLINE);
        }
    }
}

/// Bytes that are appended to a file change no record that was complete before.
pub(crate) proof fn complete_records_stay(
    component: LogComponent,
    b: Seq<u8>,
    longer: Seq<u8>,
    cursor: LogCursor,
)
    requires
        longer.len() <= u64::MAX,
        b.len() <= longer.len(),
        longer.take(b.len() as int) == b,
        read_next(component, b, cursor).1 matches Ok(Some(_)),
    ensures
        read_next(component, longer, cursor) == read_next(component, b, cursor),
{
    let at = cursor.byte_offset as int;
    reading_moves_forward(component, b, cursor);
    appended_bytes_keep_the_newline(b, longer, at);
    newline_from_is_first(b, at);
    let end = newline_from(b, at)->0 + 1;
    assert(b.subrange(at, end) =~= longer.subrange(at, end)) by {
        assert forall|k: int| 0 <= k < b.len() implies longer[k] == b[k] by {
            assert(longer.take(b.len() as int)[k] == b[k]);
        }
    }
}

/// Reading a file in steps gives what reading it at once gives: the records read before the
/// file grew, then those from the saved place on. An unterminated record is not lost and not
/// read twice.
pub proof fn reading_in_steps_is_reading_at_once(
    component: LogComponent,
    b: Seq<u8>,
    longer: Seq<u8>,
    cursor: LogCursor,
)
    requires
        longer.len() <= u64::MAX,
        b.len() <= longer.len(),
        longer.take(b.len() as int) == b,
        read_all(component, b, cursor) is Ok,
    ensures
        ({
            let (first, place) = read_all(component, b, cursor)->Ok_0;
            read_all(component, longer, cursor) == (match read_all(component, longer, place) {
                Ok((rest, last)) => Ok::<(Seq<LineModel>, LogCursor), ReadError>(
                    (first + rest, last),
                ),
                Err(e) => Err(e),
            })
        }),
    decreases b.len() - cursor.byte_offset,
{
    let (next, found) = read_next(component, b, cursor);
    reading_moves_forward(component, b, cursor);
    match found {
        Ok(Some(line)) => {
            complete_records_stay(component, b, longer, cursor);
            reading_in_steps_is_reading_at_once(component, b, longer, next);
            let (first, place) = read_all(component, b, next)->Ok_0;
            if let Ok((rest, last)) = read_all(component, longer, place) {
                assert(seq![line] + (first + rest) =~= (seq![line] + first) + rest);
            }
        },
        _ => {
            if let Ok((rest, last)) = read_all(component, longer, cursor) {
                assert(Seq::<LineModel>::empty() + rest =~= rest);
            }
        },
    }
}

/// The number of line ends at or after an offset.
pub open spec fn newlines_from(b: Seq<u8>, at: int) -> nat
    decreases b.len() - at,
{
    if at < 0 || at >= b.len() {
        0
    } else {
        newlines_from(b, at + 1) + if b[at] == NEWLINE {
            1nat
        } else {
            0nat
        }
    }
}

proof fn newlines_are_counted(b: Seq<u8>, at: int)
    requires
        0 <= at <= b.len(),
    ensures
        match newline_from(b, at) {
            Some(i) => newlines_from(b, at) == newlines_from(b, i + 1) + 1,
            None => newlines_from(b, at) == 0,
        },
    decreases b.len() - at,
{
    if at < b.len() && b[at] != NEWLINE {
        newlines_are_counted(b, at + 1);
    }
}

proof fn valid_text_splits_at_newlines(b: Seq<u8>, i: int)
    requires
        valid_utf8(b),
        0 <= i < b.len(),
        b[i] == NEWLINE,
    ensures
        valid_utf8(b.take(i + 1)),
        valid_utf8(b.skip(i + 1)),
    decreases b.len(),
{
    let n = length_of_first_scalar(b);
    let rest = pop_first_scalar(b);
    let head = b.take(i + 1);
    assert(valid_first_scalar(b));
    assert(n <= b.len());
    if i < n {
        assert(n == 1 && i == 0) by {
            assert(i > 0 ==> is_continuation_byte(b[i]));
        }
        assert(rest =~= b.skip(i + 1));
        assert(valid_first_scalar(head));
        assert(pop_first_scalar(head) =~= Seq::<u8>::empty());
        assert(valid_utf8(pop_first_scalar(head)));
    } else {
        assert(rest[i - n] == b[i]);
        valid_text_splits_at_newlines(rest, i - n);
        assert(rest.skip(i - n + 1) =~= b.skip(i + 1));
        assert(head[0] == b[0]);
        assert(n >= 2 ==> head[1] == b[1]);
        assert(n >= 3 ==> head[2] == b[2]);
        assert(n >= 4 ==> head[3] == b[3]);
        assert(valid_first_scalar(head));
        assert(pop_first_scalar(head) =~= rest.take(i - n + 1));
        assert(valid_utf8(pop_first_scalar(head)));
    }
}

proof fn newest_newline_starts_the_last_line(b: Seq<u8>, at: int, i: int)
    requires
        0 <= i < at <= b.len(),
        b[i] == NEWLINE,
        forall|k: int| i < k < at ==> #[trigger] b[k] != NEWLINE,
    ensures
        line_start(b, at) == i + 1,
    decreases at,
{
    if at - 1 > i {
        assert(b[at - 1] != NEWLINE);
        newest_newline_starts_the_last_line(b, at - 1, i);
    }
}

proof fn no_newline_starts_no_line(b: Seq<u8>, at: int)
    requires
        0 <= at <= b.len(),
        forall|k: int| 0 <= k < at ==> #[trigger] b[k] != NEWLINE,
    ensures
        line_start(b, at) == 0,
    decreases at,
{
    if at > 0 {
        assert(b[at - 1] != NEWLINE);
        no_newline_starts_no_line(b, at - 1);
    }
}

proof fn valid_text_is_read(component: LogComponent, b: Seq<u8>, cursor: LogCursor)
    requires
        b.len() <= u64::MAX,
        cursor.byte_offset <= b.len(),
        cursor.line_number <= cursor.byte_offset,
        valid_utf8(b.skip(cursor.byte_offset as int)),
        cursor.byte_offset > 0 ==> b[cursor.byte_offset - 1] == NEWLINE,
    ensures
        read_all(component, b, cursor) is Ok,
        ({
            let (lines, last) = read_all(component, b, cursor)->Ok_0;
            &&& lines.len() == newlines_from(b, cursor.byte_offset as int)
            &&& forall|i: int|
                0 <= i < lines.len() ==> (#[trigger] lines[i]).line_number == cursor.line_number + 1
                    + i
            &&& last.line_number == cursor.line_number + lines.len()
            &&& last.byte_offset == line_start(b, b.len() as int)
        }),
    decreases b.len() - cursor.byte_offset,
{
    let at = cursor.byte_offset as int;
    newlines_are_counted(b, at);
    newline_from_is_first(b, at);
    reading_moves_forward(component, b, cursor);
    match newline_from(b, at) {
        None => {
            assert forall|k: int| at <= k < b.len() implies #[trigger] b[k] != NEWLINE by {}
            if at > 0 {
                newest_newline_starts_the_last_line(b, b.len() as int, at - 1);
            } else {
                no_newline_starts_no_line(b, b.len() as int);
            }
        },
        Some(i) => {
            let rest = b.skip(at);
            assert(rest[i - at] == b[i]);
            valid_text_splits_at_newlines(rest, i - at);
            assert(rest.take(i - at + 1) =~= b.subrange(at, i + 1));
            assert(rest.skip(i - at + 1) =~= b.skip(i + 1));
            let (next, found) = read_next(component, b, cursor);
            assert(next.byte_offset == i + 1);
            valid_text_is_read(component, b, next);
            let (lines, last) = read_all(component, b, next)->Ok_0;
            let line = found->Ok_0->0;
            assert forall|k: int| 0 <= k < (seq![line] + lines).len() implies (#[trigger] (
            seq![line] + lines)[k]).line_number == cursor.line_number + 1 + k by {
                if k > 0 {
                    assert((seq![line] + lines)[k] == lines[k - 1]);
                }
            }
        },
    }
}

/// A whole file of text is read: one record for each line end, counted from one, none for an
/// unterminated tail, and the place behind the last line end, or the start where there is none.
pub proof fn whole_files_are_read(component: LogComponent, b: Seq<u8>)
    requires
        b.len() <= u64::MAX,
        valid_utf8(b),
    ensures
        read_all(component, b, file_start()) is Ok,
        ({
            let (lines, last) = read_all(component, b, file_start())->Ok_0;
            &&& lines.len() == newlines_from(b, 0)
            &&& forall|i: int|
                0 <= i < lines.len() ==> (#[trigger] lines[i]).line_number == i + 1
            &&& last.line_number == lines.len()
            &&& last.byte_offset == line_start(b, b.len() as int)
        }),
{
    assert(b.skip(0) =~= b);
    valid_text_is_read(component, b, file_start());
}

/// Text that is appended to a file of text is read from the place that was reached: the records of
/// both readings are those of one reading of the whole, which ends at the same place.
pub proof fn appended_text_is_read(component: LogComponent, b: Seq<u8>, more: Seq<u8>)
    requires
        b.len() + more.len() <= u64::MAX,
        valid_utf8(b),
        valid_utf8(b + more),
    ensures
        read_all(component, b, file_start()) is Ok,
        read_all(component, b + more, read_all(component, b, file_start())->Ok_0.1) is Ok,
        ({
            let (first, place) = read_all(component, b, file_start())->Ok_0;
            let (rest, last) = read_all(component, b + more, place)->Ok_0;
            &&& read_all(component, b + more, file_start()) == Ok::<
                (Seq<LineModel>, LogCursor),
                ReadError,
            >((first + rest, last))
            &&& (first + rest).len() == newlines_from(b + more, 0)
            &&& last.byte_offset == line_start(b + more, (b + more).len() as int)
        }),
{
    whole_files_are_read(component, b);
    whole_files_are_read(component, b + more);
    assert((b + more).take(b.len() as int) =~= b);
    reading_in_steps_is_reading_at_once(component, b, b + more, file_start());
}

} // verus!
