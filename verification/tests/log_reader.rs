use arena_next::log_component::LogComponent;
use arena_next::log_reader::{
    find_last_line_containing, find_subslice_from_end, materialize_line, read_component_file,
    read_component_file_from, read_component_tail, tail_cursor, ComponentLogReader, LogCursor,
    ReadError,
};

const REVERSE_SEARCH_CHUNK_BYTES: usize = 64 * 1024;

#[test]
fn streaming_reader_rewinds_an_unterminated_tail() {
    let mut file =
        b"D 19:14:43.0000000 Client chooses: Fireball (CS2_029)\npartial".to_vec();

    let mut reader = ComponentLogReader::open(LogComponent::Arena, LogCursor::default());
    assert!(reader.next_complete_line(&file).unwrap().is_some());
    let cursor_after_complete_line = reader.cursor();
    assert!(reader.next_complete_line(&file).unwrap().is_none());
    assert_eq!(reader.cursor(), cursor_after_complete_line);

    file.extend_from_slice(b" tail\n");
    let trailing = reader.next_complete_line(&file).unwrap().unwrap();
    assert_eq!(trailing.raw, "partial tail");
    assert!(reader.next_complete_line(&file).unwrap().is_none());
}

#[test]
fn inert_cursor_fast_forward_retains_only_an_unterminated_tail() {
    let mut file = b"old one\nold two\npartial".to_vec();

    let mut reader = ComponentLogReader::open(LogComponent::Zone, LogCursor::default());
    reader.fast_forward_inert_component(&file);
    assert_eq!(reader.cursor().byte_offset, "old one\nold two\n".len() as u64);
    assert_eq!(reader.cursor().line_number, 0);

    file.extend_from_slice(b" tail\n");
    let trailing = reader.next_complete_line(&file).unwrap().unwrap();
    assert_eq!(trailing.raw, "partial tail");
}

#[test]
fn bounded_tail_uses_only_complete_lines_and_real_byte_offsets() {
    let file = b"D 00:00:00.0000000 old\nD 00:00:01.0000000 keep\npartial".to_vec();

    // The bounded window begins inside the first line, so `old` is omitted rather than made up
    // from a part of it. The last record without an end stays outside the cursor.
    let tail = read_component_tail(LogComponent::Power, &file, 35).unwrap().unwrap();
    assert!(!tail.covers_file_start);
    assert_eq!(tail.lines.len(), 1);
    assert_eq!(tail.lines[0].message, "keep");
    assert_eq!(
        tail.cursor.byte_offset,
        "D 00:00:00.0000000 old\nD 00:00:01.0000000 keep\n".len() as u64
    );
}

#[test]
fn reverse_marker_search_finds_newest_line_without_parsing_the_prefix() {
    let prefix =
        format!("D 00:00:00.0000000 inert {}\n", "x".repeat(REVERSE_SEARCH_CHUNK_BYTES));
    let newest = "D 00:00:01.0000000 Draft Deck ID: 42, Hero Card = HERO_08\n";
    let mut file = format!("{prefix}{newest}partial").into_bytes();

    let marker = find_last_line_containing(&file, b"Draft Deck ID:")
        .unwrap()
        .expect("newest marker should be found");
    assert_eq!(marker.line_start, prefix.len() as u64);
    assert!(marker.complete);
    assert_eq!(tail_cursor(&file).byte_offset, (prefix.len() + newest.len()) as u64);

    // A newer marker without an end wins over the older complete one, so that a caller can wait
    // rather than take a stale deck.
    let partial_marker = "D 00:00:02.0000000 Draft Deck ID:";
    file.extend_from_slice(partial_marker.as_bytes());
    let newest_marker = find_last_line_containing(&file, b"Draft Deck ID:")
        .unwrap()
        .expect("partial newest marker should be visible");
    assert!(!newest_marker.complete);
}

#[test]
fn empty_needles_and_limits_are_refused() {
    assert_eq!(find_last_line_containing(b"abc", b""), Err(ReadError::EmptyNeedle));
    assert!(matches!(
        read_component_tail(LogComponent::Power, b"abc\n", 0),
        Err(ReadError::ZeroLimit)
    ));
    assert_eq!(find_subslice_from_end(b"abcabc", b"bc"), Some(4));
    assert_eq!(find_subslice_from_end(b"abcabc", b"xx"), None);
}

#[test]
fn records_that_are_no_text_are_refused() {
    let file = b"\xff\xfe\n".to_vec();
    assert!(matches!(
        read_component_file(LogComponent::Arena, &file),
        Err(ReadError::NotUtf8)
    ));
    let fine = "caf\u{e9} one\r\ntwo\n".as_bytes().to_vec();
    let lines = read_component_file(LogComponent::Arena, &fine).unwrap();
    assert_eq!(lines.len(), 2);
    assert_eq!(lines[0].raw, "caf\u{e9} one");
    assert_eq!(lines[1].line_number, 2);
    assert_eq!(lines[1].byte_offset, 11);
}

#[test]
fn a_reader_goes_on_where_it_stopped() {
    let file = b"one\ntwo\nthree".to_vec();
    let (lines, cursor) =
        read_component_file_from(LogComponent::Power, &file, LogCursor::default()).unwrap();
    assert_eq!(lines.len(), 2);
    assert_eq!(cursor, LogCursor { byte_offset: 8, line_number: 2 });
    let (rest, end) =
        read_component_file_from(LogComponent::Power, b"one\ntwo\nthree\n", cursor).unwrap();
    assert_eq!(rest.len(), 1);
    assert_eq!(rest[0].raw, "three");
    assert_eq!(rest[0].line_number, 3);
    assert_eq!(end, LogCursor { byte_offset: 14, line_number: 3 });
}

#[test]
fn event_candidates_skip_what_cannot_tell_of_one() {
    let file = b"noise\nD 00:00:00.0000000 CREATE_GAME\nnoise\n".to_vec();
    let mut reader = ComponentLogReader::open(LogComponent::Power, LogCursor::default());
    let candidate = reader.next_event_candidate(&file).unwrap().unwrap();
    assert_eq!(candidate.message, "CREATE_GAME");
    assert_eq!(candidate.line_number, 2);
    assert!(reader.next_event_candidate(&file).unwrap().is_none());
    assert_eq!(reader.cursor().line_number, 3);
    let mut skipping = ComponentLogReader::open(LogComponent::Power, LogCursor::default());
    skipping.skip_complete_lines(&file).unwrap();
    assert_eq!(skipping.cursor(), reader.cursor());
    let line = materialize_line(LogComponent::Asset, "D 00:00:00.0000000 x".to_owned(), 3, 4);
    assert_eq!(line.timestamp_key, Some(0));
    assert_eq!(line.message, "x");
    assert_eq!(line.raw, "D 00:00:00.0000000 x");
}

#[test]
fn appended_text_is_read_from_the_saved_place() {
    let first = "D 00:00:00.0000000 één\npart".as_bytes().to_vec();
    let whole = "D 00:00:00.0000000 één\npartial\nlast\ntail".as_bytes().to_vec();
    let (mut lines, place) =
        match read_component_file_from(LogComponent::Arena, &first, LogCursor::default()) {
            Ok(read) => read,
            Err(error) => panic!("{error:?}"),
        };
    let (more, end) = match read_component_file_from(LogComponent::Arena, &whole, place) {
        Ok(read) => read,
        Err(error) => panic!("{error:?}"),
    };
    lines.extend(more);
    let numbers: Vec<u64> = lines.iter().map(|line| line.line_number).collect();
    assert_eq!(numbers, [1, 2, 3]);
    assert_eq!(lines[1].raw, "partial");
    assert_eq!(end.byte_offset as usize, whole.len() - "tail".len());
    assert_eq!(end.line_number, 3);
}

#[test]
fn candidates_are_found_in_any_letter_case() {
    let file = b"noise\nD 00:00:00.0000000 Entering Arena\n".to_vec();
    let mut reader = ComponentLogReader::open(LogComponent::LoadingScreen, LogCursor::default());
    match reader.next_event_candidate(&file) {
        Ok(Some(line)) => assert_eq!(line.message, "Entering Arena"),
        _ => panic!("the record holds an event"),
    }
}
