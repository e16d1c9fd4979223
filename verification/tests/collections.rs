use vala::{checked_index, clamp_size, tokens_from_reads, ListCursor, SourceLocation, TokenType};

#[test]
fn negative_size_reads_as_empty() {
    assert_eq!(clamp_size(-1), 0);
    assert_eq!(clamp_size(i32::MIN), 0);
    assert_eq!(clamp_size(0), 0);
    assert_eq!(clamp_size(7), 7);
    assert_eq!(clamp_size(i32::MAX), i32::MAX as usize);
}

#[test]
fn index_is_checked_against_the_length() {
    assert_eq!(checked_index(0, 3), Some(0));
    assert_eq!(checked_index(2, 3), Some(2));
    assert_eq!(checked_index(3, 3), None);
    assert_eq!(checked_index(0, 0), None);
    assert_eq!(checked_index(usize::MAX, 3), None);
}

#[test]
fn cursor_walks_every_index_once() {
    let mut c = ListCursor::new(3);
    assert_eq!(c.size_hint(), (3, Some(3)));
    assert_eq!(c.next_index(), Some(0));
    assert_eq!(c.size_hint(), (2, Some(2)));
    assert_eq!(c.next_index(), Some(1));
    assert_eq!(c.next_index(), Some(2));
    assert_eq!(c.size_hint(), (0, Some(0)));
    assert_eq!(c.next_index(), None);
    assert_eq!(c.next_index(), None);
    assert_eq!(c.size_hint(), (0, Some(0)));
}

#[test]
fn empty_cursor_yields_nothing() {
    let mut c = ListCursor::new(0);
    assert_eq!(c.size_hint(), (0, Some(0)));
    assert_eq!(c.next_index(), None);
}

fn loc(line: i32, column: i32) -> SourceLocation {
    SourceLocation { line, column }
}

#[test]
fn token_stream_stops_at_end_of_file() {
    let reads = vec![
        (22, loc(1, 1), loc(1, 5)),
        (54, loc(1, 7), loc(1, 9)),
        (46, loc(2, 1), loc(2, 1)),
        (22, loc(3, 1), loc(3, 5)),
    ];
    let toks = tokens_from_reads(&reads);
    assert_eq!(toks.len(), 2);
    assert_eq!(toks[0].token_type, TokenType::Class);
    assert_eq!(toks[0].begin, loc(1, 1));
    assert_eq!(toks[0].end, loc(1, 5));
    assert_eq!(toks[1].token_type, TokenType::Identifier);
    assert_eq!(toks[1].begin, loc(1, 7));
}

#[test]
fn token_stream_without_end_of_file_keeps_every_read() {
    let reads = vec![(1, loc(1, 1), loc(1, 8)), (9999, loc(1, 10), loc(1, 10))];
    let toks = tokens_from_reads(&reads);
    assert_eq!(toks.len(), 2);
    assert_eq!(toks[0].token_type, TokenType::Abstract);
    assert_eq!(toks[1].token_type, TokenType::NoToken);
    assert!(tokens_from_reads(&Vec::new()).is_empty());
    assert!(tokens_from_reads(&vec![(46, loc(1, 1), loc(1, 1))]).is_empty());
}

#[test]
fn api_version_is_the_built_series() {
    assert_eq!(vala::API_VERSION, "0.56");
}
