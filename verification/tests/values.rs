use vala::text::is_whitespace;
use vala::{Accessibility, CurrentState, Enter, Profile, Report, SourceFileType, SourceLocation, Token, TokenType};

#[test]
fn whitespace_matches_std() {
    for u in 0u32..0x11000 {
        if let Some(c) = char::from_u32(u) {
            assert_eq!(is_whitespace(c), c.is_whitespace(), "{:?}", c);
        }
    }
    for c in ['\u{10FFFF}', '\u{E000}', '\u{FEFF}', '\u{180E}'] {
        assert_eq!(is_whitespace(c), c.is_whitespace());
    }
}

#[test]
fn token_codes_follow_declaration_order() {
    assert_eq!(TokenType::from_raw(0), TokenType::NoToken);
    assert_eq!(TokenType::from_raw(1), TokenType::Abstract);
    assert_eq!(TokenType::from_raw(22), TokenType::Class);
    assert_eq!(TokenType::from_raw(132), TokenType::Yield);
    assert_eq!(TokenType::from_raw(133), TokenType::NoToken);
    assert_eq!(TokenType::from_raw(u32::MAX), TokenType::NoToken);
}

#[test]
fn token_holds_its_range() {
    let t = Token {
        token_type: TokenType::Class,
        begin: SourceLocation { line: 1, column: 1 },
        end: SourceLocation { line: 1, column: 5 },
    };
    assert_eq!(t.begin.line, 1);
    assert_eq!(t.end.column, 5);
    assert_eq!(t, t.clone());
}

#[test]
fn report_has_errors_only_with_errors() {
    let r = Report::from_counts(0, 3);
    assert!(!r.has_errors());
    assert_eq!(r.warnings(), 3);
    let r = Report::from_counts(2, 0);
    assert!(r.has_errors());
    assert_eq!(r.errors(), 2);
}

#[test]
fn ffi_codes() {
    assert_eq!(SourceFileType::Unspecified.to_ffi(), 0);
    assert_eq!(SourceFileType::Source.to_ffi(), 1);
    assert_eq!(SourceFileType::Package.to_ffi(), 2);
    assert_eq!(SourceFileType::Fast.to_ffi(), 3);
    assert_eq!(Profile::Posix.to_ffi(), 0);
    assert_eq!(Profile::GObject.to_ffi(), 1);
    assert_eq!(Accessibility::from_raw(0), Accessibility::Private);
    assert_eq!(Accessibility::from_raw(3), Accessibility::Public);
}

#[test]
fn nested_enter_is_refused_and_leave_resets() {
    let mut s = CurrentState::new();
    assert!(!s.is_current());
    assert_eq!(s.enter(), Enter::Proceed);
    assert!(s.is_current());
    assert_eq!(s.enter(), Enter::Reentrant);
    assert!(s.is_current());
    s.leave();
    assert!(!s.is_current());
    assert_eq!(s.enter(), Enter::Proceed);
}

#[test]
fn end_of_file_ends_the_token_stream() {
    let b = SourceLocation { line: 3, column: 7 };
    let e = SourceLocation { line: 3, column: 11 };
    assert_eq!(Token::from_raw(46, b, e), None);
    let t = Token::from_raw(22, b, e).unwrap();
    assert_eq!(t.token_type, TokenType::Class);
    assert_eq!(t.begin, b);
    assert_eq!(t.end, e);
    assert_eq!(Token::from_raw(500, b, e).unwrap().token_type, TokenType::NoToken);
}
