use dcfrs::lexer;
use dcfrs::lexer::{log_err, tokens, Error, LexResult, Token};
use dcfrs::log::{format_error, message};
use dcfrs::span::Span;

/// Every item the stream yields, as (value, fragment).
fn surfaced(text: &[u8]) -> Vec<(LexResult, Vec<u8>)> {
    let mut toks = tokens(Span::new(text));
    let mut out = vec![];
    while let Some(t) = toks.next() {
        out.push((t.get(), t.fragment().to_vec()));
    }
    out
}

/// The first item the dispatcher reads from `text`, and what is left.
fn first(text: &[u8]) -> (LexResult, Vec<u8>, Vec<u8>) {
    let (t, rem) = lexer::token(Span::new(text)).unwrap();
    (t.get(), t.fragment().to_vec(), rem.source().to_vec())
}

#[test]
fn operators_take_the_longest_match() {
    assert_eq!(first(b"<="), (Ok(Token::LessEqual), b"<=".to_vec(), vec![]));
    assert_eq!(first(b"--"), (Ok(Token::Decrement), b"--".to_vec(), vec![]));
    assert_eq!(first(b"++x"), (Ok(Token::Increment), b"++".to_vec(), b"x".to_vec()));
    assert_eq!(first(b"!=="), (Ok(Token::NotEqual), b"!=".to_vec(), b"=".to_vec()));
    assert_eq!(first(b"&x"), (Err(Error::UnexpectedChar(b'&')), b"&".to_vec(), b"x".to_vec()));
}

#[test]
fn hex_boundary() {
    assert_eq!(first(b"0x"), (Err(Error::EmptyHexLiteral), b"0x".to_vec(), vec![]));
    assert_eq!(first(b"0x123abcg"), (Ok(Token::HexLiteral), b"0x123abc".to_vec(), b"g".to_vec()));
    assert_eq!(first(b"0"), (Ok(Token::DecimalLiteral), b"0".to_vec(), vec![]));
}

#[test]
fn decimal_boundary() {
    assert_eq!(first(b"123abc"), (Ok(Token::DecimalLiteral), b"123".to_vec(), b"abc".to_vec()));
}

#[test]
fn char_literal_cases() {
    assert_eq!(first(b"'a'"), (Ok(Token::CharLiteral(b'a')), b"'a'".to_vec(), vec![]));
    assert_eq!(first(b"'\\t'"), (Ok(Token::CharLiteral(b'\t')), b"'\\t'".to_vec(), vec![]));
    assert_eq!(first(b"'\\n'"), (Ok(Token::CharLiteral(b'\n')), b"'\\n'".to_vec(), vec![]));
    assert_eq!(first(b"'\\''"), (Ok(Token::CharLiteral(b'\'')), b"'\\''".to_vec(), vec![]));
    assert_eq!(first(b"'\\'"), (Err(Error::UnterminatedChar), b"'\\'".to_vec(), vec![]));
    assert_eq!(first(b"'\t'"), (Err(Error::InvalidChar(b'\t')), b"'\t'".to_vec(), vec![]));
    assert_eq!(first(b"'\\q'"), (Err(Error::InvalidEscape(b'q')), b"'\\q'".to_vec(), vec![]));
    assert_eq!(first(b"'\\ab"), (Err(Error::UnterminatedChar), b"'\\ab".to_vec(), vec![]));
    assert_eq!(first(b"''x"), (Err(Error::EmptyChar), b"''".to_vec(), b"x".to_vec()));
    assert_eq!(first(b"'ab'"), (Err(Error::UnterminatedChar), b"'a".to_vec(), b"b'".to_vec()));
    assert_eq!(first(b"'a"), (Err(Error::UnterminatedChar), b"'a".to_vec(), vec![]));
}

#[test]
fn unterminated_string() {
    let items = surfaced(b"\"abc");
    assert_eq!(items.len(), 2);
    assert_eq!(items[0], (Err(Error::StringLiteral), b"\"abc".to_vec()));
    assert_eq!(items[1], (Ok(Token::Eof), vec![]));
}

#[test]
fn string_escapes() {
    assert_eq!(first(b"\"a\\\\\"b"), (Ok(Token::StringLiteral), b"\"a\\\\\"".to_vec(), b"b".to_vec()));
    assert_eq!(first(b"\"a\\q\""), (Err(Error::StringLiteral), b"\"a\\q\"".to_vec(), vec![]));
    assert_eq!(first(b"\"it's\""), (Err(Error::StringLiteral), b"\"it's\"".to_vec(), vec![]));
}

#[test]
fn string_problems_in_order() {
    let text = b"\"a\\q\tb";
    let errs = lexer::get_string_errors(Span::new(text));
    let found: Vec<(Error, Vec<u8>)> = errs.iter().map(|e| (e.get(), e.fragment().to_vec())).collect();
    assert_eq!(
        found,
        vec![
            (Error::InvalidEscape(b'q'), b"q".to_vec()),
            (Error::InvalidChar(b'\t'), b"\t".to_vec()),
            (Error::UnterminatedString, text.to_vec()),
        ]
    );
    assert!(lexer::get_string_errors(Span::new(b"\"ok\\n\"")).is_empty());
}

#[test]
fn non_ascii_run_stops_at_whitespace() {
    assert_eq!(
        first(&[0xff, 0xfe, b' ', b'a']),
        (Err(Error::NonAsciiChars), vec![0xff, 0xfe], b" a".to_vec())
    );
    assert_eq!(first(&[0x80]), (Err(Error::NonAsciiChars), vec![0x80], vec![]));
}

#[test]
fn declaration_scenario() {
    let items = surfaced(b"int x = 5;\n");
    assert_eq!(
        items,
        vec![
            (Ok(Token::Int), b"int".to_vec()),
            (Ok(Token::Identifier), b"x".to_vec()),
            (Ok(Token::Assign), b"=".to_vec()),
            (Ok(Token::DecimalLiteral), b"5".to_vec()),
            (Ok(Token::Semicolon), b";".to_vec()),
            (Ok(Token::Eof), vec![]),
        ]
    );
}

#[test]
fn empty_hex_then_identifier_scenario() {
    let items = surfaced(b"0xtttt");
    assert_eq!(
        items,
        vec![
            (Err(Error::EmptyHexLiteral), b"0x".to_vec()),
            (Ok(Token::Identifier), b"tttt".to_vec()),
            (Ok(Token::Eof), vec![]),
        ]
    );
}

#[test]
fn fragments_rebuild_the_input() {
    let text: &[u8] = b"int a/*c*/= 0x;// x\n'\\q' \"s\\z\" \xff\xfe @ /* open";
    let mut span = Span::new(text);
    let mut rebuilt = vec![];
    let mut count = 0;
    while let Some((t, rem)) = lexer::token(span) {
        rebuilt.extend_from_slice(t.fragment());
        span = rem;
        count += 1;
    }
    assert_eq!(rebuilt, text.to_vec());
    assert!(count > 10);
    assert!(lexer::token(Span::new(b"")).is_none());
}

#[test]
fn stream_stops_after_eof() {
    let mut toks = tokens(Span::new(b"a // c\n/* d */ b"));
    assert_eq!(toks.next().unwrap().get(), Ok(Token::Identifier));
    assert_eq!(toks.next().unwrap().get(), Ok(Token::Identifier));
    let eof = toks.next().unwrap();
    assert_eq!(eof.get(), Ok(Token::Eof));
    assert_eq!(eof.position(), (2, 10));
    assert!(toks.next().is_none());
    assert!(toks.next().is_none());

    let mut empty = tokens(Span::new(b""));
    assert_eq!(empty.next().unwrap().get(), Ok(Token::Eof));
    assert!(empty.next().is_none());
}

#[test]
fn keywords_and_identifiers() {
    let words: [(&[u8], Token); 14] = [
        (b"import", Token::Import),
        (b"if", Token::If),
        (b"else", Token::Else),
        (b"while", Token::While),
        (b"for", Token::For),
        (b"break", Token::Break),
        (b"continue", Token::Continue),
        (b"return", Token::Return),
        (b"int", Token::Int),
        (b"bool", Token::Bool),
        (b"true", Token::True),
        (b"false", Token::False),
        (b"void", Token::Void),
        (b"len", Token::Len),
    ];
    for (w, t) in words.iter() {
        assert_eq!(first(w), (Ok(*t), w.to_vec(), vec![]));
    }
    assert_eq!(first(b"iffy"), (Ok(Token::Identifier), b"iffy".to_vec(), vec![]));
    assert_eq!(first(b"Int"), (Ok(Token::Identifier), b"Int".to_vec(), vec![]));
    assert_eq!(first(b"len_"), (Ok(Token::Identifier), b"len_".to_vec(), vec![]));
}

#[test]
fn each_error_kind() {
    assert_eq!(first(b"/* x").0, Err(Error::UnterminatedComment));
    assert_eq!(first(b"#").0, Err(Error::UnexpectedChar(b'#')));
    assert_eq!(first(b"''x").0, Err(Error::EmptyChar));
    assert_eq!(first(&[0x01]).0, Err(Error::NonAsciiChars));
    assert_eq!(first(b"\"\\\"").0, Err(Error::StringLiteral));
}

#[test]
fn trivia_rules() {
    assert_eq!(first(b" \t\r\nx"), (Ok(Token::Space), b" \t\r\n".to_vec(), b"x".to_vec()));
    assert_eq!(first(b"// a\nb"), (Ok(Token::LineComment), b"// a".to_vec(), b"\nb".to_vec()));
    assert_eq!(first(b"/* a */b"), (Ok(Token::BlockComment), b"/* a */".to_vec(), b"b".to_vec()));
    assert_eq!(first(b"/a"), (Ok(Token::Slash), b"/".to_vec(), b"a".to_vec()));
}

#[test]
fn byte_class_helpers() {
    assert!(lexer::is_escaped_char(b'n'));
    assert!(!lexer::is_escaped_char(b'a'));
    assert!(lexer::is_dcf_char(b'a'));
    assert!(!lexer::is_dcf_char(b'"'));
    assert!(!lexer::is_dcf_char(b'\''));
    assert!(!lexer::is_dcf_char(b'\\'));
    assert!(lexer::is_ascii(&b'\t'));
    assert!(!lexer::is_ascii(&0x0c));
}

#[test]
fn diagnostics_single_errors() {
    let src: &[u8] = b"x\n  '\\a'";
    let (_, rem) = lexer::token(Span::new(src)).unwrap();
    let (_, rem) = lexer::token(rem).unwrap();
    let (tok, _) = lexer::char_literal(rem).unwrap();
    let err = tok.span().into_spanned(tok.get().unwrap_err());
    assert_eq!(log_err("t.dcf", &err), vec!["t.dcf:2:3: invalid escape sequence: \\\\x61".to_string()]);

    let span = Span::new(b"0x");
    assert_eq!(
        log_err("t.dcf", &span.into_spanned(Error::EmptyHexLiteral)),
        vec!["t.dcf:1:1: invalid hex literal: 0x".to_string()]
    );
    let span = Span::new("é".as_bytes());
    assert_eq!(
        log_err("f", &span.into_spanned(Error::NonAsciiChars)),
        vec!["f:1:1: non-ascii characters: é".to_string()]
    );
    let span = Span::new(b"7");
    assert_eq!(
        log_err("f", &span.into_spanned(Error::UnexpectedChar(b'7'))),
        vec!["f:1:1: unexpected character: 7".to_string()]
    );
    assert_eq!(
        log_err("f", &span.into_spanned(Error::InvalidChar(b'\t'))),
        vec!["f:1:1: invalid character literal: \\x09".to_string()]
    );
    assert_eq!(log_err("f", &span.into_spanned(Error::EmptyChar)), vec!["f:1:1: empty char literal".to_string()]);
    assert_eq!(
        log_err("f", &span.into_spanned(Error::UnterminatedChar)),
        vec!["f:1:1: unterminated char literal".to_string()]
    );
    assert_eq!(
        log_err("f", &span.into_spanned(Error::UnterminatedComment)),
        vec!["f:1:1: unterminated block comment".to_string()]
    );
    assert_eq!(
        log_err("f", &span.into_spanned(Error::UnterminatedString)),
        vec!["f:1:1: unterminated string literal".to_string()]
    );
}

#[test]
fn diagnostics_string_literal_expands() {
    let src: &[u8] = b"\"a\\qb\x01";
    let (tok, _) = lexer::string_literal(Span::new(src)).unwrap();
    let err = tok.span().into_spanned(tok.get().unwrap_err());
    assert_eq!(
        log_err("s.dcf", &err),
        vec![
            "s.dcf:1:4: invalid escape sequence: \\\\x71".to_string(),
            "s.dcf:1:6: invalid character literal: \\x01".to_string(),
            "s.dcf:1:1: unterminated string literal".to_string(),
        ]
    );
}

#[test]
fn format_error_numbers() {
    assert_eq!(format_error("f.dcf", (12, 305), "oops"), "f.dcf:12:305: oops");
    assert_eq!(format_error("f", (1, 10), ""), "f:1:10: ");
    assert_eq!(message(Error::InvalidEscape(b'0'), ""), "invalid escape sequence: \\0");
    assert_eq!(message(Error::UnexpectedChar(0xab), ""), "unexpected character: \\xab");
}

#[test]
fn listing_lines() {
    assert_eq!(dcfrs::report::listing_line(3, Token::Identifier, "abc"), Some("3 IDENTIFIER abc".to_string()));
    assert_eq!(dcfrs::report::listing_line(12, Token::HexLiteral, "0x1f"), Some("12 INTLITERAL 0x1f".to_string()));
    assert_eq!(dcfrs::report::listing_line(1, Token::CharLiteral(b'a'), "'a'"), Some("1 CHARLITERAL 'a'".to_string()));
    assert_eq!(dcfrs::report::listing_line(1, Token::False, "false"), Some("1 BOOLEANLITERAL false".to_string()));
    assert_eq!(dcfrs::report::listing_line(1, Token::StringLiteral, "\"s\""), Some("1 STRINGLITERAL \"s\"".to_string()));
    assert_eq!(dcfrs::report::listing_line(7, Token::LessEqual, "<="), Some("7 <=".to_string()));
    assert_eq!(dcfrs::report::listing_line(7, Token::While, "while"), Some("7 while".to_string()));
    assert_eq!(dcfrs::report::listing_line(7, Token::Eof, ""), None);
    assert_eq!(dcfrs::report::listing_line(7, Token::Space, " "), None);
}

#[test]
fn string_ending_in_unescaped_quote_is_terminated() {
    let text = b"\"a\"b\"";
    let errs = lexer::get_string_errors(Span::new(text));
    let found: Vec<(Error, Vec<u8>, (usize, usize))> =
        errs.iter().map(|e| (e.get(), e.fragment().to_vec(), e.position())).collect();
    assert_eq!(found, vec![(Error::InvalidChar(b'"'), b"\"".to_vec(), (1, 3))]);

    let escaped = lexer::get_string_errors(Span::new(b"\"a\\\""));
    assert_eq!(escaped.len(), 1);
    assert_eq!(escaped[0].get(), Error::UnterminatedString);

    let backslash = lexer::get_string_errors(Span::new(b"\"a\\\\\""));
    assert!(backslash.is_empty());

    assert_eq!(lexer::get_string_errors(Span::new(b"\"")).len(), 1);
}

#[test]
fn dispatch_all_keeps_every_byte() {
    let text: &[u8] = b"if (x) { y += 0x1f; } // done\n/* c */ \"s\\q\" '\\' \xc3\xa9 #";
    let items = lexer::dispatch_all(Span::new(text));
    let mut rebuilt = vec![];
    for t in items.iter() {
        assert!(!t.fragment().is_empty());
        rebuilt.extend_from_slice(t.fragment());
    }
    assert_eq!(rebuilt, text.to_vec());
    assert_eq!(items[0].get(), Ok(Token::If));
    assert_eq!(items[1].get(), Ok(Token::Space));
    assert!(items.iter().any(|t| t.get() == Ok(Token::LineComment)));
    assert!(items.iter().any(|t| t.get() == Ok(Token::BlockComment)));
    assert!(items.iter().all(|t| t.get() != Ok(Token::Eof)));
    assert!(lexer::dispatch_all(Span::new(b"")).is_empty());
}

#[test]
fn nothing_after_eof_in_long_stream() {
    let mut toks = tokens(Span::new(b"int main() { return 1; } ''"));
    let mut seen_eof = false;
    let mut count = 0;
    while let Some(t) = toks.next() {
        assert!(!seen_eof);
        seen_eof = t.get() == Ok(Token::Eof);
        count += 1;
    }
    assert!(seen_eof);
    assert_eq!(count, 11);
    assert!(toks.next().is_none());
}
