use ripc::lex::{Error, ErrorKind, Lexer, Token, TokenKind};
use ripc::Span;

fn lex_all(src: &str) -> (Vec<Token<'_>>, Option<Error>) {
    let mut lexer = Lexer::new(src);
    let mut tokens = Vec::new();
    loop {
        match lexer.next() {
            None => return (tokens, None),
            Some(Ok(t)) => tokens.push(t),
            Some(Err(e)) => return (tokens, Some(e)),
        }
    }
}

#[test]
fn single_character_tokens() {
    let (tokens, err) = lex_all("+-*/=;()");
    assert!(err.is_none());
    let kinds: Vec<TokenKind<'_>> = tokens.iter().map(|t| t.kind).collect();
    assert_eq!(
        kinds,
        vec![
            TokenKind::Add,
            TokenKind::Sub,
            TokenKind::Mul,
            TokenKind::Div,
            TokenKind::Assign,
            TokenKind::Semi,
            TokenKind::OpenParen,
            TokenKind::CloseParen,
        ]
    );
    for (i, t) in tokens.iter().enumerate() {
        assert_eq!(t.span, Span::new(i..i + 1));
    }
}

#[test]
fn numbers_scan_greedily() {
    let (tokens, err) = lex_all("123");
    assert!(err.is_none());
    assert_eq!(tokens.len(), 1);
    assert_eq!(tokens[0].kind, TokenKind::Num(123));
    assert_eq!(tokens[0].span, Span::new(0..3));
}

#[test]
fn number_too_large_is_rejected() {
    // one more than usize::MAX on a 64-bit target
    let (tokens, err) = lex_all("18446744073709551616");
    assert!(tokens.is_empty());
    let e = err.unwrap();
    assert_eq!(e.kind, ErrorKind::NumberTooLarge);
    assert_eq!(e.span, Span::new(0..20));
}

#[test]
fn largest_number_still_fits() {
    let (tokens, err) = lex_all("18446744073709551615");
    assert!(err.is_none());
    assert_eq!(tokens[0].kind, TokenKind::Num(usize::MAX));
}

#[test]
fn whitespace_run_collapses_into_one_token() {
    let (tokens, err) = lex_all("1 \t\n 2");
    assert!(err.is_none());
    let kinds: Vec<TokenKind<'_>> = tokens.iter().map(|t| t.kind).collect();
    assert_eq!(
        kinds,
        vec![TokenKind::Num(1), TokenKind::Whitespace, TokenKind::Num(2)]
    );
    assert_eq!(tokens[1].span, Span::new(1..5));
}

#[test]
fn identifiers_are_letter_runs() {
    let (tokens, err) = lex_all("abc_DE");
    assert!(err.is_none());
    assert_eq!(tokens.len(), 1);
    assert_eq!(tokens[0].kind, TokenKind::Ident("abc_DE"));
}

#[test]
fn string_literal_strips_quotes_only() {
    let (tokens, err) = lex_all("\"ab\"");
    assert!(err.is_none());
    assert_eq!(tokens[0].kind, TokenKind::Str("ab"));
    assert_eq!(tokens[0].span, Span::new(0..4));
}

#[test]
fn string_escapes_are_recognized_but_not_decoded() {
    // the source holds: "a\"b"
    let (tokens, err) = lex_all("\"a\\\"b\"");
    assert!(err.is_none());
    assert_eq!(tokens[0].kind, TokenKind::Str("a\\\"b"));
    assert_eq!(tokens[0].span, Span::new(0..6));
}

#[test]
fn unterminated_string_is_unexpected_eof() {
    let (tokens, err) = lex_all("\"abc");
    assert!(tokens.is_empty());
    let e = err.unwrap();
    assert_eq!(e.kind, ErrorKind::UnexpectedEof);
    assert_eq!(e.span, Span::new(0..4));
}

#[test]
fn invalid_character_is_reported_with_the_character() {
    let (tokens, err) = lex_all("#");
    assert!(tokens.is_empty());
    let e = err.unwrap();
    assert_eq!(e.kind, ErrorKind::InvalidCharacter('#'));
    assert_eq!(e.span, Span::new(0..1));
}

#[test]
fn lexing_stops_at_the_first_invalid_character() {
    let mut lexer = Lexer::new("#1");
    let e = lexer.next().unwrap().unwrap_err();
    assert_eq!(e.kind, ErrorKind::InvalidCharacter('#'));
    // the stream terminates at the first invalid construct
    assert!(lexer.next().is_none());
    assert!(lexer.next().is_none());
}

#[test]
fn lexing_stops_at_an_oversized_number() {
    let mut lexer = Lexer::new("99999999999999999999999 1");
    let e = lexer.next().unwrap().unwrap_err();
    assert_eq!(e.kind, ErrorKind::NumberTooLarge);
    assert!(lexer.next().is_none());
}

#[test]
fn lexing_stops_at_an_unterminated_string() {
    let mut lexer = Lexer::new("\"ab");
    let e = lexer.next().unwrap().unwrap_err();
    assert_eq!(e.kind, ErrorKind::UnexpectedEof);
    assert!(lexer.next().is_none());
}

#[test]
fn token_spans_never_exceed_the_source_length() {
    let src = "a = 12 + \"s\"; b=a*3;";
    let (tokens, err) = lex_all(src);
    assert!(err.is_none());
    let mut prev_end = 0;
    for t in &tokens {
        assert!(t.span.start < t.span.end);
        assert!(t.span.end <= src.len());
        assert_eq!(t.span.start, prev_end);
        prev_end = t.span.end;
    }
    assert_eq!(prev_end, src.len());
}

#[test]
fn exhausted_lexer_keeps_yielding_none() {
    let mut lexer = Lexer::new("1");
    assert!(lexer.next().unwrap().is_ok());
    assert!(lexer.next().is_none());
    assert!(lexer.next().is_none());
}

#[test]
fn current_span_is_the_sentinel_at_end_of_input() {
    let mut lexer = Lexer::new("12");
    let t = lexer.next().unwrap().unwrap();
    assert_eq!(t.span, Span::new(0..2));
    assert_eq!(lexer.current_span(), Span::eof());
}

#[test]
fn non_ascii_characters_are_invalid_outside_strings() {
    let (tokens, err) = lex_all("é");
    assert!(tokens.is_empty());
    let e = err.unwrap();
    assert_eq!(e.kind, ErrorKind::InvalidCharacter('é'));
    // spans count characters, so the one-character span covers it
    assert_eq!(e.span, Span::new(0..1));
}

#[test]
fn string_literals_may_hold_any_characters() {
    let (tokens, err) = lex_all("\"héllo\"");
    assert!(err.is_none());
    assert_eq!(tokens[0].kind, TokenKind::Str("héllo"));
    assert_eq!(tokens[0].span, Span::new(0..7));
}

#[test]
fn token_text_displays_the_token() {
    assert_eq!(TokenKind::Add.text(), "+");
    assert_eq!(TokenKind::Num(42).text(), "42");
    assert_eq!(TokenKind::Num(0).text(), "0");
    assert_eq!(TokenKind::Str("hi").text(), "hi");
    assert_eq!(TokenKind::Ident("x").text(), "x");
    assert_eq!(TokenKind::Whitespace.text(), " ");
    assert_eq!(TokenKind::Eof.text(), "eof");
}
