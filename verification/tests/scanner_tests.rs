use mylang::error::error::ErrorType;
use mylang::scanner::{Lexer, Token, TokenKind, TokenType};
use mylang::utils::{Position, Span};

fn scan(input: &str) -> Vec<Token> {
    let mut lexer = Lexer::new(input.to_string());
    lexer.tokenize().unwrap()
}

fn kinds(input: &str) -> Vec<TokenType> {
    scan(input).into_iter().map(|t| t.token_type).collect()
}

fn pos(line: usize, column: usize, offset: usize) -> Position {
    Position { line, column, offset }
}

fn text(s: &str) -> String {
    s.to_string()
}

#[test]
fn scanner_empty_input_gives_only_eof() {
    let tokens = scan("");
    assert_eq!(tokens.len(), 1);
    assert_eq!(tokens[0].token_type, TokenKind::Eof);
    assert_eq!(tokens[0].span, Span { start: pos(1, 1, 0), end: pos(1, 1, 0) });
}

#[test]
fn scanner_declaration_with_spans() {
    let tokens = scan("let x = 42;");
    let expected = vec![
        (TokenKind::Let, pos(1, 1, 0), pos(1, 4, 3)),
        (TokenKind::Identifier(text("x")), pos(1, 5, 4), pos(1, 6, 5)),
        (TokenKind::Assign, pos(1, 7, 6), pos(1, 8, 7)),
        (TokenKind::Number(text("42")), pos(1, 9, 8), pos(1, 11, 10)),
        (TokenKind::Semicolon, pos(1, 11, 10), pos(1, 12, 11)),
        (TokenKind::Eof, pos(1, 12, 11), pos(1, 12, 11)),
    ];
    assert_eq!(tokens.len(), expected.len());
    for (token, (kind, start, end)) in tokens.iter().zip(expected.into_iter()) {
        assert_eq!(token.token_type, kind);
        assert_eq!(token.span, Span { start, end });
    }
}

#[test]
fn scanner_keywords_and_identifiers() {
    assert_eq!(
        kinds("let fn if else while for in return true false and or not foo_1 _x"),
        vec![
            TokenKind::Let,
            TokenKind::Fn,
            TokenKind::If,
            TokenKind::Else,
            TokenKind::While,
            TokenKind::For,
            TokenKind::In,
            TokenKind::Return,
            TokenKind::Boolean(true),
            TokenKind::Boolean(false),
            TokenKind::And,
            TokenKind::Or,
            TokenKind::Not,
            TokenKind::Identifier(text("foo_1")),
            TokenKind::Identifier(text("_x")),
            TokenKind::Eof,
        ]
    );
}

#[test]
fn scanner_operators_one_and_two_characters() {
    assert_eq!(
        kinds("+ - * / % = == != ! < <= > >= -> ( ) { } [ ] , ; :"),
        vec![
            TokenKind::Plus,
            TokenKind::Minus,
            TokenKind::Asterisk,
            TokenKind::Slash,
            TokenKind::Percent,
            TokenKind::Assign,
            TokenKind::Equal,
            TokenKind::NotEqual,
            TokenKind::Not,
            TokenKind::LessThan,
            TokenKind::LessEqual,
            TokenKind::GreaterThan,
            TokenKind::GreaterEqual,
            TokenKind::Arrow,
            TokenKind::LeftParen,
            TokenKind::RightParen,
            TokenKind::LeftBrace,
            TokenKind::RightBrace,
            TokenKind::LeftBracket,
            TokenKind::RightBracket,
            TokenKind::Comma,
            TokenKind::Semicolon,
            TokenKind::Colon,
            TokenKind::Eof,
        ]
    );
}

#[test]
fn scanner_ampersand_and_bar_are_swapped() {
    assert_eq!(kinds("& |"), vec![TokenKind::Pipe, TokenKind::Ampersand, TokenKind::Eof]);
}

#[test]
fn scanner_numbers_keep_their_text() {
    assert_eq!(
        kinds("3.14 7. 0"),
        vec![
            TokenKind::Number(text("3.14")),
            TokenKind::Number(text("7.")),
            TokenKind::Number(text("0")),
            TokenKind::Eof,
        ]
    );
}

#[test]
fn scanner_second_dot_is_invalid_number() {
    let mut lexer = Lexer::new(text("1.2.3"));
    let e = lexer.tokenize().unwrap_err();
    assert_eq!(e.message, "Invalid number");
    assert_eq!(e.error_type, ErrorType::LexicalError);
    assert_eq!(e.span, Some(Span { start: pos(1, 4, 3), end: pos(1, 4, 3) }));
}

#[test]
fn scanner_strings_with_both_quotes_and_escapes() {
    assert_eq!(
        kinds("\"hi\" 'a\\'b'"),
        vec![TokenKind::String(text("hi")), TokenKind::String(text("a'b")), TokenKind::Eof]
    );
}

#[test]
fn scanner_unterminated_string_at_end() {
    let mut lexer = Lexer::new(text("\"abc"));
    let e = lexer.tokenize().unwrap_err();
    assert_eq!(e.message, "Unterminated string literal");
    assert_eq!(e.span, Some(Span { start: pos(1, 5, 4), end: pos(1, 5, 4) }));
}

#[test]
fn scanner_newline_ends_string_with_error() {
    let mut lexer = Lexer::new(text("\"ab\ncd\""));
    let e = lexer.tokenize().unwrap_err();
    assert_eq!(e.message, "Unterminated string literal");
    assert_eq!(e.span, Some(Span { start: pos(1, 4, 3), end: pos(2, 1, 4) }));
}

#[test]
fn scanner_backslash_at_end_is_unterminated() {
    let mut lexer = Lexer::new(text("'ab\\"));
    let e = lexer.tokenize().unwrap_err();
    assert_eq!(e.message, "Unterminated string literal");
    assert_eq!(e.span, Some(Span { start: pos(1, 4, 3), end: pos(1, 5, 4) }));
}

#[test]
fn scanner_unexpected_character() {
    let mut lexer = Lexer::new(text("x @"));
    let e = lexer.tokenize().unwrap_err();
    assert_eq!(e.message, "Unexpected character: @");
    assert_eq!(e.error_type, ErrorType::LexicalError);
    assert_eq!(e.span, Some(Span { start: pos(1, 3, 2), end: pos(1, 4, 3) }));
    assert_eq!(e.file, None);
}

#[test]
fn scanner_comments_are_skipped() {
    let tokens = scan("// note\nx / y");
    assert_eq!(tokens.len(), 4);
    assert_eq!(tokens[0].token_type, TokenKind::Identifier(text("x")));
    assert_eq!(tokens[0].span.start, pos(2, 1, 8));
    assert_eq!(tokens[1].token_type, TokenKind::Slash);
    assert_eq!(tokens[2].token_type, TokenKind::Identifier(text("y")));
    assert_eq!(tokens[3].token_type, TokenKind::Eof);
}

#[test]
fn scanner_offset_counts_bytes_past_wide_characters() {
    // The offset moves two bytes past 'é', which skips the closing quote.
    let mut lexer = Lexer::new(text("\"é\" x"));
    let e = lexer.tokenize().unwrap_err();
    assert_eq!(e.message, "Unterminated string literal");
    assert_eq!(e.span, Some(Span { start: pos(1, 5, 5), end: pos(1, 5, 5) }));
}

#[test]
fn scanner_lines_and_columns() {
    let tokens = scan("a\n  b");
    assert_eq!(tokens[1].span, Span { start: pos(2, 3, 4), end: pos(2, 4, 5) });
}

#[test]
fn scanner_unicode_numerals_and_letters_continue_tokens() {
    assert_eq!(kinds("1²"), vec![TokenKind::Number(text("1²")), TokenKind::Eof]);
    assert_eq!(kinds("aé"), vec![TokenKind::Identifier(text("aé")), TokenKind::Eof]);
}

#[test]
fn position_after_a_whole_string() {
    let mut p = Position::new();
    for c in "ab\nxé".chars() {
        p.advance(c);
    }
    assert_eq!(p, Position { line: 2, column: 3, offset: 6 });
}

#[test]
fn scanner_resumes_at_the_end_of_the_error_span() {
    let mut lexer = Lexer::new("1.2.3 x".to_string());
    let err = lexer.tokenize().unwrap_err();
    assert_eq!(err.span, Some(Span { start: pos(1, 4, 3), end: pos(1, 4, 3) }));
    let again = lexer.tokenize().unwrap_err();
    assert_eq!(again.span, Some(Span { start: pos(1, 4, 3), end: pos(1, 5, 4) }));
    let rest: Vec<TokenType> = lexer.tokenize().unwrap().into_iter().map(|t| t.token_type).collect();
    assert_eq!(rest, vec![TokenKind::Number(text("3")), TokenKind::Identifier(text("x")), TokenKind::Eof]);
}
