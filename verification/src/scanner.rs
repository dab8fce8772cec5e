//! The scanner of the typed front end: splits source text into tokens, each
//! with the span of source it covers.
//!
//! The scanner indexes the characters of its input by `Position::offset`,
//! which advances by the UTF-8 length of each character read; past a
//! character outside ASCII it therefore skips characters. The specification
//! below states that behaviour as it is.
use crate::error::error::{CompilerError, CompilerErrorView, ErrorType};
use crate::text::{
    chars_of, is_alphanumeric, is_numeric, is_white_space, is_whitespace, join2, push_char,
    same_text, string_of_char, unicode_alphanumeric, unicode_numeric,
};
use crate::utils::{position_after, Position, Span};
use vstd::prelude::*;
use vstd::string::*;

verus! {

/// The kind of a token. Literal payloads are held as text: `S` is `String` in
/// running code and `Seq<char>` in specifications. A number keeps the
/// characters it was written with.
#[derive(Debug, Clone, PartialEq)]
pub enum TokenKind<S> {
    // Literals
    Number(S),
    String(S),
    Identifier(S),
    Boolean(bool),

    // Keywords
    Let,
    Fn,
    If,
    Else,
    While,
    For,
    In,
    Return,
    And,
    Or,
    Not,

    // Operators
    Plus,
    Minus,
    Asterisk,
    Slash,
    Percent,
    Assign,
    Equal,
    NotEqual,
    LessThan,
    LessEqual,
    GreaterThan,
    GreaterEqual,
    Pipe,
    Ampersand,
    Arrow,

    // Delimiters
    LeftParen,
    RightParen,
    LeftBrace,
    RightBrace,
    LeftBracket,
    RightBracket,
    Comma,
    Semicolon,
    Colon,

    // Special
    Eof,
}

pub type TokenType = TokenKind<String>;

pub type SpecTokenType = TokenKind<Seq<char>>;

impl<S: View> View for TokenKind<S> {
    type V = TokenKind<S::V>;

    open spec fn view(&self) -> TokenKind<S::V> {
        match self {
            TokenKind::Number(s) => TokenKind::Number(s@),
            TokenKind::String(s) => TokenKind::String(s@),
            TokenKind::Identifier(s) => TokenKind::Identifier(s@),
            TokenKind::Boolean(b) => TokenKind::Boolean(*b),
            TokenKind::Let => TokenKind::Let,
            TokenKind::Fn => TokenKind::Fn,
            TokenKind::If => TokenKind::If,
            TokenKind::Else => TokenKind::Else,
            TokenKind::While => TokenKind::While,
            TokenKind::For => TokenKind::For,
            TokenKind::In => TokenKind::In,
            TokenKind::Return => TokenKind::Return,
            TokenKind::And => TokenKind::And,
            TokenKind::Or => TokenKind::Or,
            TokenKind::Not => TokenKind::Not,
            TokenKind::Plus => TokenKind::Plus,
            TokenKind::Minus => TokenKind::Minus,
            TokenKind::Asterisk => TokenKind::Asterisk,
            TokenKind::Slash => TokenKind::Slash,
            TokenKind::Percent => TokenKind::Percent,
            TokenKind::Assign => TokenKind::Assign,
            TokenKind::Equal => TokenKind::Equal,
            TokenKind::NotEqual => TokenKind::NotEqual,
            TokenKind::LessThan => TokenKind::LessThan,
            TokenKind::LessEqual => TokenKind::LessEqual,
            TokenKind::GreaterThan => TokenKind::GreaterThan,
            TokenKind::GreaterEqual => TokenKind::GreaterEqual,
            TokenKind::Pipe => TokenKind::Pipe,
            TokenKind::Ampersand => TokenKind::Ampersand,
            TokenKind::Arrow => TokenKind::Arrow,
            TokenKind::LeftParen => TokenKind::LeftParen,
            TokenKind::RightParen => TokenKind::RightParen,
            TokenKind::LeftBrace => TokenKind::LeftBrace,
            TokenKind::RightBrace => TokenKind::RightBrace,
            TokenKind::LeftBracket => TokenKind::LeftBracket,
            TokenKind::RightBracket => TokenKind::RightBracket,
            TokenKind::Comma => TokenKind::Comma,
            TokenKind::Semicolon => TokenKind::Semicolon,
            TokenKind::Colon => TokenKind::Colon,
            TokenKind::Eof => TokenKind::Eof,
        }
    }
}

/// A token and the span of source it was read from.
#[derive(Debug, Clone)]
pub struct TokenOf<S> {
    pub token_type: TokenKind<S>,
    pub span: Span,
}

pub type Token = TokenOf<String>;

pub type SpecToken = TokenOf<Seq<char>>;

impl<S: View> View for TokenOf<S> {
    type V = TokenOf<S::V>;

    open spec fn view(&self) -> TokenOf<S::V> {
        TokenOf { token_type: self.token_type@, span: self.span }
    }
}

/// A lexical error with `message` at `span`.
pub open spec fn lexical(message: Seq<char>, span: Span) -> CompilerErrorView {
    CompilerErrorView { message, error_type: ErrorType::LexicalError, span: Some(span), file: None }
}

/// The character read at `p`: `input[p.offset]`, if there is one. (A position
/// within four of `usize::MAX` reads nothing; no input the scanner accepts
/// gets there.)
pub open spec fn char_at(input: Seq<char>, p: Position) -> Option<char> {
    if p.offset < input.len() && p.offset + 4 <= usize::MAX {
        Some(input[p.offset as int])
    } else {
        None
    }
}

/// The position after reading the character at `p`, or `p` at the end.
pub open spec fn step(input: Seq<char>, p: Position) -> Position {
    match char_at(input, p) {
        Some(c) => position_after(p, c),
        None => p,
    }
}

/// The position after a comment whose text starts at `p`: just past the
/// next newline, or the end.
pub open spec fn skip_line(input: Seq<char>, p: Position) -> Position
    decreases usize::MAX - p.offset,
{
    match char_at(input, p) {
        None => p,
        Some(c) => if c == '\n' {
            position_after(p, c)
        } else {
            skip_line(input, position_after(p, c))
        },
    }
}

/// A character that may continue an identifier.
pub open spec fn is_word_char(c: char) -> bool {
    unicode_alphanumeric(c) || c == '_'
}

/// The identifier `acc` continued from `p`, and the position after it.
pub open spec fn ident_from(input: Seq<char>, p: Position, acc: Seq<char>) -> (Seq<char>, Position)
    decreases usize::MAX - p.offset,
{
    match char_at(input, p) {
        Some(c) => if is_word_char(c) {
            ident_from(input, position_after(p, c), acc.push(c))
        } else {
            (acc, p)
        },
        None => (acc, p),
    }
}

/// The number `acc` continued from `p` (numeric characters and at most one
/// `.` in all), and the position after it; a second `.` is an error.
pub open spec fn number_from(input: Seq<char>, p: Position, acc: Seq<char>, has_dot: bool) -> Result<
    (Seq<char>, Position),
    CompilerErrorView,
>
    decreases usize::MAX - p.offset,
{
    match char_at(input, p) {
        None => Ok((acc, p)),
        Some(c) => if c == '.' {
            if has_dot {
                Err(lexical("Invalid number"@, Span { start: p, end: p }))
            } else {
                number_from(input, position_after(p, c), acc.push(c), true)
            }
        } else if !unicode_numeric(c) {
            Ok((acc, p))
        } else {
            number_from(input, position_after(p, c), acc.push(c), has_dot)
        },
    }
}

/// The text of a string literal `acc` continued from `p` up to the closing
/// `delimiter`, and the position after that; a backslash takes the next
/// character as it is. A newline or the end of input before the delimiter is
/// an error.
pub open spec fn string_from(input: Seq<char>, p: Position, delimiter: char, acc: Seq<char>) -> Result<
    (Seq<char>, Position),
    CompilerErrorView,
>
    decreases usize::MAX - p.offset,
{
    match char_at(input, p) {
        None => Err(lexical("Unterminated string literal"@, Span { start: p, end: p })),
        Some(c) => {
            let q = position_after(p, c);
            if c == delimiter {
                Ok((acc, q))
            } else if c == '\\' {
                match char_at(input, q) {
                    None => Err(lexical("Unterminated string literal"@, Span { start: p, end: q })),
                    Some(e) => string_from(input, position_after(q, e), delimiter, acc.push(e)),
                }
            } else if c == '\n' {
                Err(lexical("Unterminated string literal"@, Span { start: p, end: q }))
            } else {
                string_from(input, q, delimiter, acc.push(c))
            }
        },
    }
}

/// The token a word stands for: a keyword, a boolean literal, or an
/// identifier.
pub open spec fn word_token(w: Seq<char>) -> SpecTokenType {
    if w == "let"@ {
        TokenKind::Let
    } else if w == "fn"@ {
        TokenKind::Fn
    } else if w == "if"@ {
        TokenKind::If
    } else if w == "else"@ {
        TokenKind::Else
    } else if w == "while"@ {
        TokenKind::While
    } else if w == "for"@ {
        TokenKind::For
    } else if w == "in"@ {
        TokenKind::In
    } else if w == "return"@ {
        TokenKind::Return
    } else if w == "true"@ {
        TokenKind::Boolean(true)
    } else if w == "false"@ {
        TokenKind::Boolean(false)
    } else if w == "and"@ {
        TokenKind::And
    } else if w == "or"@ {
        TokenKind::Or
    } else if w == "not"@ {
        TokenKind::Not
    } else {
        TokenKind::Identifier(w)
    }
}

/// `long` when `second` is read at `p`, past it; else `short`, at `p`.
pub open spec fn one_or_two(
    input: Seq<char>,
    p: Position,
    second: char,
    long: SpecTokenType,
    short: SpecTokenType,
) -> (SpecTokenType, Position) {
    if char_at(input, p) == Some(second) {
        (long, position_after(p, second))
    } else {
        (short, p)
    }
}

/// The kind of the token that starts with `ch`, read at `start`, the rest of
/// it read from `p`; and the position after it. Note that `&` is read as
/// `Pipe` and `|` as `Ampersand`.
pub open spec fn token_at(input: Seq<char>, ch: char, start: Position, p: Position) -> Result<
    (SpecTokenType, Position),
    CompilerErrorView,
> {
    if ch == '(' {
        Ok((TokenKind::LeftParen, p))
    } else if ch == ')' {
        Ok((TokenKind::RightParen, p))
    } else if ch == '{' {
        Ok((TokenKind::LeftBrace, p))
    } else if ch == '}' {
        Ok((TokenKind::RightBrace, p))
    } else if ch == '[' {
        Ok((TokenKind::LeftBracket, p))
    } else if ch == ']' {
        Ok((TokenKind::RightBracket, p))
    } else if ch == ',' {
        Ok((TokenKind::Comma, p))
    } else if ch == ';' {
        Ok((TokenKind::Semicolon, p))
    } else if ch == ':' {
        Ok((TokenKind::Colon, p))
    } else if ch == '+' {
        Ok((TokenKind::Plus, p))
    } else if ch == '-' {
        Ok(one_or_two(input, p, '>', TokenKind::Arrow, TokenKind::Minus))
    } else if ch == '*' {
        Ok((TokenKind::Asterisk, p))
    } else if ch == '/' {
        Ok((TokenKind::Slash, p))
    } else if ch == '%' {
        Ok((TokenKind::Percent, p))
    } else if ch == '=' {
        Ok(one_or_two(input, p, '=', TokenKind::Equal, TokenKind::Assign))
    } else if ch == '!' {
        Ok(one_or_two(input, p, '=', TokenKind::NotEqual, TokenKind::Not))
    } else if ch == '<' {
        Ok(one_or_two(input, p, '=', TokenKind::LessEqual, TokenKind::LessThan))
    } else if ch == '>' {
        Ok(one_or_two(input, p, '=', TokenKind::GreaterEqual, TokenKind::GreaterThan))
    } else if ch == '&' {
        Ok((TokenKind::Pipe, p))
    } else if ch == '|' {
        Ok((TokenKind::Ampersand, p))
    } else if ch == '"' || ch == '\'' {
        match string_from(input, p, ch, Seq::empty()) {
            Ok((s, q)) => Ok((TokenKind::String(s), q)),
            Err(e) => Err(e),
        }
    } else if '0' <= ch <= '9' {
        match number_from(input, p, seq![ch], false) {
            Ok((s, q)) => Ok((TokenKind::Number(s), q)),
            Err(e) => Err(e),
        }
    } else if ('a' <= ch <= 'z') || ('A' <= ch <= 'Z') || ch == '_' {
        let (w, q) = ident_from(input, p, seq![ch]);
        Ok((word_token(w), q))
    } else {
        Err(lexical("Unexpected character: "@ + seq![ch], Span { start, end: p }))
    }
}

pub proof fn lemma_skip_line(input: Seq<char>, p: Position)
    ensures
        skip_line(input, p).offset >= p.offset,
    decreases usize::MAX - p.offset,
{
    if let Some(c) = char_at(input, p) {
        if c != '\n' {
            lemma_skip_line(input, position_after(p, c));
        }
    }
}

pub proof fn lemma_ident_from(input: Seq<char>, p: Position, acc: Seq<char>)
    ensures
        ident_from(input, p, acc).1.offset >= p.offset,
    decreases usize::MAX - p.offset,
{
    if let Some(c) = char_at(input, p) {
        if is_word_char(c) {
            lemma_ident_from(input, position_after(p, c), acc.push(c));
        }
    }
}

pub proof fn lemma_number_from(input: Seq<char>, p: Position, acc: Seq<char>, has_dot: bool)
    ensures
        number_from(input, p, acc, has_dot) matches Ok((_, q)) ==> q.offset >= p.offset,
    decreases usize::MAX - p.offset,
{
    if let Some(c) = char_at(input, p) {
        if c == '.' {
            if !has_dot {
                lemma_number_from(input, position_after(p, c), acc.push(c), true);
            }
        } else if unicode_numeric(c) {
            lemma_number_from(input, position_after(p, c), acc.push(c), has_dot);
        }
    }
}

pub proof fn lemma_string_from(input: Seq<char>, p: Position, d: char, acc: Seq<char>)
    ensures
        string_from(input, p, d, acc) matches Ok((_, q)) ==> q.offset >= p.offset,
    decreases usize::MAX - p.offset,
{
    if let Some(c) = char_at(input, p) {
        let q = position_after(p, c);
        if c != d && c == '\\' {
            if let Some(e) = char_at(input, q) {
                lemma_string_from(input, position_after(q, e), d, acc.push(e));
            }
        } else if c != d && c != '\n' {
            lemma_string_from(input, q, d, acc.push(c));
        }
    }
}

/// A token ends at or after the position its rest is read from.
pub proof fn lemma_token_at(input: Seq<char>, ch: char, start: Position, p: Position)
    ensures
        token_at(input, ch, start, p) matches Ok((_, q)) ==> q.offset >= p.offset,
{
    lemma_string_from(input, p, ch, Seq::empty());
    lemma_number_from(input, p, seq![ch], false);
    lemma_ident_from(input, p, seq![ch]);
}

/// The tokens of `input` read from `p` on, ending with an end-of-input token;
/// or the first lexical error. White space and `//` comments are skipped.
pub open spec fn tokens_from(input: Seq<char>, p: Position) -> Result<Seq<SpecToken>, CompilerErrorView>
    decreases usize::MAX - p.offset,
{
    match char_at(input, p) {
        None => Ok(seq![TokenOf { token_type: TokenKind::Eof, span: Span { start: p, end: p } }]),
        Some(c) => {
            let q = position_after(p, c);
            if is_white_space(c) {
                tokens_from(input, q)
            } else if c == '/' && char_at(input, q) == Some('/') {
                proof {
                    lemma_skip_line(input, q);
                }
                tokens_from(input, skip_line(input, q))
            } else {
                match token_at(input, c, p, q) {
                    Err(e) => Err(e),
                    Ok((t, r)) => {
                        proof {
                            lemma_token_at(input, c, p, q);
                        }
                        match tokens_from(input, r) {
                            Ok(ts) => Ok(seq![TokenOf { token_type: t, span: Span { start: p, end: r } }] + ts),
                            Err(e) => Err(e),
                        }
                    },
                }
            }
        },
    }
}

/// The tokens end with the end of input, and no other token is the end of
/// input.
pub open spec fn ends_with_eof(ts: Seq<SpecToken>) -> bool {
    &&& ts.len() > 0
    &&& ts.last().token_type is Eof
    &&& forall|k: int| 0 <= k < ts.len() - 1 ==> !((#[trigger] ts[k]).token_type is Eof)
}

/// No token read from a character is the end of input.
proof fn lemma_token_at_not_eof(input: Seq<char>, ch: char, start: Position, p: Position)
    ensures
        token_at(input, ch, start, p) matches Ok((t, _)) ==> !(t is Eof),
{
    if ('a' <= ch <= 'z') || ('A' <= ch <= 'Z') || ch == '_' {
        let (w, q) = ident_from(input, p, seq![ch]);
        assert(!(word_token(w) is Eof));
    }
}

/// Whatever the scanner reads, a successful scan ends with exactly one
/// end-of-input token, the last.
pub proof fn lemma_tokens_end_with_eof(input: Seq<char>, p: Position)
    ensures
        tokens_from(input, p) matches Ok(ts) ==> ends_with_eof(ts),
    decreases usize::MAX - p.offset,
{
    if let Some(c) = char_at(input, p) {
        let q = position_after(p, c);
        if is_white_space(c) {
            lemma_tokens_end_with_eof(input, q);
        } else if c == '/' && char_at(input, q) == Some('/') {
            lemma_skip_line(input, q);
            lemma_tokens_end_with_eof(input, skip_line(input, q));
        } else {
            lemma_token_at(input, c, p, q);
            lemma_token_at_not_eof(input, c, p, q);
            if let Ok((t, r)) = token_at(input, c, p, q) {
                lemma_tokens_end_with_eof(input, r);
                if let Ok(rest) = tokens_from(input, r) {
                    let ts = seq![TokenOf { token_type: t, span: Span { start: p, end: r } }] + rest;
                    assert forall|k: int| 0 <= k < ts.len() - 1 implies !((#[trigger] ts[k]).token_type is Eof) by {
                        if k > 0 {
                            assert(ts[k] == rest[k - 1]);
                        }
                    }
                }
            }
        }
    }
}

/// The tokens of a whole source text, as `Lexer::tokenize` gives them.
pub open spec fn scan(input: Seq<char>) -> Result<Seq<SpecToken>, CompilerErrorView> {
    tokens_from(input, Position { line: 1, column: 1, offset: 0 })
}

/// The view of a sequence of tokens.
pub open spec fn tokens_view(v: Seq<Token>) -> Seq<SpecToken> {
    v.map_values(|t: Token| t@)
}

/// The view of what `tokenize` returns.
pub open spec fn scan_view(r: Result<Vec<Token>, CompilerError>) -> Result<Seq<SpecToken>, CompilerErrorView> {
    match r {
        Ok(v) => Ok(tokens_view(v@)),
        Err(e) => Err(e@),
    }
}

/// `done` followed by what `rest` yields.
pub open spec fn prepend(done: Seq<SpecToken>, rest: Result<Seq<SpecToken>, CompilerErrorView>) -> Result<
    Seq<SpecToken>,
    CompilerErrorView,
> {
    match rest {
        Ok(ts) => Ok(done + ts),
        Err(e) => Err(e),
    }
}

pub struct Lexer {
    input: Vec<char>,
    position: Position,
}

impl Lexer {
    /// The source text.
    pub closed spec fn source(&self) -> Seq<char> {
        self.input@
    }

    /// The position of the next character to read.
    pub closed spec fn at(&self) -> Position {
        self.position
    }

    /// The input is small enough for every position in it to fit in `usize`,
    /// and the position is one the scanner can reach.
    pub closed spec fn wf(&self) -> bool {
        &&& self.input@.len() <= usize::MAX / 8
        &&& self.position.offset <= self.input@.len() + 3
        &&& 1 <= self.position.line <= self.position.offset + 1
        &&& 1 <= self.position.column <= self.position.offset + 1
    }

    /// A lexer at the start of `input`.
    pub fn new(input: String) -> (l: Self)
        requires
            input@.len() <= usize::MAX / 8,
        ensures
            l.wf(),
            l.source() == input@,
            l.at() == (Position { line: 1, column: 1, offset: 0 }),
    {
        Lexer { input: chars_of(input.as_str()), position: Position::new() }
    }

    /// Reads the rest of the input into tokens, the last of them the end of
    /// input; stops at the first lexical error, where the lexer then stands at
    /// the end of the error's span.
    pub fn tokenize(&mut self) -> (r: Result<Vec<Token>, CompilerError>)
        requires
            old(self).wf(),
        ensures
            final(self).wf(),
            final(self).source() == old(self).source(),
            scan_view(r) == tokens_from(old(self).source(), old(self).at()),
            r matches Err(x) ==> x@.span is Some && final(self).at() == x@.span->Some_0.end,
    {
        let ghost input = self.input@;
        let mut tokens: Vec<Token> = Vec::new();
        loop
            invariant
                self.wf(),
                self.input@ == input,
                input == old(self).input@,
                prepend(tokens_view(tokens@), tokens_from(input, self.position)) == tokens_from(
                    input,
                    old(self).position,
                ),
            decreases usize::MAX - self.position.offset,
        {
            let ghost p = self.position;
            match self.consume_char() {
                None => {
                    let eof = TokenOf {
                        token_type: TokenKind::Eof,
                        span: Span { start: self.position, end: self.position },
                    };
                    let ghost before = tokens@;
                    tokens.push(eof);
                    proof {
                        assert(tokens_view(tokens@) =~= tokens_view(before) + seq![eof@]);
                    }
                    return Ok(tokens);
                },
                Some((ch, position)) => {
                    if is_whitespace(ch) {
                        continue ;
                    }
                    if ch == '/' && self.peek() == Some('/') {
                        self.skip_comment();
                        proof {
                            lemma_skip_line(input, step(input, p));
                        }
                        continue ;
                    }
                    let ghost q = self.position;
                    match self.read_token(ch, position) {
                        Ok(token) => {
                            proof {
                                lemma_token_at(input, ch, p, q);
                            }
                            let ghost before = tokens@;
                            tokens.push(token);
                            proof {
                                assert(tokens_view(tokens@) =~= tokens_view(before).push(token@));
                                if let Ok(ts) = tokens_from(input, self.position) {
                                    assert(tokens_view(before) + (seq![token@] + ts) =~= tokens_view(tokens@)
                                        + ts);
                                }
                            }
                        },
                        Err(e) => {
                            return Err(e);
                        },
                    }
                },
            }
        }
    }

    fn peek(&self) -> (r: Option<char>)
        requires
            self.wf(),
        ensures
            r == char_at(self.input@, self.position),
    {
        if self.position.offset < self.input.len() {
            Some(self.input[self.position.offset])
        } else {
            None
        }
    }

    fn consume_char(&mut self) -> (r: Option<(char, Position)>)
        requires
            old(self).wf(),
        ensures
            final(self).wf(),
            final(self).input@ == old(self).input@,
            final(self).position == step(old(self).input@, old(self).position),
            r == match char_at(old(self).input@, old(self).position) {
                Some(c) => Some((c, old(self).position)),
                None => None,
            },
    {
        let ch = match self.peek() {
            Some(c) => c,
            None => {
                return None;
            },
        };
        let position = self.position;
        self.advance();
        Some((ch, position))
    }

    fn advance(&mut self)
        requires
            old(self).wf(),
        ensures
            final(self).wf(),
            final(self).input@ == old(self).input@,
            final(self).position == step(old(self).input@, old(self).position),
    {
        if let Some(ch) = self.peek() {
            self.position.advance(ch);
        }
    }

    fn skip_comment(&mut self)
        requires
            old(self).wf(),
        ensures
            final(self).wf(),
            final(self).input@ == old(self).input@,
            final(self).position == skip_line(old(self).input@, old(self).position),
    {
        loop
            invariant
                self.wf(),
                self.input@ == old(self).input@,
                skip_line(self.input@, self.position) == skip_line(old(self).input@, old(self).position),
            decreases usize::MAX - self.position.offset,
        {
            match self.consume_char() {
                Some((ch, _)) => {
                    if ch == '\n' {
                        return ;
                    }
                },
                None => {
                    return ;
                },
            }
        }
    }

    fn read_token(&mut self, ch: char, start: Position) -> (r: Result<Token, CompilerError>)
        requires
            old(self).wf(),
        ensures
            final(self).wf(),
            final(self).input@ == old(self).input@,
            match token_at(old(self).input@, ch, start, old(self).position) {
                Ok((t, q)) => r matches Ok(tok) && tok@ == (TokenOf { token_type: t, span: Span { start, end: q } })
                    && final(self).position == q,
                Err(e) => r matches Err(x) && x@ == e && e.span is Some && final(self).position == e.span->Some_0.end,
            },
    {
        let token_type = if ch == '(' {
            TokenKind::LeftParen
        } else if ch == ')' {
            TokenKind::RightParen
        } else if ch == '{' {
            TokenKind::LeftBrace
        } else if ch == '}' {
            TokenKind::RightBrace
        } else if ch == '[' {
            TokenKind::LeftBracket
        } else if ch == ']' {
            TokenKind::RightBracket
        } else if ch == ',' {
            TokenKind::Comma
        } else if ch == ';' {
            TokenKind::Semicolon
        } else if ch == ':' {
            TokenKind::Colon
        } else if ch == '+' {
            TokenKind::Plus
        } else if ch == '-' {
            if self.peek() == Some('>') {
                self.advance();
                TokenKind::Arrow
            } else {
                TokenKind::Minus
            }
        } else if ch == '*' {
            TokenKind::Asterisk
        } else if ch == '/' {
            TokenKind::Slash
        } else if ch == '%' {
            TokenKind::Percent
        } else if ch == '=' {
            if self.peek() == Some('=') {
                self.advance();
                TokenKind::Equal
            } else {
                TokenKind::Assign
            }
        } else if ch == '!' {
            if self.peek() == Some('=') {
                self.advance();
                TokenKind::NotEqual
            } else {
                TokenKind::Not
            }
        } else if ch == '<' {
            if self.peek() == Some('=') {
                self.advance();
                TokenKind::LessEqual
            } else {
                TokenKind::LessThan
            }
        } else if ch == '>' {
            if self.peek() == Some('=') {
                self.advance();
                TokenKind::GreaterEqual
            } else {
                TokenKind::GreaterThan
            }
        } else if ch == '&' {
            TokenKind::Pipe
        } else if ch == '|' {
            TokenKind::Ampersand
        } else if ch == '"' || ch == '\'' {
            match self.read_string(ch) {
                Ok(t) => t,
                Err(e) => {
                    return Err(e);
                },
            }
        } else if '0' <= ch && ch <= '9' {
            match self.read_number(ch) {
                Ok(t) => t,
                Err(e) => {
                    return Err(e);
                },
            }
        } else if ('a' <= ch && ch <= 'z') || ('A' <= ch && ch <= 'Z') || ch == '_' {
            self.read_identifier(ch)
        } else {
            let message = join2("Unexpected character: ", string_of_char(ch).as_str());
            return Err(CompilerError::lexical_error(message, Span { start, end: self.position }));
        };
        Ok(TokenOf { token_type, span: Span { start, end: self.position } })
    }

    fn read_number(&mut self, ch: char) -> (r: Result<TokenType, CompilerError>)
        requires
            old(self).wf(),
        ensures
            final(self).wf(),
            final(self).input@ == old(self).input@,
            match number_from(old(self).input@, old(self).position, seq![ch], false) {
                Ok((s, q)) => r matches Ok(t) && t@ == TokenKind::Number(s) && final(self).position == q,
                Err(e) => r matches Err(x) && x@ == e && e.span is Some && final(self).position == e.span->Some_0.end,
            },
    {
        let mut number = string_of_char(ch);
        let mut has_dot = false;
        loop
            invariant
                self.wf(),
                self.input@ == old(self).input@,
                number_from(self.input@, self.position, number@, has_dot) == number_from(
                    old(self).input@,
                    old(self).position,
                    seq![ch],
                    false,
                ),
            decreases usize::MAX - self.position.offset,
        {
            let c = match self.peek() {
                Some(c) => c,
                None => {
                    return Ok(TokenKind::Number(number));
                },
            };
            if c == '.' {
                if has_dot {
                    return Err(
                        CompilerError::lexical_error(
                            String::from_str("Invalid number"),
                            Span { start: self.position, end: self.position },
                        ),
                    );
                }
                has_dot = true;
                push_char(&mut number, c);
                self.advance();
                continue ;
            }
            if !is_numeric(c) {
                return Ok(TokenKind::Number(number));
            }
            push_char(&mut number, c);
            self.advance();
        }
    }

    fn read_string(&mut self, delimiter: char) -> (r: Result<TokenType, CompilerError>)
        requires
            old(self).wf(),
        ensures
            final(self).wf(),
            final(self).input@ == old(self).input@,
            match string_from(old(self).input@, old(self).position, delimiter, Seq::empty()) {
                Ok((s, q)) => r matches Ok(t) && t@ == TokenKind::String(s) && final(self).position == q,
                Err(e) => r matches Err(x) && x@ == e && e.span is Some && final(self).position == e.span->Some_0.end,
            },
    {
        let mut string = String::new();
        loop
            invariant
                self.wf(),
                self.input@ == old(self).input@,
                string_from(self.input@, self.position, delimiter, string@) == string_from(
                    old(self).input@,
                    old(self).position,
                    delimiter,
                    Seq::empty(),
                ),
            decreases usize::MAX - self.position.offset,
        {
            let (ch, position) = match self.consume_char() {
                Some(x) => x,
                None => {
                    return Err(
                        CompilerError::lexical_error(
                            String::from_str("Unterminated string literal"),
                            Span { start: self.position, end: self.position },
                        ),
                    );
                },
            };
            if ch == delimiter {
                return Ok(TokenKind::String(string));
            }
            if ch == '\\' {
                match self.consume_char() {
                    Some((escaped_ch, _)) => {
                        push_char(&mut string, escaped_ch);
                        continue ;
                    },
                    None => {
                        return Err(
                            CompilerError::lexical_error(
                                String::from_str("Unterminated string literal"),
                                Span { start: position, end: self.position },
                            ),
                        );
                    },
                }
            }
            if ch == '\n' {
                return Err(
                    CompilerError::lexical_error(
                        String::from_str("Unterminated string literal"),
                        Span { start: position, end: self.position },
                    ),
                );
            }
            push_char(&mut string, ch);
        }
    }

    fn read_identifier(&mut self, ch: char) -> (t: TokenType)
        requires
            old(self).wf(),
        ensures
            final(self).wf(),
            final(self).input@ == old(self).input@,
            ({
                let (w, q) = ident_from(old(self).input@, old(self).position, seq![ch]);
                t@ == word_token(w) && final(self).position == q
            }),
    {
        let mut identifier = string_of_char(ch);
        loop
            invariant
                self.wf(),
                self.input@ == old(self).input@,
                ident_from(self.input@, self.position, identifier@) == ident_from(
                    old(self).input@,
                    old(self).position,
                    seq![ch],
                ),
            decreases usize::MAX - self.position.offset,
        {
            let c = match self.peek() {
                Some(c) => c,
                None => {
                    return word_kind(identifier);
                },
            };
            if !is_alphanumeric(c) && c != '_' {
                return word_kind(identifier);
            }
            push_char(&mut identifier, c);
            self.advance();
        }
    }
}

/// The token a word stands for.
fn word_kind(word: String) -> (t: TokenType)
    ensures
        t@ == word_token(word@),
{
    let w = word.as_str();
    if same_text(w, "let") {
        TokenKind::Let
    } else if same_text(w, "fn") {
        TokenKind::Fn
    } else if same_text(w, "if") {
        TokenKind::If
    } else if same_text(w, "else") {
        TokenKind::Else
    } else if same_text(w, "while") {
        TokenKind::While
    } else if same_text(w, "for") {
        TokenKind::For
    } else if same_text(w, "in") {
        TokenKind::In
    } else if same_text(w, "return") {
        TokenKind::Return
    } else if same_text(w, "true") {
        TokenKind::Boolean(true)
    } else if same_text(w, "false") {
        TokenKind::Boolean(false)
    } else if same_text(w, "and") {
        TokenKind::And
    } else if same_text(w, "or") {
        TokenKind::Or
    } else if same_text(w, "not") {
        TokenKind::Not
    } else {
        TokenKind::Identifier(word)
    }
}

} // verus!
