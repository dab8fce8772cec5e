//! The lexer: splits source text into tokens, skipping white space and `//`
//! comments.
//!
//! The lexer reads the character whose index in the text is the offset of
//! its location, and the offset grows by the UTF-8 length of each character
//! read. Past a character longer than one byte the two part ways: the next
//! character read is not the next one in the text, and a token's text is the
//! stretch of characters between the offsets where it starts and ends.
use super::token::{SpecToken, SpecTokenType, Token, TokenKind, TokenOf, TokenType};
use crate::error::{located_view, Error, ErrorType, ErrorView, Result};
use crate::location::{advanced, can_advance, utf8_len, Location};
use crate::text::{
    chars_of, is_alphanumeric, is_ascii_letter, is_digit, is_white_space, is_whitespace, join2,
    string_of_char, string_of_range, unicode_alphanumeric,
};
use vstd::prelude::*;
use vstd::string::*;

verus! {

/// The character the lexer reads at `loc`: the one whose index is the
/// offset, if there is one. (An offset within four of `usize::MAX` reads
/// nothing; no text the lexer accepts gets there.)
pub open spec fn char_at(input: Seq<char>, loc: Location) -> Option<char> {
    if loc.offset < input.len() && loc.offset + 4 <= usize::MAX {
        Some(input[loc.offset as int])
    } else {
        None
    }
}

/// Where a comment whose text is read from `loc` ends: just past the next
/// newline, or where reading stops.
pub open spec fn comment_end(input: Seq<char>, loc: Location) -> Location
    decreases usize::MAX - loc.offset,
{
    match char_at(input, loc) {
        None => loc,
        Some(c) => if c == '\n' {
            advanced(loc, c)
        } else {
            comment_end(input, advanced(loc, c))
        },
    }
}

/// The first location at or after `loc` that reads no ASCII digit.
pub open spec fn digits_end(input: Seq<char>, loc: Location) -> Location
    decreases usize::MAX - loc.offset,
{
    match char_at(input, loc) {
        Some(c) => if is_digit(c) {
            digits_end(input, advanced(loc, c))
        } else {
            loc
        },
        None => loc,
    }
}

/// Where a number whose first digit was read before `loc` ends: digits, then
/// at most one `.`, then digits.
pub open spec fn number_end(input: Seq<char>, loc: Location) -> Location {
    let a = digits_end(input, loc);
    let b = if char_at(input, a) == Some('.') {
        advanced(a, '.')
    } else {
        a
    };
    digits_end(input, b)
}

/// A character that may continue an identifier.
pub open spec fn is_ident_char(c: char) -> bool {
    unicode_alphanumeric(c) || c == '_'
}

/// The first location at or after `loc` that reads nothing that can continue
/// an identifier.
pub open spec fn ident_end(input: Seq<char>, loc: Location) -> Location
    decreases usize::MAX - loc.offset,
{
    match char_at(input, loc) {
        Some(c) => if is_ident_char(c) {
            ident_end(input, advanced(loc, c))
        } else {
            loc
        },
        None => loc,
    }
}

/// The first location at or after `loc` that reads `delimiter`, or where
/// reading stops.
pub open spec fn string_end(input: Seq<char>, loc: Location, delimiter: char) -> Location
    decreases usize::MAX - loc.offset,
{
    match char_at(input, loc) {
        None => loc,
        Some(c) => if c == delimiter {
            loc
        } else {
            string_end(input, advanced(loc, c), delimiter)
        },
    }
}

/// The token a word stands for: a keyword, a boolean literal, or an identifier.
pub open spec fn word_token(w: Seq<char>) -> SpecTokenType {
    if w == seq!['l', 'e', 't'] {
        TokenKind::Let
    } else if w == seq!['f', 'n'] {
        TokenKind::Fn
    } else if w == seq!['i', 'f'] {
        TokenKind::If
    } else if w == seq!['e', 'l', 's', 'e'] {
        TokenKind::Else
    } else if w == seq!['w', 'h', 'i', 'l', 'e'] {
        TokenKind::While
    } else if w == seq!['f', 'o', 'r'] {
        TokenKind::For
    } else if w == seq!['b', 'r', 'e', 'a', 'k'] {
        TokenKind::Break
    } else if w == seq!['c', 'o', 'n', 't', 'i', 'n', 'u', 'e'] {
        TokenKind::Continue
    } else if w == seq!['r', 'e', 't', 'u', 'r', 'n'] {
        TokenKind::Return
    } else if w == seq!['t', 'r', 'u', 'e'] {
        TokenKind::Boolean(true)
    } else if w == seq!['f', 'a', 'l', 's', 'e'] {
        TokenKind::Boolean(false)
    } else if w == seq!['a', 'n', 'd'] {
        TokenKind::And
    } else if w == seq!['o', 'r'] {
        TokenKind::Or
    } else if w == seq!['p', 'r', 'i', 'n', 't'] {
        TokenKind::Print
    } else if w == seq!['n', 'i', 'l'] {
        TokenKind::Nil
    } else {
        TokenKind::Identifier(w)
    }
}

/// An operator that is `short` alone and `long` when `second` is read next
/// at `loc`.
pub open spec fn one_or_two(
    input: Seq<char>,
    loc: Location,
    second: char,
    long: SpecTokenType,
    short: SpecTokenType,
) -> (SpecTokenType, Location) {
    if char_at(input, loc) == Some(second) {
        (long, advanced(loc, second))
    } else {
        (short, loc)
    }
}

/// The token whose first character is read at `loc`, and the location after
/// it; or the lexical error found there.
pub open spec fn scan_one(input: Seq<char>, loc: Location) -> core::result::Result<
    (SpecTokenType, Location),
    ErrorView,
> {
    let c = input[loc.offset as int];
    let after = advanced(loc, c);
    if c == '(' {
        Ok((TokenKind::LeftParen, after))
    } else if c == ')' {
        Ok((TokenKind::RightParen, after))
    } else if c == '{' {
        Ok((TokenKind::LeftBrace, after))
    } else if c == '}' {
        Ok((TokenKind::RightBrace, after))
    } else if c == '[' {
        Ok((TokenKind::LeftBracket, after))
    } else if c == ']' {
        Ok((TokenKind::RightBracket, after))
    } else if c == ',' {
        Ok((TokenKind::Comma, after))
    } else if c == ';' {
        Ok((TokenKind::Semicolon, after))
    } else if c == ':' {
        Ok((TokenKind::Colon, after))
    } else if c == '+' {
        Ok(one_or_two(input, after, '=', TokenKind::PlusEqual, TokenKind::Plus))
    } else if c == '-' {
        Ok(one_or_two(input, after, '=', TokenKind::MinusEqual, TokenKind::Minus))
    } else if c == '*' {
        Ok(one_or_two(input, after, '=', TokenKind::StarEqual, TokenKind::Star))
    } else if c == '/' {
        Ok(one_or_two(input, after, '=', TokenKind::SlashEqual, TokenKind::Slash))
    } else if c == '=' {
        Ok(one_or_two(input, after, '=', TokenKind::EqualEqual, TokenKind::Equal))
    } else if c == '!' {
        Ok(one_or_two(input, after, '=', TokenKind::BangEqual, TokenKind::Bang))
    } else if c == '<' {
        Ok(one_or_two(input, after, '=', TokenKind::LessEqual, TokenKind::LessThan))
    } else if c == '>' {
        Ok(one_or_two(input, after, '=', TokenKind::GreaterEqual, TokenKind::GreaterThan))
    } else if c == '"' || c == '\'' {
        let k = string_end(input, after, c);
        if char_at(input, k) is Some {
            Ok(
                (
                    TokenKind::String(input.subrange(loc.offset + 1, k.offset as int)),
                    advanced(k, c),
                ),
            )
        } else {
            Err(located_view(ErrorType::Lexical, "unterminated string literal"@, k))
        }
    } else if is_digit(c) {
        let e = number_end(input, after);
        Ok((TokenKind::Number(input.subrange(loc.offset as int, e.offset as int)), e))
    } else if is_ascii_letter(c) || c == '_' {
        let e = ident_end(input, after);
        Ok((word_token(input.subrange(loc.offset as int, e.offset as int)), e))
    } else {
        Err(located_view(ErrorType::Lexical, "unexpected character: "@ + seq![c], loc))
    }
}

/// Whether the token read at `loc` is an identifier that ends past the end of
/// the text, so that its text, the characters between its offsets, does not
/// exist.
pub open spec fn ident_overruns(input: Seq<char>, loc: Location) -> bool {
    let c = input[loc.offset as int];
    &&& is_ascii_letter(c) || c == '_'
    &&& ident_end(input, advanced(loc, c)).offset > input.len()
}

pub proof fn lemma_comment_end(input: Seq<char>, loc: Location)
    ensures
        loc.offset <= comment_end(input, loc).offset,
    decreases usize::MAX - loc.offset,
{
    if let Some(c) = char_at(input, loc) {
        if c != '\n' {
            lemma_comment_end(input, advanced(loc, c));
        }
    }
}

/// Digits end within the text when they start within it.
pub proof fn lemma_digits_end(input: Seq<char>, loc: Location)
    ensures
        loc.offset <= digits_end(input, loc).offset,
        loc.offset <= input.len() ==> digits_end(input, loc).offset <= input.len(),
    decreases usize::MAX - loc.offset,
{
    if let Some(c) = char_at(input, loc) {
        if is_digit(c) {
            lemma_digits_end(input, advanced(loc, c));
        }
    }
}

pub proof fn lemma_ident_end(input: Seq<char>, loc: Location)
    ensures
        loc.offset <= ident_end(input, loc).offset,
    decreases usize::MAX - loc.offset,
{
    if let Some(c) = char_at(input, loc) {
        if is_ident_char(c) {
            lemma_ident_end(input, advanced(loc, c));
        }
    }
}

pub proof fn lemma_string_end(input: Seq<char>, loc: Location, d: char)
    ensures
        loc.offset <= string_end(input, loc, d).offset,
        char_at(input, string_end(input, loc, d)) is Some ==> char_at(input, string_end(input, loc, d))
            == Some(d),
    decreases usize::MAX - loc.offset,
{
    if let Some(c) = char_at(input, loc) {
        if c != d {
            lemma_string_end(input, advanced(loc, c), d);
        }
    }
}

/// A token read at `loc` ends after it.
pub proof fn lemma_scan_one_progress(input: Seq<char>, loc: Location)
    requires
        char_at(input, loc) is Some,
    ensures
        scan_one(input, loc) matches Ok((_, e)) ==> loc.offset < e.offset,
{
    let c = input[loc.offset as int];
    let after = advanced(loc, c);
    if c == '"' || c == '\'' {
        lemma_string_end(input, after, c);
    } else if is_digit(c) {
        lemma_digits_end(input, after);
        let a = digits_end(input, after);
        if char_at(input, a) == Some('.') {
            lemma_digits_end(input, advanced(a, '.'));
        } else {
            lemma_digits_end(input, a);
        }
    } else if is_ascii_letter(c) || c == '_' {
        lemma_ident_end(input, after);
    }
}

/// The tokens of `input` read from `loc` on, ending with an end-of-input
/// token; or the first lexical error.
pub open spec fn scan_from(input: Seq<char>, loc: Location) -> core::result::Result<
    Seq<SpecToken>,
    ErrorView,
>
    decreases usize::MAX - loc.offset,
{
    match char_at(input, loc) {
        None => Ok(seq![TokenOf { token_type: TokenKind::Eof, location: loc }]),
        Some(c) => {
            let after = advanced(loc, c);
            if is_white_space(c) {
                scan_from(input, after)
            } else if c == '/' && char_at(input, after) == Some('/') {
                proof {
                    lemma_comment_end(input, after);
                }
                scan_from(input, comment_end(input, after))
            } else {
                match scan_one(input, loc) {
                    Err(e) => Err(e),
                    Ok((t, e)) => {
                        proof {
                            lemma_scan_one_progress(input, loc);
                        }
                        match scan_from(input, e) {
                            Ok(ts) => Ok(seq![TokenOf { token_type: t, location: loc }] + ts),
                            Err(x) => Err(x),
                        }
                    },
                }
            }
        },
    }
}

/// Whether a scan from `loc` reads, before any lexical error, an identifier
/// that ends past the end of the text (see `ident_overruns`).
pub open spec fn overruns(input: Seq<char>, loc: Location) -> bool
    decreases usize::MAX - loc.offset,
{
    match char_at(input, loc) {
        None => false,
        Some(c) => {
            let after = advanced(loc, c);
            if is_white_space(c) {
                overruns(input, after)
            } else if c == '/' && char_at(input, after) == Some('/') {
                proof {
                    lemma_comment_end(input, after);
                }
                overruns(input, comment_end(input, after))
            } else {
                match scan_one(input, loc) {
                    Err(_) => false,
                    Ok((_, e)) => {
                        proof {
                            lemma_scan_one_progress(input, loc);
                        }
                        ident_overruns(input, loc) || overruns(input, e)
                    },
                }
            }
        },
    }
}

/// Where the lexer stands after failing to read a token at `loc`: an
/// unclosed string literal has been read as far as reading goes, any other
/// character just past itself.
pub open spec fn stop_at_error(input: Seq<char>, loc: Location) -> Location {
    let c = input[loc.offset as int];
    if c == '"' || c == '\'' {
        string_end(input, advanced(loc, c), c)
    } else {
        advanced(loc, c)
    }
}

/// The location the lexer stands at when a scan from `loc` stops at a
/// lexical error.
pub open spec fn scan_stop(input: Seq<char>, loc: Location) -> Location
    decreases usize::MAX - loc.offset,
{
    match char_at(input, loc) {
        None => loc,
        Some(c) => {
            let after = advanced(loc, c);
            if is_white_space(c) {
                scan_stop(input, after)
            } else if c == '/' && char_at(input, after) == Some('/') {
                proof {
                    lemma_comment_end(input, after);
                }
                scan_stop(input, comment_end(input, after))
            } else {
                match scan_one(input, loc) {
                    Err(_) => stop_at_error(input, loc),
                    Ok((_, e)) => {
                        proof {
                            lemma_scan_one_progress(input, loc);
                        }
                        scan_stop(input, e)
                    },
                }
            }
        },
    }
}

/// The tokens a scan gives end with the end of input, and only the last one is.
pub open spec fn ends_with_eof(ts: Seq<SpecToken>) -> bool {
    &&& ts.len() > 0
    &&& ts.last().token_type is Eof
    &&& forall|k: int| 0 <= k < ts.len() - 1 ==> !((#[trigger] ts[k]).token_type is Eof)
}

/// Whatever the lexer reads from `loc` on, a successful scan ends with
/// exactly one end-of-input token, the last.
pub proof fn lemma_scan_ends_with_eof(input: Seq<char>, loc: Location)
    ensures
        scan_from(input, loc) matches Ok(ts) ==> ends_with_eof(ts),
    decreases usize::MAX - loc.offset,
{
    if let Some(c) = char_at(input, loc) {
        let after = advanced(loc, c);
        if is_white_space(c) {
            lemma_scan_ends_with_eof(input, after);
        } else if c == '/' && char_at(input, after) == Some('/') {
            lemma_comment_end(input, after);
            lemma_scan_ends_with_eof(input, comment_end(input, after));
        } else {
            lemma_scan_one_progress(input, loc);
            if let Ok((t, e)) = scan_one(input, loc) {
                lemma_scan_ends_with_eof(input, e);
                lemma_scan_one_not_eof(input, loc);
                if let Ok(rest) = scan_from(input, e) {
                    let ts = seq![TokenOf { token_type: t, location: loc }] + rest;
                    assert forall|k: int| 0 <= k < ts.len() - 1 implies !((#[trigger] ts[k]).token_type is Eof) by {
                        if k > 0 {
                            assert(ts[k] == rest[k - 1]);
                        }
                    }
                }
            }
        }
    }
}

/// No token but the end of input is the end of input.
proof fn lemma_scan_one_not_eof(input: Seq<char>, loc: Location)
    requires
        char_at(input, loc) is Some,
    ensures
        scan_one(input, loc) matches Ok((t, _)) ==> !(t is Eof),
{
    let c = input[loc.offset as int];
    if is_ascii_letter(c) || c == '_' {
        let e = ident_end(input, advanced(loc, c));
        let w = input.subrange(loc.offset as int, e.offset as int);
        assert(!(word_token(w) is Eof));
    }
}

/// Token offsets strictly increase along a successful scan from `loc`, and
/// none lies before `loc`.
pub proof fn lemma_scan_offsets_increase(input: Seq<char>, loc: Location)
    ensures
        scan_from(input, loc) matches Ok(ts) ==> {
            &&& forall|a: int| 0 <= a < ts.len() ==> loc.offset <= (#[trigger] ts[a]).location.offset
            &&& forall|a: int, b: int|
                0 <= a < b < ts.len() ==> (#[trigger] ts[a]).location.offset < (#[trigger] ts[b]).location.offset
        },
    decreases usize::MAX - loc.offset,
{
    if let Some(c) = char_at(input, loc) {
        let after = advanced(loc, c);
        if is_white_space(c) {
            lemma_scan_offsets_increase(input, after);
        } else if c == '/' && char_at(input, after) == Some('/') {
            lemma_comment_end(input, after);
            lemma_scan_offsets_increase(input, comment_end(input, after));
        } else {
            lemma_scan_one_progress(input, loc);
            if let Ok((t, e)) = scan_one(input, loc) {
                lemma_scan_offsets_increase(input, e);
                if let Ok(rest) = scan_from(input, e) {
                    let ts = seq![TokenOf { token_type: t, location: loc }] + rest;
                    assert forall|a: int| 0 <= a < ts.len() implies loc.offset <= (#[trigger] ts[a]).location.offset by {
                        if a > 0 {
                            assert(ts[a] == rest[a - 1]);
                        }
                    }
                    assert forall|a: int, b: int| 0 <= a < b < ts.len() implies (#[trigger] ts[a]).location.offset
                        < (#[trigger] ts[b]).location.offset by {
                        assert(ts[b] == rest[b - 1]);
                        if a > 0 {
                            assert(ts[a] == rest[a - 1]);
                        }
                    }
                }
            }
        }
    }
}

/// The tokens of a whole source text, as `Lexer::tokenize` gives them.
pub open spec fn tokenize_spec(input: Seq<char>) -> core::result::Result<Seq<SpecToken>, ErrorView> {
    scan_from(input, Location { line: 1, column: 1, offset: 0 })
}

/// The tokens of any source text come at strictly increasing offsets.
pub proof fn lemma_tokens_offsets_increase(input: Seq<char>)
    ensures
        tokenize_spec(input) matches Ok(ts) ==> forall|a: int, b: int|
            0 <= a < b < ts.len() ==> (#[trigger] ts[a]).location.offset < (#[trigger] ts[b]).location.offset,
{
    lemma_scan_offsets_increase(input, Location { line: 1, column: 1, offset: 0 });
}

/// The view of a sequence of tokens.
pub open spec fn tokens_view(v: Seq<Token>) -> Seq<SpecToken> {
    v.map_values(|t: Token| t@)
}

/// The view of what `tokenize` returns.
pub open spec fn lex_result_view(r: Result<Vec<Token>>) -> core::result::Result<Seq<SpecToken>, ErrorView> {
    match r {
        Ok(v) => Ok(tokens_view(v@)),
        Err(e) => Err(e@),
    }
}

/// `done` followed by what `rest` yields.
pub open spec fn prepend(done: Seq<SpecToken>, rest: core::result::Result<Seq<SpecToken>, ErrorView>) -> core::result::Result<
    Seq<SpecToken>,
    ErrorView,
> {
    match rest {
        Ok(ts) => Ok(done + ts),
        Err(e) => Err(e),
    }
}

/// A location the lexer can stand at in `input`: the text is small enough
/// for every location in it to fit in `usize`, and line and column are no
/// further on than the characters read.
pub open spec fn in_range(input: Seq<char>, loc: Location) -> bool {
    &&& input.len() <= usize::MAX / 8
    &&& loc.offset <= input.len() + 3
    &&& 1 <= loc.line <= loc.offset + 1
    &&& 1 <= loc.column <= loc.offset + 1
}

/// Reading a character moves forward, stays in range, and fits in `usize`.
proof fn lemma_step_in_range(input: Seq<char>, loc: Location, c: char)
    requires
        in_range(input, loc),
        char_at(input, loc) == Some(c),
    ensures
        in_range(input, advanced(loc, c)),
        loc.offset < advanced(loc, c).offset,
        can_advance(loc, c),
{
    assert(1 <= utf8_len(c) <= 4);
}

/// The character at `loc`, as `char_at` gives it.
fn read_at(input: &Vec<char>, loc: Location) -> (r: Option<char>)
    requires
        input@.len() <= usize::MAX / 8,
    ensures
        r == char_at(input@, loc),
{
    if loc.offset < input.len() {
        Some(input[loc.offset])
    } else {
        None
    }
}

/// The location after reading `c` at `loc`.
fn step_past(loc: Location, c: char) -> (r: Location)
    requires
        can_advance(loc, c),
    ensures
        r == advanced(loc, c),
{
    let mut l = loc;
    l.advance(c);
    l
}

/// Reads the rest of a comment, through the newline that ends it.
fn after_comment(input: &Vec<char>, loc: Location) -> (r: Location)
    requires
        in_range(input@, loc),
    ensures
        r == comment_end(input@, loc),
        in_range(input@, r),
{
    let mut l = loc;
    loop
        invariant
            in_range(input@, l),
            comment_end(input@, l) == comment_end(input@, loc),
        decreases usize::MAX - l.offset,
    {
        match read_at(input, l) {
            None => {
                return l;
            },
            Some(c) => {
                proof {
                    lemma_step_in_range(input@, l, c);
                }
                let n = step_past(l, c);
                if c == '\n' {
                    return n;
                }
                l = n;
            },
        }
    }
}

/// Reads ASCII digits.
fn after_digits(input: &Vec<char>, loc: Location) -> (r: Location)
    requires
        in_range(input@, loc),
    ensures
        r == digits_end(input@, loc),
        in_range(input@, r),
{
    let mut l = loc;
    loop
        invariant
            in_range(input@, l),
            digits_end(input@, l) == digits_end(input@, loc),
        decreases usize::MAX - l.offset,
    {
        match read_at(input, l) {
            None => {
                return l;
            },
            Some(c) => {
                if !('0' <= c && c <= '9') {
                    return l;
                }
                proof {
                    lemma_step_in_range(input@, l, c);
                }
                l = step_past(l, c);
            },
        }
    }
}

/// Reads the characters that continue an identifier.
fn after_ident(input: &Vec<char>, loc: Location) -> (r: Location)
    requires
        in_range(input@, loc),
    ensures
        r == ident_end(input@, loc),
        in_range(input@, r),
{
    let mut l = loc;
    loop
        invariant
            in_range(input@, l),
            ident_end(input@, l) == ident_end(input@, loc),
        decreases usize::MAX - l.offset,
    {
        match read_at(input, l) {
            None => {
                return l;
            },
            Some(c) => {
                if !is_alphanumeric(c) && c != '_' {
                    return l;
                }
                proof {
                    lemma_step_in_range(input@, l, c);
                }
                l = step_past(l, c);
            },
        }
    }
}

/// Reads up to the next `delimiter`, which it does not read.
fn after_string(input: &Vec<char>, loc: Location, delimiter: char) -> (r: Location)
    requires
        in_range(input@, loc),
    ensures
        r == string_end(input@, loc, delimiter),
        in_range(input@, r),
{
    let mut l = loc;
    loop
        invariant
            in_range(input@, l),
            string_end(input@, l, delimiter) == string_end(input@, loc, delimiter),
        decreases usize::MAX - l.offset,
    {
        match read_at(input, l) {
            None => {
                return l;
            },
            Some(c) => {
                if c == delimiter {
                    return l;
                }
                proof {
                    lemma_step_in_range(input@, l, c);
                }
                l = step_past(l, c);
            },
        }
    }
}

/// One operator: `short`, or `long` when `second` is read next.
fn one_or_two_at(input: &Vec<char>, at: &mut Location, second: char, long: TokenType, short: TokenType) -> (t:
    TokenType)
    requires
        in_range(input@, *old(at)),
    ensures
        in_range(input@, *final(at)),
        one_or_two(input@, *old(at), second, long@, short@) == (t@, *final(at)),
{
    match read_at(input, *at) {
        Some(c) => {
            if c == second {
                proof {
                    lemma_step_in_range(input@, *at, c);
                }
                *at = step_past(*at, c);
                long
            } else {
                short
            }
        },
        None => short,
    }
}

/// The token whose first character `ch` was read at `start`; `at` stands just
/// past `ch` and ends past the token, or where the lexer stops on an error.
fn scan_token(input: &Vec<char>, at: &mut Location, ch: char, start: Location) -> (r: Result<Token>)
    requires
        in_range(input@, start),
        char_at(input@, start) == Some(ch),
        *old(at) == advanced(start, ch),
        !ident_overruns(input@, start),
    ensures
        in_range(input@, *final(at)),
        match scan_one(input@, start) {
            Ok((t, e)) => {
                &&& r matches Ok(tok) && tok@ == TokenOf { token_type: t, location: start }
                &&& *final(at) == e
            },
            Err(x) => {
                &&& r matches Err(err) && err@ == x
                &&& *final(at) == stop_at_error(input@, start)
            },
        },
{
    proof {
        lemma_step_in_range(input@, start, ch);
    }
    let token_type = if ch == '(' {
        TokenKind::LeftParen
    } else if ch == ')' {
        TokenKind::RightParen
    } else if ch == '{' {
        TokenKind::LeftBrace
    } else if ch == '}' {
        TokenKind::RightBrace
    } else if ch == '[' {
        TokenKind::LeftBracket
    } else if ch == ']' {
        TokenKind::RightBracket
    } else if ch == ',' {
        TokenKind::Comma
    } else if ch == ';' {
        TokenKind::Semicolon
    } else if ch == ':' {
        TokenKind::Colon
    } else if ch == '+' {
        one_or_two_at(input, at, '=', TokenKind::PlusEqual, TokenKind::Plus)
    } else if ch == '-' {
        one_or_two_at(input, at, '=', TokenKind::MinusEqual, TokenKind::Minus)
    } else if ch == '*' {
        one_or_two_at(input, at, '=', TokenKind::StarEqual, TokenKind::Star)
    } else if ch == '/' {
        one_or_two_at(input, at, '=', TokenKind::SlashEqual, TokenKind::Slash)
    } else if ch == '=' {
        one_or_two_at(input, at, '=', TokenKind::EqualEqual, TokenKind::Equal)
    } else if ch == '!' {
        one_or_two_at(input, at, '=', TokenKind::BangEqual, TokenKind::Bang)
    } else if ch == '<' {
        one_or_two_at(input, at, '=', TokenKind::LessEqual, TokenKind::LessThan)
    } else if ch == '>' {
        one_or_two_at(input, at, '=', TokenKind::GreaterEqual, TokenKind::GreaterThan)
    } else if ch == '"' || ch == '\'' {
        let k = after_string(input, *at, ch);
        proof {
            lemma_string_end(input@, *at, ch);
        }
        match read_at(input, k) {
            Some(c) => {
                proof {
                    lemma_step_in_range(input@, k, c);
                }
                assert(c == ch);
                assert(utf8_len(ch) == 1);
                let text = string_of_range(input, start.offset + 1, k.offset);
                *at = step_past(k, c);
                TokenKind::String(text)
            },
            None => {
                *at = k;
                return Err(Error::lexical(String::from_str("unterminated string literal"), k));
            },
        }
    } else if '0' <= ch && ch <= '9' {
        let a = after_digits(input, *at);
        proof {
            lemma_digits_end(input@, *at);
            lemma_digits_end(input@, a);
        }
        let b = match read_at(input, a) {
            Some(c) => if c == '.' {
                proof {
                    lemma_step_in_range(input@, a, c);
                }
                step_past(a, c)
            } else {
                a
            },
            None => a,
        };
        let e = after_digits(input, b);
        proof {
            lemma_digits_end(input@, b);
        }
        let text = string_of_range(input, start.offset, e.offset);
        *at = e;
        TokenKind::Number(text)
    } else if ('a' <= ch && ch <= 'z') || ('A' <= ch && ch <= 'Z') || ch == '_' {
        let e = after_ident(input, *at);
        proof {
            lemma_ident_end(input@, *at);
        }
        *at = e;
        word_kind(input, start.offset, e.offset)
    } else {
        let c = string_of_char(ch);
        return Err(Error::lexical(join2("unexpected character: ", c.as_str()), start));
    };
    Ok(TokenOf { token_type, location: start })
}

pub struct Lexer {
    input: Vec<char>,
    location: Location,
}

impl Lexer {
    /// The source text.
    pub closed spec fn source(&self) -> Seq<char> {
        self.input@
    }

    /// The location of the next character to read; its offset is that
    /// character's index in the text.
    pub closed spec fn at(&self) -> Location {
        self.location
    }

    /// The location is one the lexer can stand at in its text.
    pub closed spec fn wf(&self) -> bool {
        in_range(self.input@, self.location)
    }

    /// A lexer at the start of `input`.
    pub fn new(input: String) -> (l: Self)
        requires
            input@.len() <= usize::MAX / 8,
        ensures
            l.wf(),
            l.source() == input@,
            l.at() == (Location { line: 1, column: 1, offset: 0 }),
    {
        Lexer { input: chars_of(input.as_str()), location: Location::new() }
    }

    /// Whether `tokenize` can read the rest of the text: it cannot where it
    /// would reach an identifier that ends past the end of the text.
    pub fn stays_in_bounds(&self) -> (b: bool)
        requires
            self.wf(),
        ensures
            b == !overruns(self.source(), self.at()),
    {
        let ghost input = self.input@;
        let mut loc = self.location;
        loop
            invariant
                in_range(input, loc),
                input == self.input@,
                overruns(input, loc) == overruns(input, self.location),
            decreases usize::MAX - loc.offset,
        {
            match read_at(&self.input, loc) {
                None => {
                    return true;
                },
                Some(ch) => {
                    proof {
                        lemma_step_in_range(input, loc, ch);
                    }
                    let after = step_past(loc, ch);
                    if is_whitespace(ch) {
                        loc = after;
                        continue ;
                    }
                    if ch == '/' && read_at(&self.input, after) == Some('/') {
                        proof {
                            lemma_comment_end(input, after);
                        }
                        loc = after_comment(&self.input, after);
                        continue ;
                    }
                    if ('a' <= ch && ch <= 'z') || ('A' <= ch && ch <= 'Z') || ch == '_' {
                        let e = after_ident(&self.input, after);
                        if e.offset > self.input.len() {
                            return false;
                        }
                    }
                    proof {
                        lemma_scan_one_progress(input, loc);
                    }
                    let mut at = after;
                    match scan_token(&self.input, &mut at, ch, loc) {
                        Ok(_) => {
                            loc = at;
                        },
                        Err(_) => {
                            return true;
                        },
                    }
                },
            }
        }
    }

    /// Reads the rest of the text into tokens, the last of them the end of
    /// input; stops at the first character that no token can start with, or
    /// at a string literal that is never closed.
    pub fn tokenize(&mut self) -> (r: Result<Vec<Token>>)
        requires
            old(self).wf(),
            !overruns(old(self).source(), old(self).at()),
        ensures
            final(self).wf(),
            final(self).source() == old(self).source(),
            lex_result_view(r) == scan_from(old(self).source(), old(self).at()),
            r is Ok ==> char_at(final(self).source(), final(self).at()) is None,
            r is Err ==> final(self).at() == scan_stop(old(self).source(), old(self).at()),
    {
        let ghost input = self.input@;
        let ghost start_loc = self.location;
        let mut tokens: Vec<Token> = Vec::new();
        loop
            invariant
                self.wf(),
                self.input@ == input,
                input == old(self).input@,
                start_loc == old(self).location,
                prepend(tokens_view(tokens@), scan_from(input, self.location)) == scan_from(input, start_loc),
                scan_stop(input, self.location) == scan_stop(input, start_loc),
                !overruns(input, self.location),
            decreases usize::MAX - self.location.offset,
        {
            let loc = self.location;
            match read_at(&self.input, loc) {
                None => {
                    let eof = TokenOf { token_type: TokenKind::Eof, location: loc };
                    let ghost before = tokens@;
                    tokens.push(eof);
                    proof {
                        assert(tokens_view(tokens@) == tokens_view(before).push(eof@));
                        assert(tokens_view(before) + seq![eof@] == tokens_view(before).push(eof@));
                    }
                    return Ok(tokens);
                },
                Some(ch) => {
                    proof {
                        lemma_step_in_range(input, loc, ch);
                    }
                    let after = step_past(loc, ch);
                    self.location = after;
                    if is_whitespace(ch) {
                        continue ;
                    }
                    if ch == '/' && read_at(&self.input, after) == Some('/') {
                        proof {
                            lemma_comment_end(input, after);
                        }
                        self.location = after_comment(&self.input, after);
                        continue ;
                    }
                    proof {
                        lemma_scan_one_progress(input, loc);
                    }
                    let mut at = after;
                    let result = scan_token(&self.input, &mut at, ch, loc);
                    self.location = at;
                    match result {
                        Ok(token) => {
                            let ghost before = tokens@;
                            tokens.push(token);
                            proof {
                                assert(tokens_view(tokens@) == tokens_view(before).push(token@));
                                let rest = scan_from(input, self.location);
                                assert(scan_from(input, loc) == match rest {
                                    Ok(ts) => Ok(seq![token@] + ts),
                                    Err(e) => Err(e),
                                });
                                if let Ok(ts) = rest {
                                    assert(tokens_view(before) + (seq![token@] + ts)
                                        == tokens_view(tokens@) + ts);
                                }
                            }
                        },
                        Err(e) => {
                            return Err(e);
                        },
                    }
                },
            }
        }
    }
}

/// Whether `chars[from..to]` spells `w`.
fn same_word(chars: &Vec<char>, from: usize, to: usize, w: &[char]) -> (b: bool)
    requires
        from <= to <= chars@.len(),
    ensures
        b == (chars@.subrange(from as int, to as int) == w@),
{
    if to - from != w.len() {
        return false;
    }
    let mut k: usize = 0;
    while k < w.len()
        invariant
            from <= to <= chars@.len(),
            to - from == w@.len(),
            k <= w@.len(),
            forall|m: int| 0 <= m < k ==> chars@[from + m] == w@[m],
        decreases w@.len() - k,
    {
        if chars[from + k] != w[k] {
            assert(chars@.subrange(from as int, to as int)[k as int] != w@[k as int]);
            return false;
        }
        k = k + 1;
    }
    assert(chars@.subrange(from as int, to as int) =~= w@);
    true
}

/// The keyword, boolean literal or identifier spelled by `chars[from..to]`.
fn word_kind(chars: &Vec<char>, from: usize, to: usize) -> (t: TokenType)
    requires
        from <= to <= chars@.len(),
    ensures
        t@ == word_token(chars@.subrange(from as int, to as int)),
{
    let ghost w = chars@.subrange(from as int, to as int);
    if same_word(chars, from, to, &['l', 'e', 't']) {
        TokenKind::Let
    } else if same_word(chars, from, to, &['f', 'n']) {
        TokenKind::Fn
    } else if same_word(chars, from, to, &['i', 'f']) {
        TokenKind::If
    } else if same_word(chars, from, to, &['e', 'l', 's', 'e']) {
        TokenKind::Else
    } else if same_word(chars, from, to, &['w', 'h', 'i', 'l', 'e']) {
        TokenKind::While
    } else if same_word(chars, from, to, &['f', 'o', 'r']) {
        TokenKind::For
    } else if same_word(chars, from, to, &['b', 'r', 'e', 'a', 'k']) {
        TokenKind::Break
    } else if same_word(chars, from, to, &['c', 'o', 'n', 't', 'i', 'n', 'u', 'e']) {
        TokenKind::Continue
    } else if same_word(chars, from, to, &['r', 'e', 't', 'u', 'r', 'n']) {
        TokenKind::Return
    } else if same_word(chars, from, to, &['t', 'r', 'u', 'e']) {
        TokenKind::Boolean(true)
    } else if same_word(chars, from, to, &['f', 'a', 'l', 's', 'e']) {
        TokenKind::Boolean(false)
    } else if same_word(chars, from, to, &['a', 'n', 'd']) {
        TokenKind::And
    } else if same_word(chars, from, to, &['o', 'r']) {
        TokenKind::Or
    } else if same_word(chars, from, to, &['p', 'r', 'i', 'n', 't']) {
        TokenKind::Print
    } else if same_word(chars, from, to, &['n', 'i', 'l']) {
        TokenKind::Nil
    } else {
        TokenKind::Identifier(string_of_range(chars, from, to))
    }
}

} // verus!
