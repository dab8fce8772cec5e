//! Tokens: what the lexer hands the parser.
use crate::location::Location;
use crate::text::{chars_of, push_char};
use vstd::prelude::*;
use vstd::string::*;

verus! {

/// The kind of a token. Literal payloads are held as text: `S` is `String` in
/// running code and `Seq<char>` in specifications. A number literal keeps the
/// digits it was written with (`"3.14"`); turning them into a value is left to
/// whoever evaluates the program.
#[derive(Debug, Clone, PartialEq)]
pub enum TokenKind<S> {
    // Literals
    Number(S),
    String(S),
    Boolean(bool),
    Identifier(S),
    Nil,

    // Keywords
    Let,
    Fn,
    If,
    Else,
    While,
    For,
    Break,
    Continue,
    Return,
    And,
    Or,
    Print,

    // Operators
    Plus,
    Minus,
    Star,
    Slash,
    PlusEqual,
    MinusEqual,
    StarEqual,
    SlashEqual,
    Equal,
    EqualEqual,
    Bang,
    BangEqual,
    LessThan,
    LessEqual,
    GreaterThan,
    GreaterEqual,

    // Delimiters
    LeftParen,
    RightParen,
    LeftBrace,
    RightBrace,
    LeftBracket,
    RightBracket,
    Comma,
    Semicolon,
    Colon,

    Eof,
}

pub type TokenType = TokenKind<String>;

pub type SpecTokenType = TokenKind<Seq<char>>;

impl<S: View> View for TokenKind<S> {
    type V = TokenKind<S::V>;

    open spec fn view(&self) -> TokenKind<S::V> {
        match self {
            TokenKind::Number(s) => TokenKind::Number(s@),
            TokenKind::String(s) => TokenKind::String(s@),
            TokenKind::Boolean(b) => TokenKind::Boolean(*b),
            TokenKind::Identifier(s) => TokenKind::Identifier(s@),
            TokenKind::Nil => TokenKind::Nil,
            TokenKind::Let => TokenKind::Let,
            TokenKind::Fn => TokenKind::Fn,
            TokenKind::If => TokenKind::If,
            TokenKind::Else => TokenKind::Else,
            TokenKind::While => TokenKind::While,
            TokenKind::For => TokenKind::For,
            TokenKind::Break => TokenKind::Break,
            TokenKind::Continue => TokenKind::Continue,
            TokenKind::Return => TokenKind::Return,
            TokenKind::And => TokenKind::And,
            TokenKind::Or => TokenKind::Or,
            TokenKind::Print => TokenKind::Print,
            TokenKind::Plus => TokenKind::Plus,
            TokenKind::Minus => TokenKind::Minus,
            TokenKind::Star => TokenKind::Star,
            TokenKind::Slash => TokenKind::Slash,
            TokenKind::PlusEqual => TokenKind::PlusEqual,
            TokenKind::MinusEqual => TokenKind::MinusEqual,
            TokenKind::StarEqual => TokenKind::StarEqual,
            TokenKind::SlashEqual => TokenKind::SlashEqual,
            TokenKind::Equal => TokenKind::Equal,
            TokenKind::EqualEqual => TokenKind::EqualEqual,
            TokenKind::Bang => TokenKind::Bang,
            TokenKind::BangEqual => TokenKind::BangEqual,
            TokenKind::LessThan => TokenKind::LessThan,
            TokenKind::LessEqual => TokenKind::LessEqual,
            TokenKind::GreaterThan => TokenKind::GreaterThan,
            TokenKind::GreaterEqual => TokenKind::GreaterEqual,
            TokenKind::LeftParen => TokenKind::LeftParen,
            TokenKind::RightParen => TokenKind::RightParen,
            TokenKind::LeftBrace => TokenKind::LeftBrace,
            TokenKind::RightBrace => TokenKind::RightBrace,
            TokenKind::LeftBracket => TokenKind::LeftBracket,
            TokenKind::RightBracket => TokenKind::RightBracket,
            TokenKind::Comma => TokenKind::Comma,
            TokenKind::Semicolon => TokenKind::Semicolon,
            TokenKind::Colon => TokenKind::Colon,
            TokenKind::Eof => TokenKind::Eof,
        }
    }
}

/// A token and where it starts.
#[derive(Debug, Clone, PartialEq)]
pub struct TokenOf<S> {
    pub token_type: TokenKind<S>,
    pub location: Location,
}

pub type Token = TokenOf<String>;

pub type SpecToken = TokenOf<Seq<char>>;

impl<S: View> View for TokenOf<S> {
    type V = TokenOf<S::V>;

    open spec fn view(&self) -> TokenOf<S::V> {
        TokenOf { token_type: self.token_type@, location: self.location }
    }
}


/// A string the way `{:?}` writes it between its quotes.
pub open spec fn escape_debug(s: Seq<char>) -> Seq<char>
    decreases s.len(),
{
    if s.len() == 0 {
        Seq::empty()
    } else {
        escape_debug(s.drop_last()) + escape_char(s.last())
    }
}

/// The lowercase hexadecimal digit for `d`.
pub open spec fn hex_char(d: nat) -> char {
    if d < 10 {
        (('0' as nat) + d) as char
    } else {
        (('a' as nat) + (d - 10)) as char
    }
}

/// `n` in lowercase hexadecimal, for `n` below 256.
pub open spec fn hex2(n: nat) -> Seq<char> {
    if n < 16 {
        seq![hex_char(n)]
    } else {
        seq![hex_char(n / 16), hex_char(n % 16)]
    }
}

/// How `{:?}` writes a character outside ASCII inside a string: the
/// character, or its `\u{..}` escape where it is not printable or extends a
/// grapheme (Unicode tables too long to restate here).
pub uninterp spec fn wide_escape(c: char) -> Seq<char>;

/// How `{:?}` writes `c` inside a string.
pub open spec fn escape_char(c: char) -> Seq<char> {
    if c == '"' {
        seq!['\\', '"']
    } else if c == '\\' {
        seq!['\\', '\\']
    } else if c == '\n' {
        seq!['\\', 'n']
    } else if c == '\r' {
        seq!['\\', 'r']
    } else if c == '\t' {
        seq!['\\', 't']
    } else if c == '\0' {
        seq!['\\', '0']
    } else if (c as u32) < 0x20 || (c as u32) == 0x7f {
        "\\u{"@ + hex2((c as u32) as nat) + "}"@
    } else if (c as u32) < 0x80 {
        seq![c]
    } else {
        wide_escape(c)
    }
}

/// `char::escape_debug` as text, for a character outside ASCII, where it
/// agrees with what `{:?}` of a string writes for that character (quotes are
/// ASCII).
#[verifier::external_body]
fn escape_wide(c: char) -> (s: String)
    requires
        (c as u32) >= 0x80,
    ensures
        s@ == wide_escape(c),
{
    c.escape_debug().to_string()
}

fn hex_digit(d: u32) -> (c: char)
    requires
        d < 16,
    ensures
        c == hex_char(d as nat),
{
    if d < 10 {
        ((('0' as u32) + d) as u8) as char
    } else {
        ((('a' as u32) + (d - 10)) as u8) as char
    }
}

/// How `{:?}` shows a token kind; a number shows the digits it was written with.
pub open spec fn debug_text(k: SpecTokenType) -> Seq<char> {
    match k {
        TokenKind::Number(s) => "Number("@ + s + ")"@,
        TokenKind::String(s) => "String(\""@ + escape_debug(s) + "\")"@,
        TokenKind::Boolean(b) => if b {
            "Boolean(true)"@
        } else {
            "Boolean(false)"@
        },
        TokenKind::Identifier(s) => "Identifier(\""@ + escape_debug(s) + "\")"@,
            TokenKind::Nil => "Nil"@,
            TokenKind::Let => "Let"@,
            TokenKind::Fn => "Fn"@,
            TokenKind::If => "If"@,
            TokenKind::Else => "Else"@,
            TokenKind::While => "While"@,
            TokenKind::For => "For"@,
            TokenKind::Break => "Break"@,
            TokenKind::Continue => "Continue"@,
            TokenKind::Return => "Return"@,
            TokenKind::And => "And"@,
            TokenKind::Or => "Or"@,
            TokenKind::Print => "Print"@,
            TokenKind::Plus => "Plus"@,
            TokenKind::Minus => "Minus"@,
            TokenKind::Star => "Star"@,
            TokenKind::Slash => "Slash"@,
            TokenKind::PlusEqual => "PlusEqual"@,
            TokenKind::MinusEqual => "MinusEqual"@,
            TokenKind::StarEqual => "StarEqual"@,
            TokenKind::SlashEqual => "SlashEqual"@,
            TokenKind::Equal => "Equal"@,
            TokenKind::EqualEqual => "EqualEqual"@,
            TokenKind::Bang => "Bang"@,
            TokenKind::BangEqual => "BangEqual"@,
            TokenKind::LessThan => "LessThan"@,
            TokenKind::LessEqual => "LessEqual"@,
            TokenKind::GreaterThan => "GreaterThan"@,
            TokenKind::GreaterEqual => "GreaterEqual"@,
            TokenKind::LeftParen => "LeftParen"@,
            TokenKind::RightParen => "RightParen"@,
            TokenKind::LeftBrace => "LeftBrace"@,
            TokenKind::RightBrace => "RightBrace"@,
            TokenKind::LeftBracket => "LeftBracket"@,
            TokenKind::RightBracket => "RightBracket"@,
            TokenKind::Comma => "Comma"@,
            TokenKind::Semicolon => "Semicolon"@,
            TokenKind::Colon => "Colon"@,
            TokenKind::Eof => "Eof"@,
    }
}

pub(crate) fn push_escaped(out: &mut String, s: &String)
    ensures
        final(out)@ == old(out)@ + escape_debug(s@),
{
    let chars = chars_of(s.as_str());
    let mut i: usize = 0;
    while i < chars.len()
        invariant
            chars@ == s@,
            i <= chars@.len(),
            out@ == old(out)@ + escape_debug(s@.subrange(0, i as int)),
        decreases chars@.len() - i,
    {
        let c = chars[i];
        proof {
            assert(s@.subrange(0, i + 1).drop_last() =~= s@.subrange(0, i as int));
        }
        if c == '"' {
            push_char(out, '\\');
            push_char(out, '"');
        } else if c == '\\' {
            push_char(out, '\\');
            push_char(out, '\\');
        } else if c == '\n' {
            push_char(out, '\\');
            push_char(out, 'n');
        } else if c == '\r' {
            push_char(out, '\\');
            push_char(out, 'r');
        } else if c == '\t' {
            push_char(out, '\\');
            push_char(out, 't');
        } else if c == '\0' {
            push_char(out, '\\');
            push_char(out, '0');
        } else if (c as u32) < 0x20 || (c as u32) == 0x7f {
            let u = c as u32;
            out.append("\\u{");
            let ghost mid = out@;
            if u >= 16 {
                push_char(out, hex_digit(u / 16));
            }
            push_char(out, hex_digit(u % 16));
            proof {
                assert(out@ =~= mid + hex2(u as nat));
            }
            out.append("}");
        } else if (c as u32) < 0x80 {
            push_char(out, c);
        } else {
            let w = escape_wide(c);
            out.append(w.as_str());
        }
        i = i + 1;
    }
    assert(s@.subrange(0, chars@.len() as int) =~= s@);
}

impl TokenKind<String> {
    /// The text `{:?}` shows for this kind (see `debug_text`).
    pub fn debug_string(&self) -> (s: String)
        ensures
            s@ == debug_text(self@),
    {
        match self {
            TokenKind::Number(n) => {
                let mut s = String::from_str("Number(");
                s.append(n.as_str());
                s.append(")");
                s
            },
            TokenKind::String(t) => {
                let mut s = String::from_str("String(\"");
                push_escaped(&mut s, t);
                s.append("\")");
                s
            },
            TokenKind::Boolean(b) => if *b {
                String::from_str("Boolean(true)")
            } else {
                String::from_str("Boolean(false)")
            },
            TokenKind::Identifier(t) => {
                let mut s = String::from_str("Identifier(\"");
                push_escaped(&mut s, t);
                s.append("\")");
                s
            },
            TokenKind::Nil => String::from_str("Nil"),
            TokenKind::Let => String::from_str("Let"),
            TokenKind::Fn => String::from_str("Fn"),
            TokenKind::If => String::from_str("If"),
            TokenKind::Else => String::from_str("Else"),
            TokenKind::While => String::from_str("While"),
            TokenKind::For => String::from_str("For"),
            TokenKind::Break => String::from_str("Break"),
            TokenKind::Continue => String::from_str("Continue"),
            TokenKind::Return => String::from_str("Return"),
            TokenKind::And => String::from_str("And"),
            TokenKind::Or => String::from_str("Or"),
            TokenKind::Print => String::from_str("Print"),
            TokenKind::Plus => String::from_str("Plus"),
            TokenKind::Minus => String::from_str("Minus"),
            TokenKind::Star => String::from_str("Star"),
            TokenKind::Slash => String::from_str("Slash"),
            TokenKind::PlusEqual => String::from_str("PlusEqual"),
            TokenKind::MinusEqual => String::from_str("MinusEqual"),
            TokenKind::StarEqual => String::from_str("StarEqual"),
            TokenKind::SlashEqual => String::from_str("SlashEqual"),
            TokenKind::Equal => String::from_str("Equal"),
            TokenKind::EqualEqual => String::from_str("EqualEqual"),
            TokenKind::Bang => String::from_str("Bang"),
            TokenKind::BangEqual => String::from_str("BangEqual"),
            TokenKind::LessThan => String::from_str("LessThan"),
            TokenKind::LessEqual => String::from_str("LessEqual"),
            TokenKind::GreaterThan => String::from_str("GreaterThan"),
            TokenKind::GreaterEqual => String::from_str("GreaterEqual"),
            TokenKind::LeftParen => String::from_str("LeftParen"),
            TokenKind::RightParen => String::from_str("RightParen"),
            TokenKind::LeftBrace => String::from_str("LeftBrace"),
            TokenKind::RightBrace => String::from_str("RightBrace"),
            TokenKind::LeftBracket => String::from_str("LeftBracket"),
            TokenKind::RightBracket => String::from_str("RightBracket"),
            TokenKind::Comma => String::from_str("Comma"),
            TokenKind::Semicolon => String::from_str("Semicolon"),
            TokenKind::Colon => String::from_str("Colon"),
            TokenKind::Eof => String::from_str("Eof"),
        }
    }

    /// Whether two token kinds are the same, payload included.
    pub fn same_as(&self, other: &TokenType) -> (b: bool)
        ensures
            b == (self@ == other@),
    {
        match (self, other) {
            (TokenKind::Number(a), TokenKind::Number(b)) => *a == *b,
            (TokenKind::String(a), TokenKind::String(b)) => *a == *b,
            (TokenKind::Boolean(a), TokenKind::Boolean(b)) => *a == *b,
            (TokenKind::Identifier(a), TokenKind::Identifier(b)) => *a == *b,
            (TokenKind::Nil, TokenKind::Nil) => true,
            (TokenKind::Let, TokenKind::Let) => true,
            (TokenKind::Fn, TokenKind::Fn) => true,
            (TokenKind::If, TokenKind::If) => true,
            (TokenKind::Else, TokenKind::Else) => true,
            (TokenKind::While, TokenKind::While) => true,
            (TokenKind::For, TokenKind::For) => true,
            (TokenKind::Break, TokenKind::Break) => true,
            (TokenKind::Continue, TokenKind::Continue) => true,
            (TokenKind::Return, TokenKind::Return) => true,
            (TokenKind::And, TokenKind::And) => true,
            (TokenKind::Or, TokenKind::Or) => true,
            (TokenKind::Print, TokenKind::Print) => true,
            (TokenKind::Plus, TokenKind::Plus) => true,
            (TokenKind::Minus, TokenKind::Minus) => true,
            (TokenKind::Star, TokenKind::Star) => true,
            (TokenKind::Slash, TokenKind::Slash) => true,
            (TokenKind::PlusEqual, TokenKind::PlusEqual) => true,
            (TokenKind::MinusEqual, TokenKind::MinusEqual) => true,
            (TokenKind::StarEqual, TokenKind::StarEqual) => true,
            (TokenKind::SlashEqual, TokenKind::SlashEqual) => true,
            (TokenKind::Equal, TokenKind::Equal) => true,
            (TokenKind::EqualEqual, TokenKind::EqualEqual) => true,
            (TokenKind::Bang, TokenKind::Bang) => true,
            (TokenKind::BangEqual, TokenKind::BangEqual) => true,
            (TokenKind::LessThan, TokenKind::LessThan) => true,
            (TokenKind::LessEqual, TokenKind::LessEqual) => true,
            (TokenKind::GreaterThan, TokenKind::GreaterThan) => true,
            (TokenKind::GreaterEqual, TokenKind::GreaterEqual) => true,
            (TokenKind::LeftParen, TokenKind::LeftParen) => true,
            (TokenKind::RightParen, TokenKind::RightParen) => true,
            (TokenKind::LeftBrace, TokenKind::LeftBrace) => true,
            (TokenKind::RightBrace, TokenKind::RightBrace) => true,
            (TokenKind::LeftBracket, TokenKind::LeftBracket) => true,
            (TokenKind::RightBracket, TokenKind::RightBracket) => true,
            (TokenKind::Comma, TokenKind::Comma) => true,
            (TokenKind::Semicolon, TokenKind::Semicolon) => true,
            (TokenKind::Colon, TokenKind::Colon) => true,
            (TokenKind::Eof, TokenKind::Eof) => true,
            _ => false,
        }
    }
}

} // verus!
