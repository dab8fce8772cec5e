//! Positions and spans in source text, as the typed front end reports them.
use crate::location::{char_utf8_len, utf8_len};
use vstd::prelude::*;

verus! {

/// A point in the source: line and column count from one, `offset` counts
/// characters read so far by their UTF-8 length.
#[derive(Debug, Clone, Copy, PartialEq, Eq, Structural)]
pub struct Position {
    pub line: usize,
    pub column: usize,
    pub offset: usize,
}

/// The stretch of source between two positions.
#[derive(Debug, Clone, Copy, PartialEq, Eq, Structural)]
pub struct Span {
    pub start: Position,
    pub end: Position,
}

/// The position reached from `p` after reading `c`.
pub open spec fn position_after(p: Position, c: char) -> Position {
    if c == '\n' {
        Position { line: (p.line + 1) as usize, column: 1, offset: (p.offset + utf8_len(c)) as usize }
    } else {
        Position { line: p.line, column: (p.column + 1) as usize, offset: (p.offset + utf8_len(c)) as usize }
    }
}

/// Whether `position_after(p, c)` fits in machine integers.
pub open spec fn can_move(p: Position, c: char) -> bool {
    &&& p.offset + utf8_len(c) <= usize::MAX
    &&& p.line < usize::MAX
    &&& p.column < usize::MAX
}

/// The position reached from `p` after reading each character of `s` in order.
pub open spec fn position_over(p: Position, s: Seq<char>) -> Position
    decreases s.len(),
{
    if s.len() == 0 {
        p
    } else {
        position_after(position_over(p, s.drop_last()), s.last())
    }
}

/// How many newlines `s` holds.
pub open spec fn newline_count(s: Seq<char>) -> nat
    decreases s.len(),
{
    if s.len() == 0 {
        0
    } else {
        newline_count(s.drop_last()) + if s.last() == '\n' { 1nat } else { 0nat }
    }
}

/// How many characters follow the last newline of `s` (all of them if it has none).
pub open spec fn chars_after_last_newline(s: Seq<char>) -> nat
    decreases s.len(),
{
    if s.len() == 0 {
        0
    } else if s.last() == '\n' {
        0
    } else {
        chars_after_last_newline(s.drop_last()) + 1
    }
}

/// Length in bytes of the UTF-8 encoding of `s`.
pub open spec fn utf8_size(s: Seq<char>) -> nat
    decreases s.len(),
{
    if s.len() == 0 {
        0
    } else {
        utf8_size(s.drop_last()) + utf8_len(s.last())
    }
}

/// Reading a whole string from the start of the input ends on line one plus
/// its number of newlines, at the column one past the characters after its
/// last newline, with the offset at its UTF-8 length.
pub proof fn lemma_position_over_string(s: Seq<char>)
    requires
        utf8_size(s) <= usize::MAX,
        s.len() < usize::MAX,
    ensures
        position_over(Position { line: 1, column: 1, offset: 0 }, s) == (Position {
            line: (1 + newline_count(s)) as usize,
            column: (1 + chars_after_last_newline(s)) as usize,
            offset: utf8_size(s) as usize,
        }),
    decreases s.len(),
{
    lemma_counts_bounded(s);
    if s.len() > 0 {
        let t = s.drop_last();
        lemma_counts_bounded(t);
        assert(utf8_len(s.last()) >= 1);
        lemma_position_over_string(t);
    }
}

proof fn lemma_counts_bounded(s: Seq<char>)
    ensures
        newline_count(s) <= s.len(),
        chars_after_last_newline(s) <= s.len(),
        s.len() <= utf8_size(s),
    decreases s.len(),
{
    if s.len() > 0 {
        lemma_counts_bounded(s.drop_last());
    }
}

impl Position {
    /// The start of the input: line 1, column 1, offset 0.
    pub fn new() -> (p: Self)
        ensures
            p == (Position { line: 1, column: 1, offset: 0 }),
    {
        Position { line: 1, column: 1, offset: 0 }
    }

    /// Moves past `ch`: a newline starts the next line at column 1, any other
    /// character moves one column right.
    pub fn advance(&mut self, ch: char)
        requires
            can_move(*old(self), ch),
        ensures
            *final(self) == position_after(*old(self), ch),
    {
        let n = char_utf8_len(ch);
        self.offset = self.offset + n;
        if ch == '\n' {
            self.line = self.line + 1;
            self.column = 1;
        } else {
            self.column = self.column + 1;
        }
    }
}

} // verus!
