use vstd::prelude::*;

verus! {

/// A point in the source text: line and column count from one, `offset` counts
/// UTF-8 bytes from the start of the input.
#[derive(Debug, Clone, Copy, PartialEq, Eq, Structural)]
pub struct Location {
    pub line: usize,
    pub column: usize,
    pub offset: usize,
}

/// Number of bytes of the UTF-8 encoding of `c`.
pub open spec fn utf8_len(c: char) -> nat {
    if (c as u32) < 0x80 {
        1
    } else if (c as u32) < 0x800 {
        2
    } else if (c as u32) < 0x10000 {
        3
    } else {
        4
    }
}

/// The location reached from `loc` after reading `c`.
pub open spec fn advanced(loc: Location, c: char) -> Location {
    if c == '\n' {
        Location { line: (loc.line + 1) as usize, column: 1, offset: (loc.offset + utf8_len(c)) as usize }
    } else {
        Location { line: loc.line, column: (loc.column + 1) as usize, offset: (loc.offset + utf8_len(c)) as usize }
    }
}

/// Whether `advanced(loc, c)` fits in machine integers.
pub open spec fn can_advance(loc: Location, c: char) -> bool {
    &&& loc.offset + utf8_len(c) <= usize::MAX
    &&& loc.line < usize::MAX
    &&& loc.column < usize::MAX
}

/// `c.len_utf8()`.
pub fn char_utf8_len(c: char) -> (n: usize)
    ensures
        n == utf8_len(c),
{
    let code: u32 = c as u32;
    if code < 0x80 {
        1
    } else if code < 0x800 {
        2
    } else if code < 0x10000 {
        3
    } else {
        4
    }
}

impl Location {
    /// The start of the input: line 1, column 1, offset 0.
    pub fn new() -> (loc: Self)
        ensures
            loc == (Location { line: 1, column: 1, offset: 0 }),
    {
        Location { line: 1, column: 1, offset: 0 }
    }

    /// Moves past `ch`: a newline starts the next line at column 1, any other
    /// character moves one column right; the offset grows by the UTF-8 length of `ch`.
    pub fn advance(&mut self, ch: char)
        requires
            can_advance(*old(self), ch),
        ensures
            *final(self) == advanced(*old(self), ch),
    {
        let n = char_utf8_len(ch);
        self.offset = self.offset + n;
        if ch == '\n' {
            self.line = self.line + 1;
            self.column = 1;
        } else {
            self.column = self.column + 1;
        }
    }
}

} // verus!

verus! {

/// `r` is what mapping `m` through `f` may give: a result of `f` on the
/// wrapped value, at the same location.
pub open spec fn is_mapped<T, U, F: FnOnce(T) -> U>(m: Located<T>, f: F, r: Located<U>) -> bool {
    &&& f.ensures((m.inner,), r.inner)
    &&& r.location == m.location
}

/// Mapping through a function that gives back its argument changes nothing.
pub proof fn lemma_map_identity<T, F: FnOnce(T) -> T>(m: Located<T>, f: F, r: Located<T>)
    requires
        is_mapped(m, f, r),
        forall|v: T, w: T| #[trigger] f.ensures((v,), w) ==> w == v,
    ensures
        r == m,
{
    assert(f.ensures((m.inner,), r.inner));
}

/// Mapping through `f` and then `g` is mapping through their composition `h`,
/// where `f` and `g` each give one result for one argument.
pub proof fn lemma_map_compose<T, U, V, F: FnOnce(T) -> U, G: FnOnce(U) -> V, H: FnOnce(T) -> V>(
    m: Located<T>,
    f: F,
    g: G,
    h: H,
    r1: Located<U>,
    r2: Located<V>,
    r3: Located<V>,
)
    requires
        is_mapped(m, f, r1),
        is_mapped(r1, g, r2),
        is_mapped(m, h, r3),
        forall|v: T, u1: U, u2: U| #[trigger] f.ensures((v,), u1) && #[trigger] f.ensures((v,), u2) ==> u1 == u2,
        forall|u: U, w1: V, w2: V| #[trigger] g.ensures((u,), w1) && #[trigger] g.ensures((u,), w2) ==> w1 == w2,
        forall|v: T, w: V| #[trigger] h.ensures((v,), w) ==> exists|u: U| #[trigger] f.ensures((v,), u) && g.ensures((u,), w),
    ensures
        r3 == r2,
{
    assert(h.ensures((m.inner,), r3.inner));
    let u = choose|u: U| #[trigger] f.ensures((m.inner,), u) && g.ensures((u,), r3.inner);
    assert(f.ensures((m.inner,), r1.inner));
    assert(u == r1.inner);
    assert(g.ensures((r1.inner,), r2.inner));
}

/// A value together with the place in the source where it was found.
#[derive(Debug, Clone, PartialEq)]
pub struct Located<T> {
    pub inner: T,
    pub location: Location,
}

impl<T> Located<T> {
    pub fn new(inner: T, location: Location) -> (r: Self)
        ensures
            r.inner == inner,
            r.location == location,
    {
        Located { inner, location }
    }

    /// The location of this node.
    pub fn location(&self) -> (loc: Location)
        ensures
            loc == self.location,
    {
        self.location
    }

    /// The wrapped value.
    pub fn as_inner(&self) -> (r: &T)
        ensures
            *r == self.inner,
    {
        &self.inner
    }

    /// The wrapped value, consuming the wrapper.
    pub fn into_inner(self) -> (r: T)
        ensures
            r == self.inner,
    {
        self.inner
    }

    /// Applies `f` to the wrapped value and keeps the location.
    pub fn map<U, F: FnOnce(T) -> U>(self, f: F) -> (r: Located<U>)
        requires
            f.requires((self.inner,)),
        ensures
            is_mapped(self, f, r),
    {
        let location = self.location;
        Located { inner: f(self.inner), location }
    }
}

} // verus!
