//! The constants a chunk holds, and the prototypes of functions.
use crate::text::{chars_of, string_of_range};
use vstd::prelude::*;
use vstd::string::*;

verus! {

/// Where a closure finds a captured variable: a local slot of the enclosing
/// function (`is_local`), or an upvalue of the enclosing function.
#[derive(Debug, Clone, Copy, PartialEq, Eq, Structural)]
pub struct UpvalueInfo {
    pub index: usize,
    /// true if upvalue refers to local variable, false if it refers to upvalue
    pub is_local: bool,
}

/// A compiled function: its name, parameters, where its code starts, and
/// what it captures.
#[derive(Debug, Clone)]
pub struct Proto {
    pub name: String,
    pub params: Vec<String>,
    pub start_ip: usize,
    pub upvalues: Vec<UpvalueInfo>,
}

/// A prototype with its strings as character sequences.
pub struct ProtoView {
    pub name: Seq<char>,
    pub params: Seq<Seq<char>>,
    pub start_ip: usize,
    pub upvalues: Seq<UpvalueInfo>,
}

impl View for Proto {
    type V = ProtoView;

    open spec fn view(&self) -> ProtoView {
        ProtoView {
            name: self.name@,
            params: self.params@.map_values(|p: String| p@),
            start_ip: self.start_ip,
            upvalues: self.upvalues@,
        }
    }
}

/// The index of the first `.` of `s` at or after `i`, or the length of `s`.
pub open spec fn first_dot(s: Seq<char>, i: int) -> int
    decreases s.len() - i,
{
    if i < 0 || i >= s.len() || s[i] == '.' {
        i
    } else {
        first_dot(s, i + 1)
    }
}

/// The first index in `i..end` that does not hold `0`, or `end`.
pub open spec fn skip_zeros(s: Seq<char>, i: int, end: int) -> int
    decreases end - i,
{
    if i < end && s[i] == '0' {
        skip_zeros(s, i + 1, end)
    } else {
        i
    }
}

/// The end of `lo..j` once the `0`s at its end are dropped.
pub open spec fn back_zeros(s: Seq<char>, lo: int, j: int) -> int
    decreases j - lo,
{
    if j > lo && s[j - 1] == '0' {
        back_zeros(s, lo, j - 1)
    } else {
        j
    }
}

/// The number a literal `digits[.digits]` stands for, written one way only:
/// no leading zeros in the whole part (but one zero for none), no trailing
/// zeros in the fraction, no `.` without a fraction. Two literals stand for
/// the same number exactly when these are equal.
pub open spec fn number_key(s: Seq<char>) -> Seq<char> {
    let d = first_dot(s, 0);
    let a = skip_zeros(s, 0, d);
    let whole = if a >= d {
        seq!['0']
    } else {
        s.subrange(a, d)
    };
    let e = if d < s.len() {
        back_zeros(s, d + 1, s.len() as int)
    } else {
        d
    };
    if d < s.len() && e > d + 1 {
        whole + seq!['.'] + s.subrange(d + 1, e)
    } else {
        whole
    }
}

/// `number_key` of a literal's text.
fn number_key_string(text: &String) -> (k: String)
    ensures
        k@ == number_key(text@),
{
    let s = chars_of(text.as_str());
    let n = s.len();
    let mut d: usize = 0;
    while d < n && s[d] != '.'
        invariant
            s@ == text@,
            n == s@.len(),
            d <= n,
            first_dot(s@, d as int) == first_dot(s@, 0),
        decreases n - d,
    {
        d = d + 1;
    }
    let mut a: usize = 0;
    while a < d && s[a] == '0'
        invariant
            s@ == text@,
            n == s@.len(),
            d <= n,
            a <= d,
            skip_zeros(s@, a as int, d as int) == skip_zeros(s@, 0, d as int),
        decreases d - a,
    {
        a = a + 1;
    }
    let mut k = if a >= d {
        let mut z = String::new();
        crate::text::push_char(&mut z, '0');
        z
    } else {
        string_of_range(&s, a, d)
    };
    if d < n {
        let mut e: usize = n;
        while e > d + 1 && s[e - 1] == '0'
            invariant
                s@ == text@,
                n == s@.len(),
                d < n,
                d + 1 <= e <= n,
                back_zeros(s@, d + 1, e as int) == back_zeros(s@, d + 1, n as int),
            decreases e,
        {
            e = e - 1;
        }
        if e > d + 1 {
            crate::text::push_char(&mut k, '.');
            let f = string_of_range(&s, d + 1, e);
            k.append(f.as_str());
        }
    }
    k
}

/// A value known when compiling, kept in a chunk's constant pool. A number is
/// kept as the digits it was written with; the machine reads them as a number.
/// Its view is the number's `number_key`, so that numbers written two ways
/// are one constant.
#[derive(Debug, Clone)]
pub enum Constant {
    Number(String),
    String(String),
    Boolean(bool),
    Proto(Proto),
    Nil,
}

pub enum ConstantView {
    Number(Seq<char>),
    String(Seq<char>),
    Boolean(bool),
    Proto(ProtoView),
    Nil,
}

impl View for Constant {
    type V = ConstantView;

    open spec fn view(&self) -> ConstantView {
        match self {
            Constant::Number(n) => ConstantView::Number(number_key(n@)),
            Constant::String(s) => ConstantView::String(s@),
            Constant::Boolean(b) => ConstantView::Boolean(*b),
            Constant::Proto(p) => ConstantView::Proto(p@),
            Constant::Nil => ConstantView::Nil,
        }
    }
}

fn same_strings(a: &Vec<String>, b: &Vec<String>) -> (r: bool)
    ensures
        r == (a@.map_values(|s: String| s@) == b@.map_values(|s: String| s@)),
{
    if a.len() != b.len() {
        proof {
            assert(a@.map_values(|s: String| s@).len() != b@.map_values(|s: String| s@).len());
        }
        return false;
    }
    for i in 0..a.len()
        invariant
            a@.len() == b@.len(),
            forall|j: int| 0 <= j < i ==> #[trigger] a@[j]@ == b@[j]@,
    {
        if a[i] != b[i] {
            proof {
                assert(a@.map_values(|s: String| s@)[i as int] != b@.map_values(|s: String| s@)[i as int]);
            }
            return false;
        }
    }
    proof {
        assert(a@.map_values(|s: String| s@) =~= b@.map_values(|s: String| s@));
    }
    true
}

fn same_upvalues(a: &Vec<UpvalueInfo>, b: &Vec<UpvalueInfo>) -> (r: bool)
    ensures
        r == (a@ == b@),
{
    if a.len() != b.len() {
        return false;
    }
    for i in 0..a.len()
        invariant
            a@.len() == b@.len(),
            forall|j: int| 0 <= j < i ==> #[trigger] a@[j] == b@[j],
    {
        if a[i].index != b[i].index || a[i].is_local != b[i].is_local {
            return false;
        }
    }
    proof {
        assert(a@ =~= b@);
    }
    true
}

impl Proto {
    /// Whether two prototypes are the same in every field.
    pub fn same_as(&self, other: &Proto) -> (r: bool)
        ensures
            r == (self@ == other@),
    {
        self.name == other.name && same_strings(&self.params, &other.params) && self.start_ip
            == other.start_ip && same_upvalues(&self.upvalues, &other.upvalues)
    }
}

impl Constant {
    /// Whether two constants are the same value; the pool keeps one of each.
    pub fn same_as(&self, other: &Constant) -> (r: bool)
        ensures
            r == (self@ == other@),
    {
        match self {
            Constant::Number(a) => match other {
                Constant::Number(b) => {
                    let ka = number_key_string(a);
                    let kb = number_key_string(b);
                    ka == kb
                },
                _ => false,
            },
            Constant::String(a) => match other {
                Constant::String(b) => *a == *b,
                _ => false,
            },
            Constant::Boolean(a) => match other {
                Constant::Boolean(b) => *a == *b,
                _ => false,
            },
            Constant::Proto(a) => match other {
                Constant::Proto(b) => a.same_as(b),
                _ => false,
            },
            Constant::Nil => match other {
                Constant::Nil => true,
                _ => false,
            },
        }
    }
}

} // verus!
