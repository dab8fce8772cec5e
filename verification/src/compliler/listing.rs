//! The text listing of a chunk's code: one or more lines per instruction,
//! as a disassembler prints them.
use super::chunk::{read_distance, Chunk};
use super::opcode::{opcode_of, opcode_name, OpCode};
use super::compiler::{emit_captures, CState};
use super::value::{Constant, ConstantView, UpvalueInfo};
use crate::lexer::token::escape_debug;
use crate::text::{decimal, decimal_string, push_char};
use vstd::prelude::*;
use vstd::string::*;

verus! {

/// `n` spaces.
pub open spec fn spaces(n: nat) -> Seq<char> {
    Seq::new(n, |_i: int| ' ')
}

/// `n` right-aligned in a field four characters wide, as `{:4}` writes it.
pub open spec fn width4(n: nat) -> Seq<char> {
    if n < 10 {
        "   "@ + decimal(n)
    } else if n < 100 {
        "  "@ + decimal(n)
    } else if n < 1000 {
        " "@ + decimal(n)
    } else {
        decimal(n)
    }
}

/// The start of each line of the instruction at `offset`: two spaces for
/// each level of `depth`, then the offset.
pub open spec fn head(depth: nat, offset: nat) -> Seq<char> {
    spaces(2 * depth) + width4(offset) + " "@
}

/// The names `ps[i..]`, separated by ", ".
pub open spec fn joined(ps: Seq<Seq<char>>, i: int) -> Seq<char>
    decreases ps.len() - i,
{
    if i < 0 || i >= ps.len() {
        Seq::empty()
    } else if i + 1 == ps.len() {
        ps[i]
    } else {
        ps[i] + ", "@ + joined(ps, i + 1)
    }
}

/// The line of the `i`-th variable a closure captures, whose pair of bytes
/// starts at `at`.
pub open spec fn capture_line(code: Seq<u8>, at: int, i: nat, depth: nat) -> Seq<char> {
    spaces(2 * depth) + "     upvalue["@ + decimal(i) + "]: "@ + (if code[at] == 1 {
        "local"@
    } else {
        "upvalue"@
    }) + " index "@ + decimal(code[at + 1] as nat)
}

/// The bytes `emit_captures` writes: a pair for each captured variable, the
/// first 1 for a local of the enclosing function and 0 for one of its
/// upvalues, the second the variable's index.
proof fn lemma_emit_captures_bytes(s: CState, ups: Seq<UpvalueInfo>)
    ensures
        emit_captures(s, ups).code.len() == s.code.len() + 2 * ups.len(),
        emit_captures(s, ups).code.subrange(0, s.code.len() as int) == s.code,
        forall|j: int|
            0 <= j < ups.len() ==> {
                &&& #[trigger] emit_captures(s, ups).code[s.code.len() + 2 * j] == (if ups[j].is_local {
                    1u8
                } else {
                    0u8
                })
                &&& emit_captures(s, ups).code[s.code.len() + 2 * j + 1] == (ups[j].index % 256) as u8
            },
    decreases ups.len(),
{
    if ups.len() > 0 {
        let prev = ups.drop_last();
        lemma_emit_captures_bytes(s, prev);
        let c0 = emit_captures(s, prev).code;
        let c = emit_captures(s, ups).code;
        assert(c.subrange(0, c0.len() as int) =~= c0);
        assert(c.subrange(0, s.code.len() as int) =~= c0.subrange(0, s.code.len() as int));
        assert forall|j: int| 0 <= j < ups.len() implies {
            &&& #[trigger] c[s.code.len() + 2 * j] == (if ups[j].is_local {
                1u8
            } else {
                0u8
            })
            &&& c[s.code.len() + 2 * j + 1] == (ups[j].index % 256) as u8
        } by {
            if j < prev.len() {
                assert(prev[j] == ups[j]);
                assert(c[s.code.len() + 2 * j] == c0[s.code.len() + 2 * j]);
                assert(c[s.code.len() + 2 * j + 1] == c0[s.code.len() + 2 * j + 1]);
            }
        }
    }
}

/// The listing of a closure's captures says of each what the compiler
/// recorded: "local" for a local of the enclosing function, "upvalue" for one
/// of its own captures, with the index it was written with.
pub proof fn lemma_capture_line_names_capture(s: CState, ups: Seq<UpvalueInfo>, i: int, depth: nat)
    requires
        0 <= i < ups.len(),
    ensures
        capture_line(emit_captures(s, ups).code, s.code.len() + 2 * i, i as nat, depth) == spaces(
            2 * depth,
        ) + "     upvalue["@ + decimal(i as nat) + "]: "@ + (if ups[i].is_local {
            "local"@
        } else {
            "upvalue"@
        }) + " index "@ + decimal((ups[i].index % 256) as nat),
{
    lemma_emit_captures_bytes(s, ups);
    let code = emit_captures(s, ups).code;
    assert(code[s.code.len() + 2 * i] == (if ups[i].is_local {
        1u8
    } else {
        0u8
    }));
}

/// The lines of the first `n` captured variables, whose pairs start at `at`.
pub open spec fn capture_lines(code: Seq<u8>, at: int, n: nat, depth: nat) -> Seq<Seq<char>>
    decreases n,
{
    if n == 0 {
        Seq::empty()
    } else {
        capture_lines(code, at, (n - 1) as nat, depth).push(
            capture_line(code, at + 2 * (n - 1), (n - 1) as nat, depth),
        )
    }
}

/// How a constant other than a function is written (its value's `{:?}`);
/// `number` is how it is written when it is a number. A function is listed by
/// its name and parameters instead, and has no such text.
pub open spec fn constant_text(c: ConstantView, number: Seq<char>) -> Seq<char> {
    match c {
        ConstantView::Number(_) => number,
        ConstantView::String(s) => "String(\""@ + escape_debug(s) + "\")"@,
        ConstantView::Boolean(b) => if b {
            "Boolean(true)"@
        } else {
            "Boolean(false)"@
        },
        ConstantView::Nil => "Nil"@,
        ConstantView::Proto(_) => Seq::empty(),
    }
}

/// The lines listing the instruction at `offset`, and the offset of the next
/// one. `texts[i]` is how constant `i` is written when it is a number.
pub open spec fn listing_of(
    code: Seq<u8>,
    constants: Seq<ConstantView>,
    globals: Seq<Seq<char>>,
    texts: Seq<Seq<char>>,
    offset: int,
    depth: nat,
) -> (Seq<Seq<char>>, int) {
    let h = head(depth, offset as nat);
    let b = code[offset];
    match opcode_of(b) {
        None => (seq![h + "UNKNOWN_OP "@ + decimal(b as nat), h + "Nil"@], offset + 1),
        Some(op) => {
            let name = opcode_name(op);
            let operand = code[offset + 1];
            let d = decimal(operand as nat);
            match op {
                OpCode::Constant => {
                    let line = if operand < constants.len() {
                        match constants[operand as int] {
                            ConstantView::Proto(p) => h + name + " "@ + d + " ; function "@ + p.name + "("@
                                + joined(p.params, 0) + ")"@,
                            c => h + name + " "@ + d + " ; "@ + constant_text(c, texts[operand as int]),
                        }
                    } else {
                        h + name + " "@ + d + " ; INVALID_CONSTANT"@
                    };
                    (seq![line], offset + 2)
                },
                OpCode::DefineGlobal | OpCode::GetGlobal | OpCode::SetGlobal => {
                    let line = if operand < globals.len() {
                        h + name + " "@ + d + " ; \""@ + escape_debug(globals[operand as int]) + "\""@
                    } else {
                        h + name + " "@ + d + " ; INVALID_GLOBAL"@
                    };
                    (seq![line], offset + 2)
                },
                OpCode::GetLocal | OpCode::SetLocal => (
                    seq![h + name + " "@ + d + " ; local["@ + d + "]"@],
                    offset + 2,
                ),
                OpCode::Jump | OpCode::JumpIfFalse | OpCode::JumpIfTrue => (
                    seq![h + name + " ; -> "@ + decimal((offset + 3 + read_distance(code, offset + 1)) as nat)],
                    offset + 3,
                ),
                OpCode::Loop => (
                    seq![h + name + " ; -> "@ + decimal((offset + 3 - read_distance(code, offset + 1)) as nat)],
                    offset + 3,
                ),
                OpCode::Call => (seq![h + name + " "@ + d + " ; call"@], offset + 2),
                OpCode::Array => (
                    seq![h + name + " "@ + d + " ; create array with "@ + d + " elements"@],
                    offset + 2,
                ),
                OpCode::Index => (seq![h + name + " ; array[index]"@], offset + 1),
                OpCode::IndexSet => (seq![h + name + " ; array[index] = value"@], offset + 1),
                OpCode::Closure => {
                    let count = code[offset + 2];
                    let first = h + name + " "@ + d + " ; "@;
                    if operand < constants.len() && constants[operand as int] is Proto {
                        let p = constants[operand as int]->Proto_0;
                        (
                            seq![first + "closure for function '"@ + p.name + "' with "@ + decimal(count as nat) + " upvalues"@]
                                + capture_lines(code, offset + 3, count as nat, depth),
                            offset + 3 + 2 * count,
                        )
                    } else {
                        (seq![first + "INVALID_PROTO"@], offset + 3 + 2 * count)
                    }
                },
                OpCode::GetUpvalue | OpCode::SetUpvalue => (
                    seq![h + name + " "@ + d + " ; upvalue["@ + d + "]"@],
                    offset + 2,
                ),
                OpCode::Print => (seq![h + name + " "@ + d + " ; print"@], offset + 2),
                OpCode::Add | OpCode::Subtract | OpCode::Multiply | OpCode::Divide | OpCode::Equal
                | OpCode::NotEqual | OpCode::LessThan | OpCode::LessEqual | OpCode::GreaterThan
                | OpCode::GreaterEqual => (seq![h + name + " ; binary operation"@], offset + 1),
                _ => (seq![h + name], offset + 1),
            }
        },
    }
}

/// The views of some strings.
pub open spec fn strings_view(v: Seq<String>) -> Seq<Seq<char>> {
    v.map_values(|t: String| t@)
}

fn push_str(s: &mut String, t: &str)
    ensures
        final(s)@ == old(s)@ + t@,
{
    s.append(t);
}

fn push_decimal(s: &mut String, n: usize)
    ensures
        final(s)@ == old(s)@ + decimal(n as nat),
{
    let d = decimal_string(n);
    s.append(d.as_str());
}

fn spaces_string(n: usize) -> (s: String)
    ensures
        s@ == spaces(n as nat),
{
    let mut s = String::new();
    let mut i: usize = 0;
    while i < n
        invariant
            i <= n,
            s@ == spaces(i as nat),
        decreases n - i,
    {
        push_char(&mut s, ' ');
        i = i + 1;
        proof {
            assert(s@ =~= spaces(i as nat));
        }
    }
    proof {
        assert(s@ =~= spaces(n as nat));
    }
    s
}

fn head_string(depth: usize, offset: usize) -> (s: String)
    requires
        depth <= usize::MAX / 2,
    ensures
        s@ == head(depth as nat, offset as nat),
{
    let mut s = spaces_string(2 * depth);
    if offset < 10 {
        push_str(&mut s, "   ");
    } else if offset < 100 {
        push_str(&mut s, "  ");
    } else if offset < 1000 {
        push_str(&mut s, " ");
    }
    push_decimal(&mut s, offset);
    push_str(&mut s, " ");
    proof {
        assert(s@ =~= head(depth as nat, offset as nat));
    }
    s
}

/// The names, separated by ", ".
fn joined_names(names: &Vec<String>) -> (s: String)
    ensures
        s@ == joined(strings_view(names@), 0),
{
    let ghost ps = strings_view(names@);
    let n = names.len();
    let mut s = String::new();
    if n == 0 {
        return s;
    }
    // Build from the back: `s` holds `joined(ps, i)`.
    let mut i: usize = n - 1;
    s.append(names[i].as_str());
    proof {
        assert(ps[i as int] == names@[i as int]@);
    }
    while i > 0
        invariant
            ps == strings_view(names@),
            n == names@.len(),
            i < n,
            s@ == joined(ps, i as int),
        decreases i,
    {
        i = i - 1;
        let mut t = String::from_str(names[i].as_str());
        push_str(&mut t, ", ");
        t.append(s.as_str());
        proof {
            assert(ps[i as int] == names@[i as int]@);
        }
        s = t;
    }
    s
}

impl Chunk {
    /// The lines listing the instruction at `offset` and the offset of the
    /// next one. `texts[i]` is how constant `i` is written where it is a
    /// number (its value's `{:?}`); other constants are written here.
    pub fn listing(&self, offset: usize, depth: usize, texts: &Vec<String>) -> (r: (Vec<String>, usize))
        requires
            self.decodable(offset as int),
            depth <= usize::MAX / 2,
            texts@.len() >= self.constants_view().len(),
        ensures
            ({
                let (lines, next) = listing_of(
                    self.code_view(),
                    self.constants_view(),
                    self.globals_view(),
                    strings_view(texts@),
                    offset as int,
                    depth as nat,
                );
                strings_view(r.0@) == lines && r.1 == next
            }),
    {
        let ghost code = self.code_view();
        let ghost expected = listing_of(
            code,
            self.constants_view(),
            self.globals_view(),
            strings_view(texts@),
            offset as int,
            depth as nat,
        );
        let n = self.current_ip();
        let b = match self.code(offset) {
            Some(x) => x,
            None => 0,
        };
        let h = head_string(depth, offset);
        let mut lines: Vec<String> = Vec::new();
        let op = match OpCode::try_from(b) {
            Ok(op) => op,
            Err(_) => {
                let mut l1 = String::from_str(h.as_str());
                push_str(&mut l1, "UNKNOWN_OP ");
                push_decimal(&mut l1, b as usize);
                let mut l2 = String::from_str(h.as_str());
                push_str(&mut l2, "Nil");
                lines.push(l1);
                lines.push(l2);
                proof {
                    assert(strings_view(lines@) =~= expected.0);
                }
                return (lines, offset + 1);
            },
        };
        let name = op.name();
        let mut l = String::from_str(h.as_str());
        push_str(&mut l, name);
        let next: usize = match op {
            OpCode::Constant => {
                let operand = match self.code(offset + 1) {
                    Some(x) => x,
                    None => 0,
                };
                push_str(&mut l, " ");
                push_decimal(&mut l, operand as usize);
                match self.constant(operand as usize) {
                    Some(c) => match c {
                        Constant::Proto(p) => {
                            push_str(&mut l, " ; function ");
                            l.append(p.name.as_str());
                            push_str(&mut l, "(");
                            let ps = joined_names(&p.params);
                            l.append(ps.as_str());
                            push_str(&mut l, ")");
                            proof {
                                assert(strings_view(p.params@) =~= p@.params);
                            }
                        },
                        Constant::Number(_) => {
                            push_str(&mut l, " ; ");
                            l.append(texts[operand as usize].as_str());
                        },
                        Constant::String(t) => {
                            push_str(&mut l, " ; ");
                            let ghost pre = l@;
                            push_str(&mut l, "String(\"");
                            crate::lexer::token::push_escaped(&mut l, t);
                            push_str(&mut l, "\")");
                            proof {
                                assert(l@ =~= pre + constant_text(c@, Seq::empty()));
                            }
                        },
                        Constant::Boolean(b) => {
                            push_str(&mut l, " ; ");
                            let ghost pre = l@;
                            if *b {
                                push_str(&mut l, "Boolean(true)");
                            } else {
                                push_str(&mut l, "Boolean(false)");
                            }
                            proof {
                                assert(l@ =~= pre + constant_text(c@, Seq::empty()));
                            }
                        },
                        Constant::Nil => {
                            push_str(&mut l, " ; ");
                            let ghost pre = l@;
                            push_str(&mut l, "Nil");
                            proof {
                                assert(l@ =~= pre + constant_text(c@, Seq::empty()));
                            }
                        },
                    },
                    None => {
                        push_str(&mut l, " ; INVALID_CONSTANT");
                    },
                }
                offset + 2
            },
            OpCode::DefineGlobal | OpCode::GetGlobal | OpCode::SetGlobal => {
                let operand = match self.code(offset + 1) {
                    Some(x) => x,
                    None => 0,
                };
                push_str(&mut l, " ");
                push_decimal(&mut l, operand as usize);
                match self.global(operand as usize) {
                    Some(g) => {
                        push_str(&mut l, " ; \"");
                        crate::lexer::token::push_escaped(&mut l, g);
                        push_str(&mut l, "\"");
                    },
                    None => {
                        push_str(&mut l, " ; INVALID_GLOBAL");
                    },
                }
                offset + 2
            },
            OpCode::GetLocal | OpCode::SetLocal | OpCode::GetUpvalue | OpCode::SetUpvalue => {
                let operand = match self.code(offset + 1) {
                    Some(x) => x,
                    None => 0,
                };
                push_str(&mut l, " ");
                push_decimal(&mut l, operand as usize);
                match op {
                    OpCode::GetLocal | OpCode::SetLocal => push_str(&mut l, " ; local["),
                    _ => push_str(&mut l, " ; upvalue["),
                }
                push_decimal(&mut l, operand as usize);
                push_str(&mut l, "]");
                offset + 2
            },
            OpCode::Jump | OpCode::JumpIfFalse | OpCode::JumpIfTrue | OpCode::Loop => {
                let high = match self.code(offset + 1) {
                    Some(x) => x,
                    None => 0,
                };
                let low = match self.code(offset + 2) {
                    Some(x) => x,
                    None => 0,
                };
                let distance: usize = (high as usize) * 256 + (low as usize);
                let target = match op {
                    OpCode::Loop => offset + 3 - distance,
                    _ => offset + 3 + distance,
                };
                push_str(&mut l, " ; -> ");
                push_decimal(&mut l, target);
                offset + 3
            },
            OpCode::Call | OpCode::Array | OpCode::Print => {
                let operand = match self.code(offset + 1) {
                    Some(x) => x,
                    None => 0,
                };
                push_str(&mut l, " ");
                push_decimal(&mut l, operand as usize);
                match op {
                    OpCode::Call => push_str(&mut l, " ; call"),
                    OpCode::Print => push_str(&mut l, " ; print"),
                    _ => {
                        push_str(&mut l, " ; create array with ");
                        push_decimal(&mut l, operand as usize);
                        push_str(&mut l, " elements");
                    },
                }
                offset + 2
            },
            OpCode::Index => {
                push_str(&mut l, " ; array[index]");
                offset + 1
            },
            OpCode::IndexSet => {
                push_str(&mut l, " ; array[index] = value");
                offset + 1
            },
            OpCode::Add | OpCode::Subtract | OpCode::Multiply | OpCode::Divide | OpCode::Equal
            | OpCode::NotEqual | OpCode::LessThan | OpCode::LessEqual | OpCode::GreaterThan
            | OpCode::GreaterEqual => {
                push_str(&mut l, " ; binary operation");
                offset + 1
            },
            OpCode::Closure => {
                let index = match self.code(offset + 1) {
                    Some(x) => x,
                    None => 0,
                };
                let count = match self.code(offset + 2) {
                    Some(x) => x,
                    None => 0,
                };
                push_str(&mut l, " ");
                push_decimal(&mut l, index as usize);
                push_str(&mut l, " ; ");
                let after = offset + 3 + 2 * (count as usize);
                match self.constant(index as usize) {
                    Some(Constant::Proto(p)) => {
                        push_str(&mut l, "closure for function '");
                        l.append(p.name.as_str());
                        push_str(&mut l, "' with ");
                        push_decimal(&mut l, count as usize);
                        push_str(&mut l, " upvalues");
                        lines.push(l);
                        let pad = spaces_string(2 * depth);
                        let mut k: usize = 0;
                        while k < count as usize
                            invariant
                                self.decodable(offset as int),
                                code == self.code_view(),
                                opcode_of(code[offset as int]) == Some(OpCode::Closure),
                                n == code.len(),
                                self.is_proto_at(index as int),
                                index == code[offset + 1],
                                count == code[offset + 2],
                                k <= count,
                                pad@ == spaces(2 * depth as nat),
                                lines@.len() == 1 + k,
                                strings_view(lines@).subrange(1, 1 + k as int) == capture_lines(
                                    code,
                                    offset + 3,
                                    k as nat,
                                    depth as nat,
                                ),
                                strings_view(lines@)[0] == expected.0[0],
                            decreases count - k,
                        {
                            let at = offset + 3 + 2 * k;
                            let is_local = match self.code(at) {
                                Some(x) => x,
                                None => 0,
                            };
                            let slot = match self.code(at + 1) {
                                Some(x) => x,
                                None => 0,
                            };
                            let mut c = String::from_str(pad.as_str());
                            push_str(&mut c, "     upvalue[");
                            push_decimal(&mut c, k);
                            push_str(&mut c, "]: ");
                            if is_local == 1 {
                                push_str(&mut c, "local");
                            } else {
                                push_str(&mut c, "upvalue");
                            }
                            push_str(&mut c, " index ");
                            push_decimal(&mut c, slot as usize);
                            let ghost before = strings_view(lines@);
                            lines.push(c);
                            proof {
                                assert(c@ == capture_line(code, at as int, k as nat, depth as nat));
                                assert(strings_view(lines@) =~= before.push(c@));
                                assert(strings_view(lines@).subrange(1, 1 + k + 1) =~= before.subrange(1, 1 + k as int).push(c@));
                            }
                            k = k + 1;
                        }
                        proof {
                            assert(strings_view(lines@) =~= expected.0);
                        }
                        return (lines, after);
                    },
                    _ => {
                        push_str(&mut l, "INVALID_PROTO");
                    },
                }
                after
            },
            _ => offset + 1,
        };
        lines.push(l);
        proof {
            assert(strings_view(lines@) =~= expected.0);
        }
        (lines, next)
    }
}

} // verus!
