//! A recursive-descent parser. Each production has a specification function
//! over the token views and a position; the parser method of the same name
//! returns what that function gives and stops where it says.
use super::expr::{
    binary_op_of, clone_exprs, exprs_view, lemma_array_view, lemma_call_view, unary_op_of,
    BinaryOp, Expr, SpecExpr, UnaryOp,
};
use super::stmt::{
    lemma_block_view, lemma_func_view, names_view, opt_expr_view, stmts_view, SpecStmt, Stmt,
};
use crate::error::{located_view, Error, ErrorType, ErrorView, Result};
use crate::lexer::lexer::{scan_one, tokens_view};
use crate::lexer::token::{debug_text, SpecToken, SpecTokenType, Token, TokenKind, TokenType};
use crate::location::{utf8_len, Located, Location};
use crate::text::join2;
use vstd::prelude::*;
use vstd::string::*;

verus! {

/// A parsed value and the position just past it, or a syntax error.
/// A parse from some position: the value and the position after it, or the
/// error and the position the parser stopped at.
pub type PResult<T> = core::result::Result<(T, int), (ErrorView, int)>;

pub open spec fn valid(ts: Seq<SpecToken>, p: int) -> bool {
    0 <= p < ts.len()
}

pub open spec fn kind(ts: Seq<SpecToken>, p: int) -> SpecTokenType {
    ts[p].token_type
}

pub open spec fn at_end(ts: Seq<SpecToken>, p: int) -> bool {
    ts[p].token_type is Eof
}

/// The token at `p` is `k`, and is not the end of input.
pub open spec fn check(ts: Seq<SpecToken>, p: int, k: SpecTokenType) -> bool {
    !at_end(ts, p) && kind(ts, p) == k
}

/// Some end-of-input token lies at or after `p`.
pub open spec fn eof_ahead(ts: Seq<SpecToken>, p: int) -> bool {
    0 <= p && exists|k: int| p <= k < ts.len() && (#[trigger] ts[k]).token_type is Eof
}

/// A syntax error at the token at `p`.
pub open spec fn syntax_error(ts: Seq<SpecToken>, p: int, message: Seq<char>) -> ErrorView {
    located_view(ErrorType::Syntax, message, ts[p].location)
}

/// What a position outside the tokens gives; the parser never reaches one.
pub open spec fn off_tokens() -> ErrorView {
    located_view(ErrorType::Internal, Seq::empty(), Location { line: 0, column: 0, offset: 0 })
}

/// The position past the token `k` at `p`, or an error with `message`.
pub open spec fn expect(ts: Seq<SpecToken>, p: int, k: SpecTokenType, message: Seq<char>) -> core::result::Result<
    int,
    (ErrorView, int),
> {
    if check(ts, p, k) {
        Ok(p + 1)
    } else {
        Err((syntax_error(ts, p, message), p))
    }
}

/// The operators of binary precedence level `lvl`: 6 `or`, 5 `and`, 4
/// equality, 3 comparison, 2 `+ -`, 1 `* /`.
pub open spec fn is_level_op(lvl: int, k: SpecTokenType) -> bool {
    if lvl == 6 {
        k is Or
    } else if lvl == 5 {
        k is And
    } else if lvl == 4 {
        k is EqualEqual || k is BangEqual
    } else if lvl == 3 {
        k is LessThan || k is LessEqual || k is GreaterThan || k is GreaterEqual
    } else if lvl == 2 {
        k is Minus || k is Plus
    } else {
        k is Slash || k is Star
    }
}

/// The tokens that assign, plain or compound.
pub open spec fn is_assign_op(k: SpecTokenType) -> bool {
    k is Equal || k is PlusEqual || k is MinusEqual || k is StarEqual || k is SlashEqual
}

/// The operator a compound assignment token applies; `None` for plain `=`.
pub open spec fn compound_op_of(k: SpecTokenType) -> Option<BinaryOp> {
    match k {
        TokenKind::PlusEqual => Some(BinaryOp::Add),
        TokenKind::MinusEqual => Some(BinaryOp::Subtract),
        TokenKind::StarEqual => Some(BinaryOp::Multiply),
        TokenKind::SlashEqual => Some(BinaryOp::Divide),
        _ => None,
    }
}

/// A compound assignment `c=` applies the operator written `c`: the token the
/// lexer reads from `c=` stands, after `=`, for the same operator as the
/// token it reads from `c` alone, and that operator is written `c`.
pub proof fn lemma_compound_applies_written_operator(c: char)
    requires
        c == '+' || c == '-' || c == '*' || c == '/',
    ensures
        ({
            let start = Location { line: 1, column: 1, offset: 0 };
            &&& scan_one(seq![c, '='], start) matches Ok((k, _))
            &&& scan_one(seq![c], start) matches Ok((b, _))
            &&& is_assign_op(k)
            &&& compound_op_of(k) == binary_op_of(b)
            &&& binary_op_of(b) matches Some(op) && op.spec_symbol() == seq![c]
        }),
{
    reveal_strlit("+");
    reveal_strlit("-");
    reveal_strlit("*");
    reveal_strlit("/");
    assert(utf8_len(c) == 1);
    assert(seq![c, '='][1] == '=');
}

/// `target = value`, or `target op= value` read as `target = target op value`.
pub open spec fn assigned(target: SpecExpr, op: SpecTokenType, value: SpecExpr) -> SpecExpr {
    match compound_op_of(op) {
        None => value,
        Some(bop) => SpecExpr::Binary { left: Box::new(target), operator: bop, right: Box::new(value) },
    }
}

pub open spec fn primary_expected() -> Seq<char> {
    "expected number, string, boolean, identifier, '(' or '[', found "@
}

/// expression -> assignment
#[verifier::opaque]
pub open spec fn expr(ts: Seq<SpecToken>, p: int) -> PResult<SpecExpr>
    decreases ts.len() - p, 40int,
{
    if !valid(ts, p) {
        Err((off_tokens(), p))
    } else {
        assignment(ts, p)
    }
}

/// assignment -> ( Identifier | arrayAccess ) ( '=' | '+=' | '-=' | '*=' | '/=' ) assignment | logic_or
#[verifier::opaque]
pub open spec fn assignment(ts: Seq<SpecToken>, p: int) -> PResult<SpecExpr>
    decreases ts.len() - p, 39int,
{
    if !valid(ts, p) {
        Err((off_tokens(), p))
    } else {
        match binary(ts, 6, p) {
            Err(e) => Err(e),
            Ok((left, q)) => {
                if !(p <= q < ts.len()) {
                    Err((off_tokens(), p))
                } else if !at_end(ts, q) && is_assign_op(kind(ts, q)) {
                    match left {
                        SpecExpr::Variable(name) => match assignment(ts, q + 1) {
                            Err(e) => Err(e),
                            Ok((value, r)) => Ok(
                                (
                                    SpecExpr::Assign {
                                        name,
                                        value: Box::new(
                                            assigned(SpecExpr::Variable(name), kind(ts, q), value),
                                        ),
                                    },
                                    r,
                                ),
                            ),
                        },
                        SpecExpr::Index { array, index } => match assignment(ts, q + 1) {
                            Err(e) => Err(e),
                            Ok((value, r)) => Ok(
                                (
                                    SpecExpr::IndexAssign {
                                        array,
                                        index,
                                        value: Box::new(
                                            assigned(SpecExpr::Index { array, index }, kind(ts, q), value),
                                        ),
                                    },
                                    r,
                                ),
                            ),
                        },
                        _ => Err((syntax_error(ts, q, "invalid assignment target"@), q + 1)),
                    }
                } else {
                    Ok((left, q))
                }
            },
        }
    }
}

/// level `lvl` -> operand ( op operand )*
#[verifier::opaque]
pub open spec fn binary(ts: Seq<SpecToken>, lvl: int, p: int) -> PResult<SpecExpr>
    decreases ts.len() - p, 3 * lvl + 12,
{
    if !valid(ts, p) || lvl < 1 || lvl > 6 {
        Err((off_tokens(), p))
    } else {
        match operand(ts, lvl, p) {
            Err(e) => Err(e),
            Ok((left, q)) => if !(p <= q < ts.len()) {
                Err((off_tokens(), p))
            } else {
                binary_tail(ts, lvl, left, q)
            },
        }
    }
}

/// The operand of level `lvl`: level `lvl - 1`, or a unary expression.
#[verifier::opaque]
pub open spec fn operand(ts: Seq<SpecToken>, lvl: int, p: int) -> PResult<SpecExpr>
    decreases ts.len() - p, 3 * lvl + 10,
{
    if !valid(ts, p) || lvl < 1 || lvl > 6 {
        Err((off_tokens(), p))
    } else if lvl == 1 {
        unary(ts, p)
    } else {
        binary(ts, lvl - 1, p)
    }
}

/// ( op operand )*, folded to the left onto `left`.
#[verifier::opaque]
pub open spec fn binary_tail(ts: Seq<SpecToken>, lvl: int, left: SpecExpr, p: int) -> PResult<
    SpecExpr,
>
    decreases ts.len() - p, 3 * lvl + 11,
{
    if !valid(ts, p) || lvl < 1 || lvl > 6 {
        Err((off_tokens(), p))
    } else if !at_end(ts, p) && is_level_op(lvl, kind(ts, p)) {
        match operand(ts, lvl, p + 1) {
            Err(e) => Err(e),
            Ok((right, q)) => if !(p < q < ts.len()) {
                Err((off_tokens(), p))
            } else {
                binary_tail(
                    ts,
                    lvl,
                    SpecExpr::Binary {
                        left: Box::new(left),
                        operator: binary_op_of(kind(ts, p))->0,
                        right: Box::new(right),
                    },
                    q,
                )
            },
        }
    } else {
        Ok((left, p))
    }
}

/// unary -> ( '!' | '-' ) unary | call
#[verifier::opaque]
pub open spec fn unary(ts: Seq<SpecToken>, p: int) -> PResult<SpecExpr>
    decreases ts.len() - p, 8int,
{
    if !valid(ts, p) {
        Err((off_tokens(), p))
    } else if !at_end(ts, p) && (kind(ts, p) is Bang || kind(ts, p) is Minus) {
        match unary(ts, p + 1) {
            Err(e) => Err(e),
            Ok((operand, q)) => Ok(
                (
                    SpecExpr::Unary {
                        operator: unary_op_of(kind(ts, p))->0,
                        operand: Box::new(operand),
                    },
                    q,
                ),
            ),
        }
    } else {
        call(ts, p)
    }
}

/// call -> primary ( '(' arguments? ')' | '[' expression ']' )*
#[verifier::opaque]
pub open spec fn call(ts: Seq<SpecToken>, p: int) -> PResult<SpecExpr>
    decreases ts.len() - p, 7int,
{
    if !valid(ts, p) {
        Err((off_tokens(), p))
    } else {
        match primary(ts, p) {
            Err(e) => Err(e),
            Ok((e, q)) => if !(p <= q < ts.len()) {
                Err((off_tokens(), p))
            } else {
                call_tail(ts, e, q)
            },
        }
    }
}

#[verifier::opaque]
pub open spec fn call_tail(ts: Seq<SpecToken>, e: SpecExpr, p: int) -> PResult<SpecExpr>
    decreases ts.len() - p, 6int,
{
    if !valid(ts, p) {
        Err((off_tokens(), p))
    } else if check(ts, p, TokenKind::LeftParen) {
        match arguments(ts, p + 1, TokenKind::RightParen) {
            Err(err) => Err(err),
            Ok((args, q)) => if !(p < q < ts.len()) {
                Err((off_tokens(), p))
            } else {
                match expect(ts, q, TokenKind::RightParen, "expected ')' after arguments"@) {
                    Err(err) => Err(err),
                    Ok(r) => call_tail(ts, SpecExpr::Call { callee: Box::new(e), arguments: args }, r),
                }
            },
        }
    } else if check(ts, p, TokenKind::LeftBracket) {
        match expr(ts, p + 1) {
            Err(err) => Err(err),
            Ok((index, q)) => if !(p < q < ts.len()) {
                Err((off_tokens(), p))
            } else {
                match expect(ts, q, TokenKind::RightBracket, "expected ']' after array index"@) {
                    Err(err) => Err(err),
                    Ok(r) => call_tail(
                        ts,
                        SpecExpr::Index { array: Box::new(e), index: Box::new(index) },
                        r,
                    ),
                }
            },
        }
    } else {
        Ok((e, p))
    }
}

/// primary -> 'true' | 'false' | 'nil' | Number | String | Identifier | arrayLiteral | '(' expression ')'
#[verifier::opaque]
pub open spec fn primary(ts: Seq<SpecToken>, p: int) -> PResult<SpecExpr>
    decreases ts.len() - p, 5int,
{
    if !valid(ts, p) {
        Err((off_tokens(), p))
    } else {
        match kind(ts, p) {
            TokenKind::Number(n) => Ok((SpecExpr::Number(n), p + 1)),
            TokenKind::String(s) => Ok((SpecExpr::String(s), p + 1)),
            TokenKind::Boolean(b) => Ok((SpecExpr::Boolean(b), p + 1)),
            TokenKind::Identifier(name) => Ok((SpecExpr::Variable(name), p + 1)),
            TokenKind::Nil => Ok((SpecExpr::Nil, p + 1)),
            TokenKind::LeftParen => match expr(ts, p + 1) {
                Err(err) => Err(err),
                Ok((e, q)) => match expect(
                    ts,
                    q,
                    TokenKind::RightParen,
                    "expected ')' after expression"@,
                ) {
                    Err(err) => Err(err),
                    Ok(r) => Ok((e, r)),
                },
            },
            TokenKind::LeftBracket => match arguments(ts, p + 1, TokenKind::RightBracket) {
                Err(err) => Err(err),
                Ok((es, q)) => match expect(
                    ts,
                    q,
                    TokenKind::RightBracket,
                    "expected ']' after array elements"@,
                ) {
                    Err(err) => Err(err),
                    Ok(r) => Ok((SpecExpr::Array(es), r)),
                },
            },
            // The offending token has been read past, unless it ends the input.
            k => Err(
                (
                    syntax_error(ts, p, primary_expected() + debug_text(k)),
                    if at_end(ts, p) {
                        p
                    } else {
                        p + 1
                    },
                ),
            ),
        }
    }
}

/// arguments -> expression ( ',' expression )*, or nothing before `closer`.
#[verifier::opaque]
pub open spec fn arguments(ts: Seq<SpecToken>, p: int, closer: SpecTokenType) -> PResult<
    Seq<SpecExpr>,
>
    decreases ts.len() - p, 42int,
{
    if !valid(ts, p) {
        Err((off_tokens(), p))
    } else if check(ts, p, closer) {
        Ok((Seq::empty(), p))
    } else {
        match expr(ts, p) {
            Err(e) => Err(e),
            Ok((e, q)) => if !(p <= q < ts.len()) {
                Err((off_tokens(), p))
            } else {
                arguments_tail(ts, seq![e], q)
            },
        }
    }
}

#[verifier::opaque]
pub open spec fn arguments_tail(ts: Seq<SpecToken>, acc: Seq<SpecExpr>, p: int) -> PResult<
    Seq<SpecExpr>,
>
    decreases ts.len() - p, 41int,
{
    if !valid(ts, p) {
        Err((off_tokens(), p))
    } else if check(ts, p, TokenKind::Comma) {
        match expr(ts, p + 1) {
            Err(e) => Err(e),
            Ok((e, q)) => if !(p < q < ts.len()) {
                Err((off_tokens(), p))
            } else {
                arguments_tail(ts, acc.push(e), q)
            },
        }
    } else {
        Ok((acc, p))
    }
}


/// The identifier at `p` and the position past it.
#[verifier::opaque]
pub open spec fn identifier(ts: Seq<SpecToken>, p: int) -> PResult<Seq<char>> {
    if !valid(ts, p) {
        Err((off_tokens(), p))
    } else {
        match kind(ts, p) {
            TokenKind::Identifier(name) => Ok((name, p + 1)),
            _ => Err((syntax_error(ts, p, "expected identifier"@), p)),
        }
    }
}

/// parameters -> Identifier ( ',' Identifier )*, or nothing before ')'.
#[verifier::opaque]
pub open spec fn parameters(ts: Seq<SpecToken>, p: int) -> PResult<Seq<Seq<char>>> {
    if !valid(ts, p) {
        Err((off_tokens(), p))
    } else if check(ts, p, TokenKind::RightParen) {
        Ok((Seq::empty(), p))
    } else {
        match identifier(ts, p) {
            Err(e) => Err(e),
            Ok((name, q)) => parameters_tail(ts, seq![name], q),
        }
    }
}

#[verifier::opaque]
pub open spec fn parameters_tail(ts: Seq<SpecToken>, acc: Seq<Seq<char>>, p: int) -> PResult<
    Seq<Seq<char>>,
>
    decreases ts.len() - p,
{
    if !valid(ts, p) {
        Err((off_tokens(), p))
    } else if check(ts, p, TokenKind::Comma) {
        match identifier(ts, p + 1) {
            Err(e) => Err(e),
            Ok((name, q)) => if !(p < q <= ts.len()) {
                Err((off_tokens(), p))
            } else {
                parameters_tail(ts, acc.push(name), q)
            },
        }
    } else {
        Ok((acc, p))
    }
}

/// The position past a `;` at `p`.
pub open spec fn semicolon(ts: Seq<SpecToken>, p: int) -> core::result::Result<int, (ErrorView, int)> {
    expect(ts, p, TokenKind::Semicolon, "expected ';'"@)
}

/// statement -> varDecl | funcDecl | ifStmt | whileStmt | forStmt | returnStmt
///            | block | printStmt | breakStmt | continueStmt | exprStmt
#[verifier::opaque]
pub open spec fn statement(ts: Seq<SpecToken>, p: int) -> PResult<SpecStmt>
    decreases ts.len() - p, 5int,
{
    if !valid(ts, p) {
        Err((off_tokens(), p))
    } else {
        match kind(ts, p) {
            TokenKind::Let => var_decl(ts, p),
            TokenKind::Fn => func_decl(ts, p),
            TokenKind::If => if_stmt(ts, p),
            TokenKind::While => while_stmt(ts, p),
            TokenKind::For => for_stmt(ts, p),
            TokenKind::Return => return_stmt(ts, p),
            TokenKind::LeftBrace => match block(ts, p) {
                Err(e) => Err(e),
                Ok((ss, q)) => Ok((SpecStmt::Block(ss), q)),
            },
            TokenKind::Print => print_stmt(ts, p),
            TokenKind::Break => match semicolon(ts, p + 1) {
                Err(e) => Err(e),
                Ok(q) => Ok((SpecStmt::Break, q)),
            },
            TokenKind::Continue => match semicolon(ts, p + 1) {
                Err(e) => Err(e),
                Ok(q) => Ok((SpecStmt::Continue, q)),
            },
            _ => expr_stmt(ts, p),
        }
    }
}

/// varDecl -> 'let' Identifier ( '=' expression )? ';'
#[verifier::opaque]
pub open spec fn var_decl(ts: Seq<SpecToken>, p: int) -> PResult<SpecStmt>
    decreases ts.len() - p, 4int,
{
    if !valid(ts, p) {
        Err((off_tokens(), p))
    } else {
        match identifier(ts, p + 1) {
            Err(e) => Err(e),
            Ok((name, q)) => if !(p < q < ts.len()) {
                Err((off_tokens(), p))
            } else if check(ts, q, TokenKind::Equal) {
                match expr(ts, q + 1) {
                    Err(e) => Err(e),
                    Ok((init, r)) => match semicolon(ts, r) {
                        Err(e) => Err(e),
                        Ok(t) => Ok((SpecStmt::VarDecl { name, initializer: Some(init) }, t)),
                    },
                }
            } else {
                match semicolon(ts, q) {
                    Err(e) => Err(e),
                    Ok(t) => Ok((SpecStmt::VarDecl { name, initializer: None }, t)),
                }
            },
        }
    }
}

/// funcDecl -> 'fn' Identifier '(' parameters? ')' block
#[verifier::opaque]
pub open spec fn func_decl(ts: Seq<SpecToken>, p: int) -> PResult<SpecStmt>
    decreases ts.len() - p, 4int,
{
    if !valid(ts, p) {
        Err((off_tokens(), p))
    } else {
        match identifier(ts, p + 1) {
            Err(e) => Err(e),
            Ok((name, q)) => match expect(
                ts,
                q,
                TokenKind::LeftParen,
                "expected '(' after function name"@,
            ) {
                Err(e) => Err(e),
                Ok(q1) => match parameters(ts, q1) {
                    Err(e) => Err(e),
                    Ok((params, q2)) => match expect(
                        ts,
                        q2,
                        TokenKind::RightParen,
                        "expected ')' after parameters"@,
                    ) {
                        Err(e) => Err(e),
                        Ok(q3) => if !(p < q3 <= ts.len()) {
                            Err((off_tokens(), p))
                        } else {
                            match block(ts, q3) {
                                Err(e) => Err(e),
                                Ok((body, r)) => Ok((SpecStmt::FuncDecl { name, params, body }, r)),
                            }
                        },
                    },
                },
            },
        }
    }
}

/// The `else` part of an `if` whose then-branch ends before `p`.
#[verifier::opaque]
pub open spec fn else_branch(ts: Seq<SpecToken>, p: int, origin: int) -> PResult<Option<Box<SpecStmt>>>
    decreases ts.len() - origin, 3int,
{
    if !valid(ts, p) || !(origin < p) {
        Err((off_tokens(), p))
    } else if check(ts, p, TokenKind::Else) {
        if check(ts, p + 1, TokenKind::If) {
            match if_stmt(ts, p + 1) {
                Err(e) => Err(e),
                Ok((s, q)) => Ok((Some(Box::new(s)), q)),
            }
        } else {
            match block(ts, p + 1) {
                Err(e) => Err(e),
                Ok((ss, q)) => Ok((Some(Box::new(SpecStmt::Block(ss))), q)),
            }
        }
    } else {
        Ok((None, p))
    }
}

/// ifStmt -> 'if' expression block ( 'else' ( ifStmt | block ) )?
#[verifier::opaque]
pub open spec fn if_stmt(ts: Seq<SpecToken>, p: int) -> PResult<SpecStmt>
    decreases ts.len() - p, 4int,
{
    if !valid(ts, p) {
        Err((off_tokens(), p))
    } else {
        match expr(ts, p + 1) {
            Err(e) => Err(e),
            Ok((condition, q)) => if !(p < q < ts.len()) {
                Err((off_tokens(), p))
            } else {
                match block(ts, q) {
                    Err(e) => Err(e),
                    Ok((then_ss, r)) => if !(q < r < ts.len()) {
                        Err((off_tokens(), p))
                    } else {
                        match else_branch(ts, r, p) {
                            Err(e) => Err(e),
                            Ok((else_b, t)) => Ok(
                                (
                                    SpecStmt::If {
                                        condition,
                                        then_branch: Box::new(SpecStmt::Block(then_ss)),
                                        else_branch: else_b,
                                    },
                                    t,
                                ),
                            ),
                        }
                    },
                }
            },
        }
    }
}

/// whileStmt -> 'while' expression block
#[verifier::opaque]
pub open spec fn while_stmt(ts: Seq<SpecToken>, p: int) -> PResult<SpecStmt>
    decreases ts.len() - p, 4int,
{
    if !valid(ts, p) {
        Err((off_tokens(), p))
    } else {
        match expr(ts, p + 1) {
            Err(e) => Err(e),
            Ok((condition, q)) => if !(p < q < ts.len()) {
                Err((off_tokens(), p))
            } else {
                match block(ts, q) {
                    Err(e) => Err(e),
                    Ok((body, r)) => Ok(
                        (SpecStmt::While { condition, body: Box::new(SpecStmt::Block(body)) }, r),
                    ),
                }
            },
        }
    }
}

/// The initializer clause of a `for`: a declaration, an expression
/// statement, or a bare `;`.
#[verifier::opaque]
pub open spec fn for_init(ts: Seq<SpecToken>, p: int, origin: int) -> PResult<Option<SpecStmt>>
    decreases ts.len() - origin, 3int,
{
    if !valid(ts, p) || !(origin < p) {
        Err((off_tokens(), p))
    } else {
        match kind(ts, p) {
            TokenKind::Let => match var_decl(ts, p) {
                Err(e) => Err(e),
                Ok((s, q)) => Ok((Some(s), q)),
            },
            TokenKind::Semicolon => Ok((None, p + 1)),
            _ => match expr_stmt(ts, p) {
                Err(e) => Err(e),
                Ok((s, q)) => Ok((Some(s), q)),
            },
        }
    }
}

/// forStmt -> 'for' ( varDecl | exprStmt | ';' ) expression? ';' expression? block,
/// read as a `while` loop inside a block that holds the initializer.
#[verifier::opaque]
pub open spec fn for_stmt(ts: Seq<SpecToken>, p: int) -> PResult<SpecStmt>
    decreases ts.len() - p, 4int,
{
    if !valid(ts, p) {
        Err((off_tokens(), p))
    } else {
        match for_init(ts, p + 1, p) {
            Err(e) => Err(e),
            Ok((init, q)) => if !(p < q < ts.len()) {
                Err((off_tokens(), p))
            } else {
                let cond = if !check(ts, q, TokenKind::Semicolon) {
                    expr(ts, q)
                } else {
                    Ok((SpecExpr::Boolean(true), q))
                };
                match cond {
                    Err(e) => Err(e),
                    Ok((condition, q2)) => match expect(
                        ts,
                        q2,
                        TokenKind::Semicolon,
                        "expect ';' after loop condition"@,
                    ) {
                        Err(e) => Err(e),
                        Ok(q3) => {
                            let inc = if !check(ts, q3, TokenKind::LeftBrace) {
                                match expr(ts, q3) {
                                    Err(e) => Err(e),
                                    Ok((i, r)) => Ok((Some(i), r)),
                                }
                            } else {
                                Ok((None, q3))
                            };
                            match inc {
                                Err(e) => Err(e),
                                Ok((increment, q4)) => if !(p < q4 <= ts.len()) {
                                    Err((off_tokens(), p))
                                } else {
                                    match block(ts, q4) {
                                        Err(e) => Err(e),
                                        Ok((body, r)) => Ok((for_loop(init, condition, increment, body), r)),
                                    }
                                },
                            }
                        },
                    },
                }
            },
        }
    }
}

/// The statement a `for` loop stands for.
pub open spec fn for_loop(
    init: Option<SpecStmt>,
    condition: SpecExpr,
    increment: Option<SpecExpr>,
    body: Seq<SpecStmt>,
) -> SpecStmt {
    let body_block = SpecStmt::Block(body);
    let body_with_inc = match increment {
        Some(inc) => SpecStmt::Block(seq![body_block, SpecStmt::Expression(inc)]),
        None => body_block,
    };
    let while_loop = SpecStmt::While { condition, body: Box::new(body_with_inc) };
    match init {
        Some(s) => SpecStmt::Block(seq![s, while_loop]),
        None => while_loop,
    }
}

/// returnStmt -> 'return' expression? ';'
#[verifier::opaque]
pub open spec fn return_stmt(ts: Seq<SpecToken>, p: int) -> PResult<SpecStmt>
    decreases ts.len() - p, 4int,
{
    if !valid(ts, p) {
        Err((off_tokens(), p))
    } else if !check(ts, p + 1, TokenKind::Semicolon) {
        match expr(ts, p + 1) {
            Err(e) => Err(e),
            Ok((v, q)) => match semicolon(ts, q) {
                Err(e) => Err(e),
                Ok(r) => Ok((SpecStmt::Return { value: Some(v) }, r)),
            },
        }
    } else {
        match semicolon(ts, p + 1) {
            Err(e) => Err(e),
            Ok(r) => Ok((SpecStmt::Return { value: None }, r)),
        }
    }
}

/// printStmt -> 'print' arguments? ';'
#[verifier::opaque]
pub open spec fn print_stmt(ts: Seq<SpecToken>, p: int) -> PResult<SpecStmt>
    decreases ts.len() - p, 4int,
{
    if !valid(ts, p) {
        Err((off_tokens(), p))
    } else {
        match arguments(ts, p + 1, TokenKind::Semicolon) {
            Err(e) => Err(e),
            Ok((es, q)) => match semicolon(ts, q) {
                Err(e) => Err(e),
                Ok(r) => Ok((SpecStmt::Print(es), r)),
            },
        }
    }
}

/// exprStmt -> expression ';'
#[verifier::opaque]
pub open spec fn expr_stmt(ts: Seq<SpecToken>, p: int) -> PResult<SpecStmt>
    decreases ts.len() - p, 4int,
{
    if !valid(ts, p) {
        Err((off_tokens(), p))
    } else {
        match expr(ts, p) {
            Err(e) => Err(e),
            Ok((e, q)) => match semicolon(ts, q) {
                Err(err) => Err(err),
                Ok(r) => Ok((SpecStmt::Expression(e), r)),
            },
        }
    }
}

/// block -> '{' statement* '}': the statements inside.
#[verifier::opaque]
pub open spec fn block(ts: Seq<SpecToken>, p: int) -> PResult<Seq<SpecStmt>>
    decreases ts.len() - p, 3int,
{
    if !valid(ts, p) {
        Err((off_tokens(), p))
    } else {
        match expect(ts, p, TokenKind::LeftBrace, "expected '{' at start of block"@) {
            Err(e) => Err(e),
            Ok(q) => block_tail(ts, Seq::empty(), q),
        }
    }
}

/// statement* '}', after `acc`.
#[verifier::opaque]
pub open spec fn block_tail(ts: Seq<SpecToken>, acc: Seq<SpecStmt>, p: int) -> PResult<
    Seq<SpecStmt>,
>
    decreases ts.len() - p, 6int,
{
    if !valid(ts, p) {
        Err((off_tokens(), p))
    } else if !check(ts, p, TokenKind::RightBrace) {
        match statement(ts, p) {
            Err(e) => Err(e),
            Ok((s, q)) => if !(p < q < ts.len()) {
                Err((off_tokens(), p))
            } else {
                block_tail(ts, acc.push(s), q)
            },
        }
    } else {
        match expect(ts, p, TokenKind::RightBrace, "expected '}' at end of block"@) {
            Err(e) => Err(e),
            Ok(q) => Ok((acc, q)),
        }
    }
}

/// program -> statement*: the statements from `p` to the end of input, after `acc`.
#[verifier::opaque]
pub open spec fn program_from(ts: Seq<SpecToken>, acc: Seq<SpecStmt>, p: int) -> core::result::Result<
    Seq<SpecStmt>,
    (ErrorView, int),
>
    decreases ts.len() - p, 7int,
{
    if !valid(ts, p) {
        Err((off_tokens(), p))
    } else if at_end(ts, p) {
        Ok(acc)
    } else {
        match statement(ts, p) {
            Err(e) => Err(e),
            Ok((s, q)) => if !(p < q < ts.len()) {
                Err((off_tokens(), p))
            } else {
                program_from(ts, acc.push(s), q)
            },
        }
    }
}

/// Like `program_from`, with each statement paired with the location of its
/// first token.
#[verifier::opaque]
pub open spec fn located_program_from(
    ts: Seq<SpecToken>,
    acc: Seq<(SpecStmt, Location)>,
    p: int,
) -> core::result::Result<Seq<(SpecStmt, Location)>, (ErrorView, int)>
    decreases ts.len() - p,
{
    if !valid(ts, p) {
        Err((off_tokens(), p))
    } else if at_end(ts, p) {
        Ok(acc)
    } else {
        match statement(ts, p) {
            Err(e) => Err(e),
            Ok((s, q)) => if !(p < q < ts.len()) {
                Err((off_tokens(), p))
            } else {
                located_program_from(ts, acc.push((s, ts[p].location)), q)
            },
        }
    }
}

/// A statement with the place where it starts.
pub type LocatedStmt = Located<Stmt>;

/// The statements with their locations, as the compiler reads them.
pub open spec fn located_stmts_view(stmts: Seq<LocatedStmt>) -> Seq<(SpecStmt, Location)> {
    stmts.map_values(|l: LocatedStmt| (l.inner@, l.location))
}

/// A parse result agrees with its specification: the same value and the
/// same position after it, or the same error and the same position where the
/// parser stopped.
pub open spec fn agrees<T: View>(r: Result<T>, pos: int, s: PResult<T::V>) -> bool {
    match s {
        Ok((v, q)) => r matches Ok(x) && x@ == v && pos == q,
        Err((e, q)) => r matches Err(x) && x@ == e && pos == q,
    }
}

pub open spec fn agrees_exprs(r: Result<Vec<Expr>>, pos: int, s: PResult<Seq<SpecExpr>>) -> bool {
    match s {
        Ok((v, q)) => r matches Ok(x) && exprs_view(x@) == v && pos == q,
        Err((e, q)) => r matches Err(x) && x@ == e && pos == q,
    }
}

pub open spec fn agrees_stmts(r: Result<Vec<Stmt>>, pos: int, s: PResult<Seq<SpecStmt>>) -> bool {
    match s {
        Ok((v, q)) => r matches Ok(x) && stmts_view(x@) == v && pos == q,
        Err((e, q)) => r matches Err(x) && x@ == e && pos == q,
    }
}

pub open spec fn agrees_names(r: Result<Vec<String>>, pos: int, s: PResult<Seq<Seq<char>>>) -> bool {
    match s {
        Ok((v, q)) => r matches Ok(x) && names_view(x@) == v && pos == q,
        Err((e, q)) => r matches Err(x) && x@ == e && pos == q,
    }
}

pub open spec fn agrees_opt_stmt(r: Result<Option<Stmt>>, pos: int, s: PResult<Option<SpecStmt>>) -> bool {
    match s {
        Ok((v, q)) => r matches Ok(x) && pos == q && match (x, v) {
            (None, None) => true,
            (Some(a), Some(b)) => a@ == b,
            _ => false,
        },
        Err((e, q)) => r matches Err(x) && x@ == e && pos == q,
    }
}

pub open spec fn agrees_else(r: Result<Option<Box<Stmt>>>, pos: int, s: PResult<Option<Box<SpecStmt>>>) -> bool {
    match s {
        Ok((v, q)) => r matches Ok(x) && pos == q && match (x, v) {
            (None, None) => true,
            (Some(a), Some(b)) => (*a)@ == *b,
            _ => false,
        },
        Err((e, q)) => r matches Err(x) && x@ == e && pos == q,
    }
}

/// What the lexer hands over always ends with the end of input, so the
/// parser can take it.
pub proof fn lemma_last_eof(ts: Seq<SpecToken>)
    requires
        ts.len() > 0,
        ts.last().token_type is Eof,
    ensures
        eof_ahead(ts, 0),
{
    assert(ts[ts.len() - 1].token_type is Eof);
}

proof fn lemma_step(ts: Seq<SpecToken>, p: int)
    requires
        eof_ahead(ts, p),
        !at_end(ts, p),
    ensures
        eof_ahead(ts, p + 1),
        p + 1 < ts.len(),
{
    let k = choose|k: int| p <= k < ts.len() && (#[trigger] ts[k]).token_type is Eof;
    assert(k != p);
    assert(p + 1 <= k);
}

pub struct Parser {
    tokens: Vec<Token>,
    current: usize,
}

/// The parser moved forward over the same tokens and is still well formed.
pub open spec fn moved(before: Parser, after: Parser) -> bool {
    &&& after.wf()
    &&& after.token_views() == before.token_views()
    &&& before.position() <= after.position()
}

impl Parser {
    /// The views of the tokens being parsed.
    pub closed spec fn token_views(&self) -> Seq<SpecToken> {
        tokens_view(self.tokens@)
    }

    /// The index of the next token.
    pub closed spec fn position(&self) -> int {
        self.current as int
    }

    /// An end of input lies ahead, so that the parser never runs off the tokens.
    pub open spec fn wf(&self) -> bool {
        eof_ahead(self.token_views(), self.position())
    }

    pub fn new(tokens: Vec<Token>) -> (p: Self)
        ensures
            p.token_views() == tokens_view(tokens@),
            p.position() == 0,
    {
        Parser { tokens, current: 0 }
    }

    /// Parses statements up to the end of input.
    pub fn parse(&mut self) -> (r: Result<Vec<Stmt>>)
        requires
            old(self).wf(),
        ensures
            moved(*old(self), *final(self)),
            match program_from(old(self).token_views(), Seq::empty(), old(self).position()) {
                Ok(ss) => r matches Ok(v) && stmts_view(v@) == ss,
                Err((e, q)) => r matches Err(x) && x@ == e && final(self).position() == q,
            },
    {
        let ghost ts = self.token_views();
        let ghost p0 = self.position();
        let mut statements: Vec<Stmt> = Vec::new();
        proof {
            assert(stmts_view(statements@) =~= Seq::<SpecStmt>::empty());
        }
        while !self.is_at_end()
            invariant
                moved(*old(self), *self),
                ts == self.token_views(),
                p0 == old(self).position(),
                program_from(ts, stmts_view(statements@), self.position()) == program_from(
                    ts,
                    Seq::empty(),
                    p0,
                ),
            decreases ts.len() - self.position(),
        {
            proof {
                reveal(program_from);
            }
            match self.statement() {
                Ok(s) => {
                    let ghost before = statements@;
                    statements.push(s);
                    proof {
                        assert(stmts_view(statements@) =~= stmts_view(before).push(s@));
                    }
                },
                Err(e) => {
                    return Err(e);
                },
            }
        }
        proof {
            reveal(program_from);
        }
        Ok(statements)
    }

    /// Parses statements up to the end of input, each with the location of
    /// its first token.
    pub fn parse_located(&mut self) -> (r: Result<Vec<LocatedStmt>>)
        requires
            old(self).wf(),
        ensures
            moved(*old(self), *final(self)),
            match located_program_from(old(self).token_views(), Seq::empty(), old(self).position()) {
                Ok(ss) => r matches Ok(v) && located_stmts_view(v@) == ss,
                Err((e, q)) => r matches Err(x) && x@ == e && final(self).position() == q,
            },
    {
        let ghost ts = self.token_views();
        let ghost p0 = self.position();
        let mut statements: Vec<LocatedStmt> = Vec::new();
        proof {
            assert(located_stmts_view(statements@) =~= Seq::<(SpecStmt, Location)>::empty());
        }
        while !self.is_at_end()
            invariant
                moved(*old(self), *self),
                ts == self.token_views(),
                p0 == old(self).position(),
                located_program_from(ts, located_stmts_view(statements@), self.position())
                    == located_program_from(ts, Seq::empty(), p0),
            decreases ts.len() - self.position(),
        {
            proof {
                reveal(located_program_from);
            }
            let location = self.tokens[self.current].location;
            match self.statement() {
                Ok(s) => {
                    let ghost before = statements@;
                    statements.push(Located { inner: s, location });
                    proof {
                        assert(located_stmts_view(statements@) =~= located_stmts_view(before).push((s@, location)));
                    }
                },
                Err(e) => {
                    return Err(e);
                },
            }
        }
        proof {
            reveal(located_program_from);
        }
        Ok(statements)
    }

    fn peek_kind(&self) -> (k: &TokenType)
        requires
            self.wf(),
        ensures
            k@ == kind(self.token_views(), self.position()),
    {
        &self.tokens[self.current].token_type
    }

    fn is_at_end(&self) -> (b: bool)
        requires
            self.wf(),
        ensures
            b == at_end(self.token_views(), self.position()),
    {
        match self.peek_kind() {
            TokenKind::Eof => true,
            _ => false,
        }
    }

    fn check(&self, k: &TokenType) -> (b: bool)
        requires
            self.wf(),
        ensures
            b == check(self.token_views(), self.position(), k@),
    {
        if self.is_at_end() {
            false
        } else {
            self.peek_kind().same_as(k)
        }
    }

    /// Moves to the next token unless at the end of input.
    fn advance(&mut self)
        requires
            old(self).wf(),
        ensures
            moved(*old(self), *final(self)),
            final(self).position() == if at_end(old(self).token_views(), old(self).position()) {
                old(self).position()
            } else {
                old(self).position() + 1
            },
    {
        if !self.is_at_end() {
            let len = self.tokens.len();
            proof {
                lemma_step(self.token_views(), self.position());
            }
            assert(self.current + 1 < len);
            self.current = self.current + 1;
        }
    }

    fn error(&self, message: String) -> (e: Error)
        requires
            self.wf(),
        ensures
            e@ == syntax_error(self.token_views(), self.position(), message@),
    {
        Error::syntax(message, self.tokens[self.current].location)
    }

    fn consume(&mut self, k: &TokenType, message: &str) -> (r: Result<()>)
        requires
            old(self).wf(),
        ensures
            moved(*old(self), *final(self)),
            match expect(old(self).token_views(), old(self).position(), k@, message@) {
                Ok(q) => r is Ok && final(self).position() == q,
                Err((e, q)) => r matches Err(x) && x@ == e && final(self).position() == q,
            },
    {
        if self.check(k) {
            self.advance();
            Ok(())
        } else {
            Err(self.error(String::from_str(message)))
        }
    }

    fn consume_semicolon(&mut self) -> (r: Result<()>)
        requires
            old(self).wf(),
        ensures
            moved(*old(self), *final(self)),
            match semicolon(old(self).token_views(), old(self).position()) {
                Ok(q) => r is Ok && final(self).position() == q,
                Err((e, q)) => r matches Err(x) && x@ == e && final(self).position() == q,
            },
    {
        self.consume(&TokenKind::Semicolon, "expected ';'")
    }

    fn consume_identifier(&mut self) -> (r: Result<String>)
        requires
            old(self).wf(),
        ensures
            moved(*old(self), *final(self)),
            agrees(r, final(self).position(), identifier(old(self).token_views(), old(self).position())),
    {
        proof {
            reveal(identifier);
        }
        let name = match self.peek_kind() {
            TokenKind::Identifier(name) => Some(name.clone()),
            _ => None,
        };
        match name {
            Some(n) => {
                self.advance();
                Ok(n)
            },
            None => Err(self.error(String::from_str("expected identifier"))),
        }
    }
}

/// Expressions.
impl Parser {
    fn expr(&mut self) -> (r: Result<Expr>)
        requires
            old(self).wf(),
        ensures
            moved(*old(self), *final(self)),
            r is Ok ==> old(self).position() < final(self).position(),
            agrees(r, final(self).position(), expr(old(self).token_views(), old(self).position())),
        decreases old(self).token_views().len() - old(self).position(), 40int,
    {
        proof {
            reveal(expr);
            reveal(assignment);
        }
        self.assignment()
    }

    /// The binary operator a compound assignment token applies.
    fn compound_op(k: &TokenType) -> (r: Option<BinaryOp>)
        ensures
            r == compound_op_of(k@),
    {
        match k {
            TokenKind::PlusEqual => Some(BinaryOp::Add),
            TokenKind::MinusEqual => Some(BinaryOp::Subtract),
            TokenKind::StarEqual => Some(BinaryOp::Multiply),
            TokenKind::SlashEqual => Some(BinaryOp::Divide),
            _ => None,
        }
    }

    fn assignment(&mut self) -> (r: Result<Expr>)
        requires
            old(self).wf(),
        ensures
            moved(*old(self), *final(self)),
            r is Ok ==> old(self).position() < final(self).position(),
            agrees(r, final(self).position(), assignment(old(self).token_views(), old(self).position())),
        decreases old(self).token_views().len() - old(self).position(), 39int,
    {
        proof {
            reveal(assignment);
            reveal(binary);
        }
        let ghost ts = self.token_views();
        let left = match self.binary(6) {
            Ok(e) => e,
            Err(e) => {
                return Err(e);
            },
        };
        let q = self.current;
        let is_assign = match self.peek_kind() {
            TokenKind::Equal | TokenKind::PlusEqual | TokenKind::MinusEqual | TokenKind::StarEqual
            | TokenKind::SlashEqual => true,
            _ => false,
        };
        if self.is_at_end() || !is_assign {
            return Ok(left);
        }
        let ghost op_kind = kind(ts, q as int);
        let bop = Self::compound_op(self.peek_kind());
        self.advance();
        match left {
            Expr::Variable(name) => {
                let value = match self.assignment() {
                    Ok(v) => v,
                    Err(e) => {
                        return Err(e);
                    },
                };
                let v = match bop {
                    None => value,
                    Some(op) => {
                        let target = Expr::Variable(name.clone());
                        Expr::Binary { left: Box::new(target), operator: op, right: Box::new(value) }
                    },
                };
                proof {
                    assert(v@ == assigned(SpecExpr::Variable(name@), op_kind, value@));
                }
                let result = Expr::Assign { name, value: Box::new(v) };
                proof {
                    assert(result@ == SpecExpr::Assign { name: name@, value: Box::new(v@) });
                }
                Ok(result)
            },
            Expr::Index { array, index } => {
                let value = match self.assignment() {
                    Ok(v) => v,
                    Err(e) => {
                        return Err(e);
                    },
                };
                let ghost target = SpecExpr::Index {
                    array: Box::new((*array)@),
                    index: Box::new((*index)@),
                };
                match bop {
                    None => {
                        let result = Expr::IndexAssign { array, index, value: Box::new(value) };
                        proof {
                            assert(value@ == assigned(target, op_kind, value@));
                        }
                        Ok(result)
                    },
                    Some(op) => {
                        let a2 = Box::new((*array).clone());
                        let i2 = Box::new((*index).clone());
                        let place = Expr::Index { array, index };
                        proof {
                            assert(place@ == target);
                        }
                        let v = Expr::Binary { left: Box::new(place), operator: op, right: Box::new(value) };
                        proof {
                            assert(v@ == assigned(target, op_kind, value@));
                        }
                        Ok(Expr::IndexAssign { array: a2, index: i2, value: Box::new(v) })
                    },
                }
            },
            _ => Err(
                Error::syntax(String::from_str("invalid assignment target"), self.tokens[q].location),
            ),
        }
    }

    /// Whether `k` is an operator of precedence level `lvl`.
    fn is_level_op(lvl: u8, k: &TokenType) -> (b: bool)
        ensures
            b == is_level_op(lvl as int, k@),
    {
        if lvl == 6 {
            match k {
                TokenKind::Or => true,
                _ => false,
            }
        } else if lvl == 5 {
            match k {
                TokenKind::And => true,
                _ => false,
            }
        } else if lvl == 4 {
            match k {
                TokenKind::EqualEqual | TokenKind::BangEqual => true,
                _ => false,
            }
        } else if lvl == 3 {
            match k {
                TokenKind::LessThan | TokenKind::LessEqual | TokenKind::GreaterThan
                | TokenKind::GreaterEqual => true,
                _ => false,
            }
        } else if lvl == 2 {
            match k {
                TokenKind::Minus | TokenKind::Plus => true,
                _ => false,
            }
        } else {
            match k {
                TokenKind::Slash | TokenKind::Star => true,
                _ => false,
            }
        }
    }

    fn binary(&mut self, lvl: u8) -> (r: Result<Expr>)
        requires
            old(self).wf(),
            1 <= lvl <= 6,
        ensures
            moved(*old(self), *final(self)),
            r is Ok ==> old(self).position() < final(self).position(),
            agrees(r, final(self).position(), binary(old(self).token_views(), lvl as int, old(self).position())),
        decreases old(self).token_views().len() - old(self).position(), 3 * lvl + 12,
    {
        proof {
            reveal(binary);
            reveal(operand);
            reveal(binary_tail);
        }
        let left = match self.operand(lvl) {
            Ok(e) => e,
            Err(e) => {
                return Err(e);
            },
        };
        self.binary_tail(lvl, left)
    }

    fn operand(&mut self, lvl: u8) -> (r: Result<Expr>)
        requires
            old(self).wf(),
            1 <= lvl <= 6,
        ensures
            moved(*old(self), *final(self)),
            r is Ok ==> old(self).position() < final(self).position(),
            agrees(r, final(self).position(), operand(old(self).token_views(), lvl as int, old(self).position())),
        decreases old(self).token_views().len() - old(self).position(), 3 * lvl + 10,
    {
        proof {
            reveal(operand);
            reveal(unary);
            reveal(binary);
        }
        if lvl == 1 {
            self.unary()
        } else {
            self.binary(lvl - 1)
        }
    }

    fn binary_tail(&mut self, lvl: u8, left: Expr) -> (r: Result<Expr>)
        requires
            old(self).wf(),
            1 <= lvl <= 6,
        ensures
            moved(*old(self), *final(self)),
            agrees(
                r,
                final(self).position(),
                binary_tail(old(self).token_views(), lvl as int, left@, old(self).position()),
            ),
        decreases old(self).token_views().len() - old(self).position(), 3 * lvl + 11,
    {
        proof {
            reveal(binary_tail);
            reveal(operand);
        }
        if self.is_at_end() || !Self::is_level_op(lvl, self.peek_kind()) {
            return Ok(left);
        }
        let op = match BinaryOp::try_from_token(self.peek_kind()) {
            Ok(op) => op,
            Err(e) => {
                return Err(e);
            },
        };
        self.advance();
        let right = match self.operand(lvl) {
            Ok(e) => e,
            Err(e) => {
                return Err(e);
            },
        };
        self.binary_tail(lvl, Expr::Binary { left: Box::new(left), operator: op, right: Box::new(right) })
    }

    fn unary(&mut self) -> (r: Result<Expr>)
        requires
            old(self).wf(),
        ensures
            moved(*old(self), *final(self)),
            r is Ok ==> old(self).position() < final(self).position(),
            agrees(r, final(self).position(), unary(old(self).token_views(), old(self).position())),
        decreases old(self).token_views().len() - old(self).position(), 8int,
    {
        proof {
            reveal(unary);
            reveal(call);
        }
        let is_op = match self.peek_kind() {
            TokenKind::Bang | TokenKind::Minus => true,
            _ => false,
        };
        if !self.is_at_end() && is_op {
            let op = match UnaryOp::try_from_token(self.peek_kind()) {
                Ok(op) => op,
                Err(e) => {
                    return Err(e);
                },
            };
            self.advance();
            let operand = match self.unary() {
                Ok(e) => e,
                Err(e) => {
                    return Err(e);
                },
            };
            return Ok(Expr::Unary { operator: op, operand: Box::new(operand) });
        }
        self.call()
    }

    fn call(&mut self) -> (r: Result<Expr>)
        requires
            old(self).wf(),
        ensures
            moved(*old(self), *final(self)),
            r is Ok ==> old(self).position() < final(self).position(),
            agrees(r, final(self).position(), call(old(self).token_views(), old(self).position())),
        decreases old(self).token_views().len() - old(self).position(), 7int,
    {
        proof {
            reveal(call);
            reveal(primary);
            reveal(call_tail);
        }
        let e = match self.primary() {
            Ok(e) => e,
            Err(e) => {
                return Err(e);
            },
        };
        self.call_tail(e)
    }

    fn call_tail(&mut self, e: Expr) -> (r: Result<Expr>)
        requires
            old(self).wf(),
        ensures
            moved(*old(self), *final(self)),
            agrees(r, final(self).position(), call_tail(old(self).token_views(), e@, old(self).position())),
        decreases old(self).token_views().len() - old(self).position(), 6int,
    {
        proof {
            reveal(call_tail);
            reveal(arguments);
            reveal(expr);
        }
        if self.check(&TokenKind::LeftParen) {
            self.advance();
            let arguments = match self.arguments(&TokenKind::RightParen) {
                Ok(a) => a,
                Err(err) => {
                    return Err(err);
                },
            };
            match self.consume(&TokenKind::RightParen, "expected ')' after arguments") {
                Ok(()) => {},
                Err(err) => {
                    return Err(err);
                },
            }
            let callee = Box::new(e);
            proof {
                lemma_call_view(callee, arguments);
            }
            self.call_tail(Expr::Call { callee, arguments })
        } else if self.check(&TokenKind::LeftBracket) {
            self.advance();
            let index = match self.expr() {
                Ok(i) => i,
                Err(err) => {
                    return Err(err);
                },
            };
            match self.consume(&TokenKind::RightBracket, "expected ']' after array index") {
                Ok(()) => {},
                Err(err) => {
                    return Err(err);
                },
            }
            self.call_tail(Expr::Index { array: Box::new(e), index: Box::new(index) })
        } else {
            Ok(e)
        }
    }

    fn primary(&mut self) -> (r: Result<Expr>)
        requires
            old(self).wf(),
        ensures
            moved(*old(self), *final(self)),
            r is Ok ==> old(self).position() < final(self).position(),
            agrees(r, final(self).position(), primary(old(self).token_views(), old(self).position())),
        decreases old(self).token_views().len() - old(self).position(), 5int,
    {
        proof {
            reveal(primary);
        }
        let ghost ts = self.token_views();
        let ghost p = self.position();
        let idx = self.current;
        let literal: Option<Expr> = match self.peek_kind() {
            TokenKind::Number(n) => Some(Expr::Number(n.clone())),
            TokenKind::String(s) => Some(Expr::String(s.clone())),
            TokenKind::Boolean(b) => Some(Expr::Boolean(*b)),
            TokenKind::Identifier(name) => Some(Expr::Variable(name.clone())),
            TokenKind::Nil => Some(Expr::Nil),
            _ => None,
        };
        let is_paren = match self.peek_kind() {
            TokenKind::LeftParen => true,
            _ => false,
        };
        let is_bracket = match self.peek_kind() {
            TokenKind::LeftBracket => true,
            _ => false,
        };
        self.advance();
        if let Some(e) = literal {
            return Ok(e);
        }
        if is_paren {
            proof {
                reveal(expr);
            }
            let e = match self.expr() {
                Ok(e) => e,
                Err(err) => {
                    return Err(err);
                },
            };
            match self.consume(&TokenKind::RightParen, "expected ')' after expression") {
                Ok(()) => {},
                Err(err) => {
                    return Err(err);
                },
            }
            Ok(e)
        } else if is_bracket {
            proof {
                reveal(arguments);
            }
            let elements = match self.arguments(&TokenKind::RightBracket) {
                Ok(a) => a,
                Err(err) => {
                    return Err(err);
                },
            };
            match self.consume(&TokenKind::RightBracket, "expected ']' after array elements") {
                Ok(()) => {},
                Err(err) => {
                    return Err(err);
                },
            }
            proof {
                lemma_array_view(elements);
            }
            Ok(Expr::Array(elements))
        } else {
            let found = self.tokens[idx].token_type.debug_string();
            let message = join2(
                "expected number, string, boolean, identifier, '(' or '[', found ",
                found.as_str(),
            );
            Err(Error::syntax(message, self.tokens[idx].location))
        }
    }

    /// Expressions separated by commas, or none when `closer` comes first.
    fn arguments(&mut self, closer: &TokenType) -> (r: Result<Vec<Expr>>)
        requires
            old(self).wf(),
        ensures
            moved(*old(self), *final(self)),
            agrees_exprs(
                r,
                final(self).position(),
                arguments(old(self).token_views(), old(self).position(), closer@),
            ),
        decreases old(self).token_views().len() - old(self).position(), 42int,
    {
        proof {
            reveal(arguments);
            reveal(expr);
            reveal(arguments_tail);
        }
        if self.check(closer) {
            let v: Vec<Expr> = Vec::new();
            proof {
                assert(exprs_view(v@) =~= Seq::<SpecExpr>::empty());
            }
            return Ok(v);
        }
        let first = match self.expr() {
            Ok(e) => e,
            Err(err) => {
                return Err(err);
            },
        };
        let mut v: Vec<Expr> = Vec::new();
        v.push(first);
        proof {
            assert(exprs_view(v@) =~= seq![first@]);
        }
        self.arguments_tail(v)
    }

    fn arguments_tail(&mut self, acc: Vec<Expr>) -> (r: Result<Vec<Expr>>)
        requires
            old(self).wf(),
        ensures
            moved(*old(self), *final(self)),
            agrees_exprs(
                r,
                final(self).position(),
                arguments_tail(old(self).token_views(), exprs_view(acc@), old(self).position()),
            ),
        decreases old(self).token_views().len() - old(self).position(), 41int,
    {
        proof {
            reveal(arguments_tail);
            reveal(expr);
        }
        if self.check(&TokenKind::Comma) {
            self.advance();
            let e = match self.expr() {
                Ok(e) => e,
                Err(err) => {
                    return Err(err);
                },
            };
            let mut acc = acc;
            let ghost before = acc@;
            acc.push(e);
            proof {
                assert(exprs_view(acc@) =~= exprs_view(before).push(e@));
            }
            self.arguments_tail(acc)
        } else {
            Ok(acc)
        }
    }
}

/// Statements.
impl Parser {
    fn parameters(&mut self) -> (r: Result<Vec<String>>)
        requires
            old(self).wf(),
        ensures
            moved(*old(self), *final(self)),
            agrees_names(r, final(self).position(), parameters(old(self).token_views(), old(self).position())),
    {
        proof {
            reveal(parameters);
        }
        let mut names: Vec<String> = Vec::new();
        if self.check(&TokenKind::RightParen) {
            proof {
                assert(names_view(names@) =~= Seq::<Seq<char>>::empty());
            }
            return Ok(names);
        }
        let first = match self.consume_identifier() {
            Ok(n) => n,
            Err(e) => {
                return Err(e);
            },
        };
        names.push(first);
        proof {
            assert(names_view(names@) =~= seq![first@]);
        }
        let ghost ts = self.token_views();
        while self.check(&TokenKind::Comma)
            invariant
                moved(*old(self), *self),
                ts == old(self).token_views(),
                parameters_tail(ts, names_view(names@), self.position()) == parameters(
                    ts,
                    old(self).position(),
                ),
            decreases ts.len() - self.position(),
        {
            proof {
                reveal(parameters_tail);
            }
            self.advance();
            let name = match self.consume_identifier() {
                Ok(n) => n,
                Err(e) => {
                    return Err(e);
                },
            };
            let ghost before = names@;
            names.push(name);
            proof {
                assert(names_view(names@) =~= names_view(before).push(name@));
            }
        }
        proof {
            reveal(parameters_tail);
        }
        Ok(names)
    }

    fn statement(&mut self) -> (r: Result<Stmt>)
        requires
            old(self).wf(),
        ensures
            moved(*old(self), *final(self)),
            r is Ok ==> old(self).position() < final(self).position(),
            agrees(r, final(self).position(), statement(old(self).token_views(), old(self).position())),
        decreases old(self).token_views().len() - old(self).position(), 5int,
    {
        proof {
            reveal(statement);
            reveal(func_decl);
            reveal(if_stmt);
            reveal(while_stmt);
            reveal(for_stmt);
            reveal(block);
        }
        let k: u8 = match self.peek_kind() {
            TokenKind::Let => 1,
            TokenKind::Fn => 2,
            TokenKind::If => 3,
            TokenKind::While => 4,
            TokenKind::For => 5,
            TokenKind::Return => 6,
            TokenKind::LeftBrace => 7,
            TokenKind::Print => 8,
            TokenKind::Break => 9,
            TokenKind::Continue => 10,
            _ => 0,
        };
        if k == 1 {
            self.var_decl()
        } else if k == 2 {
            self.func_decl()
        } else if k == 3 {
            self.if_stmt()
        } else if k == 4 {
            self.while_stmt()
        } else if k == 5 {
            self.for_stmt()
        } else if k == 6 {
            self.return_stmt()
        } else if k == 7 {
            match self.block() {
                Ok(ss) => {
                    proof {
                        lemma_block_view(ss);
                    }
                    Ok(Stmt::Block(ss))
                },
                Err(e) => Err(e),
            }
        } else if k == 8 {
            self.print_stmt()
        } else if k == 9 || k == 10 {
            self.advance();
            match self.consume_semicolon() {
                Ok(()) => {},
                Err(e) => {
                    return Err(e);
                },
            }
            if k == 9 {
                Ok(Stmt::Break)
            } else {
                Ok(Stmt::Continue)
            }
        } else {
            self.expr_stmt()
        }
    }

    fn var_decl(&mut self) -> (r: Result<Stmt>)
        requires
            old(self).wf(),
            !at_end(old(self).token_views(), old(self).position()),
        ensures
            moved(*old(self), *final(self)),
            r is Ok ==> old(self).position() < final(self).position(),
            agrees(r, final(self).position(), var_decl(old(self).token_views(), old(self).position())),
        decreases old(self).token_views().len() - old(self).position(), 4int,
    {
        proof {
            reveal(var_decl);
        }
        self.advance();
        let name = match self.consume_identifier() {
            Ok(n) => n,
            Err(e) => {
                return Err(e);
            },
        };
        let initializer = if self.check(&TokenKind::Equal) {
            self.advance();
            match self.expr() {
                Ok(e) => Some(e),
                Err(e) => {
                    return Err(e);
                },
            }
        } else {
            None
        };
        match self.consume_semicolon() {
            Ok(()) => {},
            Err(e) => {
                return Err(e);
            },
        }
        Ok(Stmt::VarDecl { name, initializer })
    }

    fn func_decl(&mut self) -> (r: Result<Stmt>)
        requires
            old(self).wf(),
            !at_end(old(self).token_views(), old(self).position()),
        ensures
            moved(*old(self), *final(self)),
            r is Ok ==> old(self).position() < final(self).position(),
            agrees(r, final(self).position(), func_decl(old(self).token_views(), old(self).position())),
        decreases old(self).token_views().len() - old(self).position(), 4int,
    {
        proof {
            reveal(func_decl);
            reveal(block);
        }
        self.advance();
        let name = match self.consume_identifier() {
            Ok(n) => n,
            Err(e) => {
                return Err(e);
            },
        };
        match self.consume(&TokenKind::LeftParen, "expected '(' after function name") {
            Ok(()) => {},
            Err(e) => {
                return Err(e);
            },
        }
        let params = match self.parameters() {
            Ok(ps) => ps,
            Err(e) => {
                return Err(e);
            },
        };
        match self.consume(&TokenKind::RightParen, "expected ')' after parameters") {
            Ok(()) => {},
            Err(e) => {
                return Err(e);
            },
        }
        let body = match self.block() {
            Ok(ss) => ss,
            Err(e) => {
                return Err(e);
            },
        };
        proof {
            lemma_func_view(name, params, body);
        }
        Ok(Stmt::FuncDecl { name, params, body })
    }

    fn else_branch(&mut self, Ghost(origin): Ghost<int>) -> (r: Result<Option<Box<Stmt>>>)
        requires
            old(self).wf(),
            origin < old(self).position(),
        ensures
            moved(*old(self), *final(self)),
            agrees_else(
                r,
                final(self).position(),
                else_branch(old(self).token_views(), old(self).position(), origin),
            ),
        decreases old(self).token_views().len() - origin, 3int,
    {
        proof {
            reveal(else_branch);
            reveal(if_stmt);
            reveal(block);
        }
        if self.check(&TokenKind::Else) {
            self.advance();
            if self.check(&TokenKind::If) {
                match self.if_stmt() {
                    Ok(s) => Ok(Some(Box::new(s))),
                    Err(e) => Err(e),
                }
            } else {
                match self.block() {
                    Ok(ss) => {
                        proof {
                            lemma_block_view(ss);
                        }
                        Ok(Some(Box::new(Stmt::Block(ss))))
                    },
                    Err(e) => Err(e),
                }
            }
        } else {
            Ok(None)
        }
    }

    fn if_stmt(&mut self) -> (r: Result<Stmt>)
        requires
            old(self).wf(),
            !at_end(old(self).token_views(), old(self).position()),
        ensures
            moved(*old(self), *final(self)),
            r is Ok ==> old(self).position() < final(self).position(),
            agrees(r, final(self).position(), if_stmt(old(self).token_views(), old(self).position())),
        decreases old(self).token_views().len() - old(self).position(), 4int,
    {
        proof {
            reveal(if_stmt);
            reveal(block);
            reveal(else_branch);
        }
        let ghost p = self.position();
        self.advance();
        let condition = match self.expr() {
            Ok(e) => e,
            Err(e) => {
                return Err(e);
            },
        };
        let then_ss = match self.block() {
            Ok(ss) => ss,
            Err(e) => {
                return Err(e);
            },
        };
        proof {
            lemma_block_view(then_ss);
        }
        let else_b = match self.else_branch(Ghost(p)) {
            Ok(b) => b,
            Err(e) => {
                return Err(e);
            },
        };
        Ok(Stmt::If { condition, then_branch: Box::new(Stmt::Block(then_ss)), else_branch: else_b })
    }

    fn while_stmt(&mut self) -> (r: Result<Stmt>)
        requires
            old(self).wf(),
            !at_end(old(self).token_views(), old(self).position()),
        ensures
            moved(*old(self), *final(self)),
            r is Ok ==> old(self).position() < final(self).position(),
            agrees(r, final(self).position(), while_stmt(old(self).token_views(), old(self).position())),
        decreases old(self).token_views().len() - old(self).position(), 4int,
    {
        proof {
            reveal(while_stmt);
            reveal(block);
        }
        self.advance();
        let condition = match self.expr() {
            Ok(e) => e,
            Err(e) => {
                return Err(e);
            },
        };
        let body = match self.block() {
            Ok(ss) => ss,
            Err(e) => {
                return Err(e);
            },
        };
        proof {
            lemma_block_view(body);
        }
        Ok(Stmt::While { condition, body: Box::new(Stmt::Block(body)) })
    }

    fn for_init(&mut self, Ghost(origin): Ghost<int>) -> (r: Result<Option<Stmt>>)
        requires
            old(self).wf(),
            origin < old(self).position(),
        ensures
            moved(*old(self), *final(self)),
            agrees_opt_stmt(
                r,
                final(self).position(),
                for_init(old(self).token_views(), old(self).position(), origin),
            ),
        decreases old(self).token_views().len() - origin, 3int,
    {
        proof {
            reveal(for_init);
        }
        let k: u8 = match self.peek_kind() {
            TokenKind::Let => 1,
            TokenKind::Semicolon => 2,
            _ => 0,
        };
        if k == 1 {
            match self.var_decl() {
                Ok(s) => Ok(Some(s)),
                Err(e) => Err(e),
            }
        } else if k == 2 {
            self.advance();
            Ok(None)
        } else {
            match self.expr_stmt() {
                Ok(s) => Ok(Some(s)),
                Err(e) => Err(e),
            }
        }
    }

    fn for_stmt(&mut self) -> (r: Result<Stmt>)
        requires
            old(self).wf(),
            !at_end(old(self).token_views(), old(self).position()),
        ensures
            moved(*old(self), *final(self)),
            r is Ok ==> old(self).position() < final(self).position(),
            agrees(r, final(self).position(), for_stmt(old(self).token_views(), old(self).position())),
        decreases old(self).token_views().len() - old(self).position(), 4int,
    {
        proof {
            reveal(for_stmt);
            reveal(block);
        }
        let ghost p = self.position();
        self.advance();
        let initializer = match self.for_init(Ghost(p)) {
            Ok(i) => i,
            Err(e) => {
                return Err(e);
            },
        };
        let condition = if !self.check(&TokenKind::Semicolon) {
            match self.expr() {
                Ok(c) => c,
                Err(e) => {
                    return Err(e);
                },
            }
        } else {
            Expr::Boolean(true)
        };
        match self.consume(&TokenKind::Semicolon, "expect ';' after loop condition") {
            Ok(()) => {},
            Err(e) => {
                return Err(e);
            },
        }
        let increment = if !self.check(&TokenKind::LeftBrace) {
            match self.expr() {
                Ok(i) => Some(i),
                Err(e) => {
                    return Err(e);
                },
            }
        } else {
            None
        };
        let body = match self.block() {
            Ok(ss) => ss,
            Err(e) => {
                return Err(e);
            },
        };
        proof {
            lemma_block_view(body);
        }
        let body_block = Stmt::Block(body);
        let body_with_inc = match increment {
            Some(inc) => {
                let mut v: Vec<Stmt> = Vec::new();
                v.push(body_block);
                v.push(Stmt::Expression(inc));
                proof {
                    lemma_block_view(v);
                    assert(stmts_view(v@) =~= seq![body_block@, Stmt::Expression(inc)@]);
                }
                Stmt::Block(v)
            },
            None => body_block,
        };
        let while_loop = Stmt::While { condition, body: Box::new(body_with_inc) };
        match initializer {
            Some(init) => {
                let mut v: Vec<Stmt> = Vec::new();
                v.push(init);
                v.push(while_loop);
                proof {
                    lemma_block_view(v);
                    assert(stmts_view(v@) =~= seq![init@, while_loop@]);
                }
                Ok(Stmt::Block(v))
            },
            None => Ok(while_loop),
        }
    }

    fn return_stmt(&mut self) -> (r: Result<Stmt>)
        requires
            old(self).wf(),
            !at_end(old(self).token_views(), old(self).position()),
        ensures
            moved(*old(self), *final(self)),
            r is Ok ==> old(self).position() < final(self).position(),
            agrees(r, final(self).position(), return_stmt(old(self).token_views(), old(self).position())),
        decreases old(self).token_views().len() - old(self).position(), 4int,
    {
        proof {
            reveal(return_stmt);
        }
        self.advance();
        let value = if !self.check(&TokenKind::Semicolon) {
            match self.expr() {
                Ok(v) => Some(v),
                Err(e) => {
                    return Err(e);
                },
            }
        } else {
            None
        };
        match self.consume_semicolon() {
            Ok(()) => {},
            Err(e) => {
                return Err(e);
            },
        }
        Ok(Stmt::Return { value })
    }

    fn print_stmt(&mut self) -> (r: Result<Stmt>)
        requires
            old(self).wf(),
            !at_end(old(self).token_views(), old(self).position()),
        ensures
            moved(*old(self), *final(self)),
            r is Ok ==> old(self).position() < final(self).position(),
            agrees(r, final(self).position(), print_stmt(old(self).token_views(), old(self).position())),
        decreases old(self).token_views().len() - old(self).position(), 4int,
    {
        proof {
            reveal(print_stmt);
        }
        self.advance();
        let exprs = match self.arguments(&TokenKind::Semicolon) {
            Ok(a) => a,
            Err(e) => {
                return Err(e);
            },
        };
        match self.consume_semicolon() {
            Ok(()) => {},
            Err(e) => {
                return Err(e);
            },
        }
        proof {
            let s = Stmt::Print(exprs);
            assert(s@ matches SpecStmt::Print(v) && v =~= exprs_view(exprs@));
        }
        Ok(Stmt::Print(exprs))
    }

    fn expr_stmt(&mut self) -> (r: Result<Stmt>)
        requires
            old(self).wf(),
        ensures
            moved(*old(self), *final(self)),
            r is Ok ==> old(self).position() < final(self).position(),
            agrees(r, final(self).position(), expr_stmt(old(self).token_views(), old(self).position())),
        decreases old(self).token_views().len() - old(self).position(), 4int,
    {
        proof {
            reveal(expr_stmt);
        }
        let e = match self.expr() {
            Ok(e) => e,
            Err(err) => {
                return Err(err);
            },
        };
        match self.consume_semicolon() {
            Ok(()) => {},
            Err(err) => {
                return Err(err);
            },
        }
        Ok(Stmt::Expression(e))
    }

    /// The statements of a block, braces included.
    fn block(&mut self) -> (r: Result<Vec<Stmt>>)
        requires
            old(self).wf(),
        ensures
            moved(*old(self), *final(self)),
            r is Ok ==> old(self).position() < final(self).position(),
            agrees_stmts(r, final(self).position(), block(old(self).token_views(), old(self).position())),
        decreases old(self).token_views().len() - old(self).position(), 3int,
    {
        proof {
            reveal(block);
            reveal(block_tail);
        }
        match self.consume(&TokenKind::LeftBrace, "expected '{' at start of block") {
            Ok(()) => {},
            Err(e) => {
                return Err(e);
            },
        }
        let mut statements: Vec<Stmt> = Vec::new();
        proof {
            assert(stmts_view(statements@) =~= Seq::<SpecStmt>::empty());
        }
        self.block_tail(statements)
    }

    fn block_tail(&mut self, acc: Vec<Stmt>) -> (r: Result<Vec<Stmt>>)
        requires
            old(self).wf(),
        ensures
            moved(*old(self), *final(self)),
            agrees_stmts(
                r,
                final(self).position(),
                block_tail(old(self).token_views(), stmts_view(acc@), old(self).position()),
            ),
        decreases old(self).token_views().len() - old(self).position(), 6int,
    {
        proof {
            reveal(block_tail);
            reveal(statement);
        }
        if !self.check(&TokenKind::RightBrace) {
            let s = match self.statement() {
                Ok(s) => s,
                Err(e) => {
                    return Err(e);
                },
            };
            let mut acc = acc;
            let ghost before = acc@;
            acc.push(s);
            proof {
                assert(stmts_view(acc@) =~= stmts_view(before).push(s@));
            }
            self.block_tail(acc)
        } else {
            match self.consume(&TokenKind::RightBrace, "expected '}' at end of block") {
                Ok(()) => Ok(acc),
                Err(e) => Err(e),
            }
        }
    }
}

} // verus!
