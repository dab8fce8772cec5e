//! Expressions of the language.
use crate::error::{plain, Error, ErrorType, Result};
use crate::lexer::token::{debug_text, SpecTokenType, TokenKind, TokenType};
use crate::text::join2;
use vstd::prelude::*;
use vstd::string::*;

verus! {

/// An expression. A number literal keeps the digits it was written with.
#[derive(Debug, PartialEq)]
pub enum Expr {
    // Literals
    Number(String),
    String(String),
    Boolean(bool),
    Variable(String),
    Array(Vec<Expr>),
    Nil,

    // Expressions
    Binary { left: Box<Expr>, operator: BinaryOp, right: Box<Expr> },
    Unary { operator: UnaryOp, operand: Box<Expr> },
    Assign { name: String, value: Box<Expr> },
    IndexAssign { array: Box<Expr>, index: Box<Expr>, value: Box<Expr> },
    Index { array: Box<Expr>, index: Box<Expr> },
    Call { callee: Box<Expr>, arguments: Vec<Expr> },
}

/// An expression with its texts as character sequences.
pub enum SpecExpr {
    Number(Seq<char>),
    String(Seq<char>),
    Boolean(bool),
    Variable(Seq<char>),
    Array(Seq<SpecExpr>),
    Nil,
    Binary { left: Box<SpecExpr>, operator: BinaryOp, right: Box<SpecExpr> },
    Unary { operator: UnaryOp, operand: Box<SpecExpr> },
    Assign { name: Seq<char>, value: Box<SpecExpr> },
    IndexAssign { array: Box<SpecExpr>, index: Box<SpecExpr>, value: Box<SpecExpr> },
    Index { array: Box<SpecExpr>, index: Box<SpecExpr> },
    Call { callee: Box<SpecExpr>, arguments: Seq<SpecExpr> },
}

pub open spec fn expr_view(e: &Expr) -> SpecExpr
    decreases e,
{
    match e {
        Expr::Number(s) => SpecExpr::Number(s@),
        Expr::String(s) => SpecExpr::String(s@),
        Expr::Boolean(b) => SpecExpr::Boolean(*b),
        Expr::Variable(s) => SpecExpr::Variable(s@),
        Expr::Array(es) => SpecExpr::Array(
            Seq::new(
                es@.len(),
                |i: int|
                    if 0 <= i < es@.len() {
                        expr_view(&es@[i])
                    } else {
                        SpecExpr::Nil
                    },
            ),
        ),
        Expr::Nil => SpecExpr::Nil,
        Expr::Binary { left, operator, right } => SpecExpr::Binary {
            left: Box::new(expr_view(left)),
            operator: *operator,
            right: Box::new(expr_view(right)),
        },
        Expr::Unary { operator, operand } => SpecExpr::Unary {
            operator: *operator,
            operand: Box::new(expr_view(operand)),
        },
        Expr::Assign { name, value } => SpecExpr::Assign {
            name: name@,
            value: Box::new(expr_view(value)),
        },
        Expr::IndexAssign { array, index, value } => SpecExpr::IndexAssign {
            array: Box::new(expr_view(array)),
            index: Box::new(expr_view(index)),
            value: Box::new(expr_view(value)),
        },
        Expr::Index { array, index } => SpecExpr::Index {
            array: Box::new(expr_view(array)),
            index: Box::new(expr_view(index)),
        },
        Expr::Call { callee, arguments } => SpecExpr::Call {
            callee: Box::new(expr_view(callee)),
            arguments: Seq::new(
                arguments@.len(),
                |i: int|
                    if 0 <= i < arguments@.len() {
                        expr_view(&arguments@[i])
                    } else {
                        SpecExpr::Nil
                    },
            ),
        },
    }
}

impl View for Expr {
    type V = SpecExpr;

    open spec fn view(&self) -> SpecExpr {
        expr_view(self)
    }
}

/// The views of a sequence of expressions.
pub open spec fn exprs_view(es: Seq<Expr>) -> Seq<SpecExpr> {
    Seq::new(es.len(), |i: int| es[i]@)
}

pub proof fn lemma_array_view(es: Vec<Expr>)
    ensures
        (Expr::Array(es))@ == SpecExpr::Array(exprs_view(es@)),
{
    let e = Expr::Array(es);
    assert(expr_view(&e) matches SpecExpr::Array(s) && s =~= exprs_view(es@));
}

pub proof fn lemma_call_view(callee: Box<Expr>, arguments: Vec<Expr>)
    ensures
        (Expr::Call { callee, arguments })@ == (SpecExpr::Call {
            callee: Box::new(callee@),
            arguments: exprs_view(arguments@),
        }),
{
    let e = Expr::Call { callee, arguments };
    assert(expr_view(&e) matches SpecExpr::Call { callee: c, arguments: s } && s =~= exprs_view(
        arguments@,
    ));
}

impl Clone for Expr {
    /// A deep copy.
    fn clone(&self) -> (r: Expr)
        ensures
            r@ == self@,
        decreases self,
    {
        match self {
            Expr::Number(s) => Expr::Number(s.clone()),
            Expr::String(s) => Expr::String(s.clone()),
            Expr::Boolean(b) => Expr::Boolean(*b),
            Expr::Variable(s) => Expr::Variable(s.clone()),
            Expr::Array(es) => {
                let r = clone_exprs(es);
                proof {
                    lemma_array_view(r);
                    lemma_array_view(*es);
                }
                Expr::Array(r)
            },
            Expr::Nil => Expr::Nil,
            Expr::Binary { left, operator, right } => Expr::Binary {
                left: Box::new((**left).clone()),
                operator: *operator,
                right: Box::new((**right).clone()),
            },
            Expr::Unary { operator, operand } => Expr::Unary {
                operator: *operator,
                operand: Box::new((**operand).clone()),
            },
            Expr::Assign { name, value } => Expr::Assign {
                name: name.clone(),
                value: Box::new((**value).clone()),
            },
            Expr::IndexAssign { array, index, value } => Expr::IndexAssign {
                array: Box::new((**array).clone()),
                index: Box::new((**index).clone()),
                value: Box::new((**value).clone()),
            },
            Expr::Index { array, index } => Expr::Index {
                array: Box::new((**array).clone()),
                index: Box::new((**index).clone()),
            },
            Expr::Call { callee, arguments } => {
                let c = Box::new((**callee).clone());
                let a = clone_exprs(arguments);
                proof {
                    lemma_call_view(c, a);
                    lemma_call_view(*callee, *arguments);
                }
                Expr::Call { callee: c, arguments: a }
            },
        }
    }
}

/// A deep copy of a list of expressions.
pub fn clone_exprs(v: &Vec<Expr>) -> (r: Vec<Expr>)
    ensures
        exprs_view(r@) == exprs_view(v@),
    decreases v,
{
    let mut out: Vec<Expr> = Vec::new();
    let mut i: usize = 0;
    while i < v.len()
        invariant
            i <= v@.len(),
            out@.len() == i,
            forall|k: int| 0 <= k < i ==> out@[k]@ == v@[k]@,
        decreases v@.len() - i,
    {
        proof {
            assert(decreases_to!(v => v@[i as int]));
        }
        let e = v[i].clone();
        out.push(e);
        i = i + 1;
    }
    assert(exprs_view(out@) =~= exprs_view(v@));
    out
}

#[derive(Debug, Clone, Copy, PartialEq, Eq, Structural)]
pub enum BinaryOp {
    Add,
    Subtract,
    Multiply,
    Divide,
    Equal,
    NotEqual,
    LessThan,
    LessEqual,
    GreaterThan,
    GreaterEqual,
    LogicalAnd,
    LogicalOr,
}

/// The binary operator a token stands for, if any.
pub open spec fn binary_op_of(t: SpecTokenType) -> Option<BinaryOp> {
    match t {
        TokenKind::Plus => Some(BinaryOp::Add),
        TokenKind::Minus => Some(BinaryOp::Subtract),
        TokenKind::Star => Some(BinaryOp::Multiply),
        TokenKind::Slash => Some(BinaryOp::Divide),
        TokenKind::EqualEqual => Some(BinaryOp::Equal),
        TokenKind::BangEqual => Some(BinaryOp::NotEqual),
        TokenKind::LessThan => Some(BinaryOp::LessThan),
        TokenKind::LessEqual => Some(BinaryOp::LessEqual),
        TokenKind::GreaterThan => Some(BinaryOp::GreaterThan),
        TokenKind::GreaterEqual => Some(BinaryOp::GreaterEqual),
        TokenKind::And => Some(BinaryOp::LogicalAnd),
        TokenKind::Or => Some(BinaryOp::LogicalOr),
        _ => None,
    }
}

impl BinaryOp {
    /// The operator's name, as `{:?}` writes it.
    pub open spec fn spec_name(self) -> Seq<char> {
        match self {
            BinaryOp::Add => "Add"@,
            BinaryOp::Subtract => "Subtract"@,
            BinaryOp::Multiply => "Multiply"@,
            BinaryOp::Divide => "Divide"@,
            BinaryOp::Equal => "Equal"@,
            BinaryOp::NotEqual => "NotEqual"@,
            BinaryOp::LessThan => "LessThan"@,
            BinaryOp::LessEqual => "LessEqual"@,
            BinaryOp::GreaterThan => "GreaterThan"@,
            BinaryOp::GreaterEqual => "GreaterEqual"@,
            BinaryOp::LogicalAnd => "LogicalAnd"@,
            BinaryOp::LogicalOr => "LogicalOr"@,
        }
    }

    /// How the operator is written.
    pub open spec fn spec_symbol(self) -> Seq<char> {
        match self {
            BinaryOp::Add => "+"@,
            BinaryOp::Subtract => "-"@,
            BinaryOp::Multiply => "*"@,
            BinaryOp::Divide => "/"@,
            BinaryOp::Equal => "=="@,
            BinaryOp::NotEqual => "!="@,
            BinaryOp::LessThan => "<"@,
            BinaryOp::LessEqual => "<="@,
            BinaryOp::GreaterThan => ">"@,
            BinaryOp::GreaterEqual => ">="@,
            BinaryOp::LogicalAnd => "and"@,
            BinaryOp::LogicalOr => "or"@,
        }
    }

    /// How the operator is written (its `Display`).
    pub fn symbol(&self) -> (s: &'static str)
        ensures
            s@ == self.spec_symbol(),
    {
        match self {
            BinaryOp::Add => "+",
            BinaryOp::Subtract => "-",
            BinaryOp::Multiply => "*",
            BinaryOp::Divide => "/",
            BinaryOp::Equal => "==",
            BinaryOp::NotEqual => "!=",
            BinaryOp::LessThan => "<",
            BinaryOp::LessEqual => "<=",
            BinaryOp::GreaterThan => ">",
            BinaryOp::GreaterEqual => ">=",
            BinaryOp::LogicalAnd => "and",
            BinaryOp::LogicalOr => "or",
        }
    }

    /// The operator a token stands for; an internal error for any other token.
    pub fn try_from_token(token: &TokenType) -> (r: Result<BinaryOp>)
        ensures
            match binary_op_of(token@) {
                Some(op) => r == Ok::<BinaryOp, Error>(op),
                None => r matches Err(e) && plain(
                    e,
                    ErrorType::Internal,
                    "invalid token type for binary operator: "@ + debug_text(token@),
                ),
            },
    {
        match token {
            TokenKind::Plus => Ok(BinaryOp::Add),
            TokenKind::Minus => Ok(BinaryOp::Subtract),
            TokenKind::Star => Ok(BinaryOp::Multiply),
            TokenKind::Slash => Ok(BinaryOp::Divide),
            TokenKind::EqualEqual => Ok(BinaryOp::Equal),
            TokenKind::BangEqual => Ok(BinaryOp::NotEqual),
            TokenKind::LessThan => Ok(BinaryOp::LessThan),
            TokenKind::LessEqual => Ok(BinaryOp::LessEqual),
            TokenKind::GreaterThan => Ok(BinaryOp::GreaterThan),
            TokenKind::GreaterEqual => Ok(BinaryOp::GreaterEqual),
            TokenKind::And => Ok(BinaryOp::LogicalAnd),
            TokenKind::Or => Ok(BinaryOp::LogicalOr),
            _ => {
                let text = token.debug_string();
                Err(Error::internal(join2("invalid token type for binary operator: ", text.as_str())))
            },
        }
    }
}

#[derive(Debug, Clone, Copy, PartialEq, Eq, Structural)]
pub enum UnaryOp {
    Negate,
    Not,
}

/// The unary operator a token stands for, if any.
pub open spec fn unary_op_of(t: SpecTokenType) -> Option<UnaryOp> {
    match t {
        TokenKind::Minus => Some(UnaryOp::Negate),
        TokenKind::Bang => Some(UnaryOp::Not),
        _ => None,
    }
}

impl UnaryOp {
    pub open spec fn spec_symbol(self) -> Seq<char> {
        match self {
            UnaryOp::Negate => "-"@,
            UnaryOp::Not => "!"@,
        }
    }

    /// How the operator is written (its `Display`).
    pub fn symbol(&self) -> (s: &'static str)
        ensures
            s@ == self.spec_symbol(),
    {
        match self {
            UnaryOp::Negate => "-",
            UnaryOp::Not => "!",
        }
    }

    /// The operator a token stands for; an internal error for any other token.
    pub fn try_from_token(token: &TokenType) -> (r: Result<UnaryOp>)
        ensures
            match unary_op_of(token@) {
                Some(op) => r == Ok::<UnaryOp, Error>(op),
                None => r matches Err(e) && plain(
                    e,
                    ErrorType::Internal,
                    "invalid token type for unary operator: "@ + debug_text(token@),
                ),
            },
    {
        match token {
            TokenKind::Minus => Ok(UnaryOp::Negate),
            TokenKind::Bang => Ok(UnaryOp::Not),
            _ => {
                let text = token.debug_string();
                Err(Error::internal(join2("invalid token type for unary operator: ", text.as_str())))
            },
        }
    }
}

} // verus!
