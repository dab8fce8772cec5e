//! Statements of the language.
use super::expr::{clone_exprs, exprs_view, Expr, SpecExpr};
use vstd::prelude::*;

verus! {

#[derive(Debug, PartialEq)]
pub enum Stmt {
    // Declarations
    VarDecl { name: String, initializer: Option<Expr> },
    FuncDecl { name: String, params: Vec<String>, body: Vec<Stmt> },
    // Statements
    Expression(Expr),
    Print(Vec<Expr>),
    Block(Vec<Stmt>),
    If { condition: Expr, then_branch: Box<Stmt>, else_branch: Option<Box<Stmt>> },
    While { condition: Expr, body: Box<Stmt> },
    Break,
    Continue,
    Return { value: Option<Expr> },
}

/// A statement with its texts as character sequences.
pub enum SpecStmt {
    VarDecl { name: Seq<char>, initializer: Option<SpecExpr> },
    FuncDecl { name: Seq<char>, params: Seq<Seq<char>>, body: Seq<SpecStmt> },
    Expression(SpecExpr),
    Print(Seq<SpecExpr>),
    Block(Seq<SpecStmt>),
    If { condition: SpecExpr, then_branch: Box<SpecStmt>, else_branch: Option<Box<SpecStmt>> },
    While { condition: SpecExpr, body: Box<SpecStmt> },
    Break,
    Continue,
    Return { value: Option<SpecExpr> },
}

pub open spec fn opt_expr_view(e: Option<Expr>) -> Option<SpecExpr> {
    match e {
        Some(x) => Some(x@),
        None => None,
    }
}

pub open spec fn names_view(names: Seq<String>) -> Seq<Seq<char>> {
    Seq::new(names.len(), |i: int| names[i]@)
}

pub open spec fn stmt_view(s: &Stmt) -> SpecStmt
    decreases s,
{
    match s {
        Stmt::VarDecl { name, initializer } => SpecStmt::VarDecl {
            name: name@,
            initializer: opt_expr_view(*initializer),
        },
        Stmt::FuncDecl { name, params, body } => SpecStmt::FuncDecl {
            name: name@,
            params: names_view(params@),
            body: Seq::new(
                body@.len(),
                |i: int|
                    if 0 <= i < body@.len() {
                        stmt_view(&body@[i])
                    } else {
                        SpecStmt::Break
                    },
            ),
        },
        Stmt::Expression(e) => SpecStmt::Expression(e@),
        Stmt::Print(es) => SpecStmt::Print(Seq::new(es@.len(), |i: int| es@[i]@)),
        Stmt::Block(ss) => SpecStmt::Block(
            Seq::new(
                ss@.len(),
                |i: int|
                    if 0 <= i < ss@.len() {
                        stmt_view(&ss@[i])
                    } else {
                        SpecStmt::Break
                    },
            ),
        ),
        Stmt::If { condition, then_branch, else_branch } => SpecStmt::If {
            condition: condition@,
            then_branch: Box::new(stmt_view(then_branch)),
            else_branch: match else_branch {
                Some(b) => Some(Box::new(stmt_view(b))),
                None => None,
            },
        },
        Stmt::While { condition, body } => SpecStmt::While {
            condition: condition@,
            body: Box::new(stmt_view(body)),
        },
        Stmt::Break => SpecStmt::Break,
        Stmt::Continue => SpecStmt::Continue,
        Stmt::Return { value } => SpecStmt::Return { value: opt_expr_view(*value) },
    }
}

impl View for Stmt {
    type V = SpecStmt;

    open spec fn view(&self) -> SpecStmt {
        stmt_view(self)
    }
}

impl Clone for Stmt {
    /// A deep copy.
    fn clone(&self) -> (r: Stmt)
        ensures
            r@ == self@,
        decreases self,
    {
        match self {
            Stmt::VarDecl { name, initializer } => Stmt::VarDecl {
                name: name.clone(),
                initializer: match initializer {
                    Some(e) => Some(e.clone()),
                    None => None,
                },
            },
            Stmt::FuncDecl { name, params, body } => {
                let n = name.clone();
                let p = clone_names(params);
                let b = clone_stmts(body);
                proof {
                    lemma_func_view(n, p, b);
                    lemma_func_view(*name, *params, *body);
                }
                Stmt::FuncDecl { name: n, params: p, body: b }
            },
            Stmt::Expression(e) => Stmt::Expression(e.clone()),
            Stmt::Print(es) => {
                let c = clone_exprs(es);
                assert(exprs_view(c@) == exprs_view(es@));
                assert(Seq::new(c@.len(), |i: int| c@[i]@) =~= Seq::new(es@.len(), |i: int| es@[i]@));
                Stmt::Print(c)
            },
            Stmt::Block(ss) => {
                let c = clone_stmts(ss);
                proof {
                    lemma_block_view(c);
                    lemma_block_view(*ss);
                }
                Stmt::Block(c)
            },
            Stmt::If { condition, then_branch, else_branch } => Stmt::If {
                condition: condition.clone(),
                then_branch: Box::new((**then_branch).clone()),
                else_branch: match else_branch {
                    Some(b) => Some(Box::new((**b).clone())),
                    None => None,
                },
            },
            Stmt::While { condition, body } => Stmt::While {
                condition: condition.clone(),
                body: Box::new((**body).clone()),
            },
            Stmt::Break => Stmt::Break,
            Stmt::Continue => Stmt::Continue,
            Stmt::Return { value } => Stmt::Return {
                value: match value {
                    Some(e) => Some(e.clone()),
                    None => None,
                },
            },
        }
    }
}

/// A deep copy of a list of statements.
pub fn clone_stmts(v: &Vec<Stmt>) -> (r: Vec<Stmt>)
    ensures
        stmts_view(r@) == stmts_view(v@),
    decreases v,
{
    let mut out: Vec<Stmt> = Vec::new();
    let mut i: usize = 0;
    while i < v.len()
        invariant
            i <= v@.len(),
            out@.len() == i,
            forall|k: int| 0 <= k < i ==> out@[k]@ == v@[k]@,
        decreases v@.len() - i,
    {
        proof {
            assert(decreases_to!(v => v@[i as int]));
        }
        let s = v[i].clone();
        out.push(s);
        i = i + 1;
    }
    assert(stmts_view(out@) =~= stmts_view(v@));
    out
}

/// A copy of a list of names.
pub fn clone_names(v: &Vec<String>) -> (r: Vec<String>)
    ensures
        names_view(r@) == names_view(v@),
{
    let mut out: Vec<String> = Vec::new();
    let mut i: usize = 0;
    while i < v.len()
        invariant
            i <= v@.len(),
            out@.len() == i,
            forall|k: int| 0 <= k < i ==> out@[k]@ == v@[k]@,
        decreases v@.len() - i,
    {
        out.push(v[i].clone());
        i = i + 1;
    }
    assert(names_view(out@) =~= names_view(v@));
    out
}

/// The views of a sequence of statements.
pub open spec fn stmts_view(ss: Seq<Stmt>) -> Seq<SpecStmt> {
    Seq::new(ss.len(), |i: int| ss[i]@)
}

pub proof fn lemma_block_view(ss: Vec<Stmt>)
    ensures
        (Stmt::Block(ss))@ == SpecStmt::Block(stmts_view(ss@)),
{
    let s = Stmt::Block(ss);
    assert(stmt_view(&s) matches SpecStmt::Block(v) && v =~= stmts_view(ss@));
}

pub proof fn lemma_func_view(name: String, params: Vec<String>, body: Vec<Stmt>)
    ensures
        (Stmt::FuncDecl { name, params, body })@ == (SpecStmt::FuncDecl {
            name: name@,
            params: names_view(params@),
            body: stmts_view(body@),
        }),
{
    let s = Stmt::FuncDecl { name, params, body };
    assert(stmt_view(&s) matches SpecStmt::FuncDecl { name: n, params: p, body: b } && b
        =~= stmts_view(body@));
}

} // verus!
