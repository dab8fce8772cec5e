//! The syntax tree of the typed front end: expressions and statements with
//! optional type annotations, and the types the semantic checks work with.
use vstd::prelude::*;
use vstd::string::*;

verus! {

/// A type of the typed front end. `Any` is compatible with every type.
#[derive(Debug)]
pub enum DataType {
    Any,
    Number,
    String,
    Boolean,
    Array(Box<DataType>),
    /// The parameter types and the return type.
    Function(Vec<DataType>, Box<DataType>),
    Void,
}

/// A type, with the parameter list of a function type as a sequence.
pub enum Ty {
    Any,
    Number,
    String,
    Boolean,
    Array(Box<Ty>),
    Function(Seq<Ty>, Box<Ty>),
    Void,
}

pub open spec fn ty_of(t: &DataType) -> Ty
    decreases t,
{
    match t {
        DataType::Any => Ty::Any,
        DataType::Number => Ty::Number,
        DataType::String => Ty::String,
        DataType::Boolean => Ty::Boolean,
        DataType::Array(e) => Ty::Array(Box::new(ty_of(e))),
        DataType::Function(ps, r) => Ty::Function(
            Seq::new(ps@.len(), |i: int| if 0 <= i < ps@.len() { ty_of(&ps@[i]) } else { Ty::Any }),
            Box::new(ty_of(r)),
        ),
        DataType::Void => Ty::Void,
    }
}

impl View for DataType {
    type V = Ty;

    open spec fn view(&self) -> Ty {
        ty_of(self)
    }
}

pub open spec fn tys_of(ts: Seq<DataType>) -> Seq<Ty> {
    Seq::new(ts.len(), |i: int| ts[i]@)
}

pub proof fn lemma_function_view(ps: Vec<DataType>, r: Box<DataType>)
    ensures
        (DataType::Function(ps, r))@ == Ty::Function(tys_of(ps@), Box::new((*r)@)),
{
    let t = DataType::Function(ps, r);
    assert(ty_of(&t) matches Ty::Function(s, _) && s =~= tys_of(ps@));
}

/// Whether two types are compatible (the `==` of types): `Any` matches every
/// type, arrays and functions match part by part, other types match
/// themselves.
pub open spec fn compatible(a: Ty, b: Ty) -> bool
    decreases a, 1int,
{
    if a is Any || b is Any {
        true
    } else {
        match a {
            Ty::Array(x) => match b {
                Ty::Array(y) => compatible(*x, *y),
                _ => false,
            },
            Ty::Function(pa, ra) => match b {
                Ty::Function(pb, rb) => pa.len() == pb.len() && all_compatible(pa, pb, 0)
                    && compatible(*ra, *rb),
                _ => false,
            },
            Ty::Number => b is Number,
            Ty::String => b is String,
            Ty::Boolean => b is Boolean,
            Ty::Void => b is Void,
            Ty::Any => true,
        }
    }
}

/// `pa[i..]` and `pb[i..]` are compatible element by element.
pub open spec fn all_compatible(pa: Seq<Ty>, pb: Seq<Ty>, i: int) -> bool
    decreases pa, pa.len() - i,
{
    if i < 0 || i >= pa.len() {
        true
    } else {
        compatible(pa[i], pb[i]) && all_compatible(pa, pb, i + 1)
    }
}

/// `t` mentions no `Any`, at any depth.
pub open spec fn free_of_any(t: Ty) -> bool
    decreases t, 1int,
{
    match t {
        Ty::Any => false,
        Ty::Array(x) => free_of_any(*x),
        Ty::Function(ps, r) => all_free_of_any(ps, 0) && free_of_any(*r),
        _ => true,
    }
}

/// No type of `ts[i..]` mentions `Any`.
pub open spec fn all_free_of_any(ts: Seq<Ty>, i: int) -> bool
    decreases ts, ts.len() - i,
{
    if i < 0 || i >= ts.len() {
        true
    } else {
        free_of_any(ts[i]) && all_free_of_any(ts, i + 1)
    }
}

/// Between types that mention no `Any`, compatibility is equality: an array
/// of numbers is compatible with an array of strings no more than a number is
/// with a string, and a function type only with the same function type.
pub proof fn lemma_compatible_without_any(a: Ty, b: Ty)
    requires
        free_of_any(a),
        free_of_any(b),
    ensures
        compatible(a, b) <==> a == b,
    decreases a, 1int,
{
    match a {
        Ty::Array(x) => {
            if let Ty::Array(y) = b {
                lemma_compatible_without_any(*x, *y);
            }
        },
        Ty::Function(pa, ra) => {
            if let Ty::Function(pb, rb) = b {
                lemma_compatible_without_any(*ra, *rb);
                if pa.len() == pb.len() {
                    lemma_all_compatible_without_any(pa, pb, 0);
                    assert(pa.subrange(0, pa.len() as int) =~= pa);
                    assert(pb.subrange(0, pb.len() as int) =~= pb);
                }
            }
        },
        _ => {},
    }
}

proof fn lemma_all_compatible_without_any(pa: Seq<Ty>, pb: Seq<Ty>, i: int)
    requires
        0 <= i <= pa.len(),
        pa.len() == pb.len(),
        all_free_of_any(pa, i),
        all_free_of_any(pb, i),
    ensures
        all_compatible(pa, pb, i) <==> pa.subrange(i, pa.len() as int) == pb.subrange(i, pb.len() as int),
    decreases pa, pa.len() - i,
{
    if i < pa.len() {
        lemma_compatible_without_any(pa[i], pb[i]);
        lemma_all_compatible_without_any(pa, pb, i + 1);
        let sa = pa.subrange(i, pa.len() as int);
        let sb = pb.subrange(i, pb.len() as int);
        let ta = pa.subrange(i + 1, pa.len() as int);
        let tb = pb.subrange(i + 1, pb.len() as int);
        assert(sa =~= seq![pa[i]] + ta);
        assert(sb =~= seq![pb[i]] + tb);
        if sa == sb {
            assert(sa[0] == sb[0]);
            assert(ta =~= sa.subrange(1, sa.len() as int));
            assert(tb =~= sb.subrange(1, sb.len() as int));
        }
    } else {
        assert(pa.subrange(i, pa.len() as int) =~= pb.subrange(i, pb.len() as int));
    }
}

/// Compatibility never holds between an array type and a type of another
/// kind, and between two array types it is that of their elements.
pub proof fn lemma_array_compatible(x: Ty, y: Ty, other: Ty)
    requires
        !(other is Array),
        !(other is Any),
    ensures
        compatible(Ty::Array(Box::new(x)), Ty::Array(Box::new(y))) == compatible(x, y),
        !compatible(Ty::Array(Box::new(x)), other),
{
}

/// Every type is compatible with itself.
pub proof fn lemma_compatible_refl(t: Ty)
    ensures
        compatible(t, t),
    decreases t, 1int,
{
    match t {
        Ty::Array(x) => lemma_compatible_refl(*x),
        Ty::Function(ps, r) => {
            lemma_all_compatible_refl(ps, 0);
            lemma_compatible_refl(*r);
        },
        _ => {},
    }
}

proof fn lemma_all_compatible_refl(ps: Seq<Ty>, i: int)
    ensures
        all_compatible(ps, ps, i),
    decreases ps, ps.len() - i,
{
    if 0 <= i < ps.len() {
        lemma_compatible_refl(ps[i]);
        lemma_all_compatible_refl(ps, i + 1);
    }
}

/// Compatibility does not depend on the order of the two types.
pub proof fn lemma_compatible_symmetric(a: Ty, b: Ty)
    ensures
        compatible(a, b) == compatible(b, a),
    decreases a, 1int,
{
    match a {
        Ty::Array(x) => match b {
            Ty::Array(y) => lemma_compatible_symmetric(*x, *y),
            _ => {},
        },
        Ty::Function(pa, ra) => match b {
            Ty::Function(pb, rb) => {
                if pa.len() == pb.len() {
                    lemma_all_compatible_symmetric(pa, pb, 0);
                }
                lemma_compatible_symmetric(*ra, *rb);
            },
            _ => {},
        },
        _ => {},
    }
}

proof fn lemma_all_compatible_symmetric(pa: Seq<Ty>, pb: Seq<Ty>, i: int)
    requires
        pa.len() == pb.len(),
    ensures
        all_compatible(pa, pb, i) == all_compatible(pb, pa, i),
    decreases pa, pa.len() - i,
{
    if 0 <= i < pa.len() {
        lemma_compatible_symmetric(pa[i], pb[i]);
        lemma_all_compatible_symmetric(pa, pb, i + 1);
    }
}

/// The `Debug` text of a type.
pub open spec fn ty_text(t: Ty) -> Seq<char>
    decreases t, 1int,
{
    match t {
        Ty::Any => "Any"@,
        Ty::Number => "Number"@,
        Ty::String => "String"@,
        Ty::Boolean => "Boolean"@,
        Ty::Array(e) => "Array("@ + ty_text(*e) + ")"@,
        Ty::Function(ps, r) => "Function(["@ + tys_text(ps, 0) + "], "@ + ty_text(*r) + ")"@,
        Ty::Void => "Void"@,
    }
}

/// The texts of `ts[i..]`, separated by ", ".
pub open spec fn tys_text(ts: Seq<Ty>, i: int) -> Seq<char>
    decreases ts, ts.len() - i,
{
    if i < 0 || i >= ts.len() {
        Seq::empty()
    } else if i + 1 == ts.len() {
        ty_text(ts[i])
    } else {
        ty_text(ts[i]) + ", "@ + tys_text(ts, i + 1)
    }
}

impl DataType {
    /// Whether the two types are compatible.
    pub fn compatible(&self, other: &DataType) -> (r: bool)
        ensures
            r == compatible(self@, other@),
        decreases self, 1int,
    {
        match self {
            DataType::Any => return true,
            _ => {},
        }
        match other {
            DataType::Any => return true,
            _ => {},
        }
        match self {
            DataType::Array(x) => match other {
                DataType::Array(y) => x.compatible(y),
                _ => false,
            },
            DataType::Function(pa, ra) => match other {
                DataType::Function(pb, rb) => {
                    proof {
                        lemma_function_view(*pa, *ra);
                        lemma_function_view(*pb, *rb);
                    }
                    pa.len() == pb.len() && Self::all_compatible(pa, pb) && ra.compatible(rb)
                },
                _ => false,
            },
            DataType::Number => other.is_number(),
            DataType::String => match other {
                DataType::String => true,
                _ => false,
            },
            DataType::Boolean => match other {
                DataType::Boolean => true,
                _ => false,
            },
            DataType::Void => match other {
                DataType::Void => true,
                _ => false,
            },
            DataType::Any => true,
        }
    }

    fn is_number(&self) -> (r: bool)
        ensures
            r == (self@ is Number),
    {
        match self {
            DataType::Number => true,
            _ => false,
        }
    }

    fn all_compatible(pa: &Vec<DataType>, pb: &Vec<DataType>) -> (r: bool)
        requires
            pa@.len() == pb@.len(),
        ensures
            r == all_compatible(tys_of(pa@), tys_of(pb@), 0),
        decreases pa, 0int,
    {
        let ghost ta = tys_of(pa@);
        let ghost tb = tys_of(pb@);
        for i in 0..pa.len()
            invariant
                ta == tys_of(pa@),
                tb == tys_of(pb@),
                pa@.len() == pb@.len(),
                forall|k: int| 0 <= k < i ==> compatible(#[trigger] ta[k], tb[k]),
        {
            if !pa[i].compatible(&pb[i]) {
                proof {
                    lemma_all_compatible_at(ta, tb, 0, i as int);
                }
                return false;
            }
        }
        proof {
            lemma_all_compatible_from(ta, tb, 0);
        }
        true
    }

    /// The `Debug` text of the type.
    pub fn debug_string(&self) -> (s: String)
        ensures
            s@ == ty_text(self@),
        decreases self, 1int,
    {
        match self {
            DataType::Any => String::from_str("Any"),
            DataType::Number => String::from_str("Number"),
            DataType::String => String::from_str("String"),
            DataType::Boolean => String::from_str("Boolean"),
            DataType::Array(e) => {
                let mut s = String::from_str("Array(");
                let inner = e.debug_string();
                s.append(inner.as_str());
                s.append(")");
                s
            },
            DataType::Function(ps, r) => {
                proof {
                    lemma_function_view(*ps, *r);
                }
                let mut s = String::from_str("Function([");
                let list = Self::list_text(ps);
                s.append(list.as_str());
                s.append("], ");
                let rt = r.debug_string();
                s.append(rt.as_str());
                s.append(")");
                s
            },
            DataType::Void => String::from_str("Void"),
        }
    }

    fn list_text(ts: &Vec<DataType>) -> (s: String)
        ensures
            s@ == tys_text(tys_of(ts@), 0),
        decreases ts, 0int,
    {
        let ghost v = tys_of(ts@);
        let mut s = String::new();
        let n = ts.len();
        if n == 0 {
            return s;
        }
        let mut i = n;
        proof {
            assert(tys_text(v, n as int) == Seq::<char>::empty());
        }
        let mut acc = String::new();
        while i > 0
            invariant
                v == tys_of(ts@),
                n == ts@.len(),
                n > 0,
                i <= n,
                acc@ == tys_text(v, i as int),
            decreases i,
        {
            i = i - 1;
            let t = ts[i].debug_string();
            let mut next = t;
            if i + 1 < n {
                next.append(", ");
                next.append(acc.as_str());
            }
            acc = next;
        }
        acc
    }
}

proof fn lemma_all_compatible_at(ta: Seq<Ty>, tb: Seq<Ty>, i: int, k: int)
    requires
        0 <= i <= k < ta.len(),
        !compatible(ta[k], tb[k]),
    ensures
        !all_compatible(ta, tb, i),
    decreases k - i,
{
    if i < k {
        lemma_all_compatible_at(ta, tb, i + 1, k);
    }
}

proof fn lemma_all_compatible_from(ta: Seq<Ty>, tb: Seq<Ty>, i: int)
    requires
        0 <= i,
        forall|k: int| i <= k < ta.len() ==> compatible(#[trigger] ta[k], tb[k]),
    ensures
        all_compatible(ta, tb, i),
    decreases ta.len() - i,
{
    if i < ta.len() {
        lemma_all_compatible_from(ta, tb, i + 1);
    }
}

impl Clone for DataType {
    fn clone(&self) -> (r: Self)
        ensures
            r@ == self@,
        decreases self,
    {
        match self {
            DataType::Any => DataType::Any,
            DataType::Number => DataType::Number,
            DataType::String => DataType::String,
            DataType::Boolean => DataType::Boolean,
            DataType::Array(e) => DataType::Array(Box::new((**e).clone())),
            DataType::Function(ps, r) => {
                let ps2 = clone_types(ps);
                let r2 = Box::new((**r).clone());
                proof {
                    lemma_function_view(*ps, *r);
                    lemma_function_view(ps2, r2);
                }
                DataType::Function(ps2, r2)
            },
            DataType::Void => DataType::Void,
        }
    }
}

impl PartialEq for DataType {
    fn eq(&self, other: &Self) -> (r: bool) {
        self.compatible(other)
    }
}

impl vstd::std_specs::cmp::PartialEqSpecImpl for DataType {
    open spec fn obeys_eq_spec() -> bool {
        true
    }

    open spec fn eq_spec(&self, other: &DataType) -> bool {
        compatible(self@, other@)
    }
}

/// A deep copy of a list of types.
pub fn clone_types(v: &Vec<DataType>) -> (r: Vec<DataType>)
    ensures
        tys_of(r@) == tys_of(v@),
    decreases v,
{
    let mut out: Vec<DataType> = Vec::new();
    for i in 0..v.len()
        invariant
            out@.len() == i,
            forall|k: int| 0 <= k < i ==> (#[trigger] out@[k])@ == v@[k]@,
    {
        out.push(v[i].clone());
    }
    proof {
        assert(tys_of(out@) =~= tys_of(v@));
    }
    out
}

/// An expression of the typed front end. A number keeps the digits it was
/// written with.
#[derive(Debug, PartialEq)]
pub enum Expr {
    // Literals
    Number(String),
    String(String),
    Boolean(bool),
    Identifier(String),
    // Binary operations
    Binary { left: Box<Expr>, operator: BinaryOp, right: Box<Expr> },
    // Unary operations
    Unary { operator: UnaryOp, operand: Box<Expr> },
    // Function call
    Call { callee: Box<Expr>, arguments: Vec<Expr> },
    // Array access
    Index { array: Box<Expr>, index: Box<Expr> },
    // Assignment
    Assign { name: String, value: Box<Expr> },
    Array { elements: Vec<Expr> },
}

#[derive(Debug, Clone, Copy, PartialEq, Eq, Structural)]
pub enum BinaryOp {
    Add,
    Subtract,
    Multiply,
    Divide,
    Modulo,
    Equal,
    NotEqual,
    LessThan,
    LessEqual,
    GreaterThan,
    GreaterEqual,
    BitAnd,
    BitOr,
    LogicalAnd,
    LogicalOr,
    Assign,
}

#[derive(Debug, Clone, Copy, PartialEq, Eq, Structural)]
pub enum UnaryOp {
    Minus,
    Not,
}

#[derive(Debug, PartialEq)]
pub enum Stmt {
    // Variable declaration
    VarDecl { name: String, type_annotation: Option<Expr>, initializer: Option<Expr>, is_mutable: bool },
    // Function declaration
    FuncDecl { name: String, parameters: Vec<Parameter>, return_type: Option<Expr>, body: Vec<Stmt> },
    // Control flow
    If { condition: Expr, then_branch: Vec<Stmt>, else_branch: Option<Vec<Stmt>> },
    While { condition: Expr, body: Vec<Stmt> },
    For { name: String, collection: Expr, body: Vec<Stmt> },
    Return { value: Option<Expr> },
    // Expression statement
    Expression(Expr),
    // Block statement
    Block(Vec<Stmt>),
}

#[derive(Debug, PartialEq)]
pub struct Parameter {
    pub name: String,
    pub param_type: Option<Expr>,
}

#[derive(Debug, PartialEq)]
pub struct Program {
    pub statements: Vec<Stmt>,
}

impl Program {
    pub fn new() -> (p: Self)
        ensures
            p.statements@.len() == 0,
    {
        Program { statements: Vec::new() }
    }

    pub fn add_statement(&mut self, stmt: Stmt)
        ensures
            final(self).statements@ == old(self).statements@.push(stmt),
    {
        self.statements.push(stmt);
    }
}

/// An expression with its texts as character sequences.
pub enum ExprView {
    Number(Seq<char>),
    String(Seq<char>),
    Boolean(bool),
    Identifier(Seq<char>),
    Binary { left: Box<ExprView>, operator: BinaryOp, right: Box<ExprView> },
    Unary { operator: UnaryOp, operand: Box<ExprView> },
    Call { callee: Box<ExprView>, arguments: Seq<ExprView> },
    Index { array: Box<ExprView>, index: Box<ExprView> },
    Assign { name: Seq<char>, value: Box<ExprView> },
    Array { elements: Seq<ExprView> },
}

pub open spec fn expr_view(e: &Expr) -> ExprView
    decreases e,
{
    match e {
        Expr::Number(n) => ExprView::Number(n@),
        Expr::String(s) => ExprView::String(s@),
        Expr::Boolean(b) => ExprView::Boolean(*b),
        Expr::Identifier(n) => ExprView::Identifier(n@),
        Expr::Binary { left, operator, right } => ExprView::Binary {
            left: Box::new(expr_view(left)),
            operator: *operator,
            right: Box::new(expr_view(right)),
        },
        Expr::Unary { operator, operand } => ExprView::Unary {
            operator: *operator,
            operand: Box::new(expr_view(operand)),
        },
        Expr::Call { callee, arguments } => ExprView::Call {
            callee: Box::new(expr_view(callee)),
            arguments: Seq::new(
                arguments@.len(),
                |i: int|
                    if 0 <= i < arguments@.len() {
                        expr_view(&arguments@[i])
                    } else {
                        ExprView::Boolean(false)
                    },
            ),
        },
        Expr::Index { array, index } => ExprView::Index {
            array: Box::new(expr_view(array)),
            index: Box::new(expr_view(index)),
        },
        Expr::Assign { name, value } => ExprView::Assign { name: name@, value: Box::new(expr_view(value)) },
        Expr::Array { elements } => ExprView::Array {
            elements: Seq::new(
                elements@.len(),
                |i: int|
                    if 0 <= i < elements@.len() {
                        expr_view(&elements@[i])
                    } else {
                        ExprView::Boolean(false)
                    },
            ),
        },
    }
}

impl View for Expr {
    type V = ExprView;

    open spec fn view(&self) -> ExprView {
        expr_view(self)
    }
}

pub open spec fn exprs_view(es: Seq<Expr>) -> Seq<ExprView> {
    Seq::new(es.len(), |i: int| es[i]@)
}

pub open spec fn opt_expr_view(e: Option<Expr>) -> Option<ExprView> {
    match e {
        Some(x) => Some(x@),
        None => None,
    }
}

pub struct ParameterView {
    pub name: Seq<char>,
    pub param_type: Option<ExprView>,
}

impl View for Parameter {
    type V = ParameterView;

    open spec fn view(&self) -> ParameterView {
        ParameterView { name: self.name@, param_type: opt_expr_view(self.param_type) }
    }
}

/// The views of a list of parameters.
pub open spec fn params_view(ps: Seq<Parameter>) -> Seq<ParameterView> {
    ps.map_values(|p: Parameter| p@)
}

/// A statement with its texts as character sequences.
pub enum StmtView {
    VarDecl {
        name: Seq<char>,
        type_annotation: Option<ExprView>,
        initializer: Option<ExprView>,
        is_mutable: bool,
    },
    FuncDecl {
        name: Seq<char>,
        parameters: Seq<ParameterView>,
        return_type: Option<ExprView>,
        body: Seq<StmtView>,
    },
    If { condition: ExprView, then_branch: Seq<StmtView>, else_branch: Option<Seq<StmtView>> },
    While { condition: ExprView, body: Seq<StmtView> },
    For { name: Seq<char>, collection: ExprView, body: Seq<StmtView> },
    Return { value: Option<ExprView> },
    Expression(ExprView),
    Block(Seq<StmtView>),
}

pub open spec fn stmt_view(s: &Stmt) -> StmtView
    decreases s,
{
    match s {
        Stmt::VarDecl { name, type_annotation, initializer, is_mutable } => StmtView::VarDecl {
            name: name@,
            type_annotation: opt_expr_view(*type_annotation),
            initializer: opt_expr_view(*initializer),
            is_mutable: *is_mutable,
        },
        Stmt::FuncDecl { name, parameters, return_type, body } => StmtView::FuncDecl {
            name: name@,
            parameters: params_view(parameters@),
            return_type: opt_expr_view(*return_type),
            body: Seq::new(
                body@.len(),
                |i: int| if 0 <= i < body@.len() { stmt_view(&body@[i]) } else { StmtView::Block(Seq::empty()) },
            ),
        },
        Stmt::If { condition, then_branch, else_branch } => StmtView::If {
            condition: condition@,
            then_branch: Seq::new(
                then_branch@.len(),
                |i: int|
                    if 0 <= i < then_branch@.len() {
                        stmt_view(&then_branch@[i])
                    } else {
                        StmtView::Block(Seq::empty())
                    },
            ),
            else_branch: match else_branch {
                Some(b) => Some(
                    Seq::new(
                        b@.len(),
                        |i: int| if 0 <= i < b@.len() { stmt_view(&b@[i]) } else { StmtView::Block(Seq::empty()) },
                    ),
                ),
                None => None,
            },
        },
        Stmt::While { condition, body } => StmtView::While {
            condition: condition@,
            body: Seq::new(
                body@.len(),
                |i: int| if 0 <= i < body@.len() { stmt_view(&body@[i]) } else { StmtView::Block(Seq::empty()) },
            ),
        },
        Stmt::For { name, collection, body } => StmtView::For {
            name: name@,
            collection: collection@,
            body: Seq::new(
                body@.len(),
                |i: int| if 0 <= i < body@.len() { stmt_view(&body@[i]) } else { StmtView::Block(Seq::empty()) },
            ),
        },
        Stmt::Return { value } => StmtView::Return { value: opt_expr_view(*value) },
        Stmt::Expression(e) => StmtView::Expression(e@),
        Stmt::Block(ss) => StmtView::Block(
            Seq::new(
                ss@.len(),
                |i: int| if 0 <= i < ss@.len() { stmt_view(&ss@[i]) } else { StmtView::Block(Seq::empty()) },
            ),
        ),
    }
}

impl View for Stmt {
    type V = StmtView;

    open spec fn view(&self) -> StmtView {
        stmt_view(self)
    }
}

pub open spec fn stmts_view(ss: Seq<Stmt>) -> Seq<StmtView> {
    Seq::new(ss.len(), |i: int| ss[i]@)
}

} // verus!
