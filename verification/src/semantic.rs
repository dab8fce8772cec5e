//! The semantic checks of the typed front end: a table of the names in scope,
//! and an analyzer that gives each expression a type and rejects programs
//! whose types do not fit.
use crate::ast::{
    all_compatible, compatible, exprs_view, opt_expr_view, params_view, stmts_view, tys_of, ty_text, BinaryOp,
    DataType, Expr, ExprView, Parameter, ParameterView, Program, Stmt, StmtView, Ty, UnaryOp,
};
use crate::compliler::env::{first_index, lemma_first_index};
use crate::error::error::{error_view, CompilerError, CompilerErrorView, ErrorType};
use crate::text::{decimal, decimal_string, join3, same_text};
use vstd::prelude::*;
use vstd::string::*;

verus! {

pub type SResult<T> = core::result::Result<T, CompilerErrorView>;

/// The result of an analysis step: what it gives, or the error it stops at
/// together with the analyzer's state at that point.
pub type AResult<T> = core::result::Result<T, (CompilerErrorView, AState)>;

#[derive(Debug)]
pub struct Symbol {
    pub name: String,
    pub symbol_type: DataType,
    pub is_mutable: bool,
    pub is_initialized: bool,
}

#[verifier::ext_equal]
pub struct SymbolView {
    pub name: Seq<char>,
    pub symbol_type: Ty,
    pub is_mutable: bool,
    pub is_initialized: bool,
}

impl View for Symbol {
    type V = SymbolView;

    open spec fn view(&self) -> SymbolView {
        SymbolView {
            name: self.name@,
            symbol_type: self.symbol_type@,
            is_mutable: self.is_mutable,
            is_initialized: self.is_initialized,
        }
    }
}

impl Clone for Symbol {
    fn clone(&self) -> (r: Self)
        ensures
            r@ == self@,
    {
        Symbol {
            name: self.name.clone(),
            symbol_type: self.symbol_type.clone(),
            is_mutable: self.is_mutable,
            is_initialized: self.is_initialized,
        }
    }
}

pub open spec fn names_of(scope: Seq<SymbolView>) -> Seq<Seq<char>> {
    scope.map_values(|s: SymbolView| s.name)
}

/// Where `name` is in a scope, if it is there.
pub open spec fn scope_slot(scope: Seq<SymbolView>, name: Seq<char>) -> Option<int> {
    if names_of(scope).contains(name) {
        Some(first_index(names_of(scope), name))
    } else {
        None
    }
}

/// The innermost of the first `n` scopes that holds `name`, and where in it.
pub open spec fn lookup_in(scopes: Seq<Seq<SymbolView>>, name: Seq<char>, n: int) -> Option<(int, int)>
    decreases n,
{
    if n <= 0 {
        None
    } else {
        match scope_slot(scopes[n - 1], name) {
            Some(k) => Some((n - 1, k)),
            None => lookup_in(scopes, name, n - 1),
        }
    }
}

pub open spec fn lookup(scopes: Seq<Seq<SymbolView>>, name: Seq<char>) -> Option<(int, int)> {
    lookup_in(scopes, name, scopes.len() as int)
}

pub open spec fn semantic_error(message: Seq<char>) -> CompilerErrorView {
    error_view(ErrorType::SemanticError, message)
}

/// The scopes with `sym` declared in the innermost, unless its name is there.
pub open spec fn define(scopes: Seq<Seq<SymbolView>>, sym: SymbolView) -> SResult<Seq<Seq<SymbolView>>> {
    let cur = scopes.last();
    if scope_slot(cur, sym.name) is Some {
        Err(
            error_view(
                ErrorType::InternalError,
                "Variable '"@ + sym.name + "' already defined in current scope"@,
            ),
        )
    } else {
        Ok(scopes.update(scopes.len() - 1, cur.push(sym)))
    }
}

/// A symbol that `define` accepts is what a lookup of its name then finds:
/// the last symbol of the innermost scope.
pub proof fn lemma_define_then_lookup(scopes: Seq<Seq<SymbolView>>, sym: SymbolView)
    requires
        scopes.len() > 0,
    ensures
        define(scopes, sym) matches Ok(sc) ==> {
            &&& lookup(sc, sym.name) == Some((scopes.len() - 1, scopes.last().len() as int))
            &&& sc[scopes.len() - 1][scopes.last().len() as int] == sym
        },
{
    if let Ok(sc) = define(scopes, sym) {
        let n = scopes.len() - 1;
        let cur = scopes.last();
        let new_cur = cur.push(sym);
        assert(sc[n] == new_cur);
        let names = names_of(new_cur);
        assert(names =~= names_of(cur).push(sym.name));
        assert(!names_of(cur).contains(sym.name));
        assert forall|j: int| 0 <= j < cur.len() implies names[j] != sym.name by {
            assert(names[j] == names_of(cur)[j]);
        }
        lemma_first_index(names, sym.name, cur.len() as int);
        assert(scope_slot(sc[n], sym.name) == Some(cur.len() as int));
        assert(sc.len() == scopes.len());
    }
}

/// The scopes after declaring each of `syms` in turn; a declaration that
/// `define` refuses changes nothing.
pub open spec fn define_all(scopes: Seq<Seq<SymbolView>>, syms: Seq<SymbolView>) -> Seq<Seq<SymbolView>>
    decreases syms.len(),
{
    if syms.len() == 0 {
        scopes
    } else {
        let s = define_all(scopes, syms.drop_last());
        match define(s, syms.last()) {
            Ok(sc) => sc,
            Err(_) => s,
        }
    }
}

/// Entering a scope, declaring any symbols in it and leaving it gives back
/// the scopes from before, so every name looks up as it did: what was
/// declared inside is gone and what it shadowed is seen again.
pub proof fn lemma_scope_discards_definitions(scopes: Seq<Seq<SymbolView>>, syms: Seq<SymbolView>, name: Seq<char>)
    ensures
        define_all(scopes.push(Seq::empty()), syms).drop_last() == scopes,
        lookup(define_all(scopes.push(Seq::empty()), syms).drop_last(), name) == lookup(scopes, name),
    decreases syms.len(),
{
    lemma_define_all_keeps_outer(scopes.push(Seq::empty()), syms);
    assert(scopes.push(Seq::empty()).drop_last() =~= scopes);
}

proof fn lemma_define_all_keeps_outer(scopes: Seq<Seq<SymbolView>>, syms: Seq<SymbolView>)
    requires
        scopes.len() > 0,
    ensures
        define_all(scopes, syms).len() == scopes.len(),
        define_all(scopes, syms).drop_last() == scopes.drop_last(),
    decreases syms.len(),
{
    if syms.len() > 0 {
        lemma_define_all_keeps_outer(scopes, syms.drop_last());
        let s = define_all(scopes, syms.drop_last());
        if let Ok(sc) = define(s, syms.last()) {
            assert(sc.drop_last() =~= s.drop_last());
        }
    }
}

/// A new, empty innermost scope changes no lookup, and any symbol can then be
/// declared in it, even one whose name an outer scope holds (shadowing).
pub proof fn lemma_enter_keeps_lookups(scopes: Seq<Seq<SymbolView>>, name: Seq<char>, sym: SymbolView)
    ensures
        lookup(scopes.push(Seq::empty()), name) == lookup(scopes, name),
        define(scopes.push(Seq::empty()), sym) is Ok,
{
    let inner = scopes.push(Seq::empty());
    assert(names_of(Seq::<SymbolView>::empty()) =~= Seq::<Seq<char>>::empty());
    assert(scope_slot(inner[scopes.len() as int], name) is None);
    lemma_lookup_in_prefix(inner, scopes, name, scopes.len() as int);
    assert(scope_slot(inner.last(), sym.name) is None);
}

proof fn lemma_lookup_in_prefix(longer: Seq<Seq<SymbolView>>, scopes: Seq<Seq<SymbolView>>, name: Seq<char>, n: int)
    requires
        n <= scopes.len() <= longer.len(),
        forall|j: int| 0 <= j < scopes.len() ==> longer[j] == scopes[j],
    ensures
        lookup_in(longer, name, n) == lookup_in(scopes, name, n),
    decreases n,
{
    if n > 0 {
        assert(longer[n - 1] == scopes[n - 1]);
        lemma_lookup_in_prefix(longer, scopes, name, n - 1);
    }
}

/// Leaving a scope just entered gives back the state before.
pub proof fn lemma_enter_then_exit(a: AState)
    ensures
        exit(enter(a)) == a,
{
    assert(a.scopes.push(Seq::empty()).drop_last() =~= a.scopes);
}

/// The scopes after a value of type `t` is assigned to `name`.
pub open spec fn assign(scopes: Seq<Seq<SymbolView>>, name: Seq<char>, t: Ty) -> SResult<Seq<Seq<SymbolView>>> {
    match lookup(scopes, name) {
        Some((j, k)) => {
            let s = scopes[j][k];
            if !s.is_mutable {
                Err(semantic_error("Cannot assign to immutable variable '"@ + name + "'"@))
            } else if !compatible(s.symbol_type, t) {
                Err(
                    semantic_error(
                        "Type mismatch: expected "@ + ty_text(s.symbol_type) + ", found "@ + ty_text(t),
                    ),
                )
            } else {
                let s2 = SymbolView {
                    name: s.name,
                    symbol_type: s.symbol_type,
                    is_mutable: s.is_mutable,
                    is_initialized: true,
                };
                Ok(scopes.update(j, scopes[j].update(k, s2)))
            }
        },
        None => Err(semantic_error("Undefined variable '"@ + name + "'"@)),
    }
}

/// A lookup among the first `n` scopes finds a symbol of that name within them.
pub proof fn lemma_lookup_bounds(scopes: Seq<Seq<SymbolView>>, name: Seq<char>, n: int)
    requires
        n <= scopes.len(),
    ensures
        lookup_in(scopes, name, n) matches Some((j, k)) ==> 0 <= j < n && 0 <= k < scopes[j].len()
            && scopes[j][k].name == name,
    decreases n,
{
    if n > 0 {
        if let Some(k) = scope_slot(scopes[n - 1], name) {
            lemma_first_index_exists_names(scopes[n - 1], name);
        } else {
            lemma_lookup_bounds(scopes, name, n - 1);
        }
    }
}

proof fn lemma_first_index_exists_names(scope: Seq<SymbolView>, name: Seq<char>)
    requires
        names_of(scope).contains(name),
    ensures
        0 <= first_index(names_of(scope), name) < scope.len(),
        scope[first_index(names_of(scope), name)].name == name,
{
    crate::compliler::env::lemma_first_index_exists(names_of(scope), name);
}

/// A symbol as a table holds it: under the name `key` it was declared with.
pub open spec fn keyed(key: Seq<char>, s: SymbolView) -> SymbolView {
    SymbolView { name: key, symbol_type: s.symbol_type, is_mutable: s.is_mutable, is_initialized: s.is_initialized }
}

/// The views of the entries of a scope, each under its key.
pub open spec fn scope_view(s: Seq<(String, Symbol)>) -> Seq<SymbolView> {
    Seq::new(s.len(), |i: int| keyed(s[i].0@, s[i].1@))
}

/// The names the symbols of a scope carry themselves.
pub open spec fn scope_names(s: Seq<(String, Symbol)>) -> Seq<Seq<char>> {
    Seq::new(s.len(), |i: int| s[i].1.name@)
}

/// No scope holds two symbols under one name.
pub open spec fn names_distinct(scopes: Seq<Seq<SymbolView>>) -> bool {
    forall|j: int, a: int, b: int|
        0 <= j < scopes.len() && 0 <= a < b < scopes[j].len() ==> (#[trigger] scopes[j][a]).name
            != (#[trigger] scopes[j][b]).name
}

/// Scopes of symbols, the innermost last; in each, a symbol is found by the
/// name it was declared under. A scope is a list of entries in the order they
/// were declared, standing for a map from names to symbols: `define` refuses a
/// name the scope has already, so no name occurs twice in a scope
/// (`names_distinct`, which every method keeps). A list is used because
/// Verus gives a `HashMap` keyed by `String` no specification of its contents.
pub struct SymbolTable {
    scopes: Vec<Vec<(String, Symbol)>>,
}

impl View for SymbolTable {
    type V = Seq<Seq<SymbolView>>;

    closed spec fn view(&self) -> Seq<Seq<SymbolView>> {
        Seq::new(self.scopes@.len(), |j: int| scope_view(self.scopes@[j]@))
    }
}

impl SymbolTable {
    /// The name each symbol carries itself, where it was declared under
    /// another.
    pub closed spec fn own_names(&self) -> Seq<Seq<Seq<char>>> {
        Seq::new(self.scopes@.len(), |j: int| scope_names(self.scopes@[j]@))
    }

    /// The names the symbols carry themselves are laid out as the table is:
    /// one list per scope, one name per symbol.
    pub proof fn lemma_names_shape(&self)
        ensures
            self.own_names().len() == self@.len(),
            forall|j: int| 0 <= j < self@.len() ==> (#[trigger] self.own_names()[j]).len() == self@[j].len(),
    {
    }

    /// After `define` accepts `symbol` under `name`, looking `name` up finds
    /// the symbol itself, its own name included: what `get` then returns is
    /// `symbol`.
    pub proof fn lemma_define_then_get(before: &SymbolTable, after: &SymbolTable, name: Seq<char>, symbol: Symbol)
        requires
            before@.len() > 0,
            define(before@, keyed(name, symbol@)) == Ok::<Seq<Seq<SymbolView>>, CompilerErrorView>(after@),
            after.own_names() == before.own_names().update(
                before@.len() - 1,
                before.own_names().last().push(symbol.name@),
            ),
        ensures
            lookup(after@, name) matches Some((j, k)) && keyed(after.own_names()[j][k], after@[j][k])
                == symbol@,
    {
        before.lemma_names_shape();
        lemma_define_then_lookup(before@, keyed(name, symbol@));
    }

    /// A table with the global scope, empty.
    pub fn new() -> (t: Self)
        ensures
            t@ == seq![Seq::<SymbolView>::empty()],
            t.own_names() == seq![Seq::<Seq<char>>::empty()],
            names_distinct(t@),
    {
        let mut scopes: Vec<Vec<(String, Symbol)>> = Vec::new();
        scopes.push(Vec::new());
        let t = SymbolTable { scopes };
        proof {
            assert(t@ =~~= seq![Seq::<SymbolView>::empty()]);
            assert(t.own_names() =~~= seq![Seq::<Seq<char>>::empty()]);
        }
        t
    }

    pub fn enter_scope(&mut self)
        ensures
            final(self)@ == old(self)@.push(Seq::empty()),
            final(self).own_names() == old(self).own_names().push(Seq::empty()),
            names_distinct(old(self)@) ==> names_distinct(final(self)@),
    {
        self.scopes.push(Vec::new());
        proof {
            assert(self@ =~~= old(self)@.push(Seq::empty()));
            assert(self.own_names() =~~= old(self).own_names().push(Seq::empty()));
        }
    }

    /// Leaves the innermost scope (there is none to leave when the table is empty).
    pub fn exit_scope(&mut self)
        ensures
            final(self)@ == if old(self)@.len() > 0 {
                old(self)@.drop_last()
            } else {
                old(self)@
            },
            final(self).own_names() == if old(self)@.len() > 0 {
                old(self).own_names().drop_last()
            } else {
                old(self).own_names()
            },
            names_distinct(old(self)@) ==> names_distinct(final(self)@),
    {
        let _ = self.scopes.pop();
        proof {
            if old(self)@.len() > 0 {
                assert(self@ =~~= old(self)@.drop_last());
                assert(self.own_names() =~~= old(self).own_names().drop_last());
            } else {
                assert(self@ =~~= old(self)@);
                assert(self.own_names() =~~= old(self).own_names());
            }
        }
    }

    /// The number of open scopes.
    pub fn depth(&self) -> (n: usize)
        ensures
            n == self@.len(),
    {
        self.scopes.len()
    }

    /// Where `name` is in the scope at `j`, if it is there.
    fn find_in(&self, j: usize, name: &str) -> (r: Option<usize>)
        requires
            j < self@.len(),
        ensures
            match scope_slot(self@[j as int], name@) {
                Some(k) => r matches Some(x) && x == k,
                None => r is None,
            },
    {
        let key = String::from_str(name);
        let ghost sc = self@[j as int];
        let scope = &self.scopes[j];
        proof {
            assert(sc == scope_view(scope@));
        }
        for k in 0..scope.len()
            invariant
                key@ == name@,
                j < self@.len(),
                sc == self@[j as int],
                sc == scope_view(scope@),
                forall|i: int| 0 <= i < k ==> names_of(sc)[i] != name@,
        {
            if scope[k].0 == key {
                proof {
                    assert(sc[k as int] == keyed(scope@[k as int].0@, scope@[k as int].1@));
                    assert(names_of(sc)[k as int] == name@);
                    lemma_first_index(names_of(sc), name@, k as int);
                }
                return Some(k);
            }
        }
        proof {
            assert forall|i: int| 0 <= i < names_of(sc).len() implies names_of(sc)[i] != name@ by {}
        }
        None
    }

    /// The innermost scope holding `name`, and where in it.
    fn locate(&self, name: &str) -> (r: Option<(usize, usize)>)
        ensures
            match lookup(self@, name@) {
                Some((j, k)) => r matches Some((a, b)) && a == j && b == k,
                None => r is None,
            },
    {
        let mut n = self.scopes.len();
        proof {
            assert(self@.len() == n);
        }
        while n > 0
            invariant
                n <= self@.len(),
                lookup(self@, name@) == lookup_in(self@, name@, n as int),
            decreases n,
        {
            match self.find_in(n - 1, name) {
                Some(k) => {
                    return Some((n - 1, k));
                },
                None => {},
            }
            n = n - 1;
        }
        None
    }

    /// Declares `symbol` under `name` in the innermost scope; an error where
    /// `name` is there already.
    pub fn define(&mut self, name: String, symbol: Symbol) -> (r: Result<(), CompilerError>)
        requires
            old(self)@.len() > 0,
        ensures
            match define(old(self)@, keyed(name@, symbol@)) {
                Ok(s) => r is Ok && final(self)@ == s && final(self).own_names() == old(self).own_names().update(
                    old(self)@.len() - 1,
                    old(self).own_names().last().push(symbol.name@),
                ),
                Err(e) => r matches Err(x) && x@ == e && final(self)@ == old(self)@ && final(self).own_names()
                    == old(self).own_names(),
            },
            names_distinct(old(self)@) ==> names_distinct(final(self)@),
    {
        let last = self.scopes.len() - 1;
        if self.find_in(last, name.as_str()).is_some() {
            let message = join3("Variable '", name.as_str(), "' already defined in current scope");
            return Err(CompilerError::new(message));
        }
        let ghost own = symbol.name@;
        let ghost sv = keyed(name@, symbol@);
        let mut scope = self.scopes.pop().unwrap();
        let ghost before = scope@;
        scope.push((name, symbol));
        self.scopes.push(scope);
        proof {
            assert(scope_view(scope@) =~= scope_view(before).push(sv));
            assert(scope_names(scope@) =~= scope_names(before).push(own));
            assert(self@ =~~= define(old(self)@, sv)->Ok_0);
            assert(self.own_names() =~~= old(self).own_names().update(
                old(self)@.len() - 1,
                old(self).own_names().last().push(own),
            ));
            if names_distinct(old(self)@) {
                let sc = self@;
                let n = old(self)@.len() - 1;
                let cur = old(self)@[n];
                assert(scope_slot(cur, name@) is None);
                assert(!names_of(cur).contains(name@));
                assert(sc[n] == cur.push(sv));
                assert forall|j: int, a: int, b: int|
                    0 <= j < sc.len() && 0 <= a < b < sc[j].len() implies (#[trigger] sc[j][a]).name
                        != (#[trigger] sc[j][b]).name by {
                    if j == n {
                        assert(sc[j][a] == cur[a]);
                        if b == cur.len() {
                            assert(names_of(cur)[a] == cur[a].name);
                        } else {
                            assert(sc[j][b] == cur[b]);
                        }
                    } else {
                        assert(sc[j] == old(self)@[j]);
                    }
                }
            }
        }
        Ok(())
    }

    /// The symbol `name` stands for in the innermost scope that has it.
    pub fn get(&self, name: &str) -> (r: Option<&Symbol>)
        ensures
            match lookup(self@, name@) {
                Some((j, k)) => r matches Some(s) && s@ == keyed(self.own_names()[j][k], self@[j][k]),
                None => r is None,
            },
    {
        match self.locate(name) {
            Some((j, k)) => {
                proof {
                    lemma_lookup_bounds(self@, name@, self@.len() as int);
                    assert(self@[j as int] == scope_view(self.scopes@[j as int]@));
                    assert(self.own_names()[j as int] == scope_names(self.scopes@[j as int]@));
                }
                Some(&self.scopes[j][k].1)
            },
            None => None,
        }
    }

    /// Records that `name` was assigned a value of type `value_type`.
    pub fn assign(&mut self, name: &str, value_type: DataType) -> (r: Result<(), CompilerError>)
        ensures
            match assign(old(self)@, name@, value_type@) {
                Ok(s) => r is Ok && final(self)@ == s,
                Err(e) => r matches Err(x) && x@ == e && final(self)@ == old(self)@,
            },
            final(self).own_names() == old(self).own_names(),
            names_distinct(old(self)@) ==> names_distinct(final(self)@),
    {
        let (j, k) = match self.locate(name) {
            Some(p) => p,
            None => {
                return Err(CompilerError::semantic_error(join3("Undefined variable '", name, "'")));
            },
        };
        proof {
            lemma_lookup_bounds(self@, name@, self@.len() as int);
            assert(self@[j as int] == scope_view(self.scopes@[j as int]@));
        }
        let s = &self.scopes[j][k].1;
        if !s.is_mutable {
            return Err(
                CompilerError::semantic_error(join3("Cannot assign to immutable variable '", name, "'")),
            );
        }
        if s.symbol_type != value_type {
            let mut message = String::from_str("Type mismatch: expected ");
            let a = s.symbol_type.debug_string();
            message.append(a.as_str());
            message.append(", found ");
            let b = value_type.debug_string();
            message.append(b.as_str());
            return Err(CompilerError::semantic_error(message));
        }
        let updated = Symbol {
            name: s.name.clone(),
            symbol_type: s.symbol_type.clone(),
            is_mutable: s.is_mutable,
            is_initialized: true,
        };
        let key = self.scopes[j][k].0.clone();
        let mut scope = clone_scope(&self.scopes[j]);
        scope.set(k, (key, updated));
        let ghost before = self@;
        let ghost names_before = self.own_names();
        self.scopes.set(j, scope);
        proof {
            assert(self@ =~~= assign(before, name@, value_type@)->Ok_0);
            assert(self.own_names() =~~= names_before);
        }
        Ok(())
    }
}

/// A copy of a scope.
fn clone_scope(v: &Vec<(String, Symbol)>) -> (r: Vec<(String, Symbol)>)
    ensures
        scope_view(r@) == scope_view(v@),
        scope_names(r@) == scope_names(v@),
{
    let mut out: Vec<(String, Symbol)> = Vec::new();
    for i in 0..v.len()
        invariant
            out@.len() == i,
            forall|k: int| 0 <= k < i ==> (#[trigger] out@[k]).0@ == v@[k].0@ && out@[k].1@ == v@[k].1@,
    {
        out.push((v[i].0.clone(), v[i].1.clone()));
    }
    proof {
        assert(scope_view(out@) =~= scope_view(v@));
        assert(scope_names(out@) =~= scope_names(v@));
    }
    out
}

/// What the analyzer knows: the scopes of names, and the return type of the
/// function being analyzed.
#[verifier::ext_equal]
pub struct AState {
    pub scopes: Seq<Seq<SymbolView>>,
    pub ret: Option<Ty>,
}

pub open spec fn with_scopes(a: AState, scopes: Seq<Seq<SymbolView>>) -> AState {
    AState { scopes, ret: a.ret }
}

/// `a` inside a new, empty scope.
pub open spec fn enter(a: AState) -> AState {
    with_scopes(a, a.scopes.push(Seq::empty()))
}

/// `a` out of its innermost scope.
pub open spec fn exit(a: AState) -> AState {
    if a.scopes.len() > 0 {
        with_scopes(a, a.scopes.drop_last())
    } else {
        a
    }
}

pub open spec fn type_error(message: Seq<char>) -> CompilerErrorView {
    error_view(ErrorType::TypeError, message)
}

/// The type a type annotation names: `number`, `str`, `bool`, `void`, or
/// `array[T]`.
pub open spec fn annotation_type(e: ExprView) -> SResult<Ty>
    decreases e,
{
    match e {
        ExprView::Identifier(n) => if n == "number"@ {
            Ok(Ty::Number)
        } else if n == "str"@ {
            Ok(Ty::String)
        } else if n == "bool"@ {
            Ok(Ty::Boolean)
        } else if n == "void"@ {
            Ok(Ty::Void)
        } else {
            Err(type_error("Unknown type: "@ + n))
        },
        ExprView::Index { array, index } => match *array {
            ExprView::Identifier(a) => if a == "array"@ {
                match annotation_type(*index) {
                    Ok(t) => Ok(Ty::Array(Box::new(t))),
                    Err(x) => Err(x),
                }
            } else {
                Err(type_error("Invalid type expression"@))
            },
            _ => Err(type_error("Invalid type expression"@)),
        },
        _ => Err(type_error("Invalid type expression"@)),
    }
}

/// The type of a binary expression with operands of types `lt` and `rt`.
pub open spec fn binary_type(op: BinaryOp, lt: Ty, rt: Ty) -> SResult<Ty> {
    match op {
        BinaryOp::Add | BinaryOp::Subtract | BinaryOp::Multiply | BinaryOp::Divide | BinaryOp::Modulo
        | BinaryOp::BitAnd | BinaryOp::BitOr => if compatible(lt, Ty::Number) && compatible(rt, Ty::Number) {
            Ok(Ty::Number)
        } else {
            Err(semantic_error("Arithmetic operations require numeric operands"@))
        },
        BinaryOp::Equal | BinaryOp::NotEqual => if compatible(lt, rt) {
            Ok(Ty::Boolean)
        } else {
            Err(semantic_error("Comparison requires operands of same type"@))
        },
        BinaryOp::LessThan | BinaryOp::LessEqual | BinaryOp::GreaterThan | BinaryOp::GreaterEqual => if compatible(lt, Ty::Number) && compatible(rt, Ty::Number) {
            Ok(Ty::Boolean)
        } else {
            Err(semantic_error("Comparison operations require numeric operands"@))
        },
        BinaryOp::LogicalAnd | BinaryOp::LogicalOr => if compatible(lt, Ty::Boolean) && compatible(rt, Ty::Boolean) {
            Ok(Ty::Boolean)
        } else {
            Err(semantic_error("Logical operations require boolean operands"@))
        },
        BinaryOp::Assign => if compatible(lt, rt) {
            Ok(lt)
        } else {
            Err(semantic_error("Assignment requires operands of same type"@))
        },
    }
}

/// What a binary operation gives: arithmetic on numbers is a number; a
/// comparison of numbers, an equality test of compatible operands, and a
/// logical operation on booleans are booleans; an assignment has the type of
/// its target. Each of these holds for every operand type it accepts, and
/// numbers are accepted by every operator but the logical ones.
pub proof fn lemma_binary_type_results(op: BinaryOp, lt: Ty, rt: Ty)
    ensures
        binary_type(op, lt, rt) matches Ok(t) ==> t == match op {
            BinaryOp::Add | BinaryOp::Subtract | BinaryOp::Multiply | BinaryOp::Divide | BinaryOp::Modulo
            | BinaryOp::BitAnd | BinaryOp::BitOr => Ty::Number,
            BinaryOp::Assign => lt,
            _ => Ty::Boolean,
        },
        !(op is LogicalAnd || op is LogicalOr) ==> binary_type(op, Ty::Number, Ty::Number) is Ok,
        (op is LessThan || op is LessEqual || op is GreaterThan || op is GreaterEqual) ==> binary_type(
            op,
            Ty::Number,
            Ty::Number,
        ) == Ok::<Ty, CompilerErrorView>(Ty::Boolean),
        (op is LogicalAnd || op is LogicalOr) ==> binary_type(op, Ty::Boolean, Ty::Boolean)
            == Ok::<Ty, CompilerErrorView>(Ty::Boolean),
        (op is Equal || op is NotEqual) ==> (binary_type(op, lt, rt) is Ok <==> compatible(lt, rt)),
{
}

/// The type of a unary expression whose operand has type `t`.
pub open spec fn unary_type(op: UnaryOp, t: Ty) -> SResult<Ty> {
    match op {
        UnaryOp::Minus => if compatible(t, Ty::Number) {
            Ok(Ty::Number)
        } else {
            Err(semantic_error("Unary minus requires numeric operand"@))
        },
        UnaryOp::Not => if compatible(t, Ty::Boolean) {
            Ok(Ty::Boolean)
        } else {
            Err(semantic_error("Logical not requires boolean operand"@))
        },
    }
}

/// What the specification gives where the analyzer reads the first element
/// of an empty array literal, which panics. The analyzer returns no error of
/// kind `IOError`, so no error it returns is this one.
pub open spec fn empty_array_error() -> CompilerErrorView {
    error_view(ErrorType::IOError, "empty array literal"@)
}

/// Whether an analysis reaches an empty array literal.
pub open spec fn hits_empty<T>(r: AResult<T>) -> bool {
    r matches Err((e, _)) && e == empty_array_error()
}

/// Whether a check that needs no state gives the empty-array error.
pub open spec fn yields_empty<T>(r: SResult<T>) -> bool {
    r matches Err(e) && e == empty_array_error()
}

/// Every array literal in `e` has an element (the analyzer reads the first).
pub open spec fn arrays_nonempty(e: ExprView) -> bool
    decreases e, 1int,
{
    match e {
        ExprView::Binary { left, right, .. } => arrays_nonempty(*left) && arrays_nonempty(*right),
        ExprView::Unary { operand, .. } => arrays_nonempty(*operand),
        ExprView::Call { callee, arguments } => arrays_nonempty(*callee) && all_arrays_nonempty(arguments, 0),
        ExprView::Index { array, index } => arrays_nonempty(*array) && arrays_nonempty(*index),
        ExprView::Assign { value, .. } => arrays_nonempty(*value),
        ExprView::Array { elements } => elements.len() > 0 && all_arrays_nonempty(elements, 0),
        _ => true,
    }
}

pub open spec fn all_arrays_nonempty(es: Seq<ExprView>, i: int) -> bool
    decreases es, es.len() - i,
{
    if i < 0 || i >= es.len() {
        true
    } else {
        arrays_nonempty(es[i]) && all_arrays_nonempty(es, i + 1)
    }
}

/// The type of `e` and the state after it (an assignment marks its variable
/// as set).
#[verifier::opaque]
pub open spec fn analyze_expr(a: AState, e: ExprView) -> AResult<(Ty, AState)>
    decreases e, 1int,
{
    match e {
        ExprView::Number(_) => Ok((Ty::Number, a)),
        ExprView::String(_) => Ok((Ty::String, a)),
        ExprView::Boolean(_) => Ok((Ty::Boolean, a)),
        ExprView::Identifier(name) => match lookup(a.scopes, name) {
            Some((j, k)) => if !a.scopes[j][k].is_initialized {
                Err((semantic_error("Use of uninitialized variable '"@ + name + "'"@), a))
            } else {
                Ok((a.scopes[j][k].symbol_type, a))
            },
            None => Err((semantic_error("Undefined variable '"@ + name + "'"@), a)),
        },
        ExprView::Binary { left, operator, right } => match analyze_expr(a, *left) {
            Err(x) => Err(x),
            Ok((lt, a1)) => match analyze_expr(a1, *right) {
                Err(x) => Err(x),
                Ok((rt, a2)) => match binary_type(operator, lt, rt) {
                    Err(x) => Err((x, a2)),
                    Ok(t) => Ok((t, a2)),
                },
            },
        },
        ExprView::Unary { operator, operand } => match analyze_expr(a, *operand) {
            Err(x) => Err(x),
            Ok((t, a1)) => match unary_type(operator, t) {
                Err(x) => Err((x, a1)),
                Ok(u) => Ok((u, a1)),
            },
        },
        ExprView::Call { callee, arguments } => match analyze_expr(a, *callee) {
            Err(x) => Err(x),
            Ok((ct, a1)) => match ct {
                Ty::Function(params, ret) => if arguments.len() != params.len() {
                    Err(
                        (
                            semantic_error(
                                "Function expects "@ + decimal(params.len()) + " arguments, got "@
                                    + decimal(arguments.len()),
                            ),
                            a1,
                        ),
                    )
                } else {
                    match analyze_args(a1, arguments, params, 0) {
                        Err(x) => Err(x),
                        Ok(a2) => Ok((*ret, a2)),
                    }
                },
                _ => Err((semantic_error("Cannot call non-function value"@), a1)),
            },
        },
        ExprView::Index { array, index } => match analyze_expr(a, *array) {
            Err(x) => Err(x),
            Ok((at, a1)) => match analyze_expr(a1, *index) {
                Err(x) => Err(x),
                Ok((it, a2)) => if !compatible(it, Ty::Number) {
                    Err((semantic_error("Array index must be numeric"@), a2))
                } else {
                    match at {
                        Ty::Array(el) => Ok((*el, a2)),
                        _ => Err((semantic_error("Cannot index non-array value"@), a2)),
                    }
                },
            },
        },
        ExprView::Assign { name, value } => match analyze_expr(a, *value) {
            Err(x) => Err(x),
            Ok((vt, a1)) => match assign(a1.scopes, name, vt) {
                Err(x) => Err((x, a1)),
                Ok(sc) => Ok((vt, with_scopes(a1, sc))),
            },
        },
        // The type of the first element, which an empty literal lacks.
        ExprView::Array { elements } => if elements.len() == 0 {
            Err((empty_array_error(), a))
        } else {
            match analyze_expr(a, elements[0]) {
                Err(x) => Err(x),
                Ok((t0, a1)) => match analyze_all(a1, elements, 0) {
                    Err(x) => Err(x),
                    Ok(a2) => Ok((Ty::Array(Box::new(t0)), a2)),
                },
            }
        },
    }
}

/// Each argument `args[i..]` analyzed and checked against its parameter type.
#[verifier::opaque]
pub open spec fn analyze_args(a: AState, args: Seq<ExprView>, params: Seq<Ty>, i: int) -> AResult<AState>
    decreases args, args.len() - i,
{
    if i < 0 || i >= args.len() {
        Ok(a)
    } else {
        match analyze_expr(a, args[i]) {
            Err(x) => Err(x),
            Ok((t, a1)) => if !compatible(t, params[i]) {
                Err(
                    (
                        semantic_error(
                            "Argument "@ + decimal(i as nat) + " type mismatch: expected "@ + ty_text(
                                params[i],
                            ) + ", found "@ + ty_text(t),
                        ),
                        a1,
                    ),
                )
            } else {
                analyze_args(a1, args, params, i + 1)
            },
        }
    }
}

/// Each of `es[i..]` analyzed in order.
#[verifier::opaque]
pub open spec fn analyze_all(a: AState, es: Seq<ExprView>, i: int) -> AResult<AState>
    decreases es, es.len() - i,
{
    if i < 0 || i >= es.len() {
        Ok(a)
    } else {
        match analyze_expr(a, es[i]) {
            Err(x) => Err(x),
            Ok((_, a1)) => analyze_all(a1, es, i + 1),
        }
    }
}

/// The parameter types of `ps[i..]`: each annotated type, or `Any`.
pub open spec fn param_types(ps: Seq<ParameterView>, i: int) -> SResult<Seq<Ty>>
    decreases ps.len() - i,
{
    if i < 0 || i >= ps.len() {
        Ok(Seq::empty())
    } else {
        let first = match ps[i].param_type {
            Some(te) => annotation_type(te),
            None => Ok(Ty::Any),
        };
        match first {
            Err(x) => Err(x),
            Ok(t) => match param_types(ps, i + 1) {
                Err(x) => Err(x),
                Ok(rest) => Ok(seq![t] + rest),
            },
        }
    }
}

/// Each parameter `ps[i..]` declared with its type, mutable and set.
pub open spec fn define_params(a: AState, ps: Seq<ParameterView>, ts: Seq<Ty>, i: int) -> AResult<AState>
    decreases ps.len() - i,
{
    if i < 0 || i >= ps.len() {
        Ok(a)
    } else {
        let sym = SymbolView { name: ps[i].name, symbol_type: ts[i], is_mutable: true, is_initialized: true };
        match define(a.scopes, sym) {
            Err(x) => Err((x, a)),
            Ok(sc) => define_params(with_scopes(a, sc), ps, ts, i + 1),
        }
    }
}

/// The type a variable declaration gives its variable, and the state after
/// its initializer.
pub open spec fn declared_type(
    a: AState,
    type_annotation: Option<ExprView>,
    initializer: Option<ExprView>,
) -> AResult<(Ty, AState)> {
    match initializer {
        Some(init) => match analyze_expr(a, init) {
            Err(x) => Err(x),
            Ok((et, a1)) => match type_annotation {
                Some(ann) => match annotation_type(ann) {
                    Err(x) => Err((x, a1)),
                    Ok(at) => if !compatible(at, et) {
                        Err(
                            (
                                semantic_error(
                                    "Type mismatch in variable declaration: expected "@ + ty_text(at)
                                        + ", found "@ + ty_text(et),
                                ),
                                a1,
                            ),
                        )
                    } else {
                        Ok((at, a1))
                    },
                },
                None => Ok((et, a1)),
            },
        },
        None => match type_annotation {
            Some(ann) => match annotation_type(ann) {
                Err(x) => Err((x, a)),
                Ok(at) => Ok((at, a)),
            },
            None => Err(
                (
                    semantic_error(
                        "Variable declaration must have either type annotation or initializer"@,
                    ),
                    a,
                ),
            ),
        },
    }
}

/// The state after analyzing a statement.
#[verifier::opaque]
pub open spec fn analyze_stmt(a: AState, st: StmtView) -> AResult<AState>
    decreases st, 0int,
{
    match st {
        StmtView::VarDecl { name, type_annotation, initializer, is_mutable } => match declared_type(
            a,
            type_annotation,
            initializer,
        ) {
            Err(x) => Err(x),
            Ok((t, a1)) => {
                let sym = SymbolView {
                    name,
                    symbol_type: t,
                    is_mutable,
                    is_initialized: initializer is Some,
                };
                match define(a1.scopes, sym) {
                    Err(x) => Err((x, a1)),
                    Ok(sc) => Ok(with_scopes(a1, sc)),
                }
            },
        },
        StmtView::FuncDecl { name, parameters, return_type, body } => analyze_function(
            a,
            name,
            parameters,
            return_type,
            body,
        ),
        StmtView::If { condition, then_branch, else_branch } => match analyze_expr(a, condition) {
            Err(x) => Err(x),
            Ok((ct, a1)) => if !compatible(ct, Ty::Boolean) {
                Err((semantic_error("If condition must be boolean, found "@ + ty_text(ct)), a1))
            } else {
                match analyze_stmts(enter(a1), then_branch, 0) {
                    Err(x) => Err(x),
                    Ok(a2) => match else_branch {
                        Some(es) => match analyze_stmts(enter(exit(a2)), es, 0) {
                            Err(x) => Err(x),
                            Ok(a3) => Ok(exit(a3)),
                        },
                        None => Ok(exit(a2)),
                    },
                }
            },
        },
        StmtView::While { condition, body } => match analyze_expr(a, condition) {
            Err(x) => Err(x),
            Ok((ct, a1)) => if !compatible(ct, Ty::Boolean) {
                Err((semantic_error("While condition must be boolean, found "@ + ty_text(ct)), a1))
            } else {
                match analyze_stmts(enter(a1), body, 0) {
                    Err(x) => Err(x),
                    Ok(a2) => Ok(exit(a2)),
                }
            },
        },
        StmtView::For { name, collection, body } => analyze_for(a, name, collection, body),
        StmtView::Return { value } => {
            let r = match value {
                Some(v) => analyze_expr(a, v),
                None => Ok((Ty::Void, a)),
            };
            match r {
                Err(x) => Err(x),
                Ok((rt, a1)) => {
                    let expected = match a1.ret {
                        Some(t) => t,
                        None => Ty::Void,
                    };
                    if !compatible(rt, expected) {
                        Err(
                            (
                                semantic_error(
                                    "Return type mismatch: expected "@ + ty_text(expected) + ", found "@
                                        + ty_text(rt),
                                ),
                                a1,
                            ),
                        )
                    } else {
                        Ok(a1)
                    }
                },
            }
        },
        StmtView::Expression(e) => match analyze_expr(a, e) {
            Err(x) => Err(x),
            Ok((_, a1)) => Ok(a1),
        },
        StmtView::Block(ss) => match analyze_stmts(enter(a), ss, 0) {
            Err(x) => Err(x),
            Ok(a1) => Ok(exit(a1)),
        },
    }
}

/// The state after a function declaration: the function, then its body in a
/// scope of its own where the parameters are declared.
#[verifier::opaque]
pub open spec fn analyze_function(
    a: AState,
    name: Seq<char>,
    parameters: Seq<ParameterView>,
    return_type: Option<ExprView>,
    body: Seq<StmtView>,
) -> AResult<AState>
    decreases body, body.len() + 1,
{
    match param_types(parameters, 0) {
        Err(x) => Err((x, a)),
        Ok(pts) => {
            let rt = match return_type {
                Some(r) => annotation_type(r),
                None => Ok(Ty::Void),
            };
            match rt {
                Err(x) => Err((x, a)),
                Ok(ret) => {
                    let f = SymbolView {
                        name,
                        symbol_type: Ty::Function(pts, Box::new(ret)),
                        is_mutable: false,
                        is_initialized: true,
                    };
                    match define(a.scopes, f) {
                        Err(x) => Err((x, a)),
                        Ok(sc) => {
                            let a1 = AState { scopes: sc.push(Seq::empty()), ret: Some(ret) };
                            match define_params(a1, parameters, pts, 0) {
                                Err(x) => Err(x),
                                Ok(a2) => match analyze_stmts(a2, body, 0) {
                                    Err(x) => Err(x),
                                    Ok(a3) => Ok(exit(AState { scopes: a3.scopes, ret: None })),
                                },
                            }
                        },
                    }
                },
            }
        },
    }
}

/// The state after a `for` loop over `collection`.
#[verifier::opaque]
pub open spec fn analyze_for(a: AState, name: Seq<char>, collection: ExprView, body: Seq<StmtView>) -> AResult<AState>
    decreases body, body.len() + 1,
{
    match analyze_expr(enter(a), collection) {
        Err(x) => Err(x),
        Ok((ct, a1)) => if !compatible(ct, Ty::Array(Box::new(Ty::Any))) {
            Err((semantic_error("For loop collection must be an array, found "@ + ty_text(ct)), a1))
        } else {
            let sym = SymbolView { name, symbol_type: ct, is_mutable: false, is_initialized: true };
            match define(a1.scopes, sym) {
                Err(x) => Err((x, a1)),
                Ok(sc) => match analyze_stmts(with_scopes(a1, sc), body, 0) {
                    Err(x) => Err(x),
                    Ok(a2) => Ok(exit(a2)),
                },
            }
        },
    }
}

/// The state after analyzing `ss[i..]` in order.
#[verifier::opaque]
pub open spec fn analyze_stmts(a: AState, ss: Seq<StmtView>, i: int) -> AResult<AState>
    decreases ss, ss.len() - i,
{
    if i < 0 || i >= ss.len() {
        Ok(a)
    } else {
        match analyze_stmt(a, ss[i]) {
            Err(x) => Err(x),
            Ok(a1) => analyze_stmts(a1, ss, i + 1),
        }
    }
}

/// Every array literal in the expressions that statement `st` analyzes has
/// an element.
pub open spec fn stmt_arrays_nonempty(st: StmtView) -> bool
    decreases st, 0int,
{
    match st {
        StmtView::VarDecl { initializer, .. } => match initializer {
            Some(e) => arrays_nonempty(e),
            None => true,
        },
        StmtView::FuncDecl { body, .. } => all_stmts_arrays_nonempty(body, 0),
        StmtView::If { condition, then_branch, else_branch } => arrays_nonempty(condition)
            && all_stmts_arrays_nonempty(then_branch, 0) && match else_branch {
            Some(es) => all_stmts_arrays_nonempty(es, 0),
            None => true,
        },
        StmtView::While { condition, body } => arrays_nonempty(condition) && all_stmts_arrays_nonempty(
            body,
            0,
        ),
        StmtView::For { collection, body, .. } => arrays_nonempty(collection)
            && all_stmts_arrays_nonempty(body, 0),
        StmtView::Return { value } => match value {
            Some(e) => arrays_nonempty(e),
            None => true,
        },
        StmtView::Expression(e) => arrays_nonempty(e),
        StmtView::Block(ss) => all_stmts_arrays_nonempty(ss, 0),
    }
}

pub open spec fn all_stmts_arrays_nonempty(ss: Seq<StmtView>, i: int) -> bool
    decreases ss, ss.len() - i,
{
    if i < 0 || i >= ss.len() {
        true
    } else {
        stmt_arrays_nonempty(ss[i]) && all_stmts_arrays_nonempty(ss, i + 1)
    }
}

/// An analysis of an expression whose array literals all have elements
/// never reaches an empty one.
pub proof fn lemma_expr_not_hit(a: AState, e: ExprView)
    requires
        arrays_nonempty(e),
    ensures
        !hits_empty(analyze_expr(a, e)),
    decreases e, 1int,
{
    reveal(analyze_expr);
    reveal(analyze_args);
    reveal(analyze_all);
    match e {
        ExprView::Binary { left, right, .. } => {
            lemma_expr_not_hit(a, *left);
            if let Ok((_, a1)) = analyze_expr(a, *left) {
                lemma_expr_not_hit(a1, *right);
            }
        },
        ExprView::Unary { operand, .. } => lemma_expr_not_hit(a, *operand),
        ExprView::Call { callee, arguments } => {
            lemma_expr_not_hit(a, *callee);
            if let Ok((ct, a1)) = analyze_expr(a, *callee) {
                if let Ty::Function(params, _) = ct {
                    lemma_args_not_hit(a1, arguments, params, 0);
                }
            }
        },
        ExprView::Index { array, index } => {
            lemma_expr_not_hit(a, *array);
            if let Ok((_, a1)) = analyze_expr(a, *array) {
                lemma_expr_not_hit(a1, *index);
            }
        },
        ExprView::Assign { value, .. } => lemma_expr_not_hit(a, *value),
        ExprView::Array { elements } => {
            reveal_with_fuel(arrays_nonempty, 2);
            reveal_with_fuel(all_arrays_nonempty, 2);
            assert(arrays_nonempty(elements[0]));
            lemma_expr_not_hit(a, elements[0]);
            if let Ok((_, a1)) = analyze_expr(a, elements[0]) {
                lemma_all_not_hit(a1, elements, 0);
            }
        },
        _ => {},
    }
}

proof fn lemma_args_not_hit(a: AState, args: Seq<ExprView>, params: Seq<Ty>, i: int)
    requires
        all_arrays_nonempty(args, i),
    ensures
        !hits_empty(analyze_args(a, args, params, i)),
    decreases args, args.len() - i,
{
    reveal(analyze_expr);
    reveal(analyze_args);
    reveal(analyze_all);
    if 0 <= i < args.len() {
        lemma_expr_not_hit(a, args[i]);
        if let Ok((_, a1)) = analyze_expr(a, args[i]) {
            lemma_args_not_hit(a1, args, params, i + 1);
        }
    }
}

proof fn lemma_all_not_hit(a: AState, es: Seq<ExprView>, i: int)
    requires
        all_arrays_nonempty(es, i),
    ensures
        !hits_empty(analyze_all(a, es, i)),
    decreases es, es.len() - i,
{
    reveal(analyze_expr);
    reveal(analyze_args);
    reveal(analyze_all);
    if 0 <= i < es.len() {
        lemma_expr_not_hit(a, es[i]);
        if let Ok((_, a1)) = analyze_expr(a, es[i]) {
            lemma_all_not_hit(a1, es, i + 1);
        }
    }
}

/// An analysis of statements whose array literals all have elements never
/// reaches an empty one: where `program_arrays_nonempty` holds, `analyze`
/// may be run.
pub proof fn lemma_stmts_not_hit(a: AState, ss: Seq<StmtView>, i: int)
    requires
        all_stmts_arrays_nonempty(ss, i),
    ensures
        !hits_empty(analyze_stmts(a, ss, i)),
    decreases ss, ss.len() - i,
{
    reveal(analyze_stmt);
    reveal(analyze_stmts);
    reveal(analyze_function);
    reveal(analyze_for);
    if 0 <= i < ss.len() {
        lemma_stmt_not_hit(a, ss[i]);
        if let Ok(a1) = analyze_stmt(a, ss[i]) {
            lemma_stmts_not_hit(a1, ss, i + 1);
        }
    }
}

proof fn lemma_stmt_not_hit(a: AState, st: StmtView)
    requires
        stmt_arrays_nonempty(st),
    ensures
        !hits_empty(analyze_stmt(a, st)),
    decreases st, 0int,
{
    reveal(analyze_stmt);
    reveal(analyze_stmts);
    reveal(analyze_function);
    reveal(analyze_for);
    match st {
        StmtView::VarDecl { type_annotation, initializer, .. } => {
            if let Some(init) = initializer {
                lemma_expr_not_hit(a, init);
            }
            if let Some(ann) = type_annotation {
                lemma_annotation_not_hit(ann);
            }
        },
        StmtView::FuncDecl { name, parameters, return_type, body } => {
            lemma_function_not_hit(a, name, parameters, return_type, body);
        },
        StmtView::If { condition, then_branch, else_branch } => {
            lemma_expr_not_hit(a, condition);
            if let Ok((_, a1)) = analyze_expr(a, condition) {
                lemma_stmts_not_hit(enter(a1), then_branch, 0);
                if let Ok(a2) = analyze_stmts(enter(a1), then_branch, 0) {
                    if let Some(es) = else_branch {
                        lemma_stmts_not_hit(enter(exit(a2)), es, 0);
                    }
                }
            }
        },
        StmtView::While { condition, body } => {
            lemma_expr_not_hit(a, condition);
            if let Ok((_, a1)) = analyze_expr(a, condition) {
                lemma_stmts_not_hit(enter(a1), body, 0);
            }
        },
        StmtView::For { name, collection, body } => {
            lemma_for_not_hit(a, name, collection, body);
        },
        StmtView::Return { value } => {
            if let Some(v) = value {
                lemma_expr_not_hit(a, v);
            }
        },
        StmtView::Expression(e) => lemma_expr_not_hit(a, e),
        StmtView::Block(ss) => lemma_stmts_not_hit(enter(a), ss, 0),
    }
}

proof fn lemma_function_not_hit(
    a: AState,
    name: Seq<char>,
    parameters: Seq<ParameterView>,
    return_type: Option<ExprView>,
    body: Seq<StmtView>,
)
    requires
        all_stmts_arrays_nonempty(body, 0),
    ensures
        !hits_empty(analyze_function(a, name, parameters, return_type, body)),
    decreases body, body.len() + 1,
{
    reveal(analyze_stmt);
    reveal(analyze_stmts);
    reveal(analyze_function);
    reveal(analyze_for);
    lemma_param_types_not_hit(parameters, 0);
    if let Ok(pts) = param_types(parameters, 0) {
        if let Some(r) = return_type {
            lemma_annotation_not_hit(r);
        }
        let rt = match return_type {
            Some(r) => annotation_type(r),
            None => Ok(Ty::Void),
        };
        if let Ok(ret) = rt {
            let f = SymbolView {
                name,
                symbol_type: Ty::Function(pts, Box::new(ret)),
                is_mutable: false,
                is_initialized: true,
            };
            if let Ok(sc) = define(a.scopes, f) {
                let a1 = AState { scopes: sc.push(Seq::empty()), ret: Some(ret) };
                lemma_define_params_not_hit(a1, parameters, pts, 0);
                if let Ok(a2) = define_params(a1, parameters, pts, 0) {
                    lemma_stmts_not_hit(a2, body, 0);
                }
            }
        }
    }
}

proof fn lemma_for_not_hit(a: AState, name: Seq<char>, collection: ExprView, body: Seq<StmtView>)
    requires
        arrays_nonempty(collection),
        all_stmts_arrays_nonempty(body, 0),
    ensures
        !hits_empty(analyze_for(a, name, collection, body)),
    decreases body, body.len() + 1,
{
    reveal(analyze_stmt);
    reveal(analyze_stmts);
    reveal(analyze_function);
    reveal(analyze_for);
    lemma_expr_not_hit(enter(a), collection);
    if let Ok((ct, a1)) = analyze_expr(enter(a), collection) {
        let sym = SymbolView { name, symbol_type: ct, is_mutable: false, is_initialized: true };
        if let Ok(sc) = define(a1.scopes, sym) {
            lemma_stmts_not_hit(with_scopes(a1, sc), body, 0);
        }
    }
}

proof fn lemma_annotation_not_hit(e: ExprView)
    ensures
        !yields_empty(annotation_type(e)),
    decreases e,
{
    if let ExprView::Index { array, index } = e {
        lemma_annotation_not_hit(*index);
    }
}

proof fn lemma_param_types_not_hit(ps: Seq<ParameterView>, i: int)
    ensures
        !yields_empty(param_types(ps, i)),
    decreases ps.len() - i,
{
    if 0 <= i < ps.len() {
        if let Some(te) = ps[i].param_type {
            lemma_annotation_not_hit(te);
        }
        lemma_param_types_not_hit(ps, i + 1);
    }
}

proof fn lemma_define_params_not_hit(a: AState, ps: Seq<ParameterView>, ts: Seq<Ty>, i: int)
    ensures
        !hits_empty(define_params(a, ps, ts, i)),
    decreases ps.len() - i,
{
    if 0 <= i < ps.len() {
        let sym = SymbolView { name: ps[i].name, symbol_type: ts[i], is_mutable: true, is_initialized: true };
        if let Ok(sc) = define(a.scopes, sym) {
            lemma_define_params_not_hit(with_scopes(a, sc), ps, ts, i + 1);
        }
    }
}

/// Whether every array literal of `program` has an element: the analyzer
/// reads the first element of each, and may only be run when they have one.
pub fn program_arrays_nonempty(program: &Program) -> (b: bool)
    ensures
        b == all_stmts_arrays_nonempty(stmts_view(program.statements@), 0),
{
    check_stmts_arrays(&program.statements)
}

fn check_expr_arrays(e: &Expr) -> (b: bool)
    ensures
        b == arrays_nonempty(e@),
    decreases e, 1int,
{
    match e {
        Expr::Binary { left, right, .. } => check_expr_arrays(left) && check_expr_arrays(right),
        Expr::Unary { operand, .. } => check_expr_arrays(operand),
        Expr::Call { callee, arguments } => {
            proof {
                assert(e@ matches ExprView::Call { callee: c, arguments: v } && v =~= exprs_view(arguments@)
                    && *c == (**callee)@);
            }
            check_expr_arrays(callee) && check_exprs_arrays(arguments)
        },
        Expr::Index { array, index } => check_expr_arrays(array) && check_expr_arrays(index),
        Expr::Assign { value, .. } => check_expr_arrays(value),
        Expr::Array { elements } => {
            proof {
                assert(e@ matches ExprView::Array { elements: v } && v =~= exprs_view(elements@));
            }
            elements.len() > 0 && check_exprs_arrays(elements)
        },
        _ => true,
    }
}

fn check_exprs_arrays(es: &Vec<Expr>) -> (b: bool)
    ensures
        b == all_arrays_nonempty(exprs_view(es@), 0),
    decreases es, 0int,
{
    let ghost v = exprs_view(es@);
    for i in 0..es.len()
        invariant
            v == exprs_view(es@),
            all_arrays_nonempty(v, 0) == all_arrays_nonempty(v, i as int),
    {
        if !check_expr_arrays(&es[i]) {
            return false;
        }
    }
    true
}

fn check_stmt_arrays(st: &Stmt) -> (b: bool)
    ensures
        b == stmt_arrays_nonempty(st@),
    decreases st, 1int,
{
    match st {
        Stmt::VarDecl { initializer, .. } => match initializer {
            Some(e) => check_expr_arrays(e),
            None => true,
        },
        Stmt::FuncDecl { body, .. } => {
            proof {
                assert(st@ matches StmtView::FuncDecl { body: b, .. } && b =~= stmts_view(body@));
            }
            check_stmts_arrays(body)
        },
        Stmt::If { condition, then_branch, else_branch } => {
            proof {
                assert(st@ matches StmtView::If { condition: c, then_branch: t, else_branch: e }
                    && t =~= stmts_view(then_branch@) && (match (e, else_branch) {
                        (Some(x), Some(y)) => x =~= stmts_view(y@),
                        (None, None) => true,
                        _ => false,
                    }));
            }
            check_expr_arrays(condition) && check_stmts_arrays(then_branch) && match else_branch {
                Some(es) => check_stmts_arrays(es),
                None => true,
            }
        },
        Stmt::While { condition, body } => {
            proof {
                assert(st@ matches StmtView::While { condition: c, body: b } && b =~= stmts_view(body@));
            }
            check_expr_arrays(condition) && check_stmts_arrays(body)
        },
        Stmt::For { collection, body, .. } => {
            proof {
                assert(st@ matches StmtView::For { collection: c, body: b, .. } && c == collection@
                    && b =~= stmts_view(body@));
            }
            check_expr_arrays(collection) && check_stmts_arrays(body)
        },
        Stmt::Return { value } => match value {
            Some(e) => check_expr_arrays(e),
            None => true,
        },
        Stmt::Expression(e) => check_expr_arrays(e),
        Stmt::Block(ss) => {
            proof {
                assert(st@ matches StmtView::Block(v) && v =~= stmts_view(ss@));
            }
            check_stmts_arrays(ss)
        },
    }
}

fn check_stmts_arrays(ss: &Vec<Stmt>) -> (b: bool)
    ensures
        b == all_stmts_arrays_nonempty(stmts_view(ss@), 0),
    decreases ss, 0int,
{
    let ghost v = stmts_view(ss@);
    for i in 0..ss.len()
        invariant
            v == stmts_view(ss@),
            all_stmts_arrays_nonempty(v, 0) == all_stmts_arrays_nonempty(v, i as int),
    {
        if !check_stmt_arrays(&ss[i]) {
            return false;
        }
    }
    true
}

/// The result of an analysis step agrees with its specification: on success
/// the type and the state after it, on an error the error and the state the
/// analyzer stopped in.
pub open spec fn typed(r: Result<DataType, CompilerError>, before: AState, after: AState, spec: AResult<(Ty, AState)>) -> bool {
    &&& after.scopes.len() >= before.scopes.len()
    &&& match spec {
        Ok((t, s)) => r matches Ok(x) && x@ == t && after == s && s.scopes.len() == before.scopes.len(),
        Err((e, s)) => r matches Err(x) && x@ == e && after == s,
    }
}

pub open spec fn checked(r: Result<(), CompilerError>, before: AState, after: AState, spec: AResult<AState>) -> bool {
    &&& after.scopes.len() >= before.scopes.len()
    &&& match spec {
        Ok(s) => r is Ok && after == s && s.scopes.len() == before.scopes.len(),
        Err((e, s)) => r matches Err(x) && x@ == e && after == s,
    }
}

pub open spec fn opt_ty(t: Option<DataType>) -> Option<Ty> {
    match t {
        Some(x) => Some(x@),
        None => None,
    }
}

pub struct SemanticAnalyzer {
    symbol_table: SymbolTable,
    current_function_return_type: Option<DataType>,
}

impl View for SemanticAnalyzer {
    type V = AState;

    closed spec fn view(&self) -> AState {
        AState { scopes: self.symbol_table@, ret: opt_ty(self.current_function_return_type) }
    }
}

/// `a` followed by the text of type `t`.
fn with_type(a: &str, t: &DataType) -> (s: String)
    ensures
        s@ == a@ + ty_text(t@),
{
    let mut s = String::from_str(a);
    let d = t.debug_string();
    s.append(d.as_str());
    s
}

/// `"a" + t1 + ", found " + t2` for two type texts.
fn mismatch(a: &str, expected: &DataType, found: &DataType) -> (s: String)
    ensures
        s@ == a@ + ty_text(expected@) + ", found "@ + ty_text(found@),
{
    let mut s = with_type(a, expected);
    s.append(", found ");
    let d = found.debug_string();
    s.append(d.as_str());
    s
}

impl SemanticAnalyzer {
    pub fn new() -> (s: Self)
        ensures
            s@ == (AState { scopes: seq![Seq::<SymbolView>::empty()], ret: None }),
    {
        SemanticAnalyzer { symbol_table: SymbolTable::new(), current_function_return_type: None }
    }

    /// The type a type annotation names.
    fn expr_to_type(&self, expr: &Expr) -> (r: Result<DataType, CompilerError>)
        ensures
            match annotation_type(expr@) {
                Ok(t) => r matches Ok(x) && x@ == t,
                Err(e) => r matches Err(x) && x@ == e,
            },
        decreases expr,
    {
        match expr {
            Expr::Identifier(name) => {
                if same_text(name.as_str(), "number") {
                    Ok(DataType::Number)
                } else if same_text(name.as_str(), "str") {
                    Ok(DataType::String)
                } else if same_text(name.as_str(), "bool") {
                    Ok(DataType::Boolean)
                } else if same_text(name.as_str(), "void") {
                    Ok(DataType::Void)
                } else {
                    let mut m = String::from_str("Unknown type: ");
                    m.append(name.as_str());
                    Err(CompilerError::type_error(m))
                }
            },
            Expr::Index { array, index } => {
                if let Expr::Identifier(array_name) = &**array {
                    if same_text(array_name.as_str(), "array") {
                        proof {
                            assert(array_name@ == "array"@);
                            assert((**array)@ == ExprView::Identifier(array_name@));
                            assert(expr@ matches ExprView::Index { array: a, index: i } && *a == (**array)@ && *i == (**index)@);
                            assert(annotation_type(expr@) == match annotation_type((**index)@) {
                                Ok(t) => Ok(Ty::Array(Box::new(t))),
                                Err(x) => Err(x),
                            });
                        }
                        let element_type = match self.expr_to_type(&**index) {
                            Ok(t) => t,
                            Err(e) => {
                                return Err(e);
                            },
                        };
                        return Ok(DataType::Array(Box::new(element_type)));
                    }
                }
                Err(CompilerError::type_error(String::from_str("Invalid type expression")))
            },
            _ => Err(CompilerError::type_error(String::from_str("Invalid type expression"))),
        }
    }
}

/// Expressions.
impl SemanticAnalyzer {
    /// The type of `expr`.
    fn analyze_expression(&mut self, expr: &Expr) -> (r: Result<DataType, CompilerError>)
        requires
            old(self)@.scopes.len() > 0,
            !hits_empty(analyze_expr(old(self)@, expr@)),
        ensures
            typed(r, old(self)@, final(self)@, analyze_expr(old(self)@, expr@)),
        decreases expr, 2int,
    {
        proof {
            reveal(analyze_expr);
        }
        match expr {
            Expr::Number(_) => Ok(DataType::Number),
            Expr::String(_) => Ok(DataType::String),
            Expr::Boolean(_) => Ok(DataType::Boolean),
            Expr::Identifier(_) => self.analyze_identifier(expr),
            Expr::Binary { .. } => self.analyze_binary_expression(expr),
            Expr::Unary { .. } => self.analyze_unary_expression(expr),
            Expr::Call { .. } => self.analyze_call_expression(expr),
            Expr::Index { .. } => self.analyze_index_expression(expr),
            Expr::Assign { .. } => self.analyze_assignment(expr),
            Expr::Array { .. } => self.analyze_array(expr),
        }
    }

    fn analyze_binary_expression(&mut self, expr: &Expr) -> (r: Result<DataType, CompilerError>)
        requires
            old(self)@.scopes.len() > 0,
            !hits_empty(analyze_expr(old(self)@, expr@)),
            expr is Binary,
        ensures
            typed(r, old(self)@, final(self)@, analyze_expr(old(self)@, expr@)),
        decreases expr, 1int,
    {
        proof {
            reveal(analyze_expr);
        }
        match expr {
            Expr::Binary { left, operator, right } => {
                let left_type = match self.analyze_expression(&**left) {
                    Ok(t) => t,
                    Err(e) => {
                        return Err(e);
                    },
                };
                let right_type = match self.analyze_expression(&**right) {
                    Ok(t) => t,
                    Err(e) => {
                        return Err(e);
                    },
                };
                match operator {
                    BinaryOp::Add | BinaryOp::Subtract | BinaryOp::Multiply | BinaryOp::Divide
                    | BinaryOp::Modulo | BinaryOp::BitAnd | BinaryOp::BitOr => {
                        if left_type == DataType::Number && right_type == DataType::Number {
                            Ok(DataType::Number)
                        } else {
                            Err(
                                CompilerError::semantic_error(
                                    String::from_str("Arithmetic operations require numeric operands"),
                                ),
                            )
                        }
                    },
                    BinaryOp::Equal | BinaryOp::NotEqual => {
                        if left_type == right_type {
                            Ok(DataType::Boolean)
                        } else {
                            Err(
                                CompilerError::semantic_error(
                                    String::from_str("Comparison requires operands of same type"),
                                ),
                            )
                        }
                    },
                    BinaryOp::LessThan | BinaryOp::LessEqual | BinaryOp::GreaterThan
                    | BinaryOp::GreaterEqual => {
                        if left_type == DataType::Number && right_type == DataType::Number {
                            Ok(DataType::Boolean)
                        } else {
                            Err(
                                CompilerError::semantic_error(
                                    String::from_str("Comparison operations require numeric operands"),
                                ),
                            )
                        }
                    },
                    BinaryOp::LogicalAnd | BinaryOp::LogicalOr => {
                        if left_type == DataType::Boolean && right_type == DataType::Boolean {
                            Ok(DataType::Boolean)
                        } else {
                            Err(
                                CompilerError::semantic_error(
                                    String::from_str("Logical operations require boolean operands"),
                                ),
                            )
                        }
                    },
                    BinaryOp::Assign => {
                        if left_type == right_type {
                            Ok(left_type)
                        } else {
                            Err(
                                CompilerError::semantic_error(
                                    String::from_str("Assignment requires operands of same type"),
                                ),
                            )
                        }
                    },
                }
            },
            _ => Ok(DataType::Any),
        }
    }

    fn analyze_unary_expression(&mut self, expr: &Expr) -> (r: Result<DataType, CompilerError>)
        requires
            old(self)@.scopes.len() > 0,
            !hits_empty(analyze_expr(old(self)@, expr@)),
            expr is Unary,
        ensures
            typed(r, old(self)@, final(self)@, analyze_expr(old(self)@, expr@)),
        decreases expr, 1int,
    {
        proof {
            reveal(analyze_expr);
        }
        match expr {
            Expr::Unary { operator, operand } => {
                let operand_type = match self.analyze_expression(&**operand) {
                    Ok(t) => t,
                    Err(e) => {
                        return Err(e);
                    },
                };
                match operator {
                    UnaryOp::Minus => {
                        if operand_type == DataType::Number {
                            Ok(DataType::Number)
                        } else {
                            Err(
                                CompilerError::semantic_error(
                                    String::from_str("Unary minus requires numeric operand"),
                                ),
                            )
                        }
                    },
                    UnaryOp::Not => {
                        if operand_type == DataType::Boolean {
                            Ok(DataType::Boolean)
                        } else {
                            Err(
                                CompilerError::semantic_error(
                                    String::from_str("Logical not requires boolean operand"),
                                ),
                            )
                        }
                    },
                }
            },
            _ => Ok(DataType::Any),
        }
    }

    fn analyze_index_expression(&mut self, expr: &Expr) -> (r: Result<DataType, CompilerError>)
        requires
            old(self)@.scopes.len() > 0,
            !hits_empty(analyze_expr(old(self)@, expr@)),
            expr is Index,
        ensures
            typed(r, old(self)@, final(self)@, analyze_expr(old(self)@, expr@)),
        decreases expr, 1int,
    {
        proof {
            reveal(analyze_expr);
        }
        match expr {
            Expr::Index { array, index } => {
                let array_type = match self.analyze_expression(&**array) {
                    Ok(t) => t,
                    Err(e) => {
                        return Err(e);
                    },
                };
                let index_type = match self.analyze_expression(&**index) {
                    Ok(t) => t,
                    Err(e) => {
                        return Err(e);
                    },
                };
                if index_type != DataType::Number {
                    return Err(
                        CompilerError::semantic_error(String::from_str("Array index must be numeric")),
                    );
                }
                match array_type {
                    DataType::Array(element_type) => Ok(*element_type),
                    _ => Err(
                        CompilerError::semantic_error(String::from_str("Cannot index non-array value")),
                    ),
                }
            },
            _ => Ok(DataType::Any),
        }
    }
}

/// Calls and array literals.
impl SemanticAnalyzer {
    fn analyze_call_expression(&mut self, expr: &Expr) -> (r: Result<DataType, CompilerError>)
        requires
            old(self)@.scopes.len() > 0,
            !hits_empty(analyze_expr(old(self)@, expr@)),
            expr is Call,
        ensures
            typed(r, old(self)@, final(self)@, analyze_expr(old(self)@, expr@)),
        decreases expr, 1int,
    {
        proof {
            reveal(analyze_expr);
            reveal(analyze_args);
        }
        match expr {
            Expr::Call { callee, arguments } => {
                let ghost args = exprs_view(arguments@);
                proof {
                    assert(expr@ matches ExprView::Call { callee: c, arguments: v } && v =~= args
                        && *c == (**callee)@);
                }
                let callee_type = match self.analyze_expression(&**callee) {
                    Ok(t) => t,
                    Err(e) => {
                        return Err(e);
                    },
                };
                let ghost a1 = self@;
                match callee_type {
                    DataType::Function(param_types, return_type) => {
                        let ghost params = tys_of(param_types@);
                        proof {
                            crate::ast::lemma_function_view(param_types, return_type);
                        }
                        if arguments.len() != param_types.len() {
                            let mut m = String::from_str("Function expects ");
                            let a = decimal_string(param_types.len());
                            m.append(a.as_str());
                            m.append(" arguments, got ");
                            let b = decimal_string(arguments.len());
                            m.append(b.as_str());
                            return Err(CompilerError::semantic_error(m));
                        }
                        match self.check_arguments(arguments, &param_types) {
                            Ok(()) => {},
                            Err(e) => {
                                return Err(e);
                            },
                        }
                        Ok(*return_type)
                    },
                    _ => Err(CompilerError::semantic_error(String::from_str("Cannot call non-function value"))),
                }
            },
            _ => Ok(DataType::Any),
        }
    }

    fn analyze_array(&mut self, expr: &Expr) -> (r: Result<DataType, CompilerError>)
        requires
            old(self)@.scopes.len() > 0,
            !hits_empty(analyze_expr(old(self)@, expr@)),
            expr is Array,
        ensures
            typed(r, old(self)@, final(self)@, analyze_expr(old(self)@, expr@)),
        decreases expr, 1int,
    {
        proof {
            reveal(analyze_expr);
            reveal(analyze_all);
        }
        match expr {
            Expr::Array { elements } => {
                let ghost es = exprs_view(elements@);
                proof {
                    assert(expr@ matches ExprView::Array { elements: v } && v =~= es);
                }
                let element_type = match self.analyze_expression(&elements[0]) {
                    Ok(t) => t,
                    Err(e) => {
                        return Err(e);
                    },
                };
                match self.analyze_elements(elements) {
                    Ok(()) => {},
                    Err(e) => {
                        return Err(e);
                    },
                }
                Ok(DataType::Array(Box::new(element_type)))
            },
            _ => Ok(DataType::Any),
        }
    }
}

/// Lists of expressions.
impl SemanticAnalyzer {
    /// Analyzes each argument and checks it against its parameter type.
    fn check_arguments(&mut self, arguments: &Vec<Expr>, param_types: &Vec<DataType>) -> (r: Result<(), CompilerError>)
        requires
            old(self)@.scopes.len() > 0,
            !hits_empty(analyze_args(old(self)@, exprs_view(arguments@), tys_of(param_types@), 0)),
            arguments@.len() == param_types@.len(),
        ensures
            checked(r, old(self)@, final(self)@, analyze_args(old(self)@, exprs_view(arguments@), tys_of(param_types@), 0)),
        decreases arguments, 0int,
    {
        let ghost args = exprs_view(arguments@);
        let ghost params = tys_of(param_types@);
        let ghost a0 = self@;
        for i in 0..arguments.len()
            invariant
                args == exprs_view(arguments@),
                params == tys_of(param_types@),
                arguments@.len() == param_types@.len(),
                !hits_empty(analyze_args(a0, args, params, 0)),
                a0 == old(self)@,
                self@.scopes.len() == a0.scopes.len(),
                a0.scopes.len() > 0,
                analyze_args(self@, args, params, i as int) == analyze_args(a0, args, params, 0),
        {
            proof {
                reveal(analyze_args);
                reveal(analyze_expr);
            }
            let arg_type = match self.analyze_expression(&arguments[i]) {
                Ok(t) => t,
                Err(e) => {
                    return Err(e);
                },
            };
            if arg_type != param_types[i] {
                let mut m = String::from_str("Argument ");
                let n = decimal_string(i);
                m.append(n.as_str());
                let rest = mismatch(" type mismatch: expected ", &param_types[i], &arg_type);
                m.append(rest.as_str());
                proof {
                    assert(m@ =~= "Argument "@ + decimal(i as nat) + " type mismatch: expected "@ + ty_text(
                        params[i as int],
                    ) + ", found "@ + ty_text(arg_type@));
                }
                return Err(CompilerError::semantic_error(m));
            }
        }
        proof {
            reveal(analyze_args);
        }
        Ok(())
    }

    /// Analyzes each element of an array literal; each must have the type it has.
    fn analyze_elements(&mut self, elements: &Vec<Expr>) -> (r: Result<(), CompilerError>)
        requires
            old(self)@.scopes.len() > 0,
            !hits_empty(analyze_all(old(self)@, exprs_view(elements@), 0)),
        ensures
            checked(r, old(self)@, final(self)@, analyze_all(old(self)@, exprs_view(elements@), 0)),
        decreases elements, 0int,
    {
        let ghost es = exprs_view(elements@);
        let ghost a0 = self@;
        for i in 0..elements.len()
            invariant
                es == exprs_view(elements@),
                !hits_empty(analyze_all(a0, es, 0)),
                a0 == old(self)@,
                self@.scopes.len() == a0.scopes.len(),
                a0.scopes.len() > 0,
                analyze_all(self@, es, i as int) == analyze_all(a0, es, 0),
        {
            proof {
                reveal(analyze_all);
                reveal(analyze_expr);
            }
            let element_type = match self.analyze_expression(&elements[i]) {
                Ok(t) => t,
                Err(e) => {
                    return Err(e);
                },
            };
            if element_type != element_type {
                proof {
                    crate::ast::lemma_compatible_refl(element_type@);
                }
                return Err(
                    CompilerError::semantic_error(
                        with_type("All elements of array must be of the same type, found ", &element_type),
                    ),
                );
            }
        }
        proof {
            reveal(analyze_all);
        }
        Ok(())
    }

    fn analyze_identifier(&mut self, expr: &Expr) -> (r: Result<DataType, CompilerError>)
        requires
            old(self)@.scopes.len() > 0,
            expr is Identifier,
        ensures
            typed(r, old(self)@, final(self)@, analyze_expr(old(self)@, expr@)),
    {
        proof {
            reveal(analyze_expr);
        }
        match expr {
            Expr::Identifier(name) => match self.symbol_table.get(name.as_str()) {
                Some(symbol) => {
                    if !symbol.is_initialized {
                        return Err(
                            CompilerError::semantic_error(
                                join3("Use of uninitialized variable '", name.as_str(), "'"),
                            ),
                        );
                    }
                    Ok(symbol.symbol_type.clone())
                },
                None => Err(CompilerError::semantic_error(join3("Undefined variable '", name.as_str(), "'"))),
            },
            _ => Ok(DataType::Any),
        }
    }

    fn analyze_assignment(&mut self, expr: &Expr) -> (r: Result<DataType, CompilerError>)
        requires
            old(self)@.scopes.len() > 0,
            !hits_empty(analyze_expr(old(self)@, expr@)),
            expr is Assign,
        ensures
            typed(r, old(self)@, final(self)@, analyze_expr(old(self)@, expr@)),
        decreases expr, 1int,
    {
        proof {
            reveal(analyze_expr);
        }
        match expr {
            Expr::Assign { name, value } => {
                let value_type = match self.analyze_expression(&**value) {
                    Ok(t) => t,
                    Err(e) => {
                        return Err(e);
                    },
                };
                let ghost a1 = self@;
                match self.symbol_table.assign(name.as_str(), value_type.clone()) {
                    Ok(()) => {},
                    Err(e) => {
                        return Err(e);
                    },
                }
                proof {
                    let sc = assign(a1.scopes, name@, value_type@)->Ok_0;
                    lemma_lookup_bounds(a1.scopes, name@, a1.scopes.len() as int);
                    assert(self@ =~= with_scopes(a1, sc));
                    assert(sc.len() == a1.scopes.len());
                    assert(analyze_expr(old(self)@, (**value)@) == Ok::<(Ty, AState), (CompilerErrorView, AState)>((value_type@, a1)));
                    assert(expr@ == (ExprView::Assign { name: name@, value: Box::new((**value)@) }));
                }
                Ok(value_type)
            },
            _ => Ok(DataType::Any),
        }
    }
}

/// Statements.
impl SemanticAnalyzer {
    /// Checks a whole program. The analysis reads the first element of each
    /// array literal it reaches, so it may not reach an empty one: where
    /// `program_arrays_nonempty` holds, `lemma_stmts_not_hit` shows it does not.
    pub fn analyze(&mut self, program: &Program) -> (r: Result<(), CompilerError>)
        requires
            old(self)@.scopes.len() > 0,
            !hits_empty(analyze_stmts(old(self)@, stmts_view(program.statements@), 0)),
        ensures
            checked(r, old(self)@, final(self)@, analyze_stmts(old(self)@, stmts_view(program.statements@), 0)),
    {
        self.analyze_statements(&program.statements)
    }

    /// Checks each statement, in order.
    fn analyze_statements(&mut self, ss: &Vec<Stmt>) -> (r: Result<(), CompilerError>)
        requires
            old(self)@.scopes.len() > 0,
            !hits_empty(analyze_stmts(old(self)@, stmts_view(ss@), 0)),
        ensures
            checked(r, old(self)@, final(self)@, analyze_stmts(old(self)@, stmts_view(ss@), 0)),
        decreases ss, 0int,
    {
        let ghost v = stmts_view(ss@);
        let ghost a0 = self@;
        for i in 0..ss.len()
            invariant
                v == stmts_view(ss@),
                !hits_empty(analyze_stmts(a0, v, 0)),
                a0 == old(self)@,
                self@.scopes.len() == a0.scopes.len(),
                a0.scopes.len() > 0,
                analyze_stmts(self@, v, i as int) == analyze_stmts(a0, v, 0),
        {
            proof {
                reveal(analyze_stmts);
                reveal(analyze_stmt);
            }
            match self.analyze_statement(&ss[i]) {
                Ok(()) => {},
                Err(e) => {
                    return Err(e);
                },
            }
        }
        proof {
            reveal(analyze_stmts);
        }
        Ok(())
    }

    /// Checks a block: its statements in a scope of their own.
    fn analyze_block(&mut self, ss: &Vec<Stmt>) -> (r: Result<(), CompilerError>)
        requires
            old(self)@.scopes.len() > 0,
            !hits_empty(analyze_stmts(enter(old(self)@), stmts_view(ss@), 0)),
        ensures
            checked(r, old(self)@, final(self)@, match analyze_stmts(enter(old(self)@), stmts_view(ss@), 0) {
                Err(x) => Err(x),
                Ok(a1) => Ok(exit(a1)),
            }),
        decreases ss, 1int,
    {
        self.symbol_table.enter_scope();
        proof {
            assert(self@ =~= enter(old(self)@));
        }
        match self.analyze_statements(ss) {
            Ok(()) => {},
            Err(e) => {
                return Err(e);
            },
        }
        let ghost a1 = self@;
        self.symbol_table.exit_scope();
        proof {
            assert(self@ =~= exit(a1));
        }
        Ok(())
    }
}

impl SemanticAnalyzer {
    /// Checks one statement.
    fn analyze_statement(&mut self, stmt: &Stmt) -> (r: Result<(), CompilerError>)
        requires
            old(self)@.scopes.len() > 0,
            !hits_empty(analyze_stmt(old(self)@, stmt@)),
        ensures
            checked(r, old(self)@, final(self)@, analyze_stmt(old(self)@, stmt@)),
        decreases stmt, 2int,
    {
        proof {
            reveal(analyze_stmt);
            reveal(analyze_function);
            reveal(analyze_for);
        }
        match stmt {
            Stmt::VarDecl { .. } => self.analyze_var_declaration(stmt),
            Stmt::FuncDecl { name, parameters, return_type, body } => {
                proof {
                    reveal(analyze_stmts);
                    assert(stmt@ matches StmtView::FuncDecl { name: n, parameters: p, return_type: rt, body: b }
                        && n == name@ && p == params_view(parameters@) && rt == opt_expr_view(
                        *return_type,
                    ) && b =~= stmts_view(body@));
                }
                self.analyze_function_declaration(name, parameters, return_type, body)
            },
            Stmt::If { .. } => self.analyze_if_statement(stmt),
            Stmt::While { .. } => self.analyze_while_statement(stmt),
            Stmt::For { name, collection, body } => {
                proof {
                    reveal(analyze_stmts);
                    assert(stmt@ matches StmtView::For { name: n, collection: c, body: b } && n == name@
                        && c == collection@ && b =~= stmts_view(body@));
                }
                self.analyze_for_statement(name, collection, body)
            },
            Stmt::Return { value } => self.analyze_return_statement(value),
            Stmt::Expression(expr) => {
                match self.analyze_expression(expr) {
                    Ok(_) => Ok(()),
                    Err(e) => Err(e),
                }
            },
            Stmt::Block(statements) => {
                proof {
                    reveal(analyze_stmts);
                    assert(stmt@ matches StmtView::Block(v) && v =~= stmts_view(statements@));
                }
                self.analyze_block(statements)
            },
        }
    }

    fn analyze_return_statement(&mut self, value: &Option<Expr>) -> (r: Result<(), CompilerError>)
        requires
            old(self)@.scopes.len() > 0,
            !hits_empty(analyze_stmt(old(self)@, StmtView::Return { value: opt_expr_view(*value) })),
        ensures
            checked(r, old(self)@, final(self)@, analyze_stmt(old(self)@, StmtView::Return { value: opt_expr_view(*value) })),
    {
        proof {
            reveal(analyze_stmt);
        }
        let return_type = match value {
            Some(expr) => match self.analyze_expression(expr) {
                Ok(t) => t,
                Err(e) => {
                    return Err(e);
                },
            },
            None => DataType::Void,
        };
        let expected_type = match &self.current_function_return_type {
            Some(t) => t.clone(),
            None => DataType::Void,
        };
        if return_type != expected_type {
            return Err(
                CompilerError::semantic_error(
                    mismatch("Return type mismatch: expected ", &expected_type, &return_type),
                ),
            );
        }
        Ok(())
    }

    fn analyze_var_declaration(&mut self, stmt: &Stmt) -> (r: Result<(), CompilerError>)
        requires
            old(self)@.scopes.len() > 0,
            !hits_empty(analyze_stmt(old(self)@, stmt@)),
            stmt is VarDecl,
        ensures
            checked(r, old(self)@, final(self)@, analyze_stmt(old(self)@, stmt@)),
    {
        proof {
            reveal(analyze_stmt);
        }
        match stmt {
            Stmt::VarDecl { name, type_annotation, initializer, is_mutable } => {
                let var_type = match initializer {
                    Some(init_expr) => {
                        let expr_type = match self.analyze_expression(init_expr) {
                            Ok(t) => t,
                            Err(e) => {
                                return Err(e);
                            },
                        };
                        match type_annotation {
                            Some(annotation_expr) => {
                                let annotation = match self.expr_to_type(annotation_expr) {
                                    Ok(t) => t,
                                    Err(e) => {
                                        return Err(e);
                                    },
                                };
                                if annotation != expr_type {
                                    return Err(
                                        CompilerError::semantic_error(
                                            mismatch(
                                                "Type mismatch in variable declaration: expected ",
                                                &annotation,
                                                &expr_type,
                                            ),
                                        ),
                                    );
                                }
                                annotation
                            },
                            None => expr_type,
                        }
                    },
                    None => match type_annotation {
                        Some(annotation_expr) => match self.expr_to_type(annotation_expr) {
                            Ok(t) => t,
                            Err(e) => {
                                return Err(e);
                            },
                        },
                        None => {
                            return Err(
                                CompilerError::semantic_error(
                                    String::from_str(
                                        "Variable declaration must have either type annotation or initializer",
                                    ),
                                ),
                            );
                        },
                    },
                };
                let symbol = Symbol {
                    name: name.clone(),
                    symbol_type: var_type,
                    is_mutable: *is_mutable,
                    is_initialized: initializer.is_some(),
                };
                let ghost a1 = self@;
                let r = self.symbol_table.define(name.clone(), symbol);
                proof {
                    if r is Ok {
                        assert(self@ =~= with_scopes(a1, self.symbol_table@));
                    }
                }
                r
            },
            _ => Ok(()),
        }
    }
}

/// Control flow.
impl SemanticAnalyzer {
    fn analyze_if_statement(&mut self, stmt: &Stmt) -> (r: Result<(), CompilerError>)
        requires
            old(self)@.scopes.len() > 0,
            !hits_empty(analyze_stmt(old(self)@, stmt@)),
            stmt is If,
        ensures
            checked(r, old(self)@, final(self)@, analyze_stmt(old(self)@, stmt@)),
        decreases stmt, 1int,
    {
        proof {
            reveal(analyze_stmt);
            reveal(analyze_stmts);
        }
        match stmt {
            Stmt::If { condition, then_branch, else_branch } => {
                proof {
                    assert(stmt@ matches StmtView::If { condition: c, then_branch: t, else_branch: e }
                        && t =~= stmts_view(then_branch@) && (match (e, else_branch) {
                            (Some(x), Some(y)) => x =~= stmts_view(y@),
                            (None, None) => true,
                            _ => false,
                        }));
                }
                let condition_type = match self.analyze_expression(condition) {
                    Ok(t) => t,
                    Err(e) => {
                        return Err(e);
                    },
                };
                if condition_type != DataType::Boolean {
                    return Err(
                        CompilerError::semantic_error(
                            with_type("If condition must be boolean, found ", &condition_type),
                        ),
                    );
                }
                let ghost a1 = self@;
                self.symbol_table.enter_scope();
                proof {
                    assert(self@ =~= enter(a1));
                }
                match self.analyze_statements(then_branch) {
                    Ok(()) => {},
                    Err(e) => {
                        return Err(e);
                    },
                }
                let ghost a2 = self@;
                self.symbol_table.exit_scope();
                proof {
                    assert(self@ =~= exit(a2));
                }
                match else_branch {
                    Some(else_stmts) => {
                        match self.analyze_block(else_stmts) {
                            Ok(()) => {},
                            Err(e) => {
                                return Err(e);
                            },
                        }
                    },
                    None => {},
                }
                Ok(())
            },
            _ => Ok(()),
        }
    }

    fn analyze_while_statement(&mut self, stmt: &Stmt) -> (r: Result<(), CompilerError>)
        requires
            old(self)@.scopes.len() > 0,
            !hits_empty(analyze_stmt(old(self)@, stmt@)),
            stmt is While,
        ensures
            checked(r, old(self)@, final(self)@, analyze_stmt(old(self)@, stmt@)),
        decreases stmt, 1int,
    {
        proof {
            reveal(analyze_stmt);
            reveal(analyze_stmts);
        }
        match stmt {
            Stmt::While { condition, body } => {
                proof {
                    assert(stmt@ matches StmtView::While { condition: c, body: b } && b =~= stmts_view(body@));
                }
                let condition_type = match self.analyze_expression(condition) {
                    Ok(t) => t,
                    Err(e) => {
                        return Err(e);
                    },
                };
                if condition_type != DataType::Boolean {
                    return Err(
                        CompilerError::semantic_error(
                            with_type("While condition must be boolean, found ", &condition_type),
                        ),
                    );
                }
                self.analyze_block(body)
            },
            _ => Ok(()),
        }
    }

    #[verifier::rlimit(30)]
    fn analyze_for_statement(&mut self, name: &String, collection: &Expr, body: &Vec<Stmt>) -> (r: Result<(), CompilerError>)
        requires
            old(self)@.scopes.len() > 0,
            !hits_empty(analyze_for(old(self)@, name@, collection@, stmts_view(body@))),
        ensures
            checked(r, old(self)@, final(self)@, analyze_for(old(self)@, name@, collection@, stmts_view(body@))),
        decreases body, 1int,
    {
        proof {
            reveal(analyze_for);
            reveal(analyze_stmts);
        }
        self.symbol_table.enter_scope();
        proof {
            assert(self@ =~= enter(old(self)@));
        }
        let collection_type = match self.analyze_expression(collection) {
            Ok(t) => t,
            Err(e) => {
                return Err(e);
            },
        };
        let any_array = DataType::Array(Box::new(DataType::Any));
        proof {
            reveal_with_fuel(crate::ast::ty_of, 2);
            assert(any_array@ == Ty::Array(Box::new(Ty::Any)));
        }
        if collection_type != any_array {
            return Err(
                CompilerError::semantic_error(
                    with_type("For loop collection must be an array, found ", &collection_type),
                ),
            );
        }
        let symbol = Symbol {
            name: name.clone(),
            symbol_type: collection_type,
            is_mutable: false,
            is_initialized: true,
        };
        let ghost a1 = self@;
        match self.symbol_table.define(name.clone(), symbol) {
            Ok(()) => {},
            Err(e) => {
                return Err(e);
            },
        }
        proof {
            assert(self@ =~= with_scopes(a1, self.symbol_table@));
        }
        match self.analyze_statements(body) {
            Ok(()) => {},
            Err(e) => {
                return Err(e);
            },
        }
        let ghost a2 = self@;
        self.symbol_table.exit_scope();
        proof {
            assert(self@ =~= exit(a2));
        }
        Ok(())
    }
}

/// `pre` before what `r` gives, or its error.
pub open spec fn after_prefix(pre: Seq<Ty>, r: SResult<Seq<Ty>>) -> SResult<Seq<Ty>> {
    match r {
        Ok(rest) => Ok(pre + rest),
        Err(e) => Err(e),
    }
}

/// Functions.
impl SemanticAnalyzer {
    #[verifier::rlimit(30)]
    fn analyze_function_declaration(
        &mut self,
        name: &String,
        parameters: &Vec<Parameter>,
        return_type: &Option<Expr>,
        body: &Vec<Stmt>,
    ) -> (r: Result<(), CompilerError>)
        requires
            old(self)@.scopes.len() > 0,
            !hits_empty(
                analyze_function(
                    old(self)@,
                    name@,
                    params_view(parameters@),
                    opt_expr_view(*return_type),
                    stmts_view(body@),
                ),
            ),
        ensures
            checked(
                r,
                old(self)@,
                final(self)@,
                analyze_function(
                    old(self)@,
                    name@,
                    params_view(parameters@),
                    opt_expr_view(*return_type),
                    stmts_view(body@),
                ),
            ),
        decreases body, 1int,
    {
        proof {
            reveal(analyze_function);
            reveal(analyze_stmts);
        }
        let ghost ps = params_view(parameters@);
        proof {
            assert(param_types(ps, 0) == after_prefix(Seq::empty(), param_types(ps, 0))) by {
                if let Ok(rest) = param_types(ps, 0) {
                    assert(Seq::<Ty>::empty() + rest =~= rest);
                }
            }
        }
        let mut types_so_far: Vec<DataType> = Vec::new();
        for i in 0..parameters.len()
            invariant
                ps == params_view(parameters@),
                self@ == old(self)@,
                types_so_far@.len() == i,
                param_types(ps, 0) == after_prefix(tys_of(types_so_far@), param_types(ps, i as int)),
        {
            proof {
                assert(ps[i as int] == parameters@[i as int]@);
            }
            let t = match &parameters[i].param_type {
                Some(type_expr) => match self.expr_to_type(type_expr) {
                    Ok(t) => t,
                    Err(e) => {
                        proof {
                            reveal(analyze_function);
                            assert(ps[i as int].param_type == Some(type_expr@));
                            assert(param_types(ps, i as int) == Err::<Seq<Ty>, CompilerErrorView>(e@));
                            assert(param_types(ps, 0) == Err::<Seq<Ty>, CompilerErrorView>(e@));
                            assert(analyze_function(old(self)@, name@, ps, opt_expr_view(*return_type), stmts_view(body@)) == Err::<AState, (CompilerErrorView, AState)>((e@, old(self)@)));
                        }
                        return Err(e);
                    },
                },
                None => DataType::Any,
            };
            let ghost before = types_so_far@;
            types_so_far.push(t);
            proof {
                assert(tys_of(types_so_far@) =~= tys_of(before).push(t@));
                if let Ok(rest) = param_types(ps, i + 1) {
                    assert(tys_of(before) + (seq![t@] + rest) =~= tys_of(types_so_far@) + rest);
                }
            }
        }
        proof {
            assert(tys_of(types_so_far@) + Seq::<Ty>::empty() =~= tys_of(types_so_far@));
        }
        let ghost pts = tys_of(types_so_far@);
        let ret_type = match return_type {
            Some(return_type_expr) => match self.expr_to_type(return_type_expr) {
                Ok(t) => t,
                Err(e) => {
                    return Err(e);
                },
            },
            None => DataType::Void,
        };
        let type_list = crate::ast::clone_types(&types_so_far);
        let returned = Box::new(ret_type.clone());
        proof {
            crate::ast::lemma_function_view(type_list, returned);
        }
        let function_type = DataType::Function(type_list, returned);
        let ghost rv = ret_type@;
        let ghost fv = SymbolView {
            name: name@,
            symbol_type: Ty::Function(pts, Box::new(rv)),
            is_mutable: false,
            is_initialized: true,
        };
        let function_symbol = Symbol {
            name: name.clone(),
            symbol_type: function_type,
            is_mutable: false,
            is_initialized: true,
        };
        proof {
            assert(function_symbol@ == fv);
        }
        match self.symbol_table.define(name.clone(), function_symbol) {
            Ok(()) => {},
            Err(e) => {
                return Err(e);
            },
        }
        self.symbol_table.enter_scope();
        self.current_function_return_type = Some(ret_type);
        let ghost a1 = self@;
        proof {
            assert(a1 =~= AState {
                scopes: define(old(self)@.scopes, fv)->Ok_0.push(Seq::empty()),
                ret: Some(rv),
            });
            reveal(analyze_function);
            assert(param_types(ps, parameters.len() as int) == Ok::<Seq<Ty>, CompilerErrorView>(Seq::empty()));
            assert(param_types(ps, 0) == Ok::<Seq<Ty>, CompilerErrorView>(pts));
        }
        let ghost whole = analyze_function(old(self)@, name@, ps, opt_expr_view(*return_type), stmts_view(body@));
        assert(define_params(a1, ps, pts, 0) is Err ==> whole == define_params(a1, ps, pts, 0));
        for i in 0..parameters.len()
            invariant
                whole == analyze_function(old(self)@, name@, ps, opt_expr_view(*return_type), stmts_view(body@)),
                define_params(a1, ps, pts, 0) is Err ==> whole == define_params(a1, ps, pts, 0),
                a1.scopes.len() == old(self)@.scopes.len() + 1,
                ps == params_view(parameters@),
                pts == tys_of(types_so_far@),
                types_so_far@.len() == parameters@.len(),
                a1.scopes.len() > 0,
                self@.scopes.len() == a1.scopes.len(),
                self@.ret == a1.ret,
                define_params(self@, ps, pts, i as int) == define_params(a1, ps, pts, 0),
        {
            let param = &parameters[i];
            let param_symbol = Symbol {
                name: param.name.clone(),
                symbol_type: types_so_far[i].clone(),
                is_mutable: true,
                is_initialized: true,
            };
            let ghost before = self@;
            proof {
                assert(ps[i as int] == parameters@[i as int]@);
                assert(param_symbol@ == SymbolView {
                    name: ps[i as int].name,
                    symbol_type: pts[i as int],
                    is_mutable: true,
                    is_initialized: true,
                });
            }
            match self.symbol_table.define(param.name.clone(), param_symbol) {
                Ok(()) => {},
                Err(e) => {
                    proof {
                        assert(define(before.scopes, param_symbol@) == Err::<Seq<Seq<SymbolView>>, CompilerErrorView>(e@));
                        assert(define_params(before, ps, pts, i as int) == Err::<AState, (CompilerErrorView, AState)>((e@, before)));
                        assert(whole == Err::<AState, (CompilerErrorView, AState)>((e@, before)));
                    }
                    return Err(e);
                },
            }
            proof {
                assert(self@ =~= with_scopes(before, self.symbol_table@));
            }
        }
        proof {
            assert(define_params(self@, ps, pts, parameters.len() as int) == Ok::<AState, (CompilerErrorView, AState)>(self@));
            assert(param_types(ps, parameters.len() as int) == Ok::<Seq<Ty>, CompilerErrorView>(Seq::empty()));
            assert(param_types(ps, 0) == Ok::<Seq<Ty>, CompilerErrorView>(pts));
            assert(define_params(a1, ps, pts, 0) == Ok::<AState, (CompilerErrorView, AState)>(self@));
        }
        match self.analyze_statements(body) {
            Ok(()) => {},
            Err(e) => {
                return Err(e);
            },
        }
        let ghost a3 = self@;
        self.current_function_return_type = None;
        self.symbol_table.exit_scope();
        proof {
            assert(self@ =~= exit(AState { scopes: a3.scopes, ret: None }));
        }
        Ok(())
    }
}

} // verus!
