//! The variables in scope while one function is compiled: its locals, what it
//! captures, how deep its blocks are nested, and the loops it is inside.
use super::value::UpvalueInfo;
use crate::error::{plain, Error, ErrorType, ErrorView, Result};
use vstd::prelude::*;
use vstd::string::*;

verus! {

/// A local variable: its name, the depth of the block that declared it, and
/// whether a closure captures it.
#[derive(Debug, Clone)]
pub struct Local {
    pub name: String,
    pub depth: usize,
    pub is_captured: bool,
}

#[verifier::ext_equal]
pub struct LocalView {
    pub name: Seq<char>,
    pub depth: usize,
    pub is_captured: bool,
}

impl View for Local {
    type V = LocalView;

    open spec fn view(&self) -> LocalView {
        LocalView { name: self.name@, depth: self.depth, is_captured: self.is_captured }
    }
}

/// The jumps of one loop that wait to be patched: those of `break` go to the
/// loop's end, those of `continue` to its next round. `scope_depth` is the
/// depth of blocks where the loop started, so that a jump out of it knows how
/// many locals to drop; `start` is where the loop's code starts.
pub struct LoopContext {
    pub break_jumps: Vec<usize>,
    pub continue_jumps: Vec<usize>,
    pub scope_depth: usize,
    pub start: Ghost<int>,
}

#[verifier::ext_equal]
pub struct LoopView {
    pub breaks: Seq<usize>,
    pub continues: Seq<usize>,
    pub scope_depth: usize,
    pub start: int,
}

impl View for LoopContext {
    type V = LoopView;

    open spec fn view(&self) -> LoopView {
        LoopView {
            breaks: self.break_jumps@,
            continues: self.continue_jumps@,
            scope_depth: self.scope_depth,
            start: self.start@,
        }
    }
}

pub struct Env {
    pub locals: Vec<Local>,
    pub upvalues: Vec<UpvalueInfo>,
    pub scope_depth: usize,
    pub loop_contexts: Vec<LoopContext>,
}

#[verifier::ext_equal]
pub struct EnvView {
    pub locals: Seq<LocalView>,
    pub upvalues: Seq<UpvalueInfo>,
    pub scope_depth: usize,
    pub loops: Seq<LoopView>,
}

impl View for Env {
    type V = EnvView;

    open spec fn view(&self) -> EnvView {
        EnvView {
            locals: self.locals@.map_values(|l: Local| l@),
            upvalues: self.upvalues@,
            scope_depth: self.scope_depth,
            loops: self.loop_contexts@.map_values(|c: LoopContext| c@),
        }
    }
}

/// The scopes of a function whose enclosing function is `depth` blocks deep
/// (the top level for `None`).
pub open spec fn fresh_env(depth: int) -> EnvView {
    EnvView { locals: Seq::empty(), upvalues: Seq::empty(), scope_depth: depth as usize, loops: Seq::empty() }
}

/// `i` is the last local named `name`.
pub open spec fn last_named(locals: Seq<LocalView>, name: Seq<char>, i: int) -> bool {
    &&& 0 <= i < locals.len()
    &&& locals[i].name == name
    &&& forall|j: int| i < j < locals.len() ==> (#[trigger] locals[j]).name != name
}

/// The slot of the last local named `name`, if there is one.
pub open spec fn local_slot(locals: Seq<LocalView>, name: Seq<char>) -> Option<int> {
    if exists|i: int| last_named(locals, name, i) {
        Some(choose|i: int| last_named(locals, name, i))
    } else {
        None
    }
}

/// A local just declared is the one its name resolves to: the last slot.
pub proof fn lemma_add_then_resolve_local(e: EnvView, name: Seq<char>)
    ensures
        local_slot(env_add_local(e, name).locals, name) == Some(e.locals.len() as int),
{
    let ls = env_add_local(e, name).locals;
    let i = e.locals.len() as int;
    assert(last_named(ls, name, i));
    let c = choose|k: int| last_named(ls, name, k);
    assert(c == i) by {
        if c < i {
            assert(ls[i].name == name);
        }
    }
}

/// The number of locals at the end of `locals` that are deeper than `depth`.
pub open spec fn deeper_count(locals: Seq<LocalView>, depth: int) -> nat
    decreases locals.len(),
{
    if locals.len() == 0 || locals.last().depth <= depth {
        0
    } else {
        1 + deeper_count(locals.drop_last(), depth)
    }
}

/// The index of the first element of `s` equal to `x` (meaningful where
/// `s` contains `x`).
pub open spec fn first_index<A>(s: Seq<A>, x: A) -> int {
    choose|i: int| 0 <= i < s.len() && s[i] == x && forall|j: int| 0 <= j < i ==> s[j] != x
}

/// An element equal to `x` with none before it is at `first_index(s, x)`.
pub proof fn lemma_first_index<A>(s: Seq<A>, x: A, i: int)
    requires
        0 <= i < s.len(),
        s[i] == x,
        forall|j: int| 0 <= j < i ==> s[j] != x,
    ensures
        s.contains(x),
        first_index(s, x) == i,
{
    assert(s.contains(x));
    let c = first_index(s, x);
    assert(0 <= c < s.len() && s[c] == x && forall|j: int| 0 <= j < c ==> s[j] != x);
    assert(c == i) by {
        if c < i {
            assert(s[c] != x);
        } else if c > i {
            assert(s[i] != x);
        }
    }
}

proof fn lemma_first_below<A>(s: Seq<A>, x: A, k: int)
    requires
        0 <= k < s.len(),
        s[k] == x,
    ensures
        exists|i: int| 0 <= i < s.len() && s[i] == x && forall|j: int| 0 <= j < i ==> s[j] != x,
    decreases k,
{
    if exists|j: int| 0 <= j < k && s[j] == x {
        let j = choose|j: int| 0 <= j < k && s[j] == x;
        lemma_first_below(s, x, j);
    } else {
        assert(0 <= k < s.len() && s[k] == x && forall|j: int| 0 <= j < k ==> s[j] != x);
    }
}

/// A contained element has a first position.
pub proof fn lemma_first_index_exists<A>(s: Seq<A>, x: A)
    requires
        s.contains(x),
    ensures
        0 <= first_index(s, x) < s.len(),
        s[first_index(s, x)] == x,
        forall|j: int| 0 <= j < first_index(s, x) ==> s[j] != x,
{
    let k = choose|k: int| 0 <= k < s.len() && s[k] == x;
    lemma_first_below(s, x, k);
}

/// The index of the first upvalue equal to `u`, if there is one.
pub open spec fn upvalue_slot(upvalues: Seq<UpvalueInfo>, u: UpvalueInfo) -> Option<int> {
    if upvalues.contains(u) {
        Some(first_index(upvalues, u))
    } else {
        None
    }
}

pub open spec fn with_locals(e: EnvView, locals: Seq<LocalView>) -> EnvView {
    EnvView { locals, upvalues: e.upvalues, scope_depth: e.scope_depth, loops: e.loops }
}

pub open spec fn with_upvalues(e: EnvView, upvalues: Seq<UpvalueInfo>) -> EnvView {
    EnvView { locals: e.locals, upvalues, scope_depth: e.scope_depth, loops: e.loops }
}

pub open spec fn with_depth(e: EnvView, scope_depth: usize) -> EnvView {
    EnvView { locals: e.locals, upvalues: e.upvalues, scope_depth, loops: e.loops }
}

pub open spec fn with_loops(e: EnvView, loops: Seq<LoopView>) -> EnvView {
    EnvView { locals: e.locals, upvalues: e.upvalues, scope_depth: e.scope_depth, loops }
}

/// `e` with `name` declared in its innermost block.
pub open spec fn env_add_local(e: EnvView, name: Seq<char>) -> EnvView {
    with_locals(e, e.locals.push(LocalView { name, depth: e.scope_depth, is_captured: false }))
}

/// `e` with each of `names` declared in its innermost block, in order.
pub open spec fn env_add_locals(e: EnvView, names: Seq<Seq<char>>) -> EnvView {
    with_locals(
        e,
        e.locals + names.map_values(
            |n: Seq<char>| LocalView { name: n, depth: e.scope_depth, is_captured: false },
        ),
    )
}

/// `e` after leaving its innermost block, and how many locals that drops.
pub open spec fn env_end_scope(e: EnvView) -> core::result::Result<(EnvView, nat), ErrorView> {
    if e.scope_depth == 0 {
        Err(
            ErrorView {
                error_type: ErrorType::Compilation,
                message: "cannot leave the global scope"@,
                location: None,
                file: None,
            },
        )
    } else {
        let d = (e.scope_depth - 1) as usize;
        let n = deeper_count(e.locals, d as int);
        Ok((with_depth(with_locals(e, e.locals.take(e.locals.len() - n)), d), n))
    }
}

/// `e` with the local at `i` captured by a closure.
pub open spec fn env_capture(e: EnvView, i: int) -> EnvView {
    with_locals(e, e.locals.update(i, LocalView { name: e.locals[i].name, depth: e.locals[i].depth, is_captured: true }))
}

/// `e` with the upvalue `u` known, and its number.
pub open spec fn env_add_upvalue(e: EnvView, u: UpvalueInfo) -> (EnvView, u8) {
    match upvalue_slot(e.upvalues, u) {
        Some(i) => (e, i as u8),
        None => (with_upvalues(e, e.upvalues.push(u)), e.upvalues.len() as u8),
    }
}

/// `e` inside a new loop whose code starts at `start`.
pub open spec fn env_begin_loop(e: EnvView, start: int) -> EnvView {
    with_loops(
        e,
        e.loops.push(LoopView { breaks: Seq::empty(), continues: Seq::empty(), scope_depth: e.scope_depth, start }),
    )
}

/// `e` with a `break` (or a `continue` when `is_continue`) jump at `at`
/// recorded in its innermost loop.
pub open spec fn env_add_loop_jump(e: EnvView, at: usize, is_continue: bool) -> EnvView {
    let n = e.loops.len() - 1;
    let c = e.loops[n];
    let c2 = if is_continue {
        LoopView { breaks: c.breaks, continues: c.continues.push(at), scope_depth: c.scope_depth, start: c.start }
    } else {
        LoopView { breaks: c.breaks.push(at), continues: c.continues, scope_depth: c.scope_depth, start: c.start }
    };
    with_loops(e, e.loops.update(n, c2))
}

/// Locals declared deeper than `depth`, after any others, are all counted.
proof fn lemma_deeper_count_append(locals: Seq<LocalView>, news: Seq<LocalView>, depth: int)
    requires
        forall|i: int| 0 <= i < news.len() ==> (#[trigger] news[i]).depth > depth,
        locals.len() == 0 || locals.last().depth <= depth,
    ensures
        deeper_count(locals + news, depth) == news.len(),
    decreases news.len(),
{
    if news.len() == 0 {
        assert(locals + news =~= locals);
    } else {
        assert((locals + news).drop_last() =~= locals + news.drop_last());
        lemma_deeper_count_append(locals, news.drop_last(), depth);
    }
}

/// Every local of `e` belongs to a block that is open.
pub open spec fn locals_open(e: EnvView) -> bool {
    forall|i: int| 0 <= i < e.locals.len() ==> (#[trigger] e.locals[i]).depth <= e.scope_depth
}

/// Entering a block, declaring locals in it and leaving it gives back the
/// environment from before, and `end_scope` counts exactly the locals the
/// block declared.
pub proof fn lemma_scope_round_trip(e: EnvView, names: Seq<Seq<char>>)
    requires
        locals_open(e),
        e.scope_depth < usize::MAX,
    ensures
        env_end_scope(env_add_locals(with_depth(e, (e.scope_depth + 1) as usize), names)) == Ok::<
            (EnvView, nat),
            ErrorView,
        >((e, names.len())),
{
    let inner = with_depth(e, (e.scope_depth + 1) as usize);
    let added = env_add_locals(inner, names);
    let news = names.map_values(
        |n: Seq<char>| LocalView { name: n, depth: inner.scope_depth, is_captured: false },
    );
    assert(added.locals == e.locals + news);
    if e.locals.len() > 0 {
        assert(e.locals.last().depth <= e.scope_depth);
    }
    lemma_deeper_count_append(e.locals, news, e.scope_depth as int);
    assert((e.locals + news).take(e.locals.len() as int) =~= e.locals);
}

proof fn lemma_deeper_count_bound(locals: Seq<LocalView>, depth: int)
    ensures
        deeper_count(locals, depth) <= locals.len(),
    decreases locals.len(),
{
    if locals.len() > 0 && locals.last().depth > depth {
        lemma_deeper_count_bound(locals.drop_last(), depth);
    }
}

impl Env {
    /// The scopes of the program's top level.
    pub fn new_global() -> (env: Self)
        ensures
            env@ == fresh_env(0),
    {
        let env = Env { locals: Vec::new(), upvalues: Vec::new(), scope_depth: 0, loop_contexts: Vec::new() };
        proof {
            assert(env@ =~= fresh_env(0));
        }
        env
    }

    /// The scopes of a function declared where the depth is `enclosing_depth`.
    pub fn new_enclosed(enclosing_depth: usize) -> (env: Self)
        requires
            enclosing_depth < usize::MAX,
        ensures
            env@ == fresh_env(enclosing_depth + 1),
    {
        let env = Env {
            locals: Vec::new(),
            upvalues: Vec::new(),
            scope_depth: enclosing_depth + 1,
            loop_contexts: Vec::new(),
        };
        proof {
            assert(env@ =~= fresh_env(enclosing_depth + 1));
        }
        env
    }

    pub fn begin_scope(&mut self)
        requires
            old(self).scope_depth < usize::MAX,
        ensures
            final(self)@ == with_depth(old(self)@, (old(self).scope_depth + 1) as usize),
    {
        self.scope_depth = self.scope_depth + 1;
    }

    /// Leaves the innermost block and drops its locals; gives how many were
    /// dropped. At the top level there is no block to leave.
    pub fn end_scope(&mut self) -> (r: Result<usize>)
        ensures
            match env_end_scope(old(self)@) {
                Ok((e, n)) => r is Ok && r->Ok_0 == n && final(self)@ == e,
                Err(err) => r matches Err(x) && x@ == err && final(self)@ == old(self)@,
            },
    {
        if self.is_global() {
            return Err(Error::quit_from_global());
        }
        self.scope_depth = self.scope_depth - 1;
        let ghost d = self.scope_depth as int;
        let ghost start = self.locals@;
        let ghost views = old(self)@.locals;
        let total = self.locals.len();
        let mut pop_count: usize = 0;
        proof {
            lemma_deeper_count_bound(views, d);
        }
        loop
            invariant
                self.scope_depth == d,
                total == start.len(),
                views == start.map_values(|l: Local| l@),
                self.upvalues@ == old(self).upvalues@,
                self.loop_contexts@ == old(self).loop_contexts@,
                pop_count <= start.len(),
                self.locals@ == start.take(start.len() - pop_count),
                deeper_count(views, d) == pop_count + deeper_count(
                    self.locals@.map_values(|l: Local| l@),
                    d,
                ),
                deeper_count(views, d) <= start.len(),
            ensures
                self.locals@ == start.take(start.len() - deeper_count(views, d)),
                pop_count == deeper_count(views, d),
            decreases self.locals@.len(),
        {
            let n = self.locals.len();
            if n == 0 || self.locals[n - 1].depth <= self.scope_depth {
                proof {
                    if n > 0 {
                        assert(self.locals@.map_values(|l: Local| l@).last() == self.locals@[n - 1]@);
                    }
                }
                break;
            }
            let ghost before = self.locals@;
            self.locals.pop();
            proof {
                assert(self.locals@ =~= before.drop_last());
                assert(self.locals@.map_values(|l: Local| l@) =~= before.map_values(|l: Local| l@).drop_last());
                assert(self.locals@ =~= start.take(start.len() - (pop_count + 1)));
            }
            pop_count = pop_count + 1;
        }
        proof {
            assert(self.locals@.map_values(|l: Local| l@) =~= views.take(views.len() - pop_count));
            assert(self@ =~= with_depth(with_locals(old(self)@, views.take(views.len() - pop_count)), d as usize));
        }
        Ok(pop_count)
    }

    pub fn is_global(&self) -> (b: bool)
        ensures
            b == (self.scope_depth == 0),
    {
        self.scope_depth == 0
    }

    /// Declares each name as a local of the current block, in order.
    pub fn add_locals(&mut self, names: &[String])
        ensures
            final(self)@ == env_add_locals(old(self)@, names@.map_values(|n: String| n@)),
    {
        let ghost start = self@;
        let ghost ns = names@.map_values(|n: String| n@);
        for k in 0..names.len()
            invariant
                start == old(self)@,
                ns == names@.map_values(|n: String| n@),
                self@ == env_add_locals(start, ns.take(k as int)),
        {
            let ghost before = self@;
            self.add_local(names[k].clone());
            proof {
                assert(ns.take(k + 1) =~= ns.take(k as int).push(names@[k as int]@));
                assert(self@ =~= env_add_locals(start, ns.take(k + 1)));
            }
        }
        proof {
            assert(ns.take(names@.len() as int) =~= ns);
        }
    }

    /// Declares `name` as a local of the current block.
    pub fn add_local(&mut self, name: String)
        ensures
            final(self)@ == env_add_local(old(self)@, name@),
    {
        let d = self.scope_depth;
        self.locals.push(Local { name, depth: d, is_captured: false });
        proof {
            assert(self@ =~= env_add_local(old(self)@, name@));
        }
    }

    /// The slot of the innermost local named `name`, as the byte that
    /// addresses it.
    pub fn resolve_local(&self, name: &str) -> (r: Option<u8>)
        ensures
            match local_slot(self@.locals, name@) {
                Some(i) => r == Some((i % 256) as u8),
                None => r is None,
            },
    {
        let key = String::from_str(name);
        let ghost ls = self@.locals;
        let mut i = self.locals.len();
        while i > 0
            invariant
                key@ == name@,
                ls == self@.locals,
                i <= ls.len(),
                forall|j: int| i <= j < ls.len() ==> (#[trigger] ls[j]).name != name@,
            decreases i,
        {
            if self.locals[i - 1].name == key {
                proof {
                    assert(last_named(ls, name@, i - 1));
                    let c = choose|k: int| last_named(ls, name@, k);
                    assert(c == i - 1) by {
                        if c < i - 1 {
                            assert(ls[i - 1].name == name@);
                        } else if c > i - 1 {
                            assert(ls[c].name == name@);
                        }
                    }
                }
                return Some(((i - 1) % 256) as u8);
            }
            proof {
                assert(ls[i - 1].name != name@);
            }
            i = i - 1;
        }
        None
    }

    /// Marks the local at `slot` as captured by a closure.
    pub fn capture_local(&mut self, slot: usize)
        requires
            slot < old(self)@.locals.len(),
        ensures
            final(self)@ == env_capture(old(self)@, slot as int),
    {
        let l = Local { name: self.locals[slot].name.clone(), depth: self.locals[slot].depth, is_captured: true };
        self.locals.set(slot, l);
        proof {
            assert(self@ =~= env_capture(old(self)@, slot as int));
        }
    }

    /// The number of the captured variable `index` (`is_local` as in
    /// `UpvalueInfo`), adding it when it is new.
    pub fn add_upvalue(&mut self, index: usize, is_local: bool) -> (r: u8)
        requires
            old(self).upvalues@.len() <= 255,
            old(self).upvalues@.contains(UpvalueInfo { index, is_local }) || old(self).upvalues@.len() < 255,
        ensures
            (final(self)@, r) == env_add_upvalue(old(self)@, UpvalueInfo { index, is_local }),
    {
        let u = UpvalueInfo { index, is_local };
        for i in 0..self.upvalues.len()
            invariant
                u == (UpvalueInfo { index, is_local }),
                forall|j: int| 0 <= j < i ==> self.upvalues@[j] != u,
        {
            if self.upvalues[i] == u {
                proof {
                    lemma_first_index(self.upvalues@, u, i as int);
                }
                return i as u8;
            }
        }
        proof {
            assert(!old(self).upvalues@.contains(u));
        }
        let n = self.upvalues.len();
        self.upvalues.push(u);
        proof {
            assert(self@ =~= with_upvalues(old(self)@, old(self)@.upvalues.push(u)));
        }
        n as u8
    }

    /// Whether the captured variable `index` (`is_local` as in
    /// `UpvalueInfo`) is known already.
    pub fn has_upvalue(&self, index: usize, is_local: bool) -> (b: bool)
        ensures
            b == self@.upvalues.contains(UpvalueInfo { index, is_local }),
    {
        let u = UpvalueInfo { index, is_local };
        for i in 0..self.upvalues.len()
            invariant
                u == (UpvalueInfo { index, is_local }),
                forall|j: int| 0 <= j < i ==> self.upvalues@[j] != u,
        {
            if self.upvalues[i] == u {
                proof {
                    assert(self.upvalues@[i as int] == u);
                }
                return true;
            }
        }
        false
    }

    /// Starts a loop, whose code starts at `start`, at the current depth of blocks.
    pub fn begin_loop(&mut self, Ghost(start): Ghost<int>)
        ensures
            final(self)@ == env_begin_loop(old(self)@, start),
    {
        let d = self.scope_depth;
        self.loop_contexts.push(
            LoopContext { break_jumps: Vec::new(), continue_jumps: Vec::new(), scope_depth: d, start: Ghost(start) },
        );
        proof {
            assert(self@ =~= env_begin_loop(old(self)@, start));
        }
    }

    /// Ends the innermost loop and hands over its pending jumps.
    pub fn end_loop(&mut self) -> (r: Option<LoopContext>)
        ensures
            old(self)@.loops.len() == 0 ==> r is None && final(self)@ == old(self)@,
            old(self)@.loops.len() > 0 ==> (r matches Some(c) && c@ == old(self)@.loops.last()
                && final(self)@ == with_loops(old(self)@, old(self)@.loops.drop_last())),
    {
        let r = self.loop_contexts.pop();
        proof {
            if old(self)@.loops.len() > 0 {
                assert(self@ =~= with_loops(old(self)@, old(self)@.loops.drop_last()));
            }
        }
        r
    }

    /// Records a `break` jump at `jump_position` in the innermost loop.
    pub fn add_break_jump(&mut self, jump_position: usize) -> (r: Result<()>)
        ensures
            old(self)@.loops.len() == 0 ==> (r matches Err(e) && plain(
                e,
                ErrorType::Runtime,
                "break outside of loop"@,
            ) && final(self)@ == old(self)@),
            old(self)@.loops.len() > 0 ==> r is Ok && final(self)@ == env_add_loop_jump(
                old(self)@,
                jump_position,
                false,
            ),
    {
        match self.loop_contexts.pop() {
            Some(mut context) => {
                context.break_jumps.push(jump_position);
                self.loop_contexts.push(context);
                proof {
                    assert(self@.loops =~= env_add_loop_jump(old(self)@, jump_position, false).loops);
                }
                Ok(())
            },
            None => Err(Error::runtime(String::from_str("break outside of loop"))),
        }
    }

    /// Records a `continue` jump at `jump_position` in the innermost loop.
    pub fn add_continue_jump(&mut self, jump_position: usize) -> (r: Result<()>)
        ensures
            old(self)@.loops.len() == 0 ==> (r matches Err(e) && plain(
                e,
                ErrorType::Runtime,
                "continue outside of loop"@,
            ) && final(self)@ == old(self)@),
            old(self)@.loops.len() > 0 ==> r is Ok && final(self)@ == env_add_loop_jump(
                old(self)@,
                jump_position,
                true,
            ),
    {
        match self.loop_contexts.pop() {
            Some(mut context) => {
                context.continue_jumps.push(jump_position);
                self.loop_contexts.push(context);
                proof {
                    assert(self@.loops =~= env_add_loop_jump(old(self)@, jump_position, true).loops);
                }
                Ok(())
            },
            None => Err(Error::runtime(String::from_str("continue outside of loop"))),
        }
    }

    pub fn in_loop(&self) -> (b: bool)
        ensures
            b == (self@.loops.len() > 0),
    {
        self.loop_contexts.len() > 0
    }

    /// How many locals a jump out of the innermost loop leaves behind: those
    /// declared in blocks inside the loop.
    pub fn loop_locals_to_pop(&self) -> (n: usize)
        requires
            self@.loops.len() > 0,
        ensures
            n == deeper_count(self@.locals, self@.loops.last().scope_depth as int),
    {
        let depth = self.loop_contexts[self.loop_contexts.len() - 1].scope_depth;
        let ghost ls = self@.locals;
        let total = self.locals.len();
        let mut i = total;
        let mut n: usize = 0;
        proof {
            assert(ls.take(i as int) =~= ls);
        }
        while i > 0 && self.locals[i - 1].depth > depth
            invariant
                ls == self@.locals,
                depth == self@.loops.last().scope_depth,
                i <= ls.len(),
                total == ls.len(),
                n + i == total,
                deeper_count(ls, depth as int) == n + deeper_count(ls.take(i as int), depth as int),
            decreases i,
        {
            proof {
                assert(ls.take(i as int).drop_last() =~= ls.take(i - 1));
            }
            i = i - 1;
            n = n + 1;
        }
        n
    }
}

} // verus!
