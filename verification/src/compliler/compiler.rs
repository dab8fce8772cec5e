//! Compiles statements to bytecode. Each step of the compiler is described by a
//! specification function from the state before to the state after (or an
//! error); the compiler method of the same name does exactly that step.
use super::chunk::{builtin_names, high_byte, low_byte, Chunk};
use super::env::{
    env_add_local, env_add_locals, env_add_loop_jump, env_add_upvalue, env_begin_loop, env_capture,
    env_end_scope, first_index, fresh_env, last_named, lemma_first_index, lemma_first_index_exists, local_slot,
    upvalue_slot, with_depth, with_loops, Env, EnvView, LoopView,
};
use super::opcode::{byte_of, opcode_name, OpCode};
use super::value::{number_key, Constant, ConstantView, Proto, ProtoView, UpvalueInfo};
use crate::error::{Error, ErrorType, ErrorView, Result};
use crate::location::Location;
use crate::parser::expr::{exprs_view, BinaryOp, Expr, SpecExpr, UnaryOp};
use crate::parser::parser::{located_stmts_view, LocatedStmt};
use crate::parser::stmt::{clone_names, names_view, stmts_view, SpecStmt, Stmt};
use crate::text::join3;
use vstd::prelude::*;
use vstd::string::*;

verus! {

/// Everything the compiler has built and knows at one point: the chunk's
/// code, locations, constants and globals, the scopes of the functions being
/// compiled (innermost last), and the location given to new bytes.
#[verifier::ext_equal]
pub struct CState {
    pub code: Seq<u8>,
    pub locations: Seq<Location>,
    pub constants: Seq<ConstantView>,
    pub globals: Seq<Seq<char>>,
    pub envs: Seq<EnvView>,
    pub location: Location,
}

pub type CResult = core::result::Result<CState, ErrorView>;

pub open spec fn compilation_error(message: Seq<char>) -> ErrorView {
    ErrorView { error_type: ErrorType::Compilation, message, location: None, file: None }
}

pub open spec fn with_code(s: CState, code: Seq<u8>) -> CState {
    CState { code, locations: s.locations, constants: s.constants, globals: s.globals, envs: s.envs, location: s.location }
}

pub open spec fn with_envs(s: CState, envs: Seq<EnvView>) -> CState {
    CState { code: s.code, locations: s.locations, constants: s.constants, globals: s.globals, envs, location: s.location }
}

pub open spec fn with_constants(s: CState, constants: Seq<ConstantView>) -> CState {
    CState { code: s.code, locations: s.locations, constants, globals: s.globals, envs: s.envs, location: s.location }
}

pub open spec fn with_globals(s: CState, globals: Seq<Seq<char>>) -> CState {
    CState { code: s.code, locations: s.locations, constants: s.constants, globals, envs: s.envs, location: s.location }
}

/// The scopes of the function being compiled.
pub open spec fn cur(s: CState) -> EnvView {
    s.envs.last()
}

pub open spec fn with_cur(s: CState, e: EnvView) -> CState {
    with_envs(s, s.envs.update(s.envs.len() - 1, e))
}

/// `s` with `b` written at the end of the code, at the current location.
pub open spec fn emit(s: CState, b: u8) -> CState {
    CState {
        code: s.code.push(b),
        locations: s.locations.push(s.location),
        constants: s.constants,
        globals: s.globals,
        envs: s.envs,
        location: s.location,
    }
}

pub open spec fn emit_op(s: CState, op: OpCode) -> CState {
    emit(s, byte_of(op))
}

pub open spec fn emit_op_with(s: CState, op: OpCode, operand: u8) -> CState {
    emit(emit(s, byte_of(op)), operand)
}

/// A jump whose two distance bytes are left zero; they start at `s.code.len() + 1`.
pub open spec fn emit_jump(s: CState, op: OpCode) -> CState {
    emit(emit(emit(s, byte_of(op)), 0), 0)
}

/// `n` pops.
pub open spec fn emit_pops(s: CState, n: nat) -> CState
    decreases n,
{
    if n == 0 {
        s
    } else {
        emit_op(emit_pops(s, (n - 1) as nat), OpCode::Pop)
    }
}

/// The jump whose distance bytes are at `offset` made to reach the end of the code.
pub open spec fn patch(s: CState, offset: int) -> CState {
    let jump = s.code.len() - offset - 2;
    with_code(s, s.code.update(offset, high_byte(jump)).update(offset + 1, low_byte(jump)))
}

/// The jump whose distance bytes are at `offset` made to reach `target`.
pub open spec fn patch_to(s: CState, offset: int, target: int) -> CState {
    let (op, jump) = if offset < target {
        (OpCode::Jump, target - offset - 2)
    } else {
        (OpCode::Loop, offset - target + 2)
    };
    with_code(
        s,
        s.code.update(offset - 1, byte_of(op)).update(offset, high_byte(jump)).update(offset + 1, low_byte(jump)),
    )
}

pub open spec fn patch_all(s: CState, offsets: Seq<usize>) -> CState
    decreases offsets.len(),
{
    if offsets.len() == 0 {
        s
    } else {
        patch(patch_all(s, offsets.drop_last()), offsets.last() as int)
    }
}

pub open spec fn patch_all_to(s: CState, offsets: Seq<usize>, target: int) -> CState
    decreases offsets.len(),
{
    if offsets.len() == 0 {
        s
    } else {
        patch_to(patch_all_to(s, offsets.drop_last(), target), offsets.last() as int, target)
    }
}

/// A backward jump to `start`.
pub open spec fn emit_loop(s: CState, start: int) -> CState {
    let offset = s.code.len() - start + 3;
    emit(emit(emit(s, byte_of(OpCode::Loop)), high_byte(offset)), low_byte(offset))
}

/// The index of the first constant equal to `c`, if there is one.
pub open spec fn constant_slot(constants: Seq<ConstantView>, c: ConstantView) -> Option<int> {
    if constants.contains(c) {
        Some(first_index(constants, c))
    } else {
        None
    }
}

/// The index of the first global named `name`, if there is one.
pub open spec fn global_slot(globals: Seq<Seq<char>>, name: Seq<char>) -> Option<int> {
    if globals.contains(name) {
        Some(first_index(globals, name))
    } else {
        None
    }
}

/// `c` in the constant pool, and its index.
pub open spec fn add_constant(s: CState, c: ConstantView) -> core::result::Result<(CState, u8), ErrorView> {
    match constant_slot(s.constants, c) {
        Some(i) => Ok((s, i as u8)),
        None => if s.constants.len() < 255 {
            Ok((with_constants(s, s.constants.push(c)), s.constants.len() as u8))
        } else {
            Err(compilation_error("Too many constants in chunk (max 256)"@))
        },
    }
}

/// `name` among the globals, and its index.
pub open spec fn add_global(s: CState, name: Seq<char>) -> core::result::Result<(CState, u8), ErrorView> {
    match global_slot(s.globals, name) {
        Some(i) => Ok((s, i as u8)),
        None => if s.globals.len() < 255 {
            Ok((with_globals(s, s.globals.push(name)), s.globals.len() as u8))
        } else {
            Err(compilation_error("Too many globals in chunk (max 256)"@))
        },
    }
}

pub open spec fn emit_constant(s: CState, c: ConstantView) -> CResult {
    match add_constant(s, c) {
        Ok((s1, i)) => Ok(emit_op_with(s1, OpCode::Constant, i)),
        Err(e) => Err(e),
    }
}

/// The upvalue `name` of the innermost scopes of `stack`, found in the
/// enclosing ones; the scopes it marks or extends on the way.
pub open spec fn resolve_upvalue(stack: Seq<EnvView>, name: Seq<char>) -> core::result::Result<
    Option<(Seq<EnvView>, u8)>,
    ErrorView,
>
    decreases stack.len(),
{
    if stack.len() <= 1 {
        Ok(None)
    } else {
        let outer = stack.drop_last();
        let enc = outer.last();
        let found: core::result::Result<Option<(Seq<EnvView>, int, bool)>, ErrorView> = match local_slot(
            enc.locals,
            name,
        ) {
            Some(i) => Ok(
                Some((outer.update(outer.len() - 1, env_capture(enc, i % 256)), i % 256, true)),
            ),
            None => match resolve_upvalue(outer, name) {
                Err(e) => Err(e),
                Ok(None) => Ok(None),
                Ok(Some((st, u))) => Ok(Some((st, u as int, false))),
            },
        };
        match found {
            Err(e) => Err(e),
            Ok(None) => Ok(None),
            Ok(Some((st, index, is_local))) => {
                let u = UpvalueInfo { index: index as usize, is_local };
                let env = stack.last();
                if env.upvalues.contains(u) || env.upvalues.len() < 255 {
                    let (e2, k) = env_add_upvalue(env, u);
                    Ok(Some((st.push(e2), k)))
                } else {
                    Err(compilation_error("Too many captured variables in function (max 256)"@))
                }
            },
        }
    }
}

/// The instruction that reads (or writes) the variable `name`: a local, an
/// upvalue, or a global, in that order; `missing` when it is none of them.
pub open spec fn access(
    s: CState,
    name: Seq<char>,
    local_op: OpCode,
    upvalue_op: OpCode,
    global_op: OpCode,
    missing: ErrorView,
) -> CResult {
    match local_slot(cur(s).locals, name) {
        Some(i) => Ok(emit_op_with(s, local_op, (i % 256) as u8)),
        None => match resolve_upvalue(s.envs, name) {
            Err(e) => Err(e),
            Ok(Some((envs, k))) => Ok(emit_op_with(with_envs(s, envs), upvalue_op, k)),
            Ok(None) => match global_slot(s.globals, name) {
                Some(g) => Ok(emit_op_with(s, global_op, g as u8)),
                None => Err(missing),
            },
        },
    }
}

pub open spec fn undefined_variable_view(name: Seq<char>) -> ErrorView {
    ErrorView {
        error_type: ErrorType::VmRuntime,
        message: "Undefined variable '"@ + name + "'"@,
        location: None,
        file: None,
    }
}

pub open spec fn binary_opcode(op: BinaryOp) -> OpCode {
    match op {
        BinaryOp::Add => OpCode::Add,
        BinaryOp::Subtract => OpCode::Subtract,
        BinaryOp::Multiply => OpCode::Multiply,
        BinaryOp::Divide => OpCode::Divide,
        BinaryOp::Equal => OpCode::Equal,
        BinaryOp::NotEqual => OpCode::NotEqual,
        BinaryOp::LessThan => OpCode::LessThan,
        BinaryOp::LessEqual => OpCode::LessEqual,
        BinaryOp::GreaterThan => OpCode::GreaterThan,
        BinaryOp::GreaterEqual => OpCode::GreaterEqual,
        BinaryOp::LogicalAnd => OpCode::JumpIfFalse,
        BinaryOp::LogicalOr => OpCode::JumpIfTrue,
    }
}

/// Each arithmetic or comparison operator is compiled to the instruction of
/// the same operation, named as the operator is, and no two of them to the
/// same instruction; `and` and `or` become the conditional jumps that skip
/// the right operand when the left one already decides (`and` on false, `or`
/// on true).
pub proof fn lemma_binary_opcode_is_the_operation(op: BinaryOp, other: BinaryOp)
    ensures
        !(op is LogicalAnd || op is LogicalOr) ==> opcode_name(binary_opcode(op)) == op.spec_name(),
        !(op is LogicalAnd || op is LogicalOr) && !(other is LogicalAnd || other is LogicalOr)
            && binary_opcode(op) == binary_opcode(other) ==> op == other,
        op is LogicalAnd ==> binary_opcode(op) == OpCode::JumpIfFalse,
        op is LogicalOr ==> binary_opcode(op) == OpCode::JumpIfTrue,
{
}

/// The code of expression `e`, which leaves its value on the stack.
#[verifier::opaque]
pub open spec fn compile_expr(s: CState, e: SpecExpr) -> CResult
    decreases e, 0int,
{
    match e {
        SpecExpr::Number(n) => emit_constant(s, ConstantView::Number(number_key(n))),
        SpecExpr::String(t) => emit_constant(s, ConstantView::String(t)),
        SpecExpr::Boolean(b) => emit_constant(s, ConstantView::Boolean(b)),
        SpecExpr::Nil => Ok(emit_op(s, OpCode::Nil)),
        SpecExpr::Variable(name) => access(
            s,
            name,
            OpCode::GetLocal,
            OpCode::GetUpvalue,
            OpCode::GetGlobal,
            undefined_variable_view(name),
        ),
        SpecExpr::Array(es) => match compile_exprs(s, es, 0) {
            Ok(s1) => Ok(emit_op_with(s1, OpCode::Array, (es.len() % 256) as u8)),
            Err(x) => Err(x),
        },
        SpecExpr::Binary { left, operator, right } => match compile_expr(s, *left) {
            Err(x) => Err(x),
            Ok(s1) => if operator == BinaryOp::LogicalAnd || operator == BinaryOp::LogicalOr {
                let s2 = emit_op(s1, OpCode::Dup);
                let left_jump = s2.code.len() + 1int;
                let s3 = emit_op(emit_jump(s2, binary_opcode(operator)), OpCode::Pop);
                match compile_expr(s3, *right) {
                    Err(x) => Err(x),
                    Ok(s4) => {
                        let right_jump = s4.code.len() + 1int;
                        Ok(patch(patch(emit_jump(s4, OpCode::Jump), left_jump), right_jump))
                    },
                }
            } else {
                match compile_expr(s1, *right) {
                    Err(x) => Err(x),
                    Ok(s2) => Ok(emit_op(s2, binary_opcode(operator))),
                }
            },
        },
        SpecExpr::Unary { operator, operand } => match compile_expr(s, *operand) {
            Err(x) => Err(x),
            Ok(s1) => Ok(
                emit_op(
                    s1,
                    match operator {
                        UnaryOp::Negate => OpCode::Negate,
                        UnaryOp::Not => OpCode::Not,
                    },
                ),
            ),
        },
        SpecExpr::Assign { name, value } => match compile_expr(s, *value) {
            Err(x) => Err(x),
            Ok(s1) => access(
                s1,
                name,
                OpCode::SetLocal,
                OpCode::SetUpvalue,
                OpCode::SetGlobal,
                compilation_error("Assignment to undeclared variable '"@ + name + "'"@),
            ),
        },
        SpecExpr::IndexAssign { array, index, value } => match compile_expr(s, *array) {
            Err(x) => Err(x),
            Ok(s1) => match compile_expr(s1, *index) {
                Err(x) => Err(x),
                Ok(s2) => match compile_expr(s2, *value) {
                    Err(x) => Err(x),
                    Ok(s3) => Ok(emit_op(s3, OpCode::IndexSet)),
                },
            },
        },
        SpecExpr::Index { array, index } => match compile_expr(s, *array) {
            Err(x) => Err(x),
            Ok(s1) => match compile_expr(s1, *index) {
                Err(x) => Err(x),
                Ok(s2) => Ok(emit_op(s2, OpCode::Index)),
            },
        },
        SpecExpr::Call { callee, arguments } => match compile_exprs(s, arguments, 0) {
            Err(x) => Err(x),
            Ok(s1) => match compile_expr(s1, *callee) {
                Err(x) => Err(x),
                Ok(s2) => Ok(emit_op_with(s2, OpCode::Call, (arguments.len() % 256) as u8)),
            },
        },
    }
}

/// The code of `es[i..]`, in order.
#[verifier::opaque]
pub open spec fn compile_exprs(s: CState, es: Seq<SpecExpr>, i: int) -> CResult
    decreases es, es.len() - i,
{
    if i < 0 || i >= es.len() {
        Ok(s)
    } else {
        match compile_expr(s, es[i]) {
            Err(x) => Err(x),
            Ok(s1) => compile_exprs(s1, es, i + 1),
        }
    }
}

/// `s` inside one more block; an error where the depth cannot grow.
pub open spec fn begin_scope(s: CState) -> CResult {
    if cur(s).scope_depth == usize::MAX {
        Err(compilation_error("blocks nested too deeply"@))
    } else {
        Ok(with_cur(s, with_depth(cur(s), (cur(s).scope_depth + 1) as usize)))
    }
}

/// `s` out of its innermost block, with a pop for each local it drops.
pub open spec fn end_scope(s: CState) -> CResult {
    match env_end_scope(cur(s)) {
        Err(e) => Err(e),
        Ok((e, n)) => Ok(emit_pops(with_cur(s, e), n)),
    }
}

/// The innermost loop ended: its `break` jumps reach the end of the code, its
/// `continue` jumps reach `target`.
pub open spec fn end_loop(s: CState, target: int) -> CState {
    let e = cur(s);
    if e.loops.len() == 0 {
        s
    } else {
        let c = e.loops.last();
        let s1 = with_cur(s, with_loops(e, e.loops.drop_last()));
        patch_all_to(patch_all(s1, c.breaks), c.continues, target)
    }
}

/// A `break` (or a `continue` when `is_continue`): the pops of the loop's
/// locals and a jump patched when the loop ends.
pub open spec fn loop_jump(s: CState, is_continue: bool) -> CResult {
    let e = cur(s);
    if e.loops.len() == 0 {
        Err(
            compilation_error(
                if is_continue {
                    "continue outside of loop"@
                } else {
                    "break outside of loop"@
                },
            ),
        )
    } else {
        let s1 = emit_pops(s, deeper_count_of(e));
        let at = s1.code.len() + 1;
        let s2 = emit_jump(s1, OpCode::Jump);
        Ok(with_cur(s2, env_add_loop_jump(cur(s2), at as usize, is_continue)))
    }
}

/// The locals declared inside the innermost loop of `e`.
pub open spec fn deeper_count_of(e: EnvView) -> nat {
    super::env::deeper_count(e.locals, e.loops.last().scope_depth as int)
}

/// The bytes that tell a closure where each captured variable is.
pub open spec fn emit_captures(s: CState, ups: Seq<UpvalueInfo>) -> CState
    decreases ups.len(),
{
    if ups.len() == 0 {
        s
    } else {
        let u = ups.last();
        emit(
            emit(emit_captures(s, ups.drop_last()), if u.is_local { 1u8 } else { 0u8 }),
            (u.index % 256) as u8,
        )
    }
}

/// `s` with the code ending in a return (of nil, unless it already does), at
/// the start of the source.
pub open spec fn end_with_return(s: CState) -> CState {
    if s.code.len() > 0 && s.code.last() == byte_of(OpCode::Return) {
        s
    } else {
        let start = Location { line: 1, column: 1, offset: 0 };
        CState {
            code: s.code.push(byte_of(OpCode::Nil)).push(byte_of(OpCode::Return)),
            locations: s.locations.push(start).push(start),
            constants: s.constants,
            globals: s.globals,
            envs: s.envs,
            location: s.location,
        }
    }
}

/// The code of a statement.
#[verifier::opaque]
pub open spec fn compile_stmt(s: CState, st: SpecStmt) -> CResult
    decreases st, 0int,
{
    match st {
        SpecStmt::Expression(e) => match compile_expr(s, e) {
            Err(x) => Err(x),
            Ok(s1) => Ok(emit_op(s1, OpCode::Pop)),
        },
        SpecStmt::Print(es) => match compile_exprs(s, es, 0) {
            Err(x) => Err(x),
            Ok(s1) => Ok(emit_op_with(s1, OpCode::Print, (es.len() % 256) as u8)),
        },
        SpecStmt::VarDecl { name, initializer } => {
            let init = match initializer {
                Some(e) => compile_expr(s, e),
                None => Ok(emit_op(s, OpCode::Nil)),
            };
            match init {
                Err(x) => Err(x),
                Ok(s1) => if cur(s1).scope_depth == 0 {
                    match add_global(s1, name) {
                        Err(x) => Err(x),
                        Ok((s2, g)) => Ok(emit_op_with(s2, OpCode::DefineGlobal, g)),
                    }
                } else {
                    Ok(with_cur(s1, env_add_local(cur(s1), name)))
                },
            }
        },
        SpecStmt::FuncDecl { name, params, body } => {
            let declared = if cur(s).scope_depth == 0 {
                match add_global(s, name) {
                    Err(x) => Err(x),
                    Ok((s1, g)) => Ok((s1, Some(g))),
                }
            } else {
                Ok((with_cur(s, env_add_local(cur(s), name)), None))
            };
            match declared {
                Err(x) => Err(x),
                Ok((s1, global)) => {
                    let skip = s1.code.len() + 1int;
                    let s2 = emit_jump(s1, OpCode::Jump);
                    let start_ip = s2.code.len();
                    if cur(s2).scope_depth == usize::MAX {
                        Err(compilation_error("blocks nested too deeply"@))
                    } else {
                        let inner = env_add_locals(fresh_env(cur(s2).scope_depth + 1), params);
                        let s3 = with_envs(s2, s2.envs.push(inner));
                        match compile_stmts(s3, body, 0) {
                            Err(x) => Err(x),
                            Ok(s4) => {
                                let s5 = end_with_return(s4);
                                let f = cur(s5);
                                if f.scope_depth == 0 {
                                    Err(compilation_error("cannot leave the global scope"@))
                                } else {
                                    let s6 = emit_pops(s5, f.locals.len());
                                    let s7 = patch(with_envs(s6, s6.envs.drop_last()), skip);
                                    let proto = ProtoView {
                                        name,
                                        params,
                                        start_ip: start_ip as usize,
                                        upvalues: f.upvalues,
                                    };
                                    match add_constant(s7, ConstantView::Proto(proto)) {
                                        Err(x) => Err(x),
                                        Ok((s8, p)) => {
                                            let s9 = emit_captures(
                                                emit(
                                                    emit_op_with(s8, OpCode::Closure, p),
                                                    (f.upvalues.len() % 256) as u8,
                                                ),
                                                f.upvalues,
                                            );
                                            match global {
                                                Some(g) => Ok(emit_op_with(s9, OpCode::DefineGlobal, g)),
                                                None => Ok(s9),
                                            }
                                        },
                                    }
                                }
                            },
                        }
                    }
                },
            }
        },
        SpecStmt::If { condition, then_branch, else_branch } => match compile_expr(s, condition) {
            Err(x) => Err(x),
            Ok(s1) => {
                let then_jump = s1.code.len() + 1int;
                match compile_stmt(emit_jump(s1, OpCode::JumpIfFalse), *then_branch) {
                    Err(x) => Err(x),
                    Ok(s2) => {
                        let else_jump = s2.code.len() + 1int;
                        let s3 = patch(emit_jump(s2, OpCode::Jump), then_jump);
                        let s4 = match else_branch {
                            Some(b) => compile_stmt(s3, *b),
                            None => Ok(s3),
                        };
                        match s4 {
                            Err(x) => Err(x),
                            Ok(s5) => Ok(patch(s5, else_jump)),
                        }
                    },
                }
            },
        },
        SpecStmt::While { condition, body } => {
            let start = s.code.len() as int;
            let s1 = with_cur(s, env_begin_loop(cur(s), start));
            match compile_expr(s1, condition) {
                Err(x) => Err(x),
                Ok(s2) => {
                    let exit_jump = s2.code.len() + 1int;
                    match compile_stmt(emit_jump(s2, OpCode::JumpIfFalse), *body) {
                        Err(x) => Err(x),
                        Ok(s3) => Ok(end_loop(patch(emit_loop(s3, start), exit_jump), start)),
                    }
                },
            }
        },
        SpecStmt::Return { value } => {
            let v = match value {
                Some(e) => compile_expr(s, e),
                None => Ok(emit_op(s, OpCode::Nil)),
            };
            match v {
                Err(x) => Err(x),
                Ok(s1) => Ok(emit_op(s1, OpCode::Return)),
            }
        },
        SpecStmt::Break => loop_jump(s, false),
        SpecStmt::Continue => loop_jump(s, true),
        SpecStmt::Block(ss) => match begin_scope(s) {
            Err(x) => Err(x),
            Ok(s1) => match compile_stmts(s1, ss, 0) {
                Err(x) => Err(x),
                Ok(s2) => end_scope(s2),
            },
        },
    }
}

/// The code of `ss[i..]`, in order.
#[verifier::opaque]
pub open spec fn compile_stmts(s: CState, ss: Seq<SpecStmt>, i: int) -> CResult
    decreases ss, ss.len() - i,
{
    if i < 0 || i >= ss.len() {
        Ok(s)
    } else {
        match compile_stmt(s, ss[i]) {
            Err(x) => Err(x),
            Ok(s1) => compile_stmts(s1, ss, i + 1),
        }
    }
}

/// What a compiler starts from: no code, the built-in globals, the top-level
/// scopes.
pub open spec fn initial_state() -> CState {
    CState {
        code: Seq::empty(),
        locations: Seq::empty(),
        constants: Seq::empty(),
        globals: builtin_names(),
        envs: seq![fresh_env(0)],
        location: Location { line: 1, column: 1, offset: 0 },
    }
}

/// An error of the statement at `location`, reported there.
pub open spec fn placed(e: ErrorView, location: Location) -> ErrorView {
    ErrorView { error_type: e.error_type, message: e.message, location: Some(location), file: e.file }
}

/// The code of the program `ss[i..]`; each top-level statement is compiled at
/// its location, and an error in it is reported there.
#[verifier::opaque]
pub open spec fn compile_program(s: CState, ss: Seq<(SpecStmt, Location)>, i: int) -> CResult
    decreases ss.len() - i,
{
    if i < 0 || i >= ss.len() {
        Ok(s)
    } else {
        let (st, loc) = ss[i];
        let s0 = CState {
            code: s.code,
            locations: s.locations,
            constants: s.constants,
            globals: s.globals,
            envs: s.envs,
            location: loc,
        };
        match compile_stmt(s0, st) {
            Err(x) => Err(placed(x, loc)),
            Ok(s1) => compile_program(s1, ss, i + 1),
        }
    }
}

/// The jumps a loop waits to patch lie inside the code, after the loop's start.
pub open spec fn loop_ok(c: LoopView, n: int) -> bool {
    &&& 0 <= c.start <= n
    &&& forall|i: int| 0 <= i < c.breaks.len() ==> 1 <= #[trigger] c.breaks[i] && c.breaks[i] + 2 <= n
    &&& forall|i: int|
        0 <= i < c.continues.len() ==> c.start < #[trigger] c.continues[i] && c.continues[i] + 2 <= n
}

pub open spec fn env_ok(e: EnvView, n: int) -> bool {
    &&& e.upvalues.len() <= 255
    &&& forall|k: int| 0 <= k < e.loops.len() ==> loop_ok(#[trigger] e.loops[k], n)
}

/// The invariant of a compiler's state: some scopes are open, the pools have
/// room for their indices, and every pending jump can be patched.
pub open spec fn state_ok(s: CState) -> bool {
    &&& s.envs.len() > 0
    &&& s.code.len() == s.locations.len()
    &&& s.constants.len() <= 255
    &&& s.globals.len() <= 255
    &&& forall|j: int| 0 <= j < s.envs.len() ==> env_ok(#[trigger] s.envs[j], s.code.len() as int)
}

/// The loops of `a` are still those of `b`, started at the same places.
pub open spec fn loops_kept(a: EnvView, b: EnvView) -> bool {
    &&& b.loops.len() == a.loops.len()
    &&& forall|k: int| 0 <= k < a.loops.len() ==> (#[trigger] b.loops[k]).start == a.loops[k].start
}

/// `b` came from `a` by compiling: as many scopes, the same loops, more code.
pub open spec fn kept(a: CState, b: CState) -> bool {
    &&& b.envs.len() == a.envs.len()
    &&& forall|j: int| 0 <= j < a.envs.len() ==> loops_kept(a.envs[j], #[trigger] b.envs[j])
    &&& a.code.len() <= b.code.len()
}

/// The result of a step agrees with its specification.
pub open spec fn step(r: Result<()>, before: CState, after: CState, spec: CResult) -> bool {
    match spec {
        Ok(s) => r is Ok && after == s && state_ok(s) && kept(before, s),
        Err(e) => r matches Err(x) && x@ == e,
    }
}

proof fn lemma_ok_longer(s: CState, t: CState)
    requires
        state_ok(s),
        t.envs == s.envs,
        t.constants == s.constants,
        t.globals == s.globals,
        t.code.len() >= s.code.len(),
        t.code.len() == t.locations.len(),
    ensures
        state_ok(t),
        kept(s, t),
{
    assert forall|j: int| 0 <= j < t.envs.len() implies env_ok(#[trigger] t.envs[j], t.code.len() as int) by {
        assert(env_ok(s.envs[j], s.code.len() as int));
        assert forall|k: int| 0 <= k < t.envs[j].loops.len() implies loop_ok(#[trigger] t.envs[j].loops[k], t.code.len() as int) by {
            assert(loop_ok(s.envs[j].loops[k], s.code.len() as int));
        }
    }
}

/// Replacing the innermost scopes by ones with the same loops and upvalues
/// keeps the invariant.
proof fn lemma_with_cur(s: CState, e: EnvView)
    requires
        state_ok(s),
        e.loops == cur(s).loops,
        e.upvalues == cur(s).upvalues,
    ensures
        state_ok(with_cur(s, e)),
        kept(s, with_cur(s, e)),
{
    let t = with_cur(s, e);
    assert forall|j: int| 0 <= j < t.envs.len() implies env_ok(#[trigger] t.envs[j], t.code.len() as int) by {
        assert(env_ok(s.envs[j], s.code.len() as int));
    }
    assert forall|j: int| 0 <= j < s.envs.len() implies loops_kept(s.envs[j], #[trigger] t.envs[j]) by {}
}

proof fn lemma_emit_pops(s: CState, n: nat)
    ensures
        emit_pops(s, n).envs == s.envs,
        emit_pops(s, n).constants == s.constants,
        emit_pops(s, n).globals == s.globals,
        emit_pops(s, n).location == s.location,
        emit_pops(s, n).code.len() == s.code.len() + n,
    decreases n,
{
    if n > 0 {
        lemma_emit_pops(s, (n - 1) as nat);
    }
}

proof fn lemma_kept_trans(a: CState, b: CState, c: CState)
    requires
        kept(a, b),
        kept(b, c),
    ensures
        kept(a, c),
{
    assert forall|j: int| 0 <= j < a.envs.len() implies loops_kept(a.envs[j], #[trigger] c.envs[j]) by {
        assert(loops_kept(a.envs[j], b.envs[j]));
        assert(loops_kept(b.envs[j], c.envs[j]));
    }
}

/// The scopes `enclosing` then `env`.
pub open spec fn stack_of(enclosing: Seq<Env>, env: Env) -> Seq<EnvView> {
    enclosing.map_values(|e: Env| e@).push(env@)
}

pub open spec fn stack_ok(st: Seq<EnvView>) -> bool {
    forall|j: int| 0 <= j < st.len() ==> (#[trigger] st[j]).upvalues.len() <= 255
}

pub struct Compiler {
    chunk: Chunk,
    env: Env,
    enclosing: Vec<Env>,
    location: Location,
}

impl View for Compiler {
    type V = CState;

    closed spec fn view(&self) -> CState {
        CState {
            code: self.chunk.code_view(),
            locations: self.chunk.locations_view(),
            constants: self.chunk.constants_view(),
            globals: self.chunk.globals_view(),
            envs: stack_of(self.enclosing@, self.env),
            location: self.location,
        }
    }
}

impl Compiler {
    pub fn new() -> (c: Self)
        ensures
            c@ == initial_state(),
            state_ok(c@),
    {
        let c = Compiler {
            chunk: Chunk::new(),
            env: Env::new_global(),
            enclosing: Vec::new(),
            location: Location::new(),
        };
        proof {
            assert(c@.envs =~= seq![fresh_env(0)]);
            assert(c@ =~= initial_state());
        }
        c
    }

    /// Compiles the program, each statement at its location; an error is
    /// reported at the statement it comes from.
    pub fn compile(self, stmts: &[LocatedStmt]) -> (r: Result<Chunk>)
        requires
            state_ok(self@),
        ensures
            match compile_program(self@, located_stmts_view(stmts@), 0) {
                Ok(s) => r matches Ok(c) && c.code_view() == s.code && c.locations_view() == s.locations
                    && c.constants_view() == s.constants && c.globals_view() == s.globals
                    && s.constants.len() <= 255 && s.globals.len() <= 255 && s.code.len() == s.locations.len(),
                Err(e) => r matches Err(x) && x@ == e,
            },
    {
        let ghost s0 = self@;
        let mut this = self;
        let ghost ss = located_stmts_view(stmts@);
        proof {
            assert(this@ == s0);
        }
        for i in 0..stmts.len()
            invariant
                ss == located_stmts_view(stmts@),
                s0 == self@,
                state_ok(this@),
                compile_program(this@, ss, i as int) == compile_program(s0, ss, 0),
        {
            proof {
                reveal(compile_program);
            }
            this.location = stmts[i].location;
            proof {
                let (st, loc) = ss[i as int];
                assert(st == stmts@[i as int].inner@ && loc == stmts@[i as int].location);
            }
            match this.compile_stmt(&stmts[i].inner) {
                Ok(()) => {},
                Err(e) => {
                    let ghost ev = e@;
                    let loc = stmts[i].location;
                    let placed_error = e.at_location(loc);
                    proof {
                        assert(placed_error@.message == ev.message);
                        assert(placed_error@.file == ev.file);
                        assert(placed_error@ == placed(ev, loc));
                        assert(compile_program(s0, ss, 0) == Err::<CState, ErrorView>(placed(ev, loc)));
                    }
                    return Err(placed_error);
                },
            }
        }
        proof {
            reveal(compile_program);
        }
        Ok(this.chunk)
    }
}

/// Writing code.
impl Compiler {
    fn emit_byte(&mut self, byte: u8)
        requires
            state_ok(old(self)@),
        ensures
            final(self)@ == emit(old(self)@, byte),
            state_ok(final(self)@),
            kept(old(self)@, final(self)@),
    {
        self.chunk.write_with_location(byte, self.location);
        proof {
            assert(self@ =~= emit(old(self)@, byte));
            lemma_ok_longer(old(self)@, self@);
        }
    }

    fn emit_op(&mut self, op: OpCode)
        requires
            state_ok(old(self)@),
        ensures
            final(self)@ == emit_op(old(self)@, op),
            state_ok(final(self)@),
            kept(old(self)@, final(self)@),
    {
        self.emit_byte(op.to_byte());
    }

    fn emit_op_with_operand(&mut self, op: OpCode, operand: u8)
        requires
            state_ok(old(self)@),
        ensures
            final(self)@ == emit_op_with(old(self)@, op, operand),
            state_ok(final(self)@),
            kept(old(self)@, final(self)@),
    {
        self.emit_byte(op.to_byte());
        self.emit_byte(operand);
        proof {
            lemma_kept_trans(old(self)@, emit_op(old(self)@, op), self@);
        }
    }

    /// A jump with its distance left to patch; gives where the distance is.
    fn emit_jump(&mut self, op: OpCode) -> (offset: usize)
        requires
            state_ok(old(self)@),
        ensures
            final(self)@ == emit_jump(old(self)@, op),
            offset == old(self)@.code.len() + 1,
            state_ok(final(self)@),
            kept(old(self)@, final(self)@),
    {
        self.emit_byte(op.to_byte());
        let offset = self.chunk.current_ip();
        self.emit_byte(0);
        self.emit_byte(0);
        proof {
            lemma_ok_longer(old(self)@, self@);
        }
        offset
    }

    fn emit_pops(&mut self, n: usize)
        requires
            state_ok(old(self)@),
        ensures
            final(self)@ == emit_pops(old(self)@, n as nat),
            state_ok(final(self)@),
            kept(old(self)@, final(self)@),
    {
        for k in 0..n
            invariant
                self@ == emit_pops(old(self)@, k as nat),
                state_ok(self@),
                kept(old(self)@, self@),
        {
            let ghost before = self@;
            self.emit_op(OpCode::Pop);
            proof {
                lemma_kept_trans(old(self)@, before, self@);
            }
        }
    }

    /// A jump back to `loop_start`.
    fn emit_loop(&mut self, loop_start: usize)
        requires
            state_ok(old(self)@),
            loop_start <= old(self)@.code.len(),
        ensures
            final(self)@ == emit_loop(old(self)@, loop_start as int),
            state_ok(final(self)@),
            kept(old(self)@, final(self)@),
    {
        let offset: u128 = (self.chunk.current_ip() - loop_start) as u128 + 3;
        self.emit_byte(OpCode::Loop.to_byte());
        self.emit_byte(((offset / 256) % 256) as u8);
        self.emit_byte((offset % 256) as u8);
        proof {
            lemma_ok_longer(old(self)@, self@);
        }
    }

    /// Makes the jump whose distance is at `offset` reach the end of the code.
    fn patch_jump(&mut self, offset: usize)
        requires
            state_ok(old(self)@),
            offset + 2 <= old(self)@.code.len(),
        ensures
            final(self)@ == patch(old(self)@, offset as int),
            state_ok(final(self)@),
            kept(old(self)@, final(self)@),
    {
        self.chunk.patch_jump(offset);
        proof {
            assert(self@ =~= patch(old(self)@, offset as int));
            lemma_ok_longer(old(self)@, self@);
        }
    }

    fn add_constant(&mut self, value: Constant) -> (r: Result<u8>)
        requires
            state_ok(old(self)@),
        ensures
            match add_constant(old(self)@, value@) {
                Ok((s, i)) => r == Ok::<u8, Error>(i) && final(self)@ == s && state_ok(s) && kept(old(self)@, s),
                Err(e) => r matches Err(x) && x@ == e,
            },
    {
        match self.chunk.resolve_constant(&value) {
            Some(i) => {
                proof {
                    lemma_first_index(self@.constants, value@, i as int);
                }
                Ok(i)
            },
            None => {
                if self.chunk.constant_count() < 255 {
                    let i = self.chunk.add_constant(value);
                    proof {
                        assert(self@ =~= with_constants(old(self)@, old(self)@.constants.push(value@)));
                    }
                    Ok(i)
                } else {
                    Err(Error::constant_overflow())
                }
            },
        }
    }

    fn add_global(&mut self, name: String) -> (r: Result<u8>)
        requires
            state_ok(old(self)@),
        ensures
            match add_global(old(self)@, name@) {
                Ok((s, i)) => r == Ok::<u8, Error>(i) && final(self)@ == s && state_ok(s) && kept(old(self)@, s),
                Err(e) => r matches Err(x) && x@ == e,
            },
    {
        match self.chunk.resolve_global(name.as_str()) {
            Some(i) => {
                proof {
                    lemma_first_index(self@.globals, name@, i as int);
                }
                Ok(i)
            },
            None => {
                if self.chunk.global_count() < 255 {
                    let i = self.chunk.add_global(name);
                    proof {
                        assert(self@ =~= with_globals(old(self)@, old(self)@.globals.push(name@)));
                    }
                    Ok(i)
                } else {
                    Err(Error::global_overflow())
                }
            },
        }
    }

    fn emit_constant(&mut self, value: Constant) -> (r: Result<()>)
        requires
            state_ok(old(self)@),
        ensures
            step(r, old(self)@, final(self)@, emit_constant(old(self)@, value@)),
    {
        let ghost v = value@;
        let i = match self.add_constant(value) {
            Ok(i) => i,
            Err(e) => {
                return Err(e);
            },
        };
        let ghost mid = self@;
        self.emit_op_with_operand(OpCode::Constant, i);
        proof {
            lemma_kept_trans(old(self)@, mid, self@);
        }
        Ok(())
    }
}

/// Scopes and variables.
impl Compiler {
    fn begin_scope(&mut self) -> (r: Result<()>)
        requires
            state_ok(old(self)@),
        ensures
            step(r, old(self)@, final(self)@, begin_scope(old(self)@)),
    {
        if self.env.scope_depth == usize::MAX {
            return Err(Error::compilation(String::from_str("blocks nested too deeply")));
        }
        self.env.begin_scope();
        proof {
            lemma_with_cur(old(self)@, with_depth(cur(old(self)@), (cur(old(self)@).scope_depth + 1) as usize));
            assert(self@.envs =~= old(self)@.envs.update(
                old(self)@.envs.len() - 1,
                with_depth(cur(old(self)@), (cur(old(self)@).scope_depth + 1) as usize),
            ));
            assert(self@ =~= begin_scope(old(self)@)->Ok_0);
        }
        Ok(())
    }

    fn end_scope(&mut self) -> (r: Result<()>)
        requires
            state_ok(old(self)@),
        ensures
            step(r, old(self)@, final(self)@, end_scope(old(self)@)),
    {
        let n = match self.env.end_scope() {
            Ok(n) => n,
            Err(e) => {
                return Err(e);
            },
        };
        let ghost mid = self@;
        proof {
            let (e, m) = env_end_scope(cur(old(self)@))->Ok_0;
            assert(self@ =~= with_cur(old(self)@, e));
            lemma_with_cur(old(self)@, e);
        }
        self.emit_pops(n);
        proof {
            lemma_kept_trans(old(self)@, mid, self@);
        }
        Ok(())
    }
}

/// Variables.
impl Compiler {
    /// The upvalue `name` of `env`, found in the scopes of `enclosing`.
    #[verifier::rlimit(30)]
    fn resolve_upvalue(enclosing: &mut Vec<Env>, env: &mut Env, name: &str) -> (r: Result<Option<u8>>)
        requires
            stack_ok(stack_of(old(enclosing)@, *old(env))),
        ensures
            match resolve_upvalue(stack_of(old(enclosing)@, *old(env)), name@) {
                Ok(None) => r == Ok::<Option<u8>, Error>(None) && stack_of(final(enclosing)@, *final(env))
                    == stack_of(old(enclosing)@, *old(env)),
                Ok(Some((st, k))) => r == Ok::<Option<u8>, Error>(Some(k)) && stack_of(
                    final(enclosing)@,
                    *final(env),
                ) == st,
                Err(e) => r matches Err(x) && x@ == e,
            },
        decreases old(enclosing)@.len(),
    {
        let ghost st0 = stack_of(enclosing@, *env);
        let mut enc = match enclosing.pop() {
            Some(e) => e,
            None => {
                return Ok(None);
            },
        };
        let ghost outer = stack_of(enclosing@, enc);
        proof {
            assert(outer =~= st0.drop_last());
        }
        let found: Option<(usize, bool)> = match enc.resolve_local(name) {
            Some(li) => {
                proof {
                    let i = local_slot(enc@.locals, name@)->Some_0;
                    assert(last_named(enc@.locals, name@, i));
                }
                enc.capture_local(li as usize);
                Some((li as usize, true))
            },
            None => {
                match Self::resolve_upvalue(enclosing, &mut enc, name) {
                    Err(e) => {
                        return Err(e);
                    },
                    Ok(None) => None,
                    Ok(Some(u)) => Some((u as usize, false)),
                }
            },
        };
        let ghost mid = stack_of(enclosing@, enc);
        enclosing.push(enc);
        proof {
            assert(enclosing@.map_values(|e: Env| e@) =~= mid);
        }
        match found {
            None => Ok(None),
            Some((index, is_local)) => {
                if env.has_upvalue(index, is_local) || env.upvalues.len() < 255 {
                    let k = env.add_upvalue(index, is_local);
                    Ok(Some(k))
                } else {
                    Err(Error::upvalue_overflow())
                }
            },
        }
    }
}

/// The error for a variable that is nowhere: reading it, or assigning it.
pub open spec fn missing_view(is_get: bool, name: Seq<char>) -> ErrorView {
    if is_get {
        undefined_variable_view(name)
    } else {
        compilation_error("Assignment to undeclared variable '"@ + name + "'"@)
    }
}

/// Resolving an upvalue changes no loop, and keeps every function within
/// the number of upvalues an instruction can address.
proof fn lemma_resolve_keeps(st: Seq<EnvView>, name: Seq<char>)
    requires
        stack_ok(st),
    ensures
        resolve_upvalue(st, name) matches Ok(Some((st2, k))) ==> {
            &&& st2.len() == st.len()
            &&& stack_ok(st2)
            &&& forall|j: int| 0 <= j < st.len() ==> (#[trigger] st2[j]).loops == st[j].loops
        },
    decreases st.len(),
{
    if st.len() > 1 {
        let outer = st.drop_last();
        assert(stack_ok(outer));
        lemma_resolve_keeps(outer, name);
    }
}

proof fn lemma_state_stack(s: CState)
    requires
        state_ok(s),
    ensures
        stack_ok(s.envs),
{
    assert forall|j: int| 0 <= j < s.envs.len() implies (#[trigger] s.envs[j]).upvalues.len() <= 255 by {
        assert(env_ok(s.envs[j], s.code.len() as int));
    }
}

proof fn lemma_with_envs(s: CState, envs: Seq<EnvView>)
    requires
        state_ok(s),
        stack_ok(envs),
        envs.len() == s.envs.len(),
        forall|j: int| 0 <= j < s.envs.len() ==> (#[trigger] envs[j]).loops == s.envs[j].loops,
    ensures
        state_ok(with_envs(s, envs)),
        kept(s, with_envs(s, envs)),
{
    let t = with_envs(s, envs);
    assert forall|j: int| 0 <= j < t.envs.len() implies env_ok(#[trigger] t.envs[j], t.code.len() as int) by {
        assert(env_ok(s.envs[j], s.code.len() as int));
        assert(envs[j].loops == s.envs[j].loops);
    }
    assert forall|j: int| 0 <= j < s.envs.len() implies loops_kept(s.envs[j], #[trigger] t.envs[j]) by {
        assert(envs[j].loops == s.envs[j].loops);
    }
}

impl Compiler {
    /// The instruction that reads (or, unless `is_get`, writes) `name`.
    fn access(
        &mut self,
        name: &str,
        local_op: OpCode,
        upvalue_op: OpCode,
        global_op: OpCode,
        is_get: bool,
    ) -> (r: Result<()>)
        requires
            state_ok(old(self)@),
        ensures
            step(
                r,
                old(self)@,
                final(self)@,
                access(old(self)@, name@, local_op, upvalue_op, global_op, missing_view(is_get, name@)),
            ),
    {
        if let Some(slot) = self.env.resolve_local(name) {
            self.emit_op_with_operand(local_op, slot);
            return Ok(());
        }
        proof {
            lemma_state_stack(self@);
            lemma_resolve_keeps(self@.envs, name@);
        }
        match Self::resolve_upvalue(&mut self.enclosing, &mut self.env, name) {
            Err(e) => {
                return Err(e);
            },
            Ok(Some(k)) => {
                proof {
                    let st2 = resolve_upvalue(old(self)@.envs, name@)->Ok_0->Some_0.0;
                    assert(self@ =~= with_envs(old(self)@, st2));
                    lemma_with_envs(old(self)@, st2);
                }
                let ghost mid = self@;
                self.emit_op_with_operand(upvalue_op, k);
                proof {
                    lemma_kept_trans(old(self)@, mid, self@);
                }
                return Ok(());
            },
            Ok(None) => {},
        }
        proof {
            assert(self@ =~= old(self)@);
        }
        match self.chunk.resolve_global(name) {
            Some(g) => {
                proof {
                    lemma_first_index(self@.globals, name@, g as int);
                }
                self.emit_op_with_operand(global_op, g);
                Ok(())
            },
            None => {
                if is_get {
                    Err(Error::undefined_variable(name))
                } else {
                    Err(Error::compilation(join3("Assignment to undeclared variable '", name, "'")))
                }
            },
        }
    }
}

/// Expressions.
impl Compiler {
    fn binary_opcode(op: BinaryOp) -> (r: OpCode)
        ensures
            r == binary_opcode(op),
    {
        match op {
            BinaryOp::Add => OpCode::Add,
            BinaryOp::Subtract => OpCode::Subtract,
            BinaryOp::Multiply => OpCode::Multiply,
            BinaryOp::Divide => OpCode::Divide,
            BinaryOp::Equal => OpCode::Equal,
            BinaryOp::NotEqual => OpCode::NotEqual,
            BinaryOp::LessThan => OpCode::LessThan,
            BinaryOp::LessEqual => OpCode::LessEqual,
            BinaryOp::GreaterThan => OpCode::GreaterThan,
            BinaryOp::GreaterEqual => OpCode::GreaterEqual,
            BinaryOp::LogicalAnd => OpCode::JumpIfFalse,
            BinaryOp::LogicalOr => OpCode::JumpIfTrue,
        }
    }

    /// The code of each expression, in order.
    fn compile_exprs(&mut self, es: &Vec<Expr>) -> (r: Result<()>)
        requires
            state_ok(old(self)@),
        ensures
            step(r, old(self)@, final(self)@, compile_exprs(old(self)@, exprs_view(es@), 0)),
        decreases es, 0int,
    {
        let ghost v = exprs_view(es@);
        let ghost s0 = self@;
        for i in 0..es.len()
            invariant
                v == exprs_view(es@),
                s0 == old(self)@,
                state_ok(self@),
                kept(s0, self@),
                compile_exprs(self@, v, i as int) == compile_exprs(s0, v, 0),
        {
            proof {
                reveal(compile_exprs);
                reveal(compile_expr);
            }
            let ghost before = self@;
            match self.compile_expr(&es[i]) {
                Ok(()) => {},
                Err(x) => {
                    return Err(x);
                },
            }
            proof {
                lemma_kept_trans(s0, before, self@);
            }
        }
        proof {
            reveal(compile_exprs);
        }
        Ok(())
    }

    /// The code of `e`, which leaves its value on the stack.
    fn compile_expr(&mut self, e: &Expr) -> (r: Result<()>)
        requires
            state_ok(old(self)@),
        ensures
            step(r, old(self)@, final(self)@, compile_expr(old(self)@, e@)),
        decreases e, 1int,
    {
        proof {
            reveal(compile_expr);
        }
        match e {
            Expr::Number(n) => self.emit_constant(Constant::Number(n.clone())),
            Expr::String(t) => self.emit_constant(Constant::String(t.clone())),
            Expr::Boolean(b) => self.emit_constant(Constant::Boolean(*b)),
            Expr::Nil => {
                self.emit_op(OpCode::Nil);
                Ok(())
            },
            Expr::Variable(name) => self.access(
                name.as_str(),
                OpCode::GetLocal,
                OpCode::GetUpvalue,
                OpCode::GetGlobal,
                true,
            ),
            Expr::Array(_) => self.compile_array(e),
            Expr::Call { .. } => self.compile_call(e),
            Expr::Binary { .. } => self.compile_binary(e),
            _ => self.compile_compound(e),
        }
    }

    fn compile_array(&mut self, e: &Expr) -> (r: Result<()>)
        requires
            state_ok(old(self)@),
            e is Array,
        ensures
            step(r, old(self)@, final(self)@, compile_expr(old(self)@, e@)),
        decreases e, 0int,
    {
        proof {
            reveal(compile_expr);
        }
        let ghost s0 = self@;
        match e {
            Expr::Array(es) => {
                proof {
                    reveal(compile_exprs);
                    assert(e@ matches SpecExpr::Array(v) && v =~= exprs_view(es@));
                }
                match self.compile_exprs(es) {
                    Ok(()) => {},
                    Err(x) => {
                        return Err(x);
                    },
                }
                let ghost s1 = self@;
                self.emit_op_with_operand(OpCode::Array, (es.len() % 256) as u8);
                proof {
                    lemma_kept_trans(s0, s1, self@);
                }
                Ok(())
            },
            _ => Ok(()),
        }
    }

    fn compile_call(&mut self, e: &Expr) -> (r: Result<()>)
        requires
            state_ok(old(self)@),
            e is Call,
        ensures
            step(r, old(self)@, final(self)@, compile_expr(old(self)@, e@)),
        decreases e, 0int,
    {
        proof {
            reveal(compile_expr);
        }
        let ghost s0 = self@;
        match e {
            Expr::Call { callee, arguments } => {
                proof {
                    reveal(compile_exprs);
                    assert(e@ matches SpecExpr::Call { callee: c, arguments: v } && v =~= exprs_view(
                        arguments@,
                    ));
                }
                match self.compile_exprs(arguments) {
                    Ok(()) => {},
                    Err(x) => {
                        return Err(x);
                    },
                }
                let ghost s1 = self@;
                match self.compile_expr(&**callee) {
                    Ok(()) => {},
                    Err(x) => {
                        return Err(x);
                    },
                }
                let ghost s2 = self@;
                self.emit_op_with_operand(OpCode::Call, (arguments.len() % 256) as u8);
                proof {
                    lemma_kept_trans(s0, s1, s2);
                    lemma_kept_trans(s0, s2, self@);
                }
                Ok(())
            },
            _ => Ok(()),
        }
    }

    fn compile_binary(&mut self, e: &Expr) -> (r: Result<()>)
        requires
            state_ok(old(self)@),
            e is Binary,
        ensures
            step(r, old(self)@, final(self)@, compile_expr(old(self)@, e@)),
        decreases e, 0int,
    {
        proof {
            reveal(compile_expr);
        }
        let ghost s0 = self@;
        match e {
            Expr::Binary { left, operator, right } => {
                match self.compile_expr(&**left) {
                    Ok(()) => {},
                    Err(x) => {
                        return Err(x);
                    },
                }
                let ghost s1 = self@;
                match operator {
                    BinaryOp::LogicalAnd | BinaryOp::LogicalOr => {
                        self.emit_op(OpCode::Dup);
                        let left_jump = self.emit_jump(Self::binary_opcode(*operator));
                        self.emit_op(OpCode::Pop);
                        let ghost s3 = self@;
                        proof {
                            lemma_kept_trans(s0, s1, s3);
                        }
                        match self.compile_expr(&**right) {
                            Ok(()) => {},
                            Err(x) => {
                                return Err(x);
                            },
                        }
                        let ghost s4 = self@;
                        let right_jump = self.emit_jump(OpCode::Jump);
                        self.patch_jump(left_jump);
                        self.patch_jump(right_jump);
                        proof {
                            lemma_kept_trans(s0, s3, s4);
                            lemma_kept_trans(s0, s4, self@);
                        }
                        Ok(())
                    },
                    _ => {
                        match self.compile_expr(&**right) {
                            Ok(()) => {},
                            Err(x) => {
                                return Err(x);
                            },
                        }
                        let ghost s2 = self@;
                        self.emit_op(Self::binary_opcode(*operator));
                        proof {
                            lemma_kept_trans(s0, s1, s2);
                            lemma_kept_trans(s0, s2, self@);
                        }
                        Ok(())
                    },
                }
            },
            _ => Ok(()),
        }
    }

    fn compile_compound(&mut self, e: &Expr) -> (r: Result<()>)
        requires
            state_ok(old(self)@),
            e is Unary || e is Assign || e is IndexAssign || e is Index,
        ensures
            step(r, old(self)@, final(self)@, compile_expr(old(self)@, e@)),
        decreases e, 0int,
    {
        proof {
            reveal(compile_expr);
        }
        let ghost s0 = self@;
        match e {
            Expr::Unary { operator, operand } => {
                match self.compile_expr(&**operand) {
                    Ok(()) => {},
                    Err(x) => {
                        return Err(x);
                    },
                }
                let ghost s1 = self@;
                match operator {
                    UnaryOp::Negate => self.emit_op(OpCode::Negate),
                    UnaryOp::Not => self.emit_op(OpCode::Not),
                }
                proof {
                    lemma_kept_trans(s0, s1, self@);
                }
                Ok(())
            },
            Expr::Assign { name, value } => {
                match self.compile_expr(&**value) {
                    Ok(()) => {},
                    Err(x) => {
                        return Err(x);
                    },
                }
                let ghost s1 = self@;
                let r = self.access(
                    name.as_str(),
                    OpCode::SetLocal,
                    OpCode::SetUpvalue,
                    OpCode::SetGlobal,
                    false,
                );
                proof {
                    if r is Ok {
                        lemma_kept_trans(s0, s1, self@);
                    }
                }
                r
            },
            Expr::IndexAssign { array, index, value } => {
                match self.compile_expr(&**array) {
                    Ok(()) => {},
                    Err(x) => {
                        return Err(x);
                    },
                }
                let ghost s1 = self@;
                match self.compile_expr(&**index) {
                    Ok(()) => {},
                    Err(x) => {
                        return Err(x);
                    },
                }
                let ghost s2 = self@;
                match self.compile_expr(&**value) {
                    Ok(()) => {},
                    Err(x) => {
                        return Err(x);
                    },
                }
                let ghost s3 = self@;
                self.emit_op(OpCode::IndexSet);
                proof {
                    lemma_kept_trans(s0, s1, s2);
                    lemma_kept_trans(s0, s2, s3);
                    lemma_kept_trans(s0, s3, self@);
                }
                Ok(())
            },
            Expr::Index { array, index } => {
                match self.compile_expr(&**array) {
                    Ok(()) => {},
                    Err(x) => {
                        return Err(x);
                    },
                }
                let ghost s1 = self@;
                match self.compile_expr(&**index) {
                    Ok(()) => {},
                    Err(x) => {
                        return Err(x);
                    },
                }
                let ghost s2 = self@;
                self.emit_op(OpCode::Index);
                proof {
                    lemma_kept_trans(s0, s1, s2);
                    lemma_kept_trans(s0, s2, self@);
                }
                Ok(())
            },
            _ => Ok(()),
        }
    }

}

/// Loops.
impl Compiler {
    /// Makes the jump whose distance is at `offset` reach `target`.
    fn patch_jump_to(&mut self, offset: usize, target: usize)
        requires
            state_ok(old(self)@),
            1 <= offset,
            offset + 2 <= old(self)@.code.len(),
            offset < target ==> offset + 2 <= target,
        ensures
            final(self)@ == patch_to(old(self)@, offset as int, target as int),
            state_ok(final(self)@),
            kept(old(self)@, final(self)@),
    {
        self.chunk.patch_jump_with_target(offset, target);
        proof {
            assert(self@ =~= patch_to(old(self)@, offset as int, target as int));
            lemma_ok_longer(old(self)@, self@);
        }
    }

    /// Ends the innermost loop: its `break` jumps reach the end of the code,
    /// its `continue` jumps reach `continue_target`.
    fn end_loop(&mut self, continue_target: usize)
        requires
            state_ok(old(self)@),
            continue_target <= old(self)@.code.len(),
            cur(old(self)@).loops.len() > 0 ==> cur(old(self)@).loops.last().start == continue_target,
        ensures
            final(self)@ == end_loop(old(self)@, continue_target as int),
            state_ok(final(self)@),
            final(self)@.code.len() == old(self)@.code.len(),
            final(self)@.envs.len() == old(self)@.envs.len(),
            forall|j: int|
                0 <= j < old(self)@.envs.len() - 1 ==> (#[trigger] final(self)@.envs[j]).loops == old(
                    self,
                )@.envs[j].loops,
            cur(old(self)@).loops.len() > 0 ==> cur(final(self)@).loops == cur(old(self)@).loops.drop_last(),
    {
        let ghost s0 = self@;
        let ghost n = s0.code.len() as int;
        proof {
            assert(env_ok(s0.envs[s0.envs.len() - 1], n));
        }
        match self.env.end_loop() {
            None => {
                proof {
                    assert(self@ =~= s0);
                }
            },
            Some(ctx) => {
                let ghost c = ctx@;
                let ghost s1 = self@;
                proof {
                    assert(loop_ok(cur(s0).loops[cur(s0).loops.len() - 1], n));
                    assert(s1 =~= with_cur(s0, with_loops(cur(s0), cur(s0).loops.drop_last())));
                    assert forall|j: int| 0 <= j < s1.envs.len() implies env_ok(#[trigger] s1.envs[j], n) by {
                        assert(env_ok(s0.envs[j], n));
                        if j == s1.envs.len() - 1 {
                            assert forall|k: int| 0 <= k < s1.envs[j].loops.len() implies loop_ok(#[trigger] s1.envs[j].loops[k], n) by {
                                assert(s1.envs[j].loops[k] == s0.envs[j].loops[k]);
                            }
                        }
                    }
                    assert(state_ok(s1));
                }
                for i in 0..ctx.break_jumps.len()
                    invariant
                        c == ctx@,
                        loop_ok(c, n),
                        s1.code.len() == n,
                        state_ok(self@),
                        self@.code.len() == n,
                        self@.envs == s1.envs,
                        self@ == patch_all(s1, c.breaks.take(i as int)),
                {
                    proof {
                        assert(c.breaks.take(i + 1).drop_last() =~= c.breaks.take(i as int));
                        assert(1 <= c.breaks[i as int]);
                    }
                    self.patch_jump(ctx.break_jumps[i]);
                }
                let ghost s2 = self@;
                proof {
                    assert(c.breaks.take(c.breaks.len() as int) =~= c.breaks);
                }
                for i in 0..ctx.continue_jumps.len()
                    invariant
                        c == ctx@,
                        loop_ok(c, n),
                        c.start == continue_target,
                        state_ok(self@),
                        self@.code.len() == n,
                        self@.envs == s1.envs,
                        s2 == patch_all(s1, c.breaks),
                        self@ == patch_all_to(s2, c.continues.take(i as int), continue_target as int),
                {
                    proof {
                        assert(c.continues.take(i + 1).drop_last() =~= c.continues.take(i as int));
                        assert(c.start < c.continues[i as int]);
                    }
                    self.patch_jump_to(ctx.continue_jumps[i], continue_target);
                }
                proof {
                    assert(c.continues.take(c.continues.len() as int) =~= c.continues);
                }
            },
        }
    }

    /// A `break` (or a `continue`): pops of the loop's locals and a jump to
    /// patch when the loop ends.
    fn loop_jump(&mut self, is_continue: bool) -> (r: Result<()>)
        requires
            state_ok(old(self)@),
        ensures
            step(r, old(self)@, final(self)@, loop_jump(old(self)@, is_continue)),
    {
        if !self.env.in_loop() {
            return Err(
                Error::compilation(
                    String::from_str(
                        if is_continue {
                            "continue outside of loop"
                        } else {
                            "break outside of loop"
                        },
                    ),
                ),
            );
        }
        let pop_count = self.env.loop_locals_to_pop();
        self.emit_pops(pop_count);
        let ghost s1 = self@;
        let at = self.emit_jump(OpCode::Jump);
        let ghost s2 = self@;
        if is_continue {
            let _ = self.env.add_continue_jump(at);
        } else {
            let _ = self.env.add_break_jump(at);
        }
        proof {
            lemma_kept_trans(old(self)@, s1, s2);
            let e = env_add_loop_jump(cur(s2), at, is_continue);
            assert(self@ =~= with_cur(s2, e));
            let t = with_cur(s2, e);
            let m = cur(s2).loops.len() - 1;
            assert(env_ok(s2.envs[s2.envs.len() - 1], s2.code.len() as int));
            assert(loop_ok(cur(s2).loops[m], s2.code.len() as int));
            assert(loop_ok(cur(s1).loops[m], s1.code.len() as int));
            assert forall|j: int| 0 <= j < t.envs.len() implies env_ok(#[trigger] t.envs[j], t.code.len() as int) by {
                assert(env_ok(s2.envs[j], s2.code.len() as int));
                if j == t.envs.len() - 1 {
                    assert forall|k: int| 0 <= k < t.envs[j].loops.len() implies loop_ok(#[trigger] t.envs[j].loops[k], t.code.len() as int) by {
                        if k != m {
                            assert(t.envs[j].loops[k] == s2.envs[j].loops[k]);
                            assert(loop_ok(s2.envs[j].loops[k], s2.code.len() as int));
                        }
                    }
                }
            }
            assert forall|j: int| 0 <= j < s2.envs.len() implies loops_kept(s2.envs[j], #[trigger] t.envs[j]) by {}
            lemma_kept_trans(old(self)@, s2, t);
        }
        Ok(())
    }
}

fn copy_upvalues(v: &Vec<UpvalueInfo>) -> (r: Vec<UpvalueInfo>)
    ensures
        r@ == v@,
{
    let mut r: Vec<UpvalueInfo> = Vec::new();
    for i in 0..v.len()
        invariant
            r@ == v@.take(i as int),
    {
        r.push(v[i]);
        proof {
            assert(v@.take(i + 1) =~= v@.take(i as int).push(v@[i as int]));
        }
    }
    proof {
        assert(v@.take(v@.len() as int) =~= v@);
    }
    r
}

/// Statements.
impl Compiler {
    /// The code of each statement, in order.
    fn compile_stmts(&mut self, ss: &Vec<Stmt>) -> (r: Result<()>)
        requires
            state_ok(old(self)@),
        ensures
            step(r, old(self)@, final(self)@, compile_stmts(old(self)@, stmts_view(ss@), 0)),
        decreases ss, 0int,
    {
        let ghost v = stmts_view(ss@);
        let ghost s0 = self@;
        for i in 0..ss.len()
            invariant
                v == stmts_view(ss@),
                s0 == old(self)@,
                state_ok(self@),
                kept(s0, self@),
                compile_stmts(self@, v, i as int) == compile_stmts(s0, v, 0),
        {
            proof {
                reveal(compile_stmts);
                reveal(compile_stmt);
            }
            let ghost before = self@;
            match self.compile_stmt(&ss[i]) {
                Ok(()) => {},
                Err(x) => {
                    return Err(x);
                },
            }
            proof {
                lemma_kept_trans(s0, before, self@);
            }
        }
        proof {
            reveal(compile_stmts);
        }
        Ok(())
    }

    /// The code of a statement.
    fn compile_stmt(&mut self, st: &Stmt) -> (r: Result<()>)
        requires
            state_ok(old(self)@),
        ensures
            step(r, old(self)@, final(self)@, compile_stmt(old(self)@, st@)),
        decreases st, 1int,
    {
        proof {
            reveal(compile_stmt);
        }
        match st {
            Stmt::VarDecl { .. } => self.compile_var_decl(st),
            Stmt::FuncDecl { .. } => self.compile_func_decl(st),
            Stmt::If { .. } => self.compile_if(st),
            Stmt::While { .. } => self.compile_while(st),
            Stmt::Block(_) => self.compile_block(st),
            Stmt::Break => self.loop_jump(false),
            Stmt::Continue => self.loop_jump(true),
            _ => self.compile_simple(st),
        }
    }

    fn compile_simple(&mut self, st: &Stmt) -> (r: Result<()>)
        requires
            state_ok(old(self)@),
            st is Expression || st is Print || st is Return,
        ensures
            step(r, old(self)@, final(self)@, compile_stmt(old(self)@, st@)),
        decreases st, 0int,
    {
        proof {
            reveal(compile_stmt);
        }
        let ghost s0 = self@;
        match st {
            Stmt::Expression(e) => {
                match self.compile_expr(e) {
                    Ok(()) => {},
                    Err(x) => {
                        return Err(x);
                    },
                }
                let ghost s1 = self@;
                self.emit_op(OpCode::Pop);
                proof {
                    lemma_kept_trans(s0, s1, self@);
                }
                Ok(())
            },
            Stmt::Print(es) => {
                proof {
                    reveal(compile_exprs);
                    assert(st@ matches SpecStmt::Print(v) && v =~= exprs_view(es@));
                }
                match self.compile_exprs(es) {
                    Ok(()) => {},
                    Err(x) => {
                        return Err(x);
                    },
                }
                let ghost s1 = self@;
                self.emit_op_with_operand(OpCode::Print, (es.len() % 256) as u8);
                proof {
                    lemma_kept_trans(s0, s1, self@);
                }
                Ok(())
            },
            Stmt::Return { value } => {
                match value {
                    Some(e) => {
                        match self.compile_expr(e) {
                            Ok(()) => {},
                            Err(x) => {
                                return Err(x);
                            },
                        }
                    },
                    None => self.emit_op(OpCode::Nil),
                }
                let ghost s1 = self@;
                self.emit_op(OpCode::Return);
                proof {
                    lemma_kept_trans(s0, s1, self@);
                }
                Ok(())
            },
            _ => Ok(()),
        }
    }

    fn compile_var_decl(&mut self, st: &Stmt) -> (r: Result<()>)
        requires
            state_ok(old(self)@),
            st is VarDecl,
        ensures
            step(r, old(self)@, final(self)@, compile_stmt(old(self)@, st@)),
        decreases st, 0int,
    {
        proof {
            reveal(compile_stmt);
        }
        let ghost s0 = self@;
        match st {
            Stmt::VarDecl { name, initializer } => {
                match initializer {
                    Some(e) => {
                        match self.compile_expr(e) {
                            Ok(()) => {},
                            Err(x) => {
                                return Err(x);
                            },
                        }
                    },
                    None => self.emit_op(OpCode::Nil),
                }
                let ghost s1 = self@;
                if self.env.is_global() {
                    let g = match self.add_global(name.clone()) {
                        Ok(g) => g,
                        Err(x) => {
                            return Err(x);
                        },
                    };
                    let ghost s2 = self@;
                    self.emit_op_with_operand(OpCode::DefineGlobal, g);
                    proof {
                        lemma_kept_trans(s0, s1, s2);
                        lemma_kept_trans(s0, s2, self@);
                    }
                } else {
                    self.env.add_local(name.clone());
                    proof {
                        let e = env_add_local(cur(s1), name@);
                        assert(self@ =~= with_cur(s1, e));
                        lemma_with_cur(s1, e);
                        lemma_kept_trans(s0, s1, self@);
                    }
                }
                Ok(())
            },
            _ => Ok(()),
        }
    }

    fn compile_block(&mut self, st: &Stmt) -> (r: Result<()>)
        requires
            state_ok(old(self)@),
            st is Block,
        ensures
            step(r, old(self)@, final(self)@, compile_stmt(old(self)@, st@)),
        decreases st, 0int,
    {
        proof {
            reveal(compile_stmt);
            reveal(compile_stmts);
        }
        let ghost s0 = self@;
        match st {
            Stmt::Block(ss) => {
                proof {
                    assert(st@ matches SpecStmt::Block(v) && v =~= stmts_view(ss@));
                }
                match self.begin_scope() {
                    Ok(()) => {},
                    Err(x) => {
                        return Err(x);
                    },
                }
                let ghost s1 = self@;
                match self.compile_stmts(ss) {
                    Ok(()) => {},
                    Err(x) => {
                        return Err(x);
                    },
                }
                let ghost s2 = self@;
                let r = self.end_scope();
                proof {
                    if r is Ok {
                        lemma_kept_trans(s0, s1, s2);
                        lemma_kept_trans(s0, s2, self@);
                    }
                }
                r
            },
            _ => Ok(()),
        }
    }

    fn compile_if(&mut self, st: &Stmt) -> (r: Result<()>)
        requires
            state_ok(old(self)@),
            st is If,
        ensures
            step(r, old(self)@, final(self)@, compile_stmt(old(self)@, st@)),
        decreases st, 0int,
    {
        proof {
            reveal(compile_stmt);
        }
        let ghost s0 = self@;
        match st {
            Stmt::If { condition, then_branch, else_branch } => {
                match self.compile_expr(condition) {
                    Ok(()) => {},
                    Err(x) => {
                        return Err(x);
                    },
                }
                let ghost s1 = self@;
                let then_jump = self.emit_jump(OpCode::JumpIfFalse);
                let ghost s2 = self@;
                match self.compile_stmt(&**then_branch) {
                    Ok(()) => {},
                    Err(x) => {
                        return Err(x);
                    },
                }
                let ghost s3 = self@;
                let else_jump = self.emit_jump(OpCode::Jump);
                self.patch_jump(then_jump);
                let ghost s4 = self@;
                proof {
                    lemma_kept_trans(s0, s1, s2);
                    lemma_kept_trans(s0, s2, s3);
                    lemma_kept_trans(s0, s3, s4);
                }
                match else_branch {
                    Some(b) => {
                        match self.compile_stmt(&**b) {
                            Ok(()) => {},
                            Err(x) => {
                                return Err(x);
                            },
                        }
                    },
                    None => {},
                }
                let ghost s5 = self@;
                self.patch_jump(else_jump);
                proof {
                    lemma_kept_trans(s0, s4, s5);
                    lemma_kept_trans(s0, s5, self@);
                }
                Ok(())
            },
            _ => Ok(()),
        }
    }

    #[verifier::rlimit(30)]
    fn compile_while(&mut self, st: &Stmt) -> (r: Result<()>)
        requires
            state_ok(old(self)@),
            st is While,
        ensures
            step(r, old(self)@, final(self)@, compile_stmt(old(self)@, st@)),
        decreases st, 0int,
    {
        proof {
            reveal(compile_stmt);
        }
        let ghost s0 = self@;
        match st {
            Stmt::While { condition, body } => {
                let start = self.chunk.current_ip();
                self.env.begin_loop(Ghost(start as int));
                let ghost s1 = self@;
                proof {
                    let e = env_begin_loop(cur(s0), start as int);
                    assert(s1 =~= with_cur(s0, e));
                    let n = s0.code.len() as int;
                    assert forall|j: int| 0 <= j < s1.envs.len() implies env_ok(#[trigger] s1.envs[j], n) by {
                        assert(env_ok(s0.envs[j], n));
                        if j == s1.envs.len() - 1 {
                            assert forall|k: int| 0 <= k < s1.envs[j].loops.len() implies loop_ok(#[trigger] s1.envs[j].loops[k], n) by {
                                if k < s0.envs[j].loops.len() {
                                    assert(s1.envs[j].loops[k] == s0.envs[j].loops[k]);
                                }
                            }
                        }
                    }
                }
                match self.compile_expr(condition) {
                    Ok(()) => {},
                    Err(x) => {
                        return Err(x);
                    },
                }
                let ghost s2 = self@;
                let exit_jump = self.emit_jump(OpCode::JumpIfFalse);
                let ghost s3 = self@;
                match self.compile_stmt(&**body) {
                    Ok(()) => {},
                    Err(x) => {
                        return Err(x);
                    },
                }
                let ghost s4 = self@;
                self.emit_loop(start);
                self.patch_jump(exit_jump);
                let ghost s5 = self@;
                proof {
                    lemma_kept_trans(s1, s2, s3);
                    lemma_kept_trans(s1, s3, s4);
                    lemma_kept_trans(s1, s4, s5);
                    let last = s1.envs.len() - 1;
                    assert(loops_kept(s1.envs[last], s5.envs[last]));
                    assert(cur(s1).loops.last().start == start);
                }
                self.end_loop(start);
                proof {
                    let last = s1.envs.len() - 1;
                    assert forall|j: int| 0 <= j < s0.envs.len() implies loops_kept(s0.envs[j], #[trigger] self@.envs[j]) by {
                        assert(loops_kept(s1.envs[j], s5.envs[j]));
                        if j == last {
                            assert forall|k: int| 0 <= k < s0.envs[j].loops.len() implies (#[trigger] self@.envs[j].loops[k]).start == s0.envs[j].loops[k].start by {
                                assert(s1.envs[j].loops[k] == s0.envs[j].loops[k]);
                                assert(self@.envs[j].loops[k] == s5.envs[j].loops[k]);
                            }
                        } else {
                            assert(s1.envs[j] == s0.envs[j]);
                        }
                    }
                }
                Ok(())
            },
            _ => Ok(()),
        }
    }
}

/// Functions.
impl Compiler {
    #[verifier::rlimit(50)]
    fn compile_func_decl(&mut self, st: &Stmt) -> (r: Result<()>)
        requires
            state_ok(old(self)@),
            st is FuncDecl,
        ensures
            step(r, old(self)@, final(self)@, compile_stmt(old(self)@, st@)),
        decreases st, 0int,
    {
        proof {
            reveal(compile_stmt);
            reveal(compile_stmts);
        }
        let ghost s0 = self@;
        match st {
            Stmt::FuncDecl { name, params, body } => {
                proof {
                    assert(st@ matches SpecStmt::FuncDecl { name: n, params: p, body: b } && n == name@
                        && p == names_view(params@) && b =~= stmts_view(body@));
                }
                let global = if self.env.is_global() {
                    match self.add_global(name.clone()) {
                        Ok(g) => Some(g),
                        Err(x) => {
                            return Err(x);
                        },
                    }
                } else {
                    self.env.add_local(name.clone());
                    proof {
                        let e = env_add_local(cur(s0), name@);
                        assert(self@ =~= with_cur(s0, e));
                        lemma_with_cur(s0, e);
                    }
                    None
                };
                let ghost s1 = self@;
                let skip = self.emit_jump(OpCode::Jump);
                let start_ip = self.chunk.current_ip();
                if self.env.scope_depth == usize::MAX {
                    return Err(Error::compilation(String::from_str("blocks nested too deeply")));
                }
                let ghost s2 = self@;
                let mut inner = Env::new_enclosed(self.env.scope_depth);
                inner.add_locals(params.as_slice());
                std::mem::swap(&mut self.env, &mut inner);
                self.enclosing.push(inner);
                let ghost s3 = self@;
                proof {
                    lemma_kept_trans(s0, s1, s2);
                    let f = env_add_locals(fresh_env(cur(s2).scope_depth + 1), names_view(params@));
                    assert(params@.map_values(|n: String| n@) =~= names_view(params@));
                    assert(self.enclosing@.map_values(|e: Env| e@) =~= s2.envs);
                    assert(s3 =~= with_envs(s2, s2.envs.push(f)));
                    let n = s2.code.len() as int;
                    assert forall|j: int| 0 <= j < s3.envs.len() implies env_ok(#[trigger] s3.envs[j], n) by {
                        if j < s2.envs.len() {
                            assert(env_ok(s2.envs[j], n));
                        }
                    }
                }
                match self.compile_stmts(body) {
                    Ok(()) => {},
                    Err(x) => {
                        return Err(x);
                    },
                }
                let ghost s4 = self@;
                self.chunk.end_with_return();
                let ghost s5 = self@;
                proof {
                    assert(s5 =~= end_with_return(s4));
                    lemma_ok_longer(s4, s5);
                }
                if self.env.is_global() {
                    return Err(Error::quit_from_global());
                }
                let num_locals = self.env.locals.len();
                self.emit_pops(num_locals);
                let ghost s6 = self@;
                proof {
                    lemma_emit_pops(s5, num_locals as nat);
                }
                let mut outer = self.enclosing.pop().unwrap();
                std::mem::swap(&mut self.env, &mut outer);
                let ghost s7 = self@;
                proof {
                    assert(self.enclosing@.map_values(|e: Env| e@).push(self.env@) =~= s6.envs.drop_last());
                    assert(s7 =~= with_envs(s6, s6.envs.drop_last()));
                    let n = s6.code.len() as int;
                    assert forall|j: int| 0 <= j < s7.envs.len() implies env_ok(#[trigger] s7.envs[j], n) by {
                        assert(env_ok(s6.envs[j], n));
                    }
                    lemma_kept_trans(s3, s4, s5);
                    lemma_kept_trans(s3, s5, s6);
                }
                self.patch_jump(skip);
                let ghost s8 = self@;
                let ups = copy_upvalues(&outer.upvalues);
                let proto = Proto {
                    name: name.clone(),
                    params: clone_names(params),
                    start_ip,
                    upvalues: outer.upvalues,
                };
                proof {
                    assert(proto@.params =~= names_view(params@));
                    assert(proto@ == (ProtoView {
                        name: name@,
                        params: names_view(params@),
                        start_ip: start_ip,
                        upvalues: cur(s5).upvalues,
                    }));
                }
                let p = match self.add_constant(Constant::Proto(proto)) {
                    Ok(p) => p,
                    Err(x) => {
                        return Err(x);
                    },
                };
                let ghost s9 = self@;
                self.emit_op_with_operand(OpCode::Closure, p);
                self.emit_byte((ups.len() % 256) as u8);
                let ghost s10 = self@;
                proof {
                    lemma_kept_trans(s9, s9, self@);
                    assert(ups@.take(0) =~= Seq::<UpvalueInfo>::empty());
                }
                for i in 0..ups.len()
                    invariant
                        state_ok(self@),
                        kept(s10, self@),
                        self@ == emit_captures(s10, ups@.take(i as int)),
                {
                    let ghost before = self@;
                    let u = ups[i];
                    self.emit_byte(
                        if u.is_local {
                            1
                        } else {
                            0
                        },
                    );
                    self.emit_byte((u.index % 256) as u8);
                    proof {
                        assert(ups@.take(i + 1).drop_last() =~= ups@.take(i as int));
                        lemma_kept_trans(s10, before, self@);
                    }
                }
                proof {
                    assert(ups@.take(ups@.len() as int) =~= ups@);
                }
                let ghost s11 = self@;
                match global {
                    Some(g) => self.emit_op_with_operand(OpCode::DefineGlobal, g),
                    None => {},
                }
                proof {
                    lemma_kept_trans(s9, s10, s11);
                    lemma_kept_trans(s9, s11, self@);
                    lemma_kept_trans(s8, s9, self@);
                    lemma_kept_trans(s7, s8, self@);
                    assert forall|j: int| 0 <= j < s0.envs.len() implies loops_kept(s0.envs[j], #[trigger] self@.envs[j]) by {
                        assert(loops_kept(s0.envs[j], s2.envs[j]));
                        assert(s3.envs[j] == s2.envs[j]);
                        assert(loops_kept(s3.envs[j], s6.envs[j]));
                        assert(s7.envs[j] == s6.envs[j]);
                        assert(loops_kept(s7.envs[j], self@.envs[j]));
                    }
                }
                Ok(())
            },
            _ => Ok(()),
        }
    }
}

} // verus!
