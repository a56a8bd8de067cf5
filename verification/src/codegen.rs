//! Code generation: walks the analysed program and emits instructions.
//!
//! Generation is stated as a function from generator state to generator
//! state ([`gen_expr`], [`gen_stmt`], [`gen_block`]): the state holds the
//! instructions emitted so far and, for each enclosing loop, the positions of
//! the jumps that its `break`s and `continue`s will be patched to. The exec
//! functions compute exactly these.
use vstd::prelude::*;
use crate::ast::{
    Item, Stmt, Expr, BinOp, TypeExpr, TypeExprV, ExprV, StmtV, BranchCaseV, ItemV, expr_view, exprs_view, fields_view,
    stmt_view, block_view, cases_view, params_view, item_view, items_view, strings_view,
};
use crate::opcodes::{
    OpCode, OpV, op_view, ops_view, arms_view, KernelBytecode, KernelV, Bytecode, BytecodeV, kernel_view, kernels_view,
    bytecode_view, bytecode_magic, bundle_magic, ExportKind, ExportEntry, ExportV, exports_view, LibraryBundle,
    lemma_ops_view_push, lemma_ops_view_index, lemma_ops_view_update,
    lemma_arms_view_push,
};
use crate::semantic::{TypedAst, ConstValue, ConstV, const_view, const_map, labels_map, typed_ok};
use crate::table::Table;
use crate::wire::{enc_bytecode, enc_bundle, encode_bytecode, encode_bundle};
use crate::text::{str_eq, nat_digits, u64_to_string};

verus! {

// ── Generator state ──────────────────────────────────────────────────────────

/// What generation reads: the items, the semantic aliases, the kernel index,
/// the oracles, where each constraint is defined, and the constants.
pub struct CgEnv {
    pub items: Seq<ItemV>,
    pub type_env: Map<Seq<char>, Seq<Seq<char>>>,
    pub kernels: Map<Seq<char>, u16>,
    pub oracles: Seq<Seq<char>>,
    pub constraints: Map<Seq<char>, usize>,
    pub consts: Map<Seq<char>, ConstV>,
}

pub open spec fn cg_env(ast: TypedAst, kernels: Map<Seq<char>, u16>) -> CgEnv {
    CgEnv {
        items: items_view(ast.items@),
        type_env: labels_map(ast.type_env@),
        kernels,
        oracles: strings_view(ast.oracle_names@),
        constraints: ast.constraint_bodies@,
        consts: const_map(ast.const_table@),
    }
}

/// The positions of the `break` and `continue` jumps of one enclosing loop.
pub struct LoopV {
    pub breaks: Seq<usize>,
    pub continues: Seq<usize>,
}

pub struct CgState {
    pub ops: Seq<OpV>,
    pub loops: Seq<LoopV>,
    /// Inside an applied constraint, `verify` does not retry.
    pub in_constraint: bool,
    /// How many `for` loops were generated (it numbers their hidden locals).
    pub fors: u64,
}

pub open spec fn emit(g: CgState, op: OpV) -> CgState {
    CgState { ops: g.ops.push(op), ..g }
}

pub open spec fn emits(g: CgState, ops: Seq<OpV>) -> CgState {
    CgState { ops: g.ops + ops, ..g }
}

/// What code generation rejects.
#[derive(Debug)]
pub enum CodegenError {
    BreakOutsideLoop,
    ContinueOutsideLoop,
    /// A built-in call lacks the argument at this position.
    MissingArgument(String, usize),
    /// A built-in call needs an integer literal at this position.
    ExpectedIntLiteral(String, usize),
    /// A call of something that is no kernel, oracle or built-in.
    UndefinedFunction(String),
    UnknownConstraint(String),
    /// Constraints applied inside each other deeper than there are items
    /// (which only a constraint that applies itself can do).
    ConstraintTooDeep(String),
}

pub enum CgErrV {
    BreakOutsideLoop,
    ContinueOutsideLoop,
    MissingArgument(Seq<char>, usize),
    ExpectedIntLiteral(Seq<char>, usize),
    UndefinedFunction(Seq<char>),
    UnknownConstraint(Seq<char>),
    ConstraintTooDeep(Seq<char>),
}

pub open spec fn cg_err_view(e: CodegenError) -> CgErrV {
    match e {
        CodegenError::BreakOutsideLoop => CgErrV::BreakOutsideLoop,
        CodegenError::ContinueOutsideLoop => CgErrV::ContinueOutsideLoop,
        CodegenError::MissingArgument(b, i) => CgErrV::MissingArgument(b@, i),
        CodegenError::ExpectedIntLiteral(b, i) => CgErrV::ExpectedIntLiteral(b@, i),
        CodegenError::UndefinedFunction(n) => CgErrV::UndefinedFunction(n@),
        CodegenError::UnknownConstraint(n) => CgErrV::UnknownConstraint(n@),
        CodegenError::ConstraintTooDeep(n) => CgErrV::ConstraintTooDeep(n@),
    }
}

// ── Jump patching ────────────────────────────────────────────────────────────

/// Sets the target of the `JumpIfFalse` at `i`.
pub open spec fn set_jump_false(ops: Seq<OpV>, i: int, t: usize) -> Seq<OpV> {
    if 0 <= i < ops.len() && ops[i] is JumpIfFalse {
        ops.update(i, OpV::JumpIfFalse(t))
    } else {
        ops
    }
}

/// Sets the target of the `Jump` at `i`. A position that holds no `Jump` is
/// left alone.
pub open spec fn set_jump(ops: Seq<OpV>, i: int, t: usize) -> Seq<OpV> {
    if 0 <= i < ops.len() && ops[i] is Jump {
        ops.update(i, OpV::Jump(t))
    } else {
        ops
    }
}

pub open spec fn patch_all(ops: Seq<OpV>, idxs: Seq<usize>, t: usize) -> Seq<OpV>
    decreases idxs.len(),
{
    if idxs.len() == 0 {
        ops
    } else {
        patch_all(set_jump(ops, idxs[0] as int, t), idxs.subrange(1, idxs.len() as int), t)
    }
}

/// Leaves the innermost loop: its `break`s jump to `brk`, its `continue`s to `cont`.
pub open spec fn close_loop(g: CgState, brk: usize, cont: usize) -> CgState {
    if g.loops.len() == 0 {
        g
    } else {
        let ctx = g.loops.last();
        CgState { ops: patch_all(patch_all(g.ops, ctx.breaks, brk), ctx.continues, cont), loops: g.loops.drop_last(), ..g }
    }
}

pub open spec fn open_loop(g: CgState) -> CgState {
    CgState { loops: g.loops.push(LoopV { breaks: Seq::empty(), continues: Seq::empty() }), ..g }
}

/// Emits a `Jump` to be patched when the innermost loop is left.
pub open spec fn add_exit(g: CgState, is_break: bool) -> CgState {
    let last = g.loops.last();
    let idx = g.ops.len() as usize;
    CgState {
        ops: g.ops.push(OpV::Jump(0)),
        loops: g.loops.update(
            g.loops.len() - 1,
            if is_break {
                LoopV { breaks: last.breaks.push(idx), ..last }
            } else {
                LoopV { continues: last.continues.push(idx), ..last }
            },
        ),
        ..g
    }
}

// ── Expressions ──────────────────────────────────────────────────────────────

/// The instruction that pushes a constant.
pub open spec fn const_op(c: ConstV) -> OpV {
    match c {
        ConstV::Int(n) => OpV::PushInt(n as u64),
        ConstV::Float(s) => OpV::PushFloat(s),
        ConstV::Bool(b) => OpV::PushBool(b),
        ConstV::Str(s) => OpV::PushStr(s),
    }
}

pub open spec fn binop_op(op: BinOp) -> OpV {
    match op {
        BinOp::NotEq => OpV::CmpNotEq,
        BinOp::Eq => OpV::CmpEq,
        BinOp::Gt => OpV::CmpGt,
        BinOp::Lt => OpV::CmpLt,
        BinOp::Add => OpV::Add,
        BinOp::Sub => OpV::Sub,
        BinOp::Mul => OpV::Mul,
        BinOp::Div => OpV::Div,
        BinOp::Mod => OpV::Mod,
        BinOp::And => OpV::And,
        BinOp::Or => OpV::Or,
    }
}

pub open spec fn gen_expr(env: CgEnv, g: CgState, e: ExprV) -> Result<CgState, CgErrV>
    decreases e,
{
    match e {
        ExprV::StringLit(s) => Ok(emit(g, OpV::PushStr(s))),
        ExprV::IntLit(n) => Ok(emit(g, OpV::PushInt(n))),
        ExprV::FloatLit(s) => Ok(emit(g, OpV::PushFloat(s))),
        ExprV::BoolLit(b) => Ok(emit(g, OpV::PushBool(b))),
        ExprV::Ident(n) => Ok(
            emit(
                g,
                if env.consts.contains_key(n) {
                    const_op(env.consts[n])
                } else {
                    OpV::LoadLocal(n)
                },
            ),
        ),
        ExprV::Call(n, args) => if env.kernels.contains_key(n) {
            match gen_exprs(env, g, args) {
                Ok(g1) => Ok(emit(g1, OpV::CallKernel(env.kernels[n]))),
                Err(err) => Err(err),
            }
        } else if env.oracles.contains(n) {
            match gen_exprs(env, g, args) {
                Ok(g1) => Ok(emit(g1, OpV::CallOracle(n, args.len() as u8))),
                Err(err) => Err(err),
            }
        } else {
            gen_builtin(env, g, n, args)
        },
        ExprV::BinOp(l, op, r) => match gen_expr(env, g, *l) {
            Ok(g1) => match gen_expr(env, g1, *r) {
                Ok(g2) => Ok(emit(g2, binop_op(op))),
                Err(err) => Err(err),
            },
            Err(err) => Err(err),
        },
        ExprV::Break => if g.loops.len() > 0 {
            Ok(add_exit(g, true))
        } else {
            Err(CgErrV::BreakOutsideLoop)
        },
        ExprV::Continue => if g.loops.len() > 0 {
            Ok(add_exit(g, false))
        } else {
            Err(CgErrV::ContinueOutsideLoop)
        },
        ExprV::Tuple(es) => match gen_exprs(env, g, es) {
            Ok(g1) => Ok(emit(g1, OpV::TuplePack(es.len() as u8))),
            Err(err) => Err(err),
        },
        ExprV::VecLit(es) => match gen_exprs(env, g, es) {
            Ok(g1) => Ok(emit(g1, OpV::VecNew(es.len() as u8))),
            Err(err) => Err(err),
        },
        ExprV::Index(b, i) => match gen_expr(env, g, *b) {
            Ok(g1) => match gen_expr(env, g1, *i) {
                Ok(g2) => Ok(emit(g2, OpV::VecGet)),
                Err(err) => Err(err),
            },
            Err(err) => Err(err),
        },
        ExprV::FieldAccess(b, f) => match gen_expr(env, g, *b) {
            Ok(g1) => Ok(emit(g1, OpV::FieldAccess(f))),
            Err(err) => Err(err),
        },
        ExprV::StructConstruct { name, fields } => match gen_fields(env, g, fields) {
            Ok(g1) => Ok(
                emit(
                    g1,
                    OpV::StructConstruct {
                        name,
                        field_names: fields.map_values(|f: (Seq<char>, ExprV)| f.0),
                    },
                ),
            ),
            Err(err) => Err(err),
        },
        ExprV::EnumVariant { variant, payload } => match payload {
            Some(p) => match gen_expr(env, g, *p) {
                Ok(g1) => Ok(emit(g1, OpV::EnumVariant { variant, payload: true })),
                Err(err) => Err(err),
            },
            None => Ok(emit(g, OpV::EnumVariant { variant, payload: false })),
        },
    }
}

pub open spec fn gen_exprs(env: CgEnv, g: CgState, es: Seq<ExprV>) -> Result<CgState, CgErrV>
    decreases es,
{
    if es.len() == 0 {
        Ok(g)
    } else {
        match gen_expr(env, g, es[0]) {
            Ok(g1) => gen_exprs(env, g1, es.subrange(1, es.len() as int)),
            Err(err) => Err(err),
        }
    }
}

pub open spec fn gen_fields(env: CgEnv, g: CgState, fs: Seq<(Seq<char>, ExprV)>) -> Result<CgState, CgErrV>
    decreases fs,
{
    if fs.len() == 0 {
        Ok(g)
    } else {
        match gen_expr(env, g, fs[0].1) {
            Ok(g1) => gen_fields(env, g1, fs.subrange(1, fs.len() as int)),
            Err(err) => Err(err),
        }
    }
}

/// Argument `i` of a built-in call, generated; an error when it is missing.
pub open spec fn gen_arg(env: CgEnv, g: CgState, args: Seq<ExprV>, i: int, builtin: Seq<char>) -> Result<
    CgState,
    CgErrV,
>
    decreases args, 0int,
{
    if 0 <= i < args.len() {
        gen_expr(env, g, args[i])
    } else {
        Err(CgErrV::MissingArgument(builtin, i as usize))
    }
}

/// Arguments 0 and 1, then `op`.
pub open spec fn gen_two(env: CgEnv, g: CgState, args: Seq<ExprV>, builtin: Seq<char>, op: OpV) -> Result<
    CgState,
    CgErrV,
>
    decreases args, 1int,
{
    match gen_arg(env, g, args, 0, builtin) {
        Ok(g1) => match gen_arg(env, g1, args, 1, builtin) {
            Ok(g2) => Ok(emit(g2, op)),
            Err(err) => Err(err),
        },
        Err(err) => Err(err),
    }
}

/// Argument 0, then `op`.
pub open spec fn gen_one(env: CgEnv, g: CgState, args: Seq<ExprV>, builtin: Seq<char>, op: OpV) -> Result<
    CgState,
    CgErrV,
>
    decreases args, 1int,
{
    match gen_arg(env, g, args, 0, builtin) {
        Ok(g1) => Ok(emit(g1, op)),
        Err(err) => Err(err),
    }
}

/// The integer literal that argument `i` of a built-in call must be.
pub open spec fn int_arg(args: Seq<ExprV>, i: int, builtin: Seq<char>) -> Result<u64, CgErrV> {
    if 0 <= i < args.len() {
        match args[i] {
            ExprV::IntLit(n) => Ok(n),
            _ => Err(CgErrV::ExpectedIntLiteral(builtin, i as usize)),
        }
    } else {
        Err(CgErrV::MissingArgument(builtin, i as usize))
    }
}

/// A call of a built-in function.
pub open spec fn gen_builtin(env: CgEnv, g: CgState, n: Seq<char>, args: Seq<ExprV>) -> Result<CgState, CgErrV>
    decreases args, 2int,
{
    if n == "ctx_alloc"@ {
        match int_arg(args, 0, n) {
            Ok(v) => Ok(emit(g, OpV::CtxAlloc(v as u32))),
            Err(err) => Err(err),
        }
    } else if n == "ctx_free"@ {
        gen_one(env, g, args, n, OpV::CtxFreeStack)
    } else if n == "ctx_append"@ {
        gen_two(env, g, args, n, OpV::CtxAppendStack)
    } else if n == "ctx_compress"@ {
        gen_one(env, g, args, n, OpV::CtxCompress)
    } else if n == "ctx_share"@ {
        gen_one(env, g, args, n, OpV::CtxShare)
    } else if n == "ctx_resize"@ {
        match gen_arg(env, g, args, 0, n) {
            Ok(g1) => match int_arg(args, 1, n) {
                Ok(v) => Ok(emit(g1, OpV::CtxResize(0, v as u32))),
                Err(err) => Err(err),
            },
            Err(err) => Err(err),
        }
    } else if n == "println"@ {
        gen_one(env, g, args, n, OpV::Println)
    } else if n == "observe"@ {
        gen_one(env, g, args, n, OpV::Observe)
    } else if n == "reason"@ {
        if args.len() == 0 {
            Err(CgErrV::MissingArgument(n, 0))
        } else {
            match args[0] {
                ExprV::StringLit(s) => Ok(emit(g, OpV::Reason(s))),
                _ => Ok(emit(g, OpV::Reason(Seq::empty()))),
            }
        }
    } else if n == "act"@ {
        gen_one(env, g, args, n, OpV::Act)
    } else if n == "verify"@ {
        gen_one(env, g, args, n, if g.in_constraint { OpV::ConstraintVerify } else { OpV::VerifyStep })
    } else if n == "infer"@ {
        gen_one(env, g, args, n, OpV::InferClassify(Seq::empty()))
    } else if n == "memory_load"@ {
        gen_one(env, g, args, n, OpV::PersistLoad)
    } else if n == "memory_save"@ {
        gen_two(env, g, args, n, OpV::PersistSave)
    } else if n == "memory_delete"@ {
        gen_one(env, g, args, n, OpV::PersistDelete)
    } else {
        Err(CgErrV::UndefinedFunction(n))
    }
}

// ── Statements ───────────────────────────────────────────────────────────────

/// `let x: T = infer(arg)` with `T` a named type: the labels of `T` go into
/// the classification.
pub open spec fn infer_let(ty: Option<TypeExprV>, e: ExprV) -> bool {
    ty matches Some(TypeExprV::Named(_)) && e matches ExprV::Call(callee, _) && callee == "infer"@
}

/// The hidden locals of the `k`-th `for` loop: the vector, its length, the index.
pub open spec fn for_vec(k: u64) -> Seq<char> {
    "__for_vec_"@ + nat_digits(k as nat)
}

pub open spec fn for_len(k: u64) -> Seq<char> {
    "__for_len_"@ + nat_digits(k as nat)
}

pub open spec fn for_idx(k: u64) -> Seq<char> {
    "__for_i_"@ + nat_digits(k as nat)
}

pub open spec fn next_for(k: u64) -> u64 {
    if k == u64::MAX { 0 } else { (k + 1) as u64 }
}

pub open spec fn gen_stmt(env: CgEnv, g: CgState, s: StmtV, depth: nat) -> Result<CgState, CgErrV>
    decreases depth, s,
{
    match s {
        StmtV::Let(n, ty, e, _) => match e {
            None => Ok(emit(g, OpV::StoreLocal(n))),
            Some(e) => if infer_let(ty, e) {
                let tn = ty->0->Named_0;
                let args = e->Call_1;
                let labels = if env.type_env.contains_key(tn) { env.type_env[tn] } else { Seq::empty() };
                match gen_arg(env, g, args, 0, "infer"@) {
                    Ok(g1) => Ok(emit(emit(g1, OpV::InferClassify(labels)), OpV::StoreLocal(n))),
                    Err(err) => Err(err),
                }
            } else {
                match gen_expr(env, g, e) {
                    Ok(g1) => Ok(emit(g1, OpV::StoreLocal(n))),
                    Err(err) => Err(err),
                }
            },
        },
        StmtV::Expr(e) => gen_expr(env, g, e),
        StmtV::Return(e) => match gen_expr(env, g, e) {
            Ok(g1) => Ok(emit(g1, OpV::Return)),
            Err(err) => Err(err),
        },
        StmtV::Branch { var, cases, default } => match gen_arms(env, g, cases, Seq::empty(), depth) {
            Ok((arms, g1)) => match (match default {
                Some(d) => match gen_block(env, CgState { ops: Seq::empty(), ..g1 }, d, depth) {
                    Ok(g2) => Ok((g2.ops, CgState { ops: g1.ops, ..g2 })),
                    Err(err) => Err(err),
                },
                None => Ok((Seq::<OpV>::empty(), g1)),
            }) {
                Ok((dops, g2)) => Ok(
                    emit(
                        emit(g2, OpV::InferClassify(cases.map_values(|c: BranchCaseV| c.label))),
                        OpV::BranchClassify { var, cases: arms, default: dops },
                    ),
                ),
                Err(err) => Err(err),
            },
            Err(err) => Err(err),
        },
        StmtV::Interruptible(b) => match gen_block(env, emit(g, OpV::BeginInterruptible), b, depth) {
            Ok(g1) => Ok(emit(g1, OpV::EndInterruptible)),
            Err(err) => Err(err),
        },
        StmtV::Instruction(t) => Ok(emit(g, OpV::CtxAppendLiteral(t))),
        StmtV::Apply(n) => if !env.constraints.contains_key(n) || !(env.constraints[n] < env.items.len())
            || !(env.items[env.constraints[n] as int] is ConstraintDef) {
            Err(CgErrV::UnknownConstraint(n))
        } else if depth == 0 {
            Err(CgErrV::ConstraintTooDeep(n))
        } else {
            let body = env.items[env.constraints[n] as int]->ConstraintDef_body;
            match gen_block(
                env,
                CgState { in_constraint: true, ..emit(g, OpV::BeginConstraint(n)) },
                body,
                (depth - 1) as nat,
            ) {
                Ok(g1) => Ok(emit(CgState { in_constraint: false, ..g1 }, OpV::EndConstraint)),
                Err(err) => Err(err),
            }
        },
        StmtV::If { condition, then_branch, else_branch } => match gen_expr(env, g, condition) {
            Ok(g1) => {
                let jf = g1.ops.len();
                match gen_block(env, emit(g1, OpV::JumpIfFalse(0)), then_branch, depth) {
                    Ok(g2) => {
                        let je = g2.ops.len();
                        let g3 = emit(g2, OpV::Jump(0));
                        let g4 = CgState { ops: set_jump_false(g3.ops, jf as int, g3.ops.len() as usize), ..g3 };
                        match (match else_branch {
                            Some(eb) => gen_block(env, g4, eb, depth),
                            None => Ok(g4),
                        }) {
                            Ok(g5) => Ok(CgState { ops: set_jump(g5.ops, je as int, g5.ops.len() as usize), ..g5 }),
                            Err(err) => Err(err),
                        }
                    },
                    Err(err) => Err(err),
                }
            },
            Err(err) => Err(err),
        },
        StmtV::Loop(body) => {
            let start = g.ops.len() as usize;
            match gen_block(env, open_loop(g), body, depth) {
                Ok(g1) => {
                    let g2 = emit(g1, OpV::Jump(start));
                    Ok(close_loop(g2, g2.ops.len() as usize, start))
                },
                Err(err) => Err(err),
            }
        },
        StmtV::While { condition, body } => {
            let cond = g.ops.len() as usize;
            match gen_expr(env, open_loop(g), condition) {
                Ok(g1) => {
                    let jf = g1.ops.len();
                    match gen_block(env, emit(g1, OpV::JumpIfFalse(0)), body, depth) {
                        Ok(g2) => {
                            let g3 = emit(g2, OpV::Jump(cond));
                            let end = g3.ops.len() as usize;
                            let g4 = CgState { ops: set_jump_false(g3.ops, jf as int, end), ..g3 };
                            Ok(close_loop(g4, end, cond))
                        },
                        Err(err) => Err(err),
                    }
                },
                Err(err) => Err(err),
            }
        },
        StmtV::For { item, collection, body } => {
            let k = g.fors;
            let (v, l, i) = (for_vec(k), for_len(k), for_idx(k));
            match gen_expr(env, CgState { fors: next_for(k), ..g }, collection) {
                Ok(g1) => {
                    let g2 = emits(
                        g1,
                        seq![
                            OpV::StoreLocal(v),
                            OpV::LoadLocal(v),
                            OpV::VecLen,
                            OpV::StoreLocal(l),
                            OpV::PushInt(0),
                            OpV::StoreLocal(i),
                        ],
                    );
                    let cond = g2.ops.len() as usize;
                    let g3 = emits(open_loop(g2), seq![OpV::LoadLocal(i), OpV::LoadLocal(l), OpV::CmpLt]);
                    let jx = g3.ops.len();
                    let g4 = emits(
                        g3,
                        seq![
                            OpV::JumpIfFalse(0),
                            OpV::LoadLocal(v),
                            OpV::LoadLocal(i),
                            OpV::VecGet,
                            OpV::StoreLocal(item),
                        ],
                    );
                    match gen_block(env, g4, body, depth) {
                        Ok(g5) => {
                            let inc = g5.ops.len() as usize;
                            let g6 = emits(
                                g5,
                                seq![
                                    OpV::LoadLocal(i),
                                    OpV::PushInt(1),
                                    OpV::Add,
                                    OpV::StoreLocal(i),
                                    OpV::Jump(cond),
                                ],
                            );
                            let exit = g6.ops.len() as usize;
                            let g7 = CgState { ops: set_jump_false(g6.ops, jx as int, exit), ..g6 };
                            Ok(close_loop(g7, exit, inc))
                        },
                        Err(err) => Err(err),
                    }
                },
                Err(err) => Err(err),
            }
        },
        StmtV::Assign(n, e) => match gen_expr(env, g, e) {
            Ok(g1) => Ok(emit(g1, OpV::StoreLocal(n))),
            Err(err) => Err(err),
        },
    }
}

/// The cases of a `branch`: each body is generated on its own, with the
/// rest of the state carried through.
pub open spec fn gen_arms(
    env: CgEnv,
    g: CgState,
    cs: Seq<BranchCaseV>,
    acc: Seq<(Seq<char>, Seq<char>, Seq<OpV>)>,
    depth: nat,
) -> Result<(Seq<(Seq<char>, Seq<char>, Seq<OpV>)>, CgState), CgErrV>
    decreases depth, cs,
{
    if cs.len() == 0 {
        Ok((acc, g))
    } else {
        match gen_block(env, CgState { ops: Seq::empty(), ..g }, cs[0].body, depth) {
            Ok(g1) => gen_arms(
                env,
                CgState { ops: g.ops, ..g1 },
                cs.subrange(1, cs.len() as int),
                acc.push((cs[0].label, cs[0].confidence, g1.ops)),
                depth,
            ),
            Err(err) => Err(err),
        }
    }
}

pub open spec fn gen_block(env: CgEnv, g: CgState, b: Seq<StmtV>, depth: nat) -> Result<CgState, CgErrV>
    decreases depth, b,
{
    if b.len() == 0 {
        Ok(g)
    } else {
        match gen_stmt(env, g, b[0], depth) {
            Ok(g1) => gen_block(env, g1, b.subrange(1, b.len() as int), depth),
            Err(err) => Err(err),
        }
    }
}

// ── Whole programs ───────────────────────────────────────────────────────────

/// How deeply constraints may be applied inside each other: more than there
/// are items only a constraint that (indirectly) applies itself can reach.
pub open spec fn apply_depth(ast: TypedAst) -> nat {
    ast.items@.len() as nat
}

/// The name, parameters and body of a `kernel`, `spell` or `skill`.
pub open spec fn kernel_parts(i: ItemV) -> Option<(Seq<char>, Seq<crate::ast::ParamV>, Seq<StmtV>)> {
    match i {
        ItemV::KernelDef { name, params, body, .. } => Some((name, params, body)),
        ItemV::SpellDef { name, params, body, .. } => Some((name, params, body)),
        ItemV::SkillDef { name, params, body, .. } => Some((name, params, body)),
        _ => None,
    }
}

/// The kernel table, from item `i` on. A kernel's name is bound in the kernel
/// index before its body is generated: it can call itself and the kernels
/// before it.
pub open spec fn gen_kernels(ast: TypedAst, i: int, kidx: Map<Seq<char>, u16>, ks: Seq<KernelV>) -> Result<
    (Map<Seq<char>, u16>, Seq<KernelV>),
    CgErrV,
>
    decreases ast.items@.len() - i,
{
    let items = items_view(ast.items@);
    if i < 0 || i >= items.len() {
        Ok((kidx, ks))
    } else {
        match kernel_parts(items[i]) {
            Some((name, params, body)) => {
                let k2 = kidx.insert(name, ks.len() as u16);
                match gen_block(cg_env(ast, k2), fresh_state(), body, apply_depth(ast)) {
                    Ok(g) => gen_kernels(
                        ast,
                        i + 1,
                        k2,
                        ks.push(
                            KernelV {
                                name,
                                params: params.map_values(|p: crate::ast::ParamV| p.name),
                                body: g.ops,
                                max_retries: 3,
                            },
                        ),
                    ),
                    Err(err) => Err(err),
                }
            },
            None => gen_kernels(ast, i + 1, kidx, ks),
        }
    }
}

/// `StoreLore` for each lore entry, in order.
pub open spec fn lore_ops(items: Seq<ItemV>) -> Seq<OpV>
    decreases items.len(),
{
    if items.len() == 0 {
        Seq::empty()
    } else {
        match items.last() {
            ItemV::LoreDecl { name, value, .. } => lore_ops(items.drop_last()).push(OpV::StoreLore(name, value)),
            _ => lore_ops(items.drop_last()),
        }
    }
}

/// Each memory slot's initial value, then `AllocMemorySlot`, from item `i` on.
pub open spec fn gen_memory(env: CgEnv, g: CgState, i: int) -> Result<CgState, CgErrV>
    decreases env.items.len() - i,
{
    if i < 0 || i >= env.items.len() {
        Ok(g)
    } else {
        match env.items[i] {
            ItemV::MemoryDecl { name, init, .. } => match gen_expr(env, g, init) {
                Ok(g1) => gen_memory(env, emit(g1, OpV::AllocMemorySlot(name)), i + 1),
                Err(err) => Err(err),
            },
            _ => gen_memory(env, g, i + 1),
        }
    }
}

/// The body of the first `soul`.
pub open spec fn first_soul(items: Seq<ItemV>, i: int) -> Option<Seq<StmtV>>
    decreases items.len() - i,
{
    if i < 0 || i >= items.len() {
        None
    } else {
        match items[i] {
            ItemV::SoulDef { body } => Some(body),
            _ => first_soul(items, i + 1),
        }
    }
}

/// Each `fn` body then `Halt`, from item `i` on; `fn main` is preceded by the
/// soul block, if there is one.
pub open spec fn gen_fns(env: CgEnv, g: CgState, i: int, depth: nat, soul: Option<Seq<StmtV>>) -> Result<
    CgState,
    CgErrV,
>
    decreases env.items.len() - i,
{
    if i < 0 || i >= env.items.len() {
        Ok(g)
    } else {
        match env.items[i] {
            ItemV::FnDef { name, body, .. } => {
                let pre = if name == "main"@ && soul is Some {
                    gen_block(env, emit(g, OpV::SetAgentMeta("soul"@)), soul->0, depth)
                } else {
                    Ok(g)
                };
                match pre {
                    Ok(g1) => match gen_block(env, g1, body, depth) {
                        Ok(g2) => gen_fns(env, emit(g2, OpV::Halt), i + 1, depth, soul),
                        Err(err) => Err(err),
                    },
                    Err(err) => Err(err),
                }
            },
            _ => gen_fns(env, g, i + 1, depth, soul),
        }
    }
}

/// The compiled program: the kernel table, and the main stream — lore, memory
/// slots, then every `fn` — or a lone `Halt` when that is empty.
pub open spec fn spec_bytecode(ast: TypedAst) -> Result<BytecodeV, CgErrV> {
    let items = items_view(ast.items@);
    match gen_kernels(ast, 0, Map::empty(), Seq::empty()) {
        Ok((kidx, ks)) => {
            let env = cg_env(ast, kidx);
            match gen_memory(env, emits(fresh_state(), lore_ops(items)), 0) {
                Ok(g1) => match gen_fns(env, g1, 0, apply_depth(ast), first_soul(items, 0)) {
                    Ok(g2) => Ok(
                        BytecodeV {
                            magic: bytecode_magic(),
                            version: 1,
                            kernels: ks,
                            instructions: if g2.ops.len() == 0 { seq![OpV::Halt] } else { g2.ops },
                        },
                    ),
                    Err(err) => Err(err),
                },
                Err(err) => Err(err),
            }
        },
        Err(err) => Err(err),
    }
}

// ── What generation reads ────────────────────────────────────────────────────

proof fn lemma_same_kernels(t1: TypedAst, t2: TypedAst, i: int, kidx: Map<Seq<char>, u16>, ks: Seq<KernelV>)
    requires
        items_view(t1.items@) == items_view(t2.items@),
        forall|k: Map<Seq<char>, u16>| #[trigger] cg_env(t1, k) == cg_env(t2, k),
    ensures
        gen_kernels(t1, i, kidx, ks) == gen_kernels(t2, i, kidx, ks),
    decreases t1.items@.len() - i,
{
    assert(t1.items@.len() == items_view(t1.items@).len());
    assert(t2.items@.len() == items_view(t2.items@).len());
    if 0 <= i < t1.items@.len() {
        let items = items_view(t1.items@);
        match kernel_parts(items[i]) {
            Some((name, params, body)) => {
                let k2 = kidx.insert(name, ks.len() as u16);
                assert(cg_env(t1, k2) == cg_env(t2, k2));
                match gen_block(cg_env(t1, k2), fresh_state(), body, apply_depth(t1)) {
                    Ok(g) => lemma_same_kernels(
                        t1,
                        t2,
                        i + 1,
                        k2,
                        ks.push(
                            KernelV {
                                name,
                                params: params.map_values(|p: crate::ast::ParamV| p.name),
                                body: g.ops,
                                max_retries: 3,
                            },
                        ),
                    ),
                    Err(_) => {},
                }
            },
            None => lemma_same_kernels(t1, t2, i + 1, kidx, ks),
        }
    }
}

/// Code generation reads only what analysis determines: two analysed forms
/// of the same items compile to the same program.
pub proof fn lemma_bytecode_determined(t1: TypedAst, t2: TypedAst, items: Seq<ItemV>)
    requires
        typed_ok(t1, items),
        typed_ok(t2, items),
    ensures
        spec_bytecode(t1) == spec_bytecode(t2),
{
    assert forall|k: Map<Seq<char>, u16>| #[trigger] cg_env(t1, k) == cg_env(t2, k) by {}
    assert(t1.items@.len() == items_view(t1.items@).len());
    assert(t2.items@.len() == items_view(t2.items@).len());
    lemma_same_kernels(t1, t2, 0, Map::empty(), Seq::empty());
}

// ── Exec: generator ──────────────────────────────────────────────────────────

struct LoopCtx {
    breaks: Vec<usize>,
    continues: Vec<usize>,
}

spec fn loop_view(l: LoopCtx) -> LoopV {
    LoopV { breaks: l.breaks@, continues: l.continues@ }
}

spec fn loops_view(ls: Seq<LoopCtx>) -> Seq<LoopV> {
    ls.map_values(|l: LoopCtx| loop_view(l))
}

/// Generator state: the instructions emitted so far and the enclosing loops.
pub struct Codegen {
    ops: Vec<OpCode>,
    loop_stack: Vec<LoopCtx>,
    in_constraint: bool,
    fors: u64,
}

pub open spec fn cg_outcome(r: Result<(), CodegenError>, after: CgState, expected: Result<CgState, CgErrV>) -> bool {
    match r {
        Ok(_) => expected == Ok::<CgState, CgErrV>(after),
        Err(e) => expected == Err::<CgState, CgErrV>(cg_err_view(e)),
    }
}

pub open spec fn fresh_state() -> CgState {
    CgState { ops: Seq::empty(), loops: Seq::empty(), in_constraint: false, fors: 0 }
}

fn const_opcode(c: &ConstValue) -> (r: OpCode)
    ensures
        op_view(r) == const_op(const_view(*c)),
{
    match c {
        ConstValue::Int(n) => OpCode::PushInt(*n as u64),
        ConstValue::Float(s) => OpCode::PushFloat(s.clone()),
        ConstValue::Bool(b) => OpCode::PushBool(*b),
        ConstValue::Str(s) => OpCode::PushStr(s.clone()),
    }
}

fn binop_opcode(op: BinOp) -> (r: OpCode)
    ensures
        op_view(r) == binop_op(op),
{
    match op {
        BinOp::NotEq => OpCode::CmpNotEq,
        BinOp::Eq => OpCode::CmpEq,
        BinOp::Gt => OpCode::CmpGt,
        BinOp::Lt => OpCode::CmpLt,
        BinOp::Add => OpCode::Add,
        BinOp::Sub => OpCode::Sub,
        BinOp::Mul => OpCode::Mul,
        BinOp::Div => OpCode::Div,
        BinOp::Mod => OpCode::Mod,
        BinOp::And => OpCode::And,
        BinOp::Or => OpCode::Or,
    }
}

fn int_arg_of(args: &Vec<Expr>, i: usize, builtin: &String) -> (r: Result<u64, CodegenError>)
    ensures
        match r {
            Ok(v) => int_arg(exprs_view(args@), i as int, builtin@) == Ok::<u64, CgErrV>(v),
            Err(e) => int_arg(exprs_view(args@), i as int, builtin@) == Err::<u64, CgErrV>(cg_err_view(e)),
        },
{
    proof {
        crate::ast::lemma_exprs_view_index(args@);
    }
    if i < args.len() {
        match &args[i] {
            Expr::IntLit(n) => Ok(*n),
            _ => Err(CodegenError::ExpectedIntLiteral(builtin.clone(), i)),
        }
    } else {
        Err(CodegenError::MissingArgument(builtin.clone(), i))
    }
}

fn lit(s: &str) -> (r: String)
    ensures
        r@ == s@,
{
    String::from_str(s)
}

impl Codegen {
    pub closed spec fn view(&self) -> CgState {
        CgState {
            ops: ops_view(self.ops@),
            loops: loops_view(self.loop_stack@),
            in_constraint: self.in_constraint,
            fors: self.fors,
        }
    }

    pub fn new() -> (g: Self)
        ensures
            g@ == fresh_state(),
    {
        let g = Codegen { ops: Vec::new(), loop_stack: Vec::new(), in_constraint: false, fors: 0 };
        assert(ops_view(g.ops@) =~= Seq::<OpV>::empty());
        assert(loops_view(g.loop_stack@) =~= Seq::<LoopV>::empty());
        g
    }

    /// The instructions emitted so far.
    pub fn into_ops(self) -> (r: Vec<OpCode>)
        ensures
            ops_view(r@) == self@.ops,
    {
        self.ops
    }

    fn emit(&mut self, op: OpCode)
        ensures
            final(self)@ == emit(old(self)@, op_view(op)),
    {
        proof {
            lemma_ops_view_push(self.ops@, op);
        }
        self.ops.push(op);
    }

    fn open_loop(&mut self)
        ensures
            final(self)@ == open_loop(old(self)@),
    {
        let ctx = LoopCtx { breaks: Vec::new(), continues: Vec::new() };
        assert(loop_view(ctx) == LoopV { breaks: Seq::empty(), continues: Seq::empty() });
        self.loop_stack.push(ctx);
        assert(loops_view(self.loop_stack@) =~= loops_view(old(self).loop_stack@).push(loop_view(ctx)));
    }

    fn add_exit(&mut self, is_break: bool)
        requires
            old(self)@.loops.len() > 0,
        ensures
            final(self)@ == add_exit(old(self)@, is_break),
    {
        proof {
            lemma_ops_view_index(self.ops@);
        }
        let idx = self.ops.len();
        self.emit(OpCode::Jump(0));
        let ghost before = self.loop_stack@;
        let mut ctx = self.loop_stack.pop().unwrap();
        assert(loop_view(ctx) == old(self)@.loops.last());
        if is_break {
            ctx.breaks.push(idx);
        } else {
            ctx.continues.push(idx);
        }
        let ghost nv = loop_view(ctx);
        self.loop_stack.push(ctx);
        assert(self.loop_stack@ =~= before.drop_last().push(ctx));
        assert(loops_view(self.loop_stack@) =~= old(self)@.loops.update(old(self)@.loops.len() - 1, nv));
        assert(loops_view(self.loop_stack@) =~= add_exit(old(self)@, is_break).loops);
    }

    fn set_jump_false(&mut self, i: usize, t: usize)
        ensures
            final(self)@ == (CgState { ops: set_jump_false(old(self)@.ops, i as int, t), ..old(self)@ }),
    {
        proof {
            lemma_ops_view_index(self.ops@);
        }
        if i < self.ops.len() && matches!(self.ops[i], OpCode::JumpIfFalse(_)) {
            proof {
                lemma_ops_view_update(self.ops@, i as int, OpCode::JumpIfFalse(t));
            }
            self.ops.set(i, OpCode::JumpIfFalse(t));
        }
    }

    fn set_jump(&mut self, i: usize, t: usize)
        ensures
            final(self)@ == (CgState { ops: set_jump(old(self)@.ops, i as int, t), ..old(self)@ }),
    {
        proof {
            lemma_ops_view_index(self.ops@);
        }
        if i < self.ops.len() && matches!(self.ops[i], OpCode::Jump(_)) {
            proof {
                lemma_ops_view_update(self.ops@, i as int, OpCode::Jump(t));
            }
            self.ops.set(i, OpCode::Jump(t));
        }
    }

    fn patch_list(&mut self, idxs: &Vec<usize>, t: usize)
        ensures
            final(self)@ == (CgState { ops: patch_all(old(self)@.ops, idxs@, t), ..old(self)@ }),
    {
        let mut k: usize = 0;
        assert(idxs@.subrange(0, idxs@.len() as int) =~= idxs@);
        while k < idxs.len()
            invariant
                k <= idxs.len(),
                self@ == (CgState { ops: self@.ops, ..old(self)@ }),
                patch_all(old(self)@.ops, idxs@, t) == patch_all(self@.ops, idxs@.subrange(k as int, idxs@.len() as int), t),
            decreases idxs.len() - k,
        {
            let ghost tail = idxs@.subrange(k as int, idxs@.len() as int);
            assert(tail.subrange(1, tail.len() as int) =~= idxs@.subrange(k + 1, idxs@.len() as int));
            self.set_jump(idxs[k], t);
            k = k + 1;
        }
    }

    fn close_loop(&mut self, brk: usize, cont: usize)
        ensures
            final(self)@ == close_loop(old(self)@, brk, cont),
    {
        match self.loop_stack.pop() {
            Some(ctx) => {
                assert(loops_view(self.loop_stack@) =~= old(self)@.loops.drop_last());
                self.patch_list(&ctx.breaks, brk);
                self.patch_list(&ctx.continues, cont);
            },
            None => {},
        }
    }
}

impl Codegen {
    fn emit_expr(&mut self, ast: &TypedAst, kidx: &Table<u16>, e: &Expr) -> (r: Result<(), CodegenError>)
        ensures
            cg_outcome(r, final(self)@, gen_expr(cg_env(*ast, kidx@), old(self)@, expr_view(*e))),
        decreases e, 1int,
    {
        match e {
            Expr::StringLit(s) => {
                self.emit(OpCode::PushStr(s.clone()));
                Ok(())
            },
            Expr::IntLit(n) => {
                self.emit(OpCode::PushInt(*n));
                Ok(())
            },
            Expr::FloatLit(s) => {
                self.emit(OpCode::PushFloat(s.clone()));
                Ok(())
            },
            Expr::BoolLit(b) => {
                self.emit(OpCode::PushBool(*b));
                Ok(())
            },
            Expr::Ident(name) => {
                match ast.const_table.get(name.as_str()) {
                    Some(c) => self.emit(const_opcode(c)),
                    None => self.emit(OpCode::LoadLocal(name.clone())),
                }
                Ok(())
            },
            Expr::Call(name, args) => self.emit_call(ast, kidx, name, args),
            Expr::BinOp(l, op, r) => {
                match self.emit_expr(ast, kidx, l) {
                    Err(err) => {
                        return Err(err);
                    },
                    Ok(_) => {},
                }
                match self.emit_expr(ast, kidx, r) {
                    Err(err) => {
                        return Err(err);
                    },
                    Ok(_) => {},
                }
                self.emit(binop_opcode(*op));
                Ok(())
            },
            Expr::Break => {
                if self.loop_stack.len() > 0 {
                    self.add_exit(true);
                    Ok(())
                } else {
                    Err(CodegenError::BreakOutsideLoop)
                }
            },
            Expr::Continue => {
                if self.loop_stack.len() > 0 {
                    self.add_exit(false);
                    Ok(())
                } else {
                    Err(CodegenError::ContinueOutsideLoop)
                }
            },
            Expr::Tuple(es) => {
                match self.emit_exprs(ast, kidx, es) {
                    Err(err) => {
                        return Err(err);
                    },
                    Ok(_) => {},
                }
                proof {
                    crate::ast::lemma_exprs_view_index(es@);
                }
                self.emit(OpCode::TuplePack(es.len() as u8));
                Ok(())
            },
            Expr::VecLit(es) => {
                match self.emit_exprs(ast, kidx, es) {
                    Err(err) => {
                        return Err(err);
                    },
                    Ok(_) => {},
                }
                proof {
                    crate::ast::lemma_exprs_view_index(es@);
                }
                self.emit(OpCode::VecNew(es.len() as u8));
                Ok(())
            },
            Expr::Index(b, i) => {
                match self.emit_expr(ast, kidx, b) {
                    Err(err) => {
                        return Err(err);
                    },
                    Ok(_) => {},
                }
                match self.emit_expr(ast, kidx, i) {
                    Err(err) => {
                        return Err(err);
                    },
                    Ok(_) => {},
                }
                self.emit(OpCode::VecGet);
                Ok(())
            },
            Expr::FieldAccess(b, f) => {
                match self.emit_expr(ast, kidx, b) {
                    Err(err) => {
                        return Err(err);
                    },
                    Ok(_) => {},
                }
                self.emit(OpCode::FieldAccess(f.clone()));
                Ok(())
            },
            Expr::StructConstruct { name, fields } => {
                match self.emit_fields(ast, kidx, fields) {
                    Err(err) => {
                        return Err(err);
                    },
                    Ok(_) => {},
                }
                let names = field_names(fields);
                self.emit(OpCode::StructConstruct { name: name.clone(), field_names: names });
                Ok(())
            },
            Expr::EnumVariant { variant, payload } => {
                match payload {
                    Some(p) => {
                        match self.emit_expr(ast, kidx, p) {
                            Err(err) => {
                                return Err(err);
                            },
                            Ok(_) => {},
                        }
                        self.emit(OpCode::EnumVariant { variant: variant.clone(), payload: true });
                    },
                    None => {
                        self.emit(OpCode::EnumVariant { variant: variant.clone(), payload: false });
                    },
                }
                Ok(())
            },
        }
    }

    fn emit_exprs(&mut self, ast: &TypedAst, kidx: &Table<u16>, es: &Vec<Expr>) -> (r: Result<(), CodegenError>)
        ensures
            cg_outcome(r, final(self)@, gen_exprs(cg_env(*ast, kidx@), old(self)@, exprs_view(es@))),
        decreases es, 1int,
    {
        let ghost env = cg_env(*ast, kidx@);
        let ghost ev = exprs_view(es@);
        proof {
            crate::ast::lemma_exprs_view_index(es@);
        }
        assert(ev.subrange(0, ev.len() as int) =~= ev);
        let mut i: usize = 0;
        while i < es.len()
            invariant
                i <= es.len(),
                env == cg_env(*ast, kidx@),
                ev == exprs_view(es@),
                ev.len() == es.len(),
                forall|k: int| 0 <= k < es.len() ==> #[trigger] ev[k] == expr_view(es@[k]),
                gen_exprs(env, old(self)@, ev) == gen_exprs(env, self@, ev.subrange(i as int, ev.len() as int)),
            decreases es.len() - i,
        {
            let ghost tail = ev.subrange(i as int, ev.len() as int);
            assert(tail[0] == ev[i as int]);
            assert(tail.subrange(1, tail.len() as int) =~= ev.subrange(i + 1, ev.len() as int));
            proof {
                assert(decreases_to!(es => es@));
                assert(decreases_to!(es@ => es@[i as int]));
            }
            match self.emit_expr(ast, kidx, &es[i]) {
                Err(err) => {
                    return Err(err);
                },
                Ok(_) => {},
            }
            i = i + 1;
        }
        Ok(())
    }

    fn emit_fields(&mut self, ast: &TypedAst, kidx: &Table<u16>, fs: &Vec<(String, Expr)>) -> (r: Result<
        (),
        CodegenError,
    >)
        ensures
            cg_outcome(r, final(self)@, gen_fields(cg_env(*ast, kidx@), old(self)@, fields_view(fs@))),
        decreases fs, 1int,
    {
        let ghost env = cg_env(*ast, kidx@);
        let ghost fv = fields_view(fs@);
        proof {
            crate::ast::lemma_fields_view_index(fs@);
        }
        assert(fv.subrange(0, fv.len() as int) =~= fv);
        let mut i: usize = 0;
        while i < fs.len()
            invariant
                i <= fs.len(),
                env == cg_env(*ast, kidx@),
                fv == fields_view(fs@),
                fv.len() == fs.len(),
                forall|k: int| 0 <= k < fs.len() ==> #[trigger] fv[k] == (fs@[k].0@, expr_view(fs@[k].1)),
                gen_fields(env, old(self)@, fv) == gen_fields(env, self@, fv.subrange(i as int, fv.len() as int)),
            decreases fs.len() - i,
        {
            let ghost tail = fv.subrange(i as int, fv.len() as int);
            assert(tail[0] == fv[i as int]);
            assert(tail.subrange(1, tail.len() as int) =~= fv.subrange(i + 1, fv.len() as int));
            proof {
                assert(decreases_to!(fs => fs@));
                assert(decreases_to!(fs@ => fs@[i as int]));
                assert(decreases_to!(fs@[i as int] => fs@[i as int].1));
            }
            match self.emit_expr(ast, kidx, &fs[i].1) {
                Err(err) => {
                    return Err(err);
                },
                Ok(_) => {},
            }
            i = i + 1;
        }
        Ok(())
    }

    fn emit_arg(&mut self, ast: &TypedAst, kidx: &Table<u16>, args: &Vec<Expr>, i: usize, builtin: &String) -> (r:
        Result<(), CodegenError>)
        ensures
            cg_outcome(
                r,
                final(self)@,
                gen_arg(cg_env(*ast, kidx@), old(self)@, exprs_view(args@), i as int, builtin@),
            ),
        decreases args, 0int,
    {
        proof {
            crate::ast::lemma_exprs_view_index(args@);
        }
        if i < args.len() {
            proof {
                assert(decreases_to!(args => args@));
                assert(decreases_to!(args@ => args@[i as int]));
            }
            self.emit_expr(ast, kidx, &args[i])
        } else {
            Err(CodegenError::MissingArgument(builtin.clone(), i))
        }
    }

    /// Argument 0 (and 1 when `two`), then `op`.
    fn emit_args_op(
        &mut self,
        ast: &TypedAst,
        kidx: &Table<u16>,
        args: &Vec<Expr>,
        builtin: &String,
        two: bool,
        op: OpCode,
    ) -> (r: Result<(), CodegenError>)
        ensures
            cg_outcome(
                r,
                final(self)@,
                if two {
                    gen_two(cg_env(*ast, kidx@), old(self)@, exprs_view(args@), builtin@, op_view(op))
                } else {
                    gen_one(cg_env(*ast, kidx@), old(self)@, exprs_view(args@), builtin@, op_view(op))
                },
            ),
        decreases args, 1int,
    {
        match self.emit_arg(ast, kidx, args, 0, builtin) {
            Err(err) => {
                return Err(err);
            },
            Ok(_) => {},
        }
        if two {
            match self.emit_arg(ast, kidx, args, 1, builtin) {
                Err(err) => {
                    return Err(err);
                },
                Ok(_) => {},
            }
        }
        self.emit(op);
        Ok(())
    }

    fn emit_call(&mut self, ast: &TypedAst, kidx: &Table<u16>, name: &String, args: &Vec<Expr>) -> (r: Result<
        (),
        CodegenError,
    >)
        ensures
            cg_outcome(
                r,
                final(self)@,
                gen_expr(cg_env(*ast, kidx@), old(self)@, ExprV::Call(name@, exprs_view(args@))),
            ),
        decreases args, 3int,
    {
        proof {
            crate::ast::lemma_exprs_view_index(args@);
        }
        if let Some(k) = kidx.get(name.as_str()) {
            match self.emit_exprs(ast, kidx, args) {
                Err(err) => {
                    return Err(err);
                },
                Ok(_) => {},
            }
            self.emit(OpCode::CallKernel(*k));
            return Ok(());
        }
        if crate::semantic::has_name(&ast.oracle_names, name.as_str()) {
            match self.emit_exprs(ast, kidx, args) {
                Err(err) => {
                    return Err(err);
                },
                Ok(_) => {},
            }
            self.emit(OpCode::CallOracle(name.clone(), args.len() as u8));
            return Ok(());
        }
        self.emit_builtin(ast, kidx, name, args)
    }

    fn emit_builtin(&mut self, ast: &TypedAst, kidx: &Table<u16>, n: &String, args: &Vec<Expr>) -> (r: Result<
        (),
        CodegenError,
    >)
        ensures
            cg_outcome(r, final(self)@, gen_builtin(cg_env(*ast, kidx@), old(self)@, n@, exprs_view(args@))),
        decreases args, 2int,
    {
        proof {
            crate::ast::lemma_exprs_view_index(args@);
        }
        let s = n.as_str();
        if str_eq(s, "ctx_alloc") {
            match int_arg_of(args, 0, n) {
                Ok(v) => {
                    self.emit(OpCode::CtxAlloc(v as u32));
                    Ok(())
                },
                Err(err) => Err(err),
            }
        } else if str_eq(s, "ctx_free") {
            self.emit_args_op(ast, kidx, args, n, false, OpCode::CtxFreeStack)
        } else if str_eq(s, "ctx_append") {
            self.emit_args_op(ast, kidx, args, n, true, OpCode::CtxAppendStack)
        } else if str_eq(s, "ctx_compress") {
            self.emit_args_op(ast, kidx, args, n, false, OpCode::CtxCompress)
        } else if str_eq(s, "ctx_share") {
            self.emit_args_op(ast, kidx, args, n, false, OpCode::CtxShare)
        } else if str_eq(s, "ctx_resize") {
            match self.emit_arg(ast, kidx, args, 0, n) {
                Err(err) => {
                    return Err(err);
                },
                Ok(_) => {},
            }
            match int_arg_of(args, 1, n) {
                Ok(v) => {
                    self.emit(OpCode::CtxResize(0, v as u32));
                    Ok(())
                },
                Err(err) => Err(err),
            }
        } else if str_eq(s, "println") {
            self.emit_args_op(ast, kidx, args, n, false, OpCode::Println)
        } else if str_eq(s, "observe") {
            self.emit_args_op(ast, kidx, args, n, false, OpCode::Observe)
        } else if str_eq(s, "reason") {
            if args.len() == 0 {
                Err(CodegenError::MissingArgument(n.clone(), 0))
            } else {
                match &args[0] {
                    Expr::StringLit(t) => self.emit(OpCode::Reason(t.clone())),
                    _ => {
                        let empty = String::new();
                        self.emit(OpCode::Reason(empty));
                    },
                }
                Ok(())
            }
        } else if str_eq(s, "act") {
            self.emit_args_op(ast, kidx, args, n, false, OpCode::Act)
        } else if str_eq(s, "verify") {
            let op = if self.in_constraint { OpCode::ConstraintVerify } else { OpCode::VerifyStep };
            self.emit_args_op(ast, kidx, args, n, false, op)
        } else if str_eq(s, "infer") {
            let none: Vec<String> = Vec::new();
            assert(strings_view(none@) =~= Seq::<Seq<char>>::empty());
            self.emit_args_op(ast, kidx, args, n, false, OpCode::InferClassify(none))
        } else if str_eq(s, "memory_load") {
            self.emit_args_op(ast, kidx, args, n, false, OpCode::PersistLoad)
        } else if str_eq(s, "memory_save") {
            self.emit_args_op(ast, kidx, args, n, true, OpCode::PersistSave)
        } else if str_eq(s, "memory_delete") {
            self.emit_args_op(ast, kidx, args, n, false, OpCode::PersistDelete)
        } else {
            Err(CodegenError::UndefinedFunction(n.clone()))
        }
    }
}

fn field_names(fs: &Vec<(String, Expr)>) -> (r: Vec<String>)
    ensures
        strings_view(r@) == fields_view(fs@).map_values(|f: (Seq<char>, ExprV)| f.0),
{
    proof {
        crate::ast::lemma_fields_view_index(fs@);
    }
    let mut r: Vec<String> = Vec::new();
    let mut i: usize = 0;
    while i < fs.len()
        invariant
            i <= fs.len(),
            fields_view(fs@).len() == fs.len(),
            forall|k: int| 0 <= k < fs.len() ==> #[trigger] fields_view(fs@)[k] == (fs@[k].0@, expr_view(fs@[k].1)),
            strings_view(r@) == fields_view(fs@).subrange(0, i as int).map_values(|f: (Seq<char>, ExprV)| f.0),
        decreases fs.len() - i,
    {
        let ghost before = strings_view(r@);
        r.push(fs[i].0.clone());
        assert(strings_view(r@) =~= before.push(fs@[i as int].0@));
        assert(fields_view(fs@).subrange(0, i + 1).map_values(|f: (Seq<char>, ExprV)| f.0) =~= before.push(
            fs@[i as int].0@,
        ));
        i = i + 1;
    }
    assert(fields_view(fs@).subrange(0, fs.len() as int) =~= fields_view(fs@));
    r
}

fn for_name(prefix: &str, k: u64) -> (r: String)
    ensures
        r@ == prefix@ + nat_digits(k as nat),
{
    let mut s = String::from_str(prefix);
    let d = u64_to_string(k);
    s.append(d.as_str());
    s
}

impl Codegen {
    fn emit_block(&mut self, ast: &TypedAst, kidx: &Table<u16>, b: &Vec<Stmt>, depth: usize) -> (r: Result<
        (),
        CodegenError,
    >)
        ensures
            cg_outcome(r, final(self)@, gen_block(cg_env(*ast, kidx@), old(self)@, block_view(b@), depth as nat)),
        decreases depth, b, 2int,
    {
        let ghost env = cg_env(*ast, kidx@);
        let ghost bv = block_view(b@);
        proof {
            crate::ast::lemma_block_view_index(b@);
        }
        assert(bv.subrange(0, bv.len() as int) =~= bv);
        let mut i: usize = 0;
        while i < b.len()
            invariant
                i <= b.len(),
                env == cg_env(*ast, kidx@),
                bv == block_view(b@),
                bv.len() == b.len(),
                forall|k: int| 0 <= k < b.len() ==> #[trigger] bv[k] == stmt_view(b@[k]),
                gen_block(env, old(self)@, bv, depth as nat) == gen_block(
                    env,
                    self@,
                    bv.subrange(i as int, bv.len() as int),
                    depth as nat,
                ),
            decreases b.len() - i,
        {
            let ghost tail = bv.subrange(i as int, bv.len() as int);
            assert(tail[0] == bv[i as int]);
            assert(tail.subrange(1, tail.len() as int) =~= bv.subrange(i + 1, bv.len() as int));
            proof {
                assert(decreases_to!(b => b@));
                assert(decreases_to!(b@ => b@[i as int]));
            }
            match self.emit_stmt(ast, kidx, &b[i], depth) {
                Err(err) => {
                    return Err(err);
                },
                Ok(_) => {},
            }
            i = i + 1;
        }
        Ok(())
    }

    fn emit_stmt(&mut self, ast: &TypedAst, kidx: &Table<u16>, s: &Stmt, depth: usize) -> (r: Result<
        (),
        CodegenError,
    >)
        ensures
            cg_outcome(r, final(self)@, gen_stmt(cg_env(*ast, kidx@), old(self)@, stmt_view(*s), depth as nat)),
        decreases depth, s, 1int,
    {
        match s {
            Stmt::Let(..) => self.emit_let(ast, kidx, s),
            Stmt::Expr(e) => self.emit_expr(ast, kidx, e),
            Stmt::Return(e) => {
                match self.emit_expr(ast, kidx, e) {
                    Err(err) => {
                        return Err(err);
                    },
                    Ok(_) => {},
                }
                self.emit(OpCode::Return);
                Ok(())
            },
            Stmt::Branch(_) => self.emit_branch(ast, kidx, s, depth),
            Stmt::Interruptible(b) => {
                self.emit(OpCode::BeginInterruptible);
                match self.emit_block(ast, kidx, b, depth) {
                    Err(err) => {
                        return Err(err);
                    },
                    Ok(_) => {},
                }
                self.emit(OpCode::EndInterruptible);
                Ok(())
            },
            Stmt::Instruction(t) => {
                self.emit(OpCode::CtxAppendLiteral(t.clone()));
                Ok(())
            },
            Stmt::Apply(_) => self.emit_apply(ast, kidx, s, depth),
            Stmt::If { .. } => self.emit_if(ast, kidx, s, depth),
            Stmt::Loop(_) | Stmt::While { .. } => self.emit_loop(ast, kidx, s, depth),
            Stmt::For { .. } => self.emit_for(ast, kidx, s, depth),
            Stmt::Assign(n, e) => {
                match self.emit_expr(ast, kidx, e) {
                    Err(err) => {
                        return Err(err);
                    },
                    Ok(_) => {},
                }
                self.emit(OpCode::StoreLocal(n.clone()));
                Ok(())
            },
        }
    }

    fn emit_let(&mut self, ast: &TypedAst, kidx: &Table<u16>, s: &Stmt) -> (r: Result<(), CodegenError>)
        requires
            s is Let,
        ensures
            cg_outcome(r, final(self)@, gen_stmt(cg_env(*ast, kidx@), old(self)@, stmt_view(*s), 0)),
    {
        match s {
            Stmt::Let(name, ty, e, _) => {
                match e {
                    None => {
                        self.emit(OpCode::StoreLocal(name.clone()));
                        Ok(())
                    },
                    Some(e) => {
                        if let (Some(TypeExpr::Named(tn)), Expr::Call(callee, args)) = (ty, e) {
                            if str_eq(callee.as_str(), "infer") {
                                let labels = match ast.type_env.get(tn.as_str()) {
                                    Some(ls) => crate::semantic::copy_strings(ls),
                                    None => Vec::new(),
                                };
                                assert(labels_map(ast.type_env@).contains_key(tn@) ==> labels_map(ast.type_env@)[tn@]
                                    == strings_view(ast.type_env@[tn@]@));
                                assert(!labels_map(ast.type_env@).contains_key(tn@) ==> strings_view(labels@)
                                    =~= Seq::<Seq<char>>::empty());
                                let infer_name = lit("infer");
                                match self.emit_arg(ast, kidx, args, 0, &infer_name) {
                                    Err(err) => {
                                        return Err(err);
                                    },
                                    Ok(_) => {},
                                }
                                self.emit(OpCode::InferClassify(labels));
                                self.emit(OpCode::StoreLocal(name.clone()));
                                return Ok(());
                            }
                        }
                        match self.emit_expr(ast, kidx, e) {
                            Err(err) => {
                                return Err(err);
                            },
                            Ok(_) => {},
                        }
                        self.emit(OpCode::StoreLocal(name.clone()));
                        Ok(())
                    },
                }
            },
            _ => Ok(()),
        }
    }

    fn emit_branch(&mut self, ast: &TypedAst, kidx: &Table<u16>, s: &Stmt, depth: usize) -> (r: Result<
        (),
        CodegenError,
    >)
        requires
            s is Branch,
        ensures
            cg_outcome(r, final(self)@, gen_stmt(cg_env(*ast, kidx@), old(self)@, stmt_view(*s), depth as nat)),
        decreases depth, s, 0int,
    {
        let br = match s {
            Stmt::Branch(br) => br,
            _ => {
                return Ok(());
            },
        };
        let ghost env = cg_env(*ast, kidx@);
        let ghost cv = cases_view(br.cases@);
        proof {
            crate::ast::lemma_cases_view_index(br.cases@);
        }
        assert(cv.subrange(0, cv.len() as int) =~= cv);
        let mut arms: Vec<(String, String, Vec<OpCode>)> = Vec::new();
        assert(arms_view(arms@) =~= Seq::<(Seq<char>, Seq<char>, Seq<OpV>)>::empty());
        let mut labels: Vec<String> = Vec::new();
        let mut i: usize = 0;
        while i < br.cases.len()
            invariant
                i <= br.cases.len(),
                *s == Stmt::Branch(*br),
                env == cg_env(*ast, kidx@),
                cv == cases_view(br.cases@),
                cv.len() == br.cases.len(),
                forall|k: int| 0 <= k < br.cases.len() ==> #[trigger] cv[k] == (BranchCaseV {
                    label: br.cases@[k].label@,
                    confidence: br.cases@[k].confidence@,
                    body: block_view(br.cases@[k].body@),
                }),
                strings_view(labels@) == cv.subrange(0, i as int).map_values(|c: BranchCaseV| c.label),
                gen_arms(env, old(self)@, cv, Seq::empty(), depth as nat) == gen_arms(
                    env,
                    self@,
                    cv.subrange(i as int, cv.len() as int),
                    arms_view(arms@),
                    depth as nat,
                ),
            decreases br.cases.len() - i,
        {
            let ghost tail = cv.subrange(i as int, cv.len() as int);
            assert(tail[0] == cv[i as int]);
            assert(tail.subrange(1, tail.len() as int) =~= cv.subrange(i + 1, cv.len() as int));
            proof {
                assert(decreases_to!(s => *br));
                assert(decreases_to!(*br => br.cases));
                assert(decreases_to!(br.cases => br.cases@));
                assert(decreases_to!(br.cases@ => br.cases@[i as int]));
                assert(decreases_to!(br.cases@[i as int] => br.cases@[i as int].body));
            }
            let ghost g0 = self@;
            let mut saved: Vec<OpCode> = Vec::new();
            std::mem::swap(&mut self.ops, &mut saved);
            assert(self@ == (CgState { ops: Seq::empty(), ..g0 }));
            match self.emit_block(ast, kidx, &br.cases[i].body, depth) {
                Err(err) => {
                    return Err(err);
                },
                Ok(_) => {},
            }
            std::mem::swap(&mut self.ops, &mut saved);
            let arm = (br.cases[i].label.clone(), br.cases[i].confidence.clone(), saved);
            proof {
                lemma_arms_view_push(arms@, arm);
            }
            arms.push(arm);
            let ghost lb = strings_view(labels@);
            labels.push(br.cases[i].label.clone());
            assert(strings_view(labels@) =~= lb.push(cv[i as int].label));
            assert(cv.subrange(0, i + 1).map_values(|c: BranchCaseV| c.label) =~= lb.push(cv[i as int].label));
            i = i + 1;
        }
        assert(cv.subrange(0, cv.len() as int) =~= cv);
        let ghost g1 = self@;
        let mut dops: Vec<OpCode> = Vec::new();
        match &br.default {
            Some(d) => {
                proof {
                    assert(decreases_to!(s => *br));
                    assert(decreases_to!(*br => br.default));
                }
                std::mem::swap(&mut self.ops, &mut dops);
                assert(self@ == (CgState { ops: Seq::empty(), ..g1 }));
                match self.emit_block(ast, kidx, d, depth) {
                    Err(err) => {
                        return Err(err);
                    },
                    Ok(_) => {},
                }
                std::mem::swap(&mut self.ops, &mut dops);
            },
            None => {
                assert(ops_view(dops@) =~= Seq::<OpV>::empty());
            },
        }
        self.emit(OpCode::InferClassify(labels));
        self.emit(OpCode::BranchClassify { var: br.var.clone(), cases: arms, default: dops });
        Ok(())
    }

    fn emit_apply(&mut self, ast: &TypedAst, kidx: &Table<u16>, s: &Stmt, depth: usize) -> (r: Result<
        (),
        CodegenError,
    >)
        requires
            s is Apply,
        ensures
            cg_outcome(r, final(self)@, gen_stmt(cg_env(*ast, kidx@), old(self)@, stmt_view(*s), depth as nat)),
        decreases depth, s, 0int,
    {
        let n = match s {
            Stmt::Apply(n) => n,
            _ => {
                return Ok(());
            },
        };
        let j = match ast.constraint_bodies.get(n.as_str()) {
            Some(j) => *j,
            None => {
                return Err(CodegenError::UnknownConstraint(n.clone()));
            },
        };
        if j >= ast.items.len() {
            return Err(CodegenError::UnknownConstraint(n.clone()));
        }
        assert(items_view(ast.items@)[j as int] == item_view(ast.items@[j as int]));
        match &ast.items[j] {
            Item::ConstraintDef(c) => {
                if depth == 0 {
                    return Err(CodegenError::ConstraintTooDeep(n.clone()));
                }
                self.emit(OpCode::BeginConstraint(n.clone()));
                self.in_constraint = true;
                match self.emit_block(ast, kidx, &c.body, depth - 1) {
                    Err(err) => {
                        return Err(err);
                    },
                    Ok(_) => {},
                }
                self.in_constraint = false;
                self.emit(OpCode::EndConstraint);
                Ok(())
            },
            _ => Err(CodegenError::UnknownConstraint(n.clone())),
        }
    }

    fn emit_if(&mut self, ast: &TypedAst, kidx: &Table<u16>, s: &Stmt, depth: usize) -> (r: Result<
        (),
        CodegenError,
    >)
        requires
            s is If,
        ensures
            cg_outcome(r, final(self)@, gen_stmt(cg_env(*ast, kidx@), old(self)@, stmt_view(*s), depth as nat)),
        decreases depth, s, 0int,
    {
        match s {
            Stmt::If { condition, then_branch, else_branch } => {
                match self.emit_expr(ast, kidx, condition) {
                    Err(err) => {
                        return Err(err);
                    },
                    Ok(_) => {},
                }
                proof {
                    lemma_ops_view_index(self.ops@);
                }
                let jf = self.ops.len();
                self.emit(OpCode::JumpIfFalse(0));
                match self.emit_block(ast, kidx, then_branch, depth) {
                    Err(err) => {
                        return Err(err);
                    },
                    Ok(_) => {},
                }
                proof {
                    lemma_ops_view_index(self.ops@);
                }
                let je = self.ops.len();
                self.emit(OpCode::Jump(0));
                proof {
                    lemma_ops_view_index(self.ops@);
                }
                let else_start = self.ops.len();
                self.set_jump_false(jf, else_start);
                match else_branch {
                    Some(eb) => {
                        match self.emit_block(ast, kidx, eb, depth) {
                            Err(err) => {
                                return Err(err);
                            },
                            Ok(_) => {},
                        }
                    },
                    None => {},
                }
                proof {
                    lemma_ops_view_index(self.ops@);
                }
                let end = self.ops.len();
                self.set_jump(je, end);
                Ok(())
            },
            _ => Ok(()),
        }
    }

    /// `loop` and `while`.
    fn emit_loop(&mut self, ast: &TypedAst, kidx: &Table<u16>, s: &Stmt, depth: usize) -> (r: Result<
        (),
        CodegenError,
    >)
        requires
            s is Loop || s is While,
        ensures
            cg_outcome(r, final(self)@, gen_stmt(cg_env(*ast, kidx@), old(self)@, stmt_view(*s), depth as nat)),
        decreases depth, s, 0int,
    {
        proof {
            lemma_ops_view_index(self.ops@);
        }
        let start = self.ops.len();
        match s {
            Stmt::Loop(body) => {
                self.open_loop();
                match self.emit_block(ast, kidx, body, depth) {
                    Err(err) => {
                        return Err(err);
                    },
                    Ok(_) => {},
                }
                self.emit(OpCode::Jump(start));
                proof {
                    lemma_ops_view_index(self.ops@);
                }
                let end = self.ops.len();
                self.close_loop(end, start);
                Ok(())
            },
            Stmt::While { condition, body } => {
                self.open_loop();
                match self.emit_expr(ast, kidx, condition) {
                    Err(err) => {
                        return Err(err);
                    },
                    Ok(_) => {},
                }
                proof {
                    lemma_ops_view_index(self.ops@);
                }
                let jf = self.ops.len();
                self.emit(OpCode::JumpIfFalse(0));
                match self.emit_block(ast, kidx, body, depth) {
                    Err(err) => {
                        return Err(err);
                    },
                    Ok(_) => {},
                }
                self.emit(OpCode::Jump(start));
                proof {
                    lemma_ops_view_index(self.ops@);
                }
                let end = self.ops.len();
                self.set_jump_false(jf, end);
                self.close_loop(end, start);
                Ok(())
            },
            _ => Ok(()),
        }
    }

    #[verifier::rlimit(100)]
    #[verifier::spinoff_prover]
    fn emit_for(&mut self, ast: &TypedAst, kidx: &Table<u16>, s: &Stmt, depth: usize) -> (r: Result<
        (),
        CodegenError,
    >)
        requires
            s is For,
        ensures
            cg_outcome(r, final(self)@, gen_stmt(cg_env(*ast, kidx@), old(self)@, stmt_view(*s), depth as nat)),
        decreases depth, s, 0int,
    {
        match s {
            Stmt::For { item, collection, body } => {
                let k = self.fors;
                let v = for_name("__for_vec_", k);
                let l = for_name("__for_len_", k);
                let i = for_name("__for_i_", k);
                self.fors = if k == u64::MAX { 0 } else { k + 1 };
                match self.emit_expr(ast, kidx, collection) {
                    Err(err) => {
                        return Err(err);
                    },
                    Ok(_) => {},
                }
                let ghost g1 = self@;
                self.emit(OpCode::StoreLocal(v.clone()));
                self.emit(OpCode::LoadLocal(v.clone()));
                self.emit(OpCode::VecLen);
                self.emit(OpCode::StoreLocal(l.clone()));
                self.emit(OpCode::PushInt(0));
                self.emit(OpCode::StoreLocal(i.clone()));
                assert(self@.ops =~= g1.ops + seq![
                    OpV::StoreLocal(v@),
                    OpV::LoadLocal(v@),
                    OpV::VecLen,
                    OpV::StoreLocal(l@),
                    OpV::PushInt(0),
                    OpV::StoreLocal(i@),
                ]);
                proof {
                    lemma_ops_view_index(self.ops@);
                }
                let cond = self.ops.len();
                self.open_loop();
                let ghost g3 = self@;
                self.emit(OpCode::LoadLocal(i.clone()));
                self.emit(OpCode::LoadLocal(l.clone()));
                self.emit(OpCode::CmpLt);
                assert(self@.ops =~= g3.ops + seq![OpV::LoadLocal(i@), OpV::LoadLocal(l@), OpV::CmpLt]);
                proof {
                    lemma_ops_view_index(self.ops@);
                }
                let jx = self.ops.len();
                let ghost g4 = self@;
                self.emit(OpCode::JumpIfFalse(0));
                self.emit(OpCode::LoadLocal(v.clone()));
                self.emit(OpCode::LoadLocal(i.clone()));
                self.emit(OpCode::VecGet);
                self.emit(OpCode::StoreLocal(item.clone()));
                assert(self@.ops =~= g4.ops + seq![
                    OpV::JumpIfFalse(0),
                    OpV::LoadLocal(v@),
                    OpV::LoadLocal(i@),
                    OpV::VecGet,
                    OpV::StoreLocal(item@),
                ]);
                match self.emit_block(ast, kidx, body, depth) {
                    Err(err) => {
                        return Err(err);
                    },
                    Ok(_) => {},
                }
                proof {
                    lemma_ops_view_index(self.ops@);
                }
                let inc = self.ops.len();
                let ghost g5 = self@;
                self.emit(OpCode::LoadLocal(i.clone()));
                self.emit(OpCode::PushInt(1));
                self.emit(OpCode::Add);
                self.emit(OpCode::StoreLocal(i.clone()));
                self.emit(OpCode::Jump(cond));
                assert(self@.ops =~= g5.ops + seq![
                    OpV::LoadLocal(i@),
                    OpV::PushInt(1),
                    OpV::Add,
                    OpV::StoreLocal(i@),
                    OpV::Jump(cond),
                ]);
                proof {
                    lemma_ops_view_index(self.ops@);
                }
                let exit = self.ops.len();
                self.set_jump_false(jx, exit);
                self.close_loop(exit, inc);
                Ok(())
            },
            _ => Ok(()),
        }
    }
}

fn param_names(ps: &Vec<crate::ast::Param>) -> (r: Vec<String>)
    ensures
        strings_view(r@) == params_view(ps@).map_values(|p: crate::ast::ParamV| p.name),
{
    let mut r: Vec<String> = Vec::new();
    let mut i: usize = 0;
    while i < ps.len()
        invariant
            i <= ps.len(),
            strings_view(r@) == params_view(ps@).subrange(0, i as int).map_values(|p: crate::ast::ParamV| p.name),
        decreases ps.len() - i,
    {
        let ghost before = strings_view(r@);
        r.push(ps[i].name.clone());
        assert(strings_view(r@) =~= before.push(ps@[i as int].name@));
        assert(params_view(ps@).subrange(0, i + 1).map_values(|p: crate::ast::ParamV| p.name) =~= before.push(
            ps@[i as int].name@,
        ));
        i = i + 1;
    }
    assert(params_view(ps@).subrange(0, ps.len() as int) =~= params_view(ps@));
    r
}

/// Compiles one kernel body with the kernel index as it stands.
fn compile_kernel(
    ast: &TypedAst,
    kidx: &Table<u16>,
    name: &String,
    params: &Vec<crate::ast::Param>,
    body: &Vec<Stmt>,
) -> (r: Result<KernelBytecode, CodegenError>)
    ensures
        match r {
            Ok(k) => gen_block(cg_env(*ast, kidx@), fresh_state(), block_view(body@), apply_depth(*ast)) matches Ok(g)
                && kernel_view(k) == (KernelV {
                name: name@,
                params: params_view(params@).map_values(|p: crate::ast::ParamV| p.name),
                body: g.ops,
                max_retries: 3,
            }),
            Err(e) => gen_block(cg_env(*ast, kidx@), fresh_state(), block_view(body@), apply_depth(*ast)) == Err::<
                CgState,
                CgErrV,
            >(cg_err_view(e)),
        },
{
    let mut g = Codegen::new();
    match g.emit_block(ast, kidx, body, ast.items.len()) {
        Err(e) => {
            return Err(e);
        },
        Ok(_) => {},
    }
    Ok(KernelBytecode { name: name.clone(), params: param_names(params), body: g.into_ops(), max_retries: 3 })
}

fn compile_kernels(ast: &TypedAst) -> (r: Result<(Table<u16>, Vec<KernelBytecode>), CodegenError>)
    ensures
        match r {
            Ok((kidx, ks)) => gen_kernels(*ast, 0, Map::empty(), Seq::empty()) == Ok::<
                (Map<Seq<char>, u16>, Seq<KernelV>),
                CgErrV,
            >((kidx@, kernels_view(ks@))),
            Err(e) => gen_kernels(*ast, 0, Map::empty(), Seq::empty()) == Err::<
                (Map<Seq<char>, u16>, Seq<KernelV>),
                CgErrV,
            >(cg_err_view(e)),
        },
{
    let ghost iv = items_view(ast.items@);
    let mut kidx: Table<u16> = Table::new();
    let mut ks: Vec<KernelBytecode> = Vec::new();
    assert(kernels_view(ks@) =~= Seq::<KernelV>::empty());
    let mut j: usize = 0;
    while j < ast.items.len()
        invariant
            j <= ast.items.len(),
            iv == items_view(ast.items@),
            gen_kernels(*ast, 0, Map::empty(), Seq::empty()) == gen_kernels(*ast, j as int, kidx@, kernels_view(ks@)),
        decreases ast.items.len() - j,
    {
        assert(iv[j as int] == item_view(ast.items@[j as int]));
        let (name, params, body) = match &ast.items[j] {
            Item::KernelDef(k) => (&k.name, &k.params, &k.body),
            Item::SpellDef(k) => (&k.name, &k.params, &k.body),
            Item::SkillDef(k) => (&k.name, &k.params, &k.body),
            _ => {
                j = j + 1;
                continue;
            },
        };
        let idx = ks.len() as u16;
        kidx.insert(name.clone(), idx);
        match compile_kernel(ast, &kidx, name, params, body) {
            Err(e) => {
                return Err(e);
            },
            Ok(k) => {
                let ghost before = kernels_view(ks@);
                ks.push(k);
                assert(kernels_view(ks@) =~= before.push(kernel_view(k)));
            },
        }
        j = j + 1;
    }
    Ok((kidx, ks))
}

/// Where the first `soul` is.
fn find_soul(items: &Vec<Item>) -> (r: Option<usize>)
    ensures
        match r {
            Some(i) => i < items.len() && items@[i as int] is SoulDef && first_soul(items_view(items@), 0) == Some(
                block_view(items@[i as int]->SoulDef_0.body@),
            ),
            None => first_soul(items_view(items@), 0) is None,
        },
{
    let ghost iv = items_view(items@);
    let mut j: usize = 0;
    while j < items.len()
        invariant
            j <= items.len(),
            iv == items_view(items@),
            first_soul(iv, 0) == first_soul(iv, j as int),
        decreases items.len() - j,
    {
        assert(iv[j as int] == item_view(items@[j as int]));
        if let Item::SoulDef(_) = &items[j] {
            return Some(j);
        }
        j = j + 1;
    }
    None
}

/// Generates the compiled program.
pub fn generate_bytecode(ast: &TypedAst, lib_mode: bool) -> (r: Result<Bytecode, CodegenError>)
    ensures
        match r {
            Ok(bc) => spec_bytecode(*ast) == Ok::<BytecodeV, CgErrV>(bytecode_view(bc)),
            Err(e) => spec_bytecode(*ast) == Err::<BytecodeV, CgErrV>(cg_err_view(e)),
        },
{
    let ghost iv = items_view(ast.items@);
    let (kidx, ks) = match compile_kernels(ast) {
        Ok(x) => x,
        Err(e) => {
            return Err(e);
        },
    };
    let ghost env = cg_env(*ast, kidx@);
    let depth = ast.items.len();
    let mut g = Codegen::new();
    let mut j: usize = 0;
    assert(iv.subrange(0, 0) =~= Seq::<ItemV>::empty());
    assert(emits(fresh_state(), lore_ops(Seq::<ItemV>::empty())) == fresh_state());
    while j < ast.items.len()
        invariant
            j <= ast.items.len(),
            iv == items_view(ast.items@),
            g@ == emits(fresh_state(), lore_ops(iv.subrange(0, j as int))),
        decreases ast.items.len() - j,
    {
        assert(iv.subrange(0, j + 1).drop_last() =~= iv.subrange(0, j as int));
        assert(iv[j as int] == item_view(ast.items@[j as int]));
        if let Item::LoreDecl(l) = &ast.items[j] {
            g.emit(OpCode::StoreLore(l.name.clone(), l.value.clone()));
            assert(g@.ops =~= emits(fresh_state(), lore_ops(iv.subrange(0, j + 1))).ops);
        }
        j = j + 1;
    }
    assert(iv.subrange(0, ast.items.len() as int) =~= iv);
    let ghost g_lore = g@;
    j = 0;
    while j < ast.items.len()
        invariant
            j <= ast.items.len(),
            iv == items_view(ast.items@),
            env == cg_env(*ast, kidx@),
            gen_kernels(*ast, 0, Map::empty(), Seq::empty()) == Ok::<(Map<Seq<char>, u16>, Seq<KernelV>), CgErrV>(
                (kidx@, kernels_view(ks@)),
            ),
            g_lore == emits(fresh_state(), lore_ops(iv)),
            gen_memory(env, g_lore, 0) == gen_memory(env, g@, j as int),
        decreases ast.items.len() - j,
    {
        assert(iv[j as int] == item_view(ast.items@[j as int]));
        if let Item::MemoryDecl(m) = &ast.items[j] {
            match g.emit_expr(ast, &kidx, &m.init) {
                Err(e) => {
                    return Err(e);
                },
                Ok(_) => {},
            }
            g.emit(OpCode::AllocMemorySlot(m.name.clone()));
        }
        j = j + 1;
    }
    let soul = find_soul(&ast.items);
    let ghost soul_v = first_soul(iv, 0);
    let ghost g_mem = g@;
    j = 0;
    while j < ast.items.len()
        invariant
            j <= ast.items.len(),
            iv == items_view(ast.items@),
            env == cg_env(*ast, kidx@),
            depth == ast.items.len(),
            soul_v == first_soul(iv, 0),
            gen_kernels(*ast, 0, Map::empty(), Seq::empty()) == Ok::<(Map<Seq<char>, u16>, Seq<KernelV>), CgErrV>(
                (kidx@, kernels_view(ks@)),
            ),
            g_lore == emits(fresh_state(), lore_ops(iv)),
            gen_memory(env, g_lore, 0) == Ok::<CgState, CgErrV>(g_mem),
            match soul {
                Some(i) => i < ast.items.len() && ast.items@[i as int] is SoulDef && soul_v == Some(
                    block_view(ast.items@[i as int]->SoulDef_0.body@),
                ),
                None => soul_v is None,
            },
            gen_fns(env, g_mem, 0, depth as nat, soul_v) == gen_fns(env, g@, j as int, depth as nat, soul_v),
        decreases ast.items.len() - j,
    {
        assert(iv[j as int] == item_view(ast.items@[j as int]));
        if let Item::FnDef(f) = &ast.items[j] {
            if str_eq(f.name.as_str(), "main") {
                if let Some(si) = soul {
                    if let Item::SoulDef(sd) = &ast.items[si] {
                        g.emit(OpCode::SetAgentMeta(lit("soul")));
                        match g.emit_block(ast, &kidx, &sd.body, depth) {
                            Err(e) => {
                                return Err(e);
                            },
                            Ok(_) => {},
                        }
                    }
                }
            }
            match g.emit_block(ast, &kidx, &f.body, depth) {
                Err(e) => {
                    return Err(e);
                },
                Ok(_) => {},
            }
            g.emit(OpCode::Halt);
        }
        j = j + 1;
    }
    let mut ops = g.into_ops();
    if ops.len() == 0 {
        proof {
            lemma_ops_view_push(ops@, OpCode::Halt);
        }
        ops.push(OpCode::Halt);
        assert(ops_view(ops@) =~= seq![OpV::Halt]);
    }
    Ok(Bytecode::new(ks, ops))
}


// ── Libraries ────────────────────────────────────────────────────────────────

/// The index of the first kernel named `n` at or after `i`, cut to 16 bits,
/// or `u16::MAX` when there is none.
pub open spec fn kernel_position(ks: Seq<KernelV>, n: Seq<char>, i: int) -> u16
    decreases ks.len() - i,
{
    if i < 0 || i >= ks.len() {
        u16::MAX
    } else if ks[i].name == n {
        (i % 65536) as u16
    } else {
        kernel_position(ks, n, i + 1)
    }
}

/// The export table entry of an item: `pub` kernels, spells and skills point
/// at their kernel; `pub` lore and oracles carry `u16::MAX`.
pub open spec fn export_of(ks: Seq<KernelV>, it: ItemV) -> Option<ExportV> {
    match it {
        ItemV::KernelDef { name, is_pub, .. } | ItemV::SpellDef { name, is_pub, .. } | ItemV::SkillDef {
            name,
            is_pub,
            ..
        } => if is_pub {
            Some(ExportV { name, kind: ExportKind::Kernel, kernel_idx: kernel_position(ks, name, 0) })
        } else {
            None
        },
        ItemV::LoreDecl { name, is_pub, .. } => if is_pub {
            Some(ExportV { name, kind: ExportKind::Lore, kernel_idx: u16::MAX })
        } else {
            None
        },
        ItemV::OracleDecl { name, is_pub, .. } => if is_pub {
            Some(ExportV { name, kind: ExportKind::Oracle, kernel_idx: u16::MAX })
        } else {
            None
        },
        _ => None,
    }
}

/// The export table: one entry per exported item, in source order.
pub open spec fn spec_exports(ks: Seq<KernelV>, items: Seq<ItemV>) -> Seq<ExportV>
    decreases items.len(),
{
    if items.len() == 0 {
        Seq::empty()
    } else {
        let rest = spec_exports(ks, items.drop_last());
        match export_of(ks, items.last()) {
            Some(e) => rest.push(e),
            None => rest,
        }
    }
}

fn kernel_index(ks: &Vec<KernelBytecode>, name: &String) -> (r: u16)
    ensures
        r == kernel_position(kernels_view(ks@), name@, 0),
{
    let ghost kv = kernels_view(ks@);
    let mut i: usize = 0;
    while i < ks.len()
        invariant
            i <= ks.len(),
            kv == kernels_view(ks@),
            kernel_position(kv, name@, 0) == kernel_position(kv, name@, i as int),
        decreases ks.len() - i,
    {
        assert(kv[i as int] == kernel_view(ks@[i as int]));
        if str_eq(ks[i].name.as_str(), name.as_str()) {
            return (i % 65536) as u16;
        }
        i = i + 1;
    }
    u16::MAX
}

fn entry(name: &String, kind: ExportKind, kernel_idx: u16) -> (r: ExportEntry)
    ensures
        r.name@ == name@,
        r.kind == kind,
        r.kernel_idx == kernel_idx,
{
    ExportEntry { name: name.clone(), kind, kernel_idx }
}

fn export_entry(ks: &Vec<KernelBytecode>, it: &Item) -> (r: Option<ExportEntry>)
    ensures
        match r {
            Some(e) => export_of(kernels_view(ks@), item_view(*it)) == Some(
                ExportV { name: e.name@, kind: e.kind, kernel_idx: e.kernel_idx },
            ),
            None => export_of(kernels_view(ks@), item_view(*it)) is None,
        },
{
    match it {
        Item::KernelDef(k) => if k.is_pub {
            Some(entry(&k.name, ExportKind::Kernel, kernel_index(ks, &k.name)))
        } else {
            None
        },
        Item::SpellDef(s) => if s.is_pub {
            Some(entry(&s.name, ExportKind::Kernel, kernel_index(ks, &s.name)))
        } else {
            None
        },
        Item::SkillDef(s) => if s.is_pub {
            Some(entry(&s.name, ExportKind::Kernel, kernel_index(ks, &s.name)))
        } else {
            None
        },
        Item::LoreDecl(l) => if l.is_pub {
            Some(entry(&l.name, ExportKind::Lore, u16::MAX))
        } else {
            None
        },
        Item::OracleDecl(o) => if o.is_pub {
            Some(entry(&o.name, ExportKind::Oracle, u16::MAX))
        } else {
            None
        },
        _ => None,
    }
}

/// The export table of a program whose kernel table is `ks`.
pub fn build_exports(ks: &Vec<KernelBytecode>, items: &Vec<Item>) -> (r: Vec<ExportEntry>)
    ensures
        exports_view(r@) == spec_exports(kernels_view(ks@), items_view(items@)),
{
    let ghost kv = kernels_view(ks@);
    let ghost iv = items_view(items@);
    let mut out: Vec<ExportEntry> = Vec::new();
    let mut j: usize = 0;
    assert(iv.subrange(0, 0) =~= Seq::<ItemV>::empty());
    assert(exports_view(out@) =~= Seq::<ExportV>::empty());
    while j < items.len()
        invariant
            j <= items.len(),
            kv == kernels_view(ks@),
            iv == items_view(items@),
            exports_view(out@) == spec_exports(kv, iv.subrange(0, j as int)),
        decreases items.len() - j,
    {
        assert(iv.subrange(0, j + 1).drop_last() =~= iv.subrange(0, j as int));
        assert(iv.subrange(0, j + 1).last() == item_view(items@[j as int]));
        let ghost before = out@;
        match export_entry(ks, &items[j]) {
            Some(e) => {
                out.push(e);
                assert(exports_view(out@) =~= exports_view(before).push(
                    ExportV { name: out@.last().name@, kind: out@.last().kind, kernel_idx: out@.last().kernel_idx },
                ));
            },
            None => {},
        }
        j = j + 1;
    }
    assert(iv.subrange(0, items.len() as int) =~= iv);
    out
}

/// Compiles the analysed program to the bytes of a `.wspc` program.
pub fn generate(ast: &TypedAst) -> (r: Result<Vec<u8>, CodegenError>)
    ensures
        match spec_bytecode(*ast) {
            Ok(bc) => r matches Ok(bytes) && bytes@ == enc_bytecode(bc),
            Err(e) => r matches Err(err) && cg_err_view(err) == e,
        },
{
    match generate_bytecode(ast, false) {
        Ok(bc) => Ok(encode_bytecode(&bc)),
        Err(e) => Err(e),
    }
}

/// Compiles the analysed program to the bytes of a library bundle named
/// `lib_name`, whose export table lists its `pub` items.
pub fn generate_lib(ast: &TypedAst, lib_name: &str) -> (r: Result<Vec<u8>, CodegenError>)
    ensures
        match spec_bytecode(*ast) {
            Ok(bc) => r matches Ok(bytes) && bytes@ == enc_bundle(
                bundle_magic(),
                1,
                lib_name@,
                bc,
                spec_exports(bc.kernels, items_view(ast.items@)),
            ),
            Err(e) => r matches Err(err) && cg_err_view(err) == e,
        },
{
    match generate_bytecode(ast, true) {
        Ok(bc) => {
            let exports = build_exports(&bc.kernels, &ast.items);
            let bundle = LibraryBundle::new(String::from_str(lib_name), bc, exports);
            Ok(encode_bundle(&bundle))
        },
        Err(e) => Err(e),
    }
}

/// The text of the error.
pub open spec fn codegen_error_text(e: CgErrV) -> Seq<char> {
    match e {
        CgErrV::BreakOutsideLoop => "`break` outside of loop"@,
        CgErrV::ContinueOutsideLoop => "`continue` outside of loop"@,
        CgErrV::MissingArgument(x, i) => x + ": missing argument "@ + crate::text::nat_digits(i as nat),
        CgErrV::ExpectedIntLiteral(x, i) => x + ": expected integer literal at argument "@ + crate::text::nat_digits(i as nat),
        CgErrV::UndefinedFunction(x) => "undefined function: `"@ + x + "`"@,
        CgErrV::UnknownConstraint(x) => "unknown constraint `"@ + x + "`"@,
        CgErrV::ConstraintTooDeep(x) => "constraint `"@ + x + "` is applied within itself"@,
    }
}

impl CodegenError {
    /// The error's text (see [`codegen_error_text`]).
    pub fn message(&self) -> (r: String)
        ensures
            r@ == codegen_error_text(cg_err_view(*self)),
    {
        match self {
            CodegenError::BreakOutsideLoop => String::from_str("`break` outside of loop"),
            CodegenError::ContinueOutsideLoop => String::from_str("`continue` outside of loop"),
            CodegenError::MissingArgument(x, i) => {
                let d = crate::text::u64_to_string(*i as u64);
                crate::text::concat3(x.as_str(), ": missing argument ", d.as_str())
            },
            CodegenError::ExpectedIntLiteral(x, i) => {
                let d = crate::text::u64_to_string(*i as u64);
                crate::text::concat3(x.as_str(), ": expected integer literal at argument ", d.as_str())
            },
            CodegenError::UndefinedFunction(x) => crate::text::concat3("undefined function: `", x.as_str(), "`"),
            CodegenError::UnknownConstraint(x) => crate::text::concat3("unknown constraint `", x.as_str(), "`"),
            CodegenError::ConstraintTooDeep(x) => crate::text::concat3("constraint `", x.as_str(), "` is applied within itself"),
        }
    }
}

} // verus!
